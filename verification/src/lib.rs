//! Decision logic for mirroring coursework assignments into a task list:
//! which courses are current, what a course is called for short, when an
//! assignment is due, and which tasks to create or delete given what was
//! mirrored before.

pub mod calendar;
pub mod codec;
pub mod courses;
pub mod records;
pub mod short_name;
pub mod sync;
pub mod text;
