//! Courses, and which of them are current.
//!
//! A course is current from its start date on for 160 days. A course whose
//! start date is absent or is no RFC 3339 timestamp is never current.

use vstd::prelude::*;
use vstd::string::*;
use crate::calendar::day_of;
use crate::calendar::read_day;

verus! {

/// Number of days after its start date during which a course counts as current.
pub const SEMESTER_DAYS: i64 = 160;

/// A course as the learning-management system lists it.
#[derive(Clone, Debug, PartialEq, Eq)]
pub struct Course {
    pub id: String,
    pub name: String,
    pub start_at: Option<String>,
}

/// Whether a course that started on day `start_day` is still current on day `today`.
pub open spec fn in_window(start_day: int, today: int) -> bool {
    start_day + SEMESTER_DAYS >= today
}

/// Whether a course with the given start timestamp is current on day `today`.
pub open spec fn starts_in_window(start_at: Option<String>, today: int) -> bool {
    match start_at {
        Some(text) => match day_of(text@) {
            Some(start_day) => in_window(start_day, today),
            None => false,
        },
        None => false,
    }
}

/// The test that `current_courses` applies to each course.
pub open spec fn is_current(today: int) -> spec_fn(Course) -> bool {
    |c: Course| starts_in_window(c.start_at, today)
}

impl Course {
    /// A course with the same identifier, name and start timestamp.
    pub fn duplicate(&self) -> (copy: Course)
        ensures
            copy == *self,
    {
        let start_at: Option<String> = match &self.start_at {
            Some(text) => Some(text.clone()),
            None => None,
        };
        Course { id: self.id.clone(), name: self.name.clone(), start_at }
    }

    /// Whether this course is current on day `today`.
    pub fn is_current_on(&self, today: i32) -> (current: bool)
        ensures
            current == starts_in_window(self.start_at, today as int),
    {
        match &self.start_at {
            Some(text) => match read_day(text.as_str()) {
                Some(start_day) => day_in_window(start_day, today),
                None => false,
            },
            None => false,
        }
    }
}

/// Whether a course that started on day `start_day` is still current on day `today`.
pub fn day_in_window(start_day: i32, today: i32) -> (current: bool)
    ensures
        current == in_window(start_day as int, today as int),
{
    start_day as i64 + SEMESTER_DAYS >= today as i64
}

/// The courses that are current on day `today`, in the order given.
pub fn current_courses(courses: &Vec<Course>, today: i32) -> (kept: Vec<Course>)
    ensures
        kept@ == courses@.filter(is_current(today as int)),
{
    let mut kept: Vec<Course> = Vec::new();
    let mut i: usize = 0;
    proof {
        reveal(Seq::filter);
        assert(courses@.take(0) =~= Seq::<Course>::empty());
    }
    while i < courses.len()
        invariant
            i <= courses.len(),
            kept@ == courses@.take(i as int).filter(is_current(today as int)),
        decreases courses.len() - i,
    {
        proof {
            reveal(Seq::filter);
            assert(courses@.take(i + 1).drop_last() =~= courses@.take(i as int));
        }
        if courses[i].is_current_on(today) {
            kept.push(courses[i].duplicate());
        }
        i += 1;
    }
    proof {
        assert(courses@.take(courses.len() as int) =~= courses@);
    }
    kept
}

/// A course is kept exactly if its start timestamp can be read and the day
/// it falls on is at most 160 days before `today`; the courses kept stand in
/// the order in which they were given.
pub proof fn lemma_current_courses(courses: Seq<Course>, today: int)
    ensures
        forall|c: Course|
            courses.filter(is_current(today)).contains(c) <==> (courses.contains(c)
                && starts_in_window(c.start_at, today)),
        courses.filter(is_current(today)).len() <= courses.len(),
{
    let kept = courses.filter(is_current(today));
    courses.lemma_filter_len(is_current(today));
    assert forall|c: Course|
        kept.contains(c) <==> (courses.contains(c) && starts_in_window(c.start_at, today)) by {
        if kept.contains(c) {
            courses.lemma_filter_contains_rev(is_current(today), c);
            let i = choose|i: int| 0 <= i < kept.len() && kept[i] == c;
            courses.lemma_filter_pred(is_current(today), i);
        }
        if courses.contains(c) && starts_in_window(c.start_at, today) {
            let j = choose|j: int| 0 <= j < courses.len() && courses[j] == c;
            courses.lemma_filter_contains(is_current(today), j);
        }
    }
}

} // verus!
