use canvas_sync::calendar::{
    due_day, due_string, format_date, push_decimal, push_four_digits, push_two_digits, read_day,
    CivilDate, Moment,
};
use canvas_sync::courses::{current_courses, day_in_window, Course};

fn course(id: &str, name: &str, start_at: Option<&str>) -> Course {
    Course { id: id.to_string(), name: name.to_string(), start_at: start_at.map(|s| s.to_string()) }
}

fn day(text: &str) -> i32 {
    read_day(text).unwrap()
}

#[test]
fn read_day_counts_from_year_one() {
    assert_eq!(read_day("1970-01-01T00:00:00Z"), Some(719_163));
    assert_eq!(read_day("0001-01-01T00:00:00Z"), Some(1));
    assert_eq!(read_day("2024-01-01T00:00:00Z"), Some(738_886));
}

#[test]
fn read_day_is_the_day_as_written() {
    assert_eq!(read_day("2024-01-01T23:30:00-08:00"), Some(738_886));
    assert_eq!(read_day("2024-01-02T00:30:00+09:00"), Some(738_887));
}

#[test]
fn read_day_rejects_what_is_no_timestamp() {
    assert_eq!(read_day(""), None);
    assert_eq!(read_day("null"), None);
    assert_eq!(read_day("2024-01-01"), None);
    assert_eq!(read_day("2024-13-01T00:00:00Z"), None);
}

#[test]
fn window_is_160_days_inclusive() {
    assert!(day_in_window(100, 260));
    assert!(!day_in_window(100, 261));
    assert!(day_in_window(100, 50));
    assert!(day_in_window(i32::MAX, i32::MAX));
    assert!(!day_in_window(i32::MIN, i32::MAX));
}

#[test]
fn course_started_121_days_ago_is_current() {
    let c = course("1", "CS 301: Algorithms", Some("2024-01-01T00:00:00Z"));
    let today = day("2024-05-01T00:00:00Z");
    assert_eq!(today - day("2024-01-01T00:00:00Z"), 121);
    assert!(c.is_current_on(today));
}

#[test]
fn course_started_182_days_ago_is_over() {
    let c = course("1", "CS 301: Algorithms", Some("2024-01-01T00:00:00Z"));
    let today = day("2024-07-01T00:00:00Z");
    assert_eq!(today - day("2024-01-01T00:00:00Z"), 182);
    assert!(!c.is_current_on(today));
}

#[test]
fn course_without_usable_start_is_never_current() {
    assert!(!course("1", "A", None).is_current_on(0));
    assert!(!course("1", "A", Some("null")).is_current_on(i32::MIN));
    assert!(!course("1", "A", Some("soon")).is_current_on(738_886));
}

#[test]
fn current_courses_keeps_order_and_drops_the_rest() {
    let all = vec![
        course("1", "Old", Some("2023-01-01T00:00:00Z")),
        course("2", "B", Some("2024-02-01T00:00:00Z")),
        course("3", "None", None),
        course("4", "A", Some("2024-01-01T00:00:00Z")),
        course("5", "Bad", Some("January")),
        course("6", "Future", Some("2024-09-01T00:00:00Z")),
    ];
    let kept = current_courses(&all, day("2024-05-01T00:00:00Z"));
    assert_eq!(kept, vec![all[1].clone(), all[3].clone(), all[5].clone()]);
    assert_eq!(current_courses(&Vec::new(), 0), Vec::new());
}

#[test]
fn current_courses_on_the_last_day_of_the_window() {
    let all = vec![course("1", "A", Some("2024-01-01T00:00:00Z"))];
    let start = day("2024-01-01T00:00:00Z");
    assert_eq!(current_courses(&all, start + 160).len(), 1);
    assert_eq!(current_courses(&all, start + 161).len(), 0);
}

#[test]
fn duplicate_course_is_equal() {
    let c = course("7", "Name", Some("2024-01-01T00:00:00Z"));
    assert_eq!(c.duplicate(), c);
    let d = course("7", "Name", None);
    assert_eq!(d.duplicate(), d);
}

#[test]
fn due_string_crosses_day_boundary() {
    assert_eq!(due_string("2024-03-10T02:00:00Z"), Some("2024-03-09".to_string()));
}

#[test]
fn due_string_away_from_boundary() {
    assert_eq!(due_string("2024-03-10T12:00:00Z"), Some("2024-03-10".to_string()));
    assert_eq!(due_string("2024-11-05T23:59:59Z"), Some("2024-11-05".to_string()));
}

#[test]
fn due_string_at_the_boundary() {
    assert_eq!(due_string("2024-03-10T05:00:00Z"), Some("2024-03-10".to_string()));
    assert_eq!(due_string("2024-03-10T04:59:59Z"), Some("2024-03-09".to_string()));
}

#[test]
fn due_string_crosses_month_and_year() {
    assert_eq!(due_string("2024-03-01T01:00:00Z"), Some("2024-02-29".to_string()));
    assert_eq!(due_string("2025-01-01T00:00:00Z"), Some("2024-12-31".to_string()));
}

#[test]
fn due_string_goes_by_the_time_as_written() {
    assert_eq!(due_string("2024-03-10T02:00:00-05:00"), Some("2024-03-09".to_string()));
    assert_eq!(due_string("2024-03-10T06:00:00+09:00"), Some("2024-03-10".to_string()));
}

#[test]
fn due_string_of_unreadable_text_is_none() {
    assert_eq!(due_string("null"), None);
    assert_eq!(due_string(""), None);
    assert_eq!(due_string("2024-03-10 02:00"), None);
}

#[test]
fn due_day_takes_five_hours_off() {
    assert_eq!(due_day(Moment { day: 10, second: 18_000 }), Some(10));
    assert_eq!(due_day(Moment { day: 10, second: 17_999 }), Some(9));
    assert_eq!(due_day(Moment { day: 10, second: 0 }), Some(9));
    assert_eq!(due_day(Moment { day: i32::MIN, second: 0 }), None);
    assert_eq!(due_day(Moment { day: i32::MIN, second: 86_399 }), Some(i32::MIN));
}

#[test]
fn format_date_pads_with_zeros() {
    assert_eq!(format_date(CivilDate { year: 2024, month: 3, day: 9 }), "2024-03-09");
    assert_eq!(format_date(CivilDate { year: 2024, month: 12, day: 31 }), "2024-12-31");
    assert_eq!(format_date(CivilDate { year: 987, month: 1, day: 1 }), "0987-01-01");
    assert_eq!(format_date(CivilDate { year: 0, month: 1, day: 1 }), "0000-01-01");
    assert_eq!(format_date(CivilDate { year: 12345, month: 10, day: 10 }), "12345-10-10");
    assert_eq!(format_date(CivilDate { year: -44, month: 3, day: 15 }), "-0044-03-15");
    assert_eq!(format_date(CivilDate { year: i32::MIN, month: 1, day: 1 }), "-2147483648-01-01");
}

#[test]
fn digits_are_written_in_order() {
    let mut s = String::from("x");
    push_decimal(&mut s, 0);
    push_decimal(&mut s, 1203);
    push_decimal(&mut s, u32::MAX);
    assert_eq!(s, "x012034294967295");
    let mut t = String::new();
    push_two_digits(&mut t, 7);
    push_two_digits(&mut t, 42);
    push_two_digits(&mut t, 123);
    assert_eq!(t, "0742123");
    let mut u = String::new();
    push_four_digits(&mut u, 5);
    push_four_digits(&mut u, 55);
    push_four_digits(&mut u, 555);
    push_four_digits(&mut u, 5555);
    push_four_digits(&mut u, 55555);
    assert_eq!(u, "000500550555555555555");
}
