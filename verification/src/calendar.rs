//! Reading timestamps and writing dates.
//!
//! Timestamps arrive as RFC 3339 text and are read by `chrono`. What the rest
//! of the library needs of one is the day it falls on and the time of day,
//! both as written (in the timestamp's own offset).

use vstd::prelude::*;
use vstd::string::*;

verus! {

/// Seconds taken off a due time before its date is read: five hours.
pub const DUE_SHIFT_SECONDS: u32 = 18000;

/// A point in time: the day, counted from 1 January of year 1 as day 1, and
/// the seconds since midnight on that day.
#[derive(Clone, Copy, Debug, PartialEq, Eq)]
pub struct Moment {
    pub day: i32,
    pub second: u32,
}

/// A date of the proleptic Gregorian calendar.
#[derive(Clone, Copy, Debug, PartialEq, Eq)]
pub struct CivilDate {
    pub year: i32,
    pub month: u32,
    pub day: u32,
}

/// What `chrono` reads out of an RFC 3339 timestamp: the day number and the
/// seconds since midnight, or nothing where the text is no such timestamp.
pub uninterp spec fn rfc3339_moment(text: Seq<char>) -> Option<(int, int)>;

/// The year, month and day of a day number in `chrono`'s calendar, or nothing
/// where the day lies outside the calendar's range.
pub uninterp spec fn civil_date(day: int) -> Option<(int, int, int)>;

/// Calls `chrono::DateTime::parse_from_rfc3339` and reads the day number
/// (`Datelike::num_days_from_ce`) and the seconds since midnight
/// (`Timelike::num_seconds_from_midnight`) off the result. The contract only
/// names the outcome: it is `rfc3339_moment` of the text.
#[verifier::external_body]
pub(crate) fn parse_rfc3339(text: &str) -> (m: Option<Moment>)
    ensures
        match m {
            Some(v) => rfc3339_moment(text@) == Some((v.day as int, v.second as int)),
            None => rfc3339_moment(text@).is_none(),
        },
{
    match chrono::DateTime::parse_from_rfc3339(text) {
        Ok(t) => Some(
            Moment {
                day: chrono::Datelike::num_days_from_ce(&t),
                second: chrono::Timelike::num_seconds_from_midnight(&t),
            },
        ),
        Err(_) => None,
    }
}

/// Calls `chrono::NaiveDate::from_num_days_from_ce_opt` and reads year, month
/// and day off the result. The contract only names the outcome: it is
/// `civil_date` of the day number.
#[verifier::external_body]
pub(crate) fn civil_of_day(day: i32) -> (c: Option<CivilDate>)
    ensures
        match c {
            Some(v) => civil_date(day as int) == Some((v.year as int, v.month as int, v.day as int)),
            None => civil_date(day as int).is_none(),
        },
{
    match chrono::NaiveDate::from_num_days_from_ce_opt(day) {
        Some(d) => Some(
            CivilDate {
                year: chrono::Datelike::year(&d),
                month: chrono::Datelike::month(&d),
                day: chrono::Datelike::day(&d),
            },
        ),
        None => None,
    }
}

/// The day number an RFC 3339 timestamp falls on, if it is one.
pub open spec fn day_of(text: Seq<char>) -> Option<int> {
    match rfc3339_moment(text) {
        Some(m) => Some(m.0),
        None => None,
    }
}

/// Reads the day number of an RFC 3339 timestamp.
pub fn read_day(text: &str) -> (day: Option<i32>)
    ensures
        match day {
            Some(d) => day_of(text@) == Some(d as int),
            None => day_of(text@).is_none(),
        },
{
    match parse_rfc3339(text) {
        Some(m) => Some(m.day),
        None => None,
    }
}

/// The day on which a moment falls once five hours are taken off it. Nothing
/// where that day cannot be numbered in 32 bits.
pub open spec fn shifted_day(day: int, second: int) -> Option<int> {
    if second >= DUE_SHIFT_SECONDS {
        Some(day)
    } else if day > i32::MIN {
        Some(day - 1)
    } else {
        None
    }
}

/// The day on which `m` falls once five hours are taken off it.
pub fn due_day(m: Moment) -> (day: Option<i32>)
    ensures
        match day {
            Some(d) => shifted_day(m.day as int, m.second as int) == Some(d as int),
            None => shifted_day(m.day as int, m.second as int).is_none(),
        },
{
    if m.second >= DUE_SHIFT_SECONDS {
        Some(m.day)
    } else if m.day > i32::MIN {
        Some(m.day - 1)
    } else {
        None
    }
}

/// The character of a decimal digit.
pub open spec fn digit_char(d: nat) -> char {
    if d == 0 {
        '0'
    } else if d == 1 {
        '1'
    } else if d == 2 {
        '2'
    } else if d == 3 {
        '3'
    } else if d == 4 {
        '4'
    } else if d == 5 {
        '5'
    } else if d == 6 {
        '6'
    } else if d == 7 {
        '7'
    } else if d == 8 {
        '8'
    } else {
        '9'
    }
}

/// The decimal digits of `n`, without leading zeros.
pub open spec fn decimal(n: nat) -> Seq<char>
    decreases n,
{
    if n < 10 {
        seq![digit_char(n)]
    } else {
        decimal(n / 10).push(digit_char(n % 10))
    }
}

/// The decimal digits of `n`, with leading zeros up to two digits.
pub open spec fn two_digits(n: nat) -> Seq<char> {
    if n < 10 {
        seq!['0'] + decimal(n)
    } else {
        decimal(n)
    }
}

/// The decimal digits of `n`, with leading zeros up to four digits.
pub open spec fn four_digits(n: nat) -> Seq<char> {
    if n < 10 {
        seq!['0', '0', '0'] + decimal(n)
    } else if n < 100 {
        seq!['0', '0'] + decimal(n)
    } else if n < 1000 {
        seq!['0'] + decimal(n)
    } else {
        decimal(n)
    }
}

/// A year in at least four digits, with a minus sign in front if it is negative.
pub open spec fn year_text(year: int) -> Seq<char> {
    if year < 0 {
        seq!['-'] + four_digits((-year) as nat)
    } else {
        four_digits(year as nat)
    }
}

/// A date as year, month and day with hyphens between them: `2024-03-09`.
pub open spec fn date_text(year: int, month: nat, day: nat) -> Seq<char> {
    year_text(year).push('-') + two_digits(month).push('-') + two_digits(day)
}

/// The character of the decimal digit `d`.
fn digit_to_char(d: u32) -> (c: char)
    requires
        d < 10,
    ensures
        c == digit_char(d as nat),
{
    if d == 0 {
        '0'
    } else if d == 1 {
        '1'
    } else if d == 2 {
        '2'
    } else if d == 3 {
        '3'
    } else if d == 4 {
        '4'
    } else if d == 5 {
        '5'
    } else if d == 6 {
        '6'
    } else if d == 7 {
        '7'
    } else if d == 8 {
        '8'
    } else {
        '9'
    }
}

/// Appends the decimal digits of `n` to `out`.
pub fn push_decimal(out: &mut String, n: u32)
    ensures
        final(out)@ == old(out)@ + decimal(n as nat),
    decreases n,
{
    if n >= 10 {
        push_decimal(out, n / 10);
    }
    out.push(digit_to_char(n % 10));
}

/// Appends `n` in at least two digits to `out`.
pub fn push_two_digits(out: &mut String, n: u32)
    ensures
        final(out)@ == old(out)@ + two_digits(n as nat),
{
    if n < 10 {
        out.push('0');
    }
    push_decimal(out, n);
}

/// Appends `n` in at least four digits to `out`.
pub fn push_four_digits(out: &mut String, n: u32)
    ensures
        final(out)@ == old(out)@ + four_digits(n as nat),
{
    if n < 1000 {
        out.push('0');
    }
    if n < 100 {
        out.push('0');
    }
    if n < 10 {
        out.push('0');
    }
    push_decimal(out, n);
}

/// Writes a date as `YYYY-MM-DD`.
pub fn format_date(date: CivilDate) -> (out: String)
    ensures
        out@ == date_text(date.year as int, date.month as nat, date.day as nat),
{
    let mut out: String = String::new();
    let wide: i64 = date.year as i64;
    if wide < 0 {
        out.push('-');
        push_four_digits(&mut out, (-wide) as u32);
    } else {
        push_four_digits(&mut out, wide as u32);
    }
    out.push('-');
    push_two_digits(&mut out, date.month);
    out.push('-');
    push_two_digits(&mut out, date.day);
    out
}

/// The date text of a day number, if the calendar holds the day.
pub open spec fn day_text(day: int) -> Option<Seq<char>> {
    match civil_date(day) {
        Some(c) => if c.1 >= 0 && c.2 >= 0 {
            Some(date_text(c.0, c.1 as nat, c.2 as nat))
        } else {
            None
        },
        None => None,
    }
}

/// The due date, as `YYYY-MM-DD`, of an assignment due at the RFC 3339
/// timestamp `text`: the date on which the timestamp falls once five hours
/// are taken off it. Nothing where the text is no timestamp or the date
/// lies outside the calendar.
pub open spec fn due_string_of(text: Seq<char>) -> Option<Seq<char>> {
    match rfc3339_moment(text) {
        Some(m) => match shifted_day(m.0, m.1) {
            Some(d) => day_text(d),
            None => None,
        },
        None => None,
    }
}

/// Computes the due date, as `YYYY-MM-DD`, of an assignment due at `text`.
pub fn due_string(text: &str) -> (out: Option<String>)
    ensures
        match out {
            Some(s) => due_string_of(text@) == Some(s@),
            None => due_string_of(text@).is_none(),
        },
{
    match parse_rfc3339(text) {
        Some(m) => match due_day(m) {
            Some(d) => match civil_of_day(d) {
                Some(c) => Some(format_date(c)),
                None => None,
            },
            None => None,
        },
        None => None,
    }
}

} // verus!
