//! Short display names for courses.
//!
//! A course name is cut at its first colon or comma, or where a letter
//! directly follows a digit, whichever comes first. Names of merged sections
//! start with a fixed marker; for those the short name is what follows it.

use vstd::prelude::*;
use vstd::string::*;
use crate::text::to_chars;

verus! {

/// An ASCII decimal digit.
pub open spec fn is_digit(c: char) -> bool {
    '0' <= c && c <= '9'
}

/// An ASCII letter.
pub open spec fn is_letter(c: char) -> bool {
    ('a' <= c && c <= 'z') || ('A' <= c && c <= 'Z')
}

/// A colon or a comma.
pub open spec fn is_punct(c: char) -> bool {
    c == ':' || c == ','
}

/// What may stand between the merge marker and the name proper.
pub open spec fn is_lead(c: char) -> bool {
    is_punct(c) || c == ' '
}

/// Whether a name is cut in front of position `i`.
pub open spec fn is_cut(s: Seq<char>, i: int) -> bool {
    0 <= i < s.len() && (is_punct(s[i]) || (i > 0 && is_digit(s[i - 1]) && is_letter(s[i])))
}

/// The first cut at or after `from`, or the length of `s` if there is none.
pub open spec fn first_cut(s: Seq<char>, from: int) -> int
    decreases s.len() - from,
{
    if from < 0 || from >= s.len() {
        s.len() as int
    } else if is_cut(s, from) {
        from
    } else {
        first_cut(s, from + 1)
    }
}

/// The first position at or after `from` that holds no lead character.
pub open spec fn skip_lead(s: Seq<char>, from: int) -> int
    decreases s.len() - from,
{
    if from < 0 || from >= s.len() {
        s.len() as int
    } else if is_lead(s[from]) {
        skip_lead(s, from + 1)
    } else {
        from
    }
}

/// The marker that opens the name of a merged section.
pub open spec fn merge_marker() -> Seq<char> {
    "Section Merge"@
}

/// The short name of a course called `s`.
pub open spec fn short_name(s: Seq<char>) -> Seq<char> {
    let cut = first_cut(s, 0);
    let head = s.subrange(0, cut);
    if head == merge_marker() {
        s.subrange(skip_lead(s, cut), s.len() as int)
    } else {
        head
    }
}

/// `first_cut(s, from)` is the least cut at or after `from`.
pub proof fn lemma_first_cut(s: Seq<char>, from: int)
    requires
        0 <= from <= s.len(),
    ensures
        from <= first_cut(s, from) <= s.len(),
        forall|j: int| from <= j < first_cut(s, from) ==> !is_cut(s, j),
        first_cut(s, from) < s.len() ==> is_cut(s, first_cut(s, from)),
    decreases s.len() - from,
{
    if from < s.len() && !is_cut(s, from) {
        lemma_first_cut(s, from + 1);
    }
}

/// `skip_lead(s, from)` is the least position at or after `from` without a lead character.
pub proof fn lemma_skip_lead(s: Seq<char>, from: int)
    requires
        0 <= from <= s.len(),
    ensures
        from <= skip_lead(s, from) <= s.len(),
        forall|j: int| from <= j < skip_lead(s, from) ==> is_lead(#[trigger] s[j]),
        skip_lead(s, from) < s.len() ==> !is_lead(s[skip_lead(s, from)]),
    decreases s.len() - from,
{
    if from < s.len() && is_lead(s[from]) {
        lemma_skip_lead(s, from + 1);
    }
}

/// Whether `c` is an ASCII decimal digit.
pub fn char_is_digit(c: char) -> (r: bool)
    ensures
        r == is_digit(c),
{
    '0' <= c && c <= '9'
}

/// Whether `c` is an ASCII letter.
pub fn char_is_letter(c: char) -> (r: bool)
    ensures
        r == is_letter(c),
{
    ('a' <= c && c <= 'z') || ('A' <= c && c <= 'Z')
}

/// The position of the first cut in `name`, or its length in characters.
pub fn cut_position(name: &str) -> (cut: usize)
    ensures
        cut == first_cut(name@, 0),
        cut <= name@.len(),
{
    let chars: Vec<char> = to_chars(name);
    let n: usize = chars.len();
    let mut i: usize = 0;
    let mut after_digit: bool = false;
    proof {
        lemma_first_cut(name@, 0);
    }
    while i < n
        invariant
            i <= n,
            n == chars.len(),
            chars@ == name@,
            first_cut(name@, 0) == first_cut(name@, i as int),
            after_digit == (i > 0 && is_digit(name@[i - 1])),
        decreases n - i,
    {
        let c: char = chars[i];
        if c == ':' || c == ',' || (after_digit && char_is_letter(c)) {
            return i;
        }
        after_digit = char_is_digit(c);
        i += 1;
    }
    n
}

/// The first position at or after `from` in `name` that holds no lead
/// character, or the length of `name` in characters.
pub fn lead_end(name: &str, from: usize) -> (end: usize)
    ensures
        end == skip_lead(name@, from as int),
        end <= name@.len(),
{
    let chars: Vec<char> = to_chars(name);
    let n: usize = chars.len();
    if from >= n {
        return n;
    }
    let mut i: usize = from;
    proof {
        lemma_skip_lead(name@, from as int);
    }
    while i < n
        invariant
            from <= i <= n,
            n == chars.len(),
            chars@ == name@,
            skip_lead(name@, from as int) == skip_lead(name@, i as int),
        decreases n - i,
    {
        let c: char = chars[i];
        if !(c == ':' || c == ',' || c == ' ') {
            return i;
        }
        i += 1;
    }
    n
}

/// The short name of the course called `class_name`.
pub fn get_short_class_name(class_name: &str) -> (short: &str)
    ensures
        short@ == short_name(class_name@),
{
    let n: usize = class_name.unicode_len();
    let cut: usize = cut_position(class_name);
    let head: &str = class_name.substring_char(0, cut);
    let marker: String = String::from_str("Section Merge");
    if String::from_str(head) == marker {
        let start: usize = lead_end(class_name, cut);
        class_name.substring_char(start, n)
    } else {
        head
    }
}

} // verus!
