//! Building strings one character at a time.

use vstd::prelude::*;
use vstd::string::*;
use vstd::std_specs::iter::IteratorSpec;

verus! {

/// `String::push` appends exactly the given character to the end of the string.
pub assume_specification[ String::push ](s: &mut String, ch: char)
    ensures
        final(s)@ == old(s)@.push(ch),
;

/// A double quote or a backslash: the characters taken out of a title.
pub open spec fn is_mark(c: char) -> bool {
    c == '"' || c == '\\'
}

/// `s` without its double quotes and backslashes.
pub open spec fn without_marks(s: Seq<char>) -> Seq<char> {
    s.filter(|c: char| !is_mark(c))
}

/// A copy of `s` without its double quotes and backslashes.
pub fn strip_marks(s: &str) -> (out: String)
    ensures
        out@ == without_marks(s@),
{
    let chars: Vec<char> = to_chars(s);
    let n: usize = chars.len();
    let mut out: String = String::new();
    let mut i: usize = 0;
    proof {
        reveal(Seq::filter);
        assert(s@.take(0) =~= Seq::<char>::empty());
    }
    while i < n
        invariant
            i <= n,
            n == chars.len(),
            chars@ == s@,
            out@ == without_marks(s@.take(i as int)),
        decreases n - i,
    {
        let c: char = chars[i];
        proof {
            reveal(Seq::filter);
            assert(s@.take(i + 1).drop_last() =~= s@.take(i as int));
        }
        if !(c == '"' || c == '\\') {
            out.push(c);
        }
        i += 1;
    }
    proof {
        assert(s@.take(n as int) =~= s@);
    }
    out
}

/// The text of a task: the course's short name, a space, and the title
/// without its double quotes and backslashes.
pub open spec fn task_content(short: Seq<char>, title: Seq<char>) -> Seq<char> {
    short.push(' ') + without_marks(title)
}

/// Builds the text of a task from a course's short name and an assignment's title.
pub fn make_task_content(short: &str, title: &str) -> (out: String)
    ensures
        out@ == task_content(short@, title@),
{
    let mut out: String = String::from_str(short);
    out.push(' ');
    let body: String = strip_marks(title);
    out.append(body.as_str());
    out
}

/// The characters of `s`, in order.
pub fn to_chars(s: &str) -> (chars: Vec<char>)
    ensures
        chars@ == s@,
{
    broadcast use {axiom_spec_iter, next_postcondition};

    let mut chars: Vec<char> = Vec::new();
    let mut rest = s.chars();
    loop
        invariant
            chars@ + rest.remaining() == s@,
            rest.obeys_prophetic_iter_laws(),
            rest.decrease() is Some,
        ensures
            chars@ == s@,
        decreases rest.decrease()->0,
    {
        let ghost before = rest.remaining();
        match rest.next() {
            Some(c) => {
                chars.push(c);
                assert(chars@ + rest.remaining() =~= (chars@.drop_last() + before));
            },
            None => {
                assert(chars@ + before =~= chars@);
                break ;
            },
        }
    }
    chars
}

} // verus!
