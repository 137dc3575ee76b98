//! The text form in which the records are kept between runs.
//!
//! Each record is written as three lines: its identifier, its title and
//! its due timestamp. Inside a line a backslash is written as two
//! backslashes and a line feed as a backslash followed by `n`, so that any
//! text can be a field. Every line ends with a line feed.

use vstd::prelude::*;
use vstd::string::*;
use crate::records::distinct_record_ids;
use crate::records::record_views;
use crate::records::AssignmentRecord;
use crate::records::RecordStore;
use crate::records::RecordView;
use crate::text::to_chars;

verus! {

/// How one character of a field is written.
pub open spec fn escaped_char(c: char) -> Seq<char> {
    if c == '\\' {
        seq!['\\', '\\']
    } else if c == '\n' {
        seq!['\\', 'n']
    } else {
        seq![c]
    }
}

/// How a field is written, without the line feed that ends it.
pub open spec fn escaped(field: Seq<char>) -> Seq<char>
    decreases field.len(),
{
    if field.len() == 0 {
        Seq::empty()
    } else {
        escaped_char(field[0]) + escaped(field.skip(1))
    }
}

/// The line that holds a field.
pub open spec fn line_of(field: Seq<char>) -> Seq<char> {
    escaped(field).push('\n')
}

/// The three lines that hold a record.
pub open spec fn record_text(r: RecordView) -> Seq<char> {
    line_of(r.id) + line_of(r.title) + line_of(r.due_date)
}

/// The text that holds a list of records.
pub open spec fn encoded(recs: Seq<RecordView>) -> Seq<char>
    decreases recs.len(),
{
    if recs.len() == 0 {
        Seq::empty()
    } else {
        record_text(recs[0]) + encoded(recs.skip(1))
    }
}

/// The character that a backslash followed by `c` stands for.
pub open spec fn unescaped(c: char) -> char {
    if c == 'n' {
        '\n'
    } else {
        c
    }
}

/// The field whose line starts at position `from` of `s`, and the position
/// after the line. Nothing where no well-formed line starts there.
pub open spec fn read_line(s: Seq<char>, from: int) -> Option<(Seq<char>, int)>
    decreases s.len() - from,
{
    if from < 0 || from >= s.len() {
        None
    } else if s[from] == '\n' {
        Some((Seq::empty(), from + 1))
    } else if s[from] == '\\' {
        if from + 1 < s.len() && (s[from + 1] == '\\' || s[from + 1] == 'n') {
            match read_line(s, from + 2) {
                Some((field, next)) => Some((seq![unescaped(s[from + 1])] + field, next)),
                None => None,
            }
        } else {
            None
        }
    } else {
        match read_line(s, from + 1) {
            Some((field, next)) => Some((seq![s[from]] + field, next)),
            None => None,
        }
    }
}

/// A line that was read ends after where it starts, and within the text.
pub proof fn lemma_read_line_advances(s: Seq<char>, from: int)
    ensures
        match read_line(s, from) {
            Some((field, next)) => from < next <= s.len(),
            None => true,
        },
    decreases s.len() - from,
{
    if 0 <= from < s.len() && s[from] != '\n' {
        if s[from] == '\\' {
            if from + 1 < s.len() {
                lemma_read_line_advances(s, from + 2);
            }
        } else {
            lemma_read_line_advances(s, from + 1);
        }
    }
}

/// The records whose lines fill `s` from position `from` on. Nothing where
/// the text from there on is not a whole number of well-formed records.
pub open spec fn decoded(s: Seq<char>, from: int) -> Option<Seq<RecordView>>
    decreases s.len() - from,
    via decoded_decreases
{
    if from < 0 || from >= s.len() {
        Some(Seq::empty())
    } else {
        match read_line(s, from) {
            Some((id, after_id)) => match read_line(s, after_id) {
                Some((title, after_title)) => match read_line(s, after_title) {
                    Some((due_date, next)) => match decoded(s, next) {
                        Some(rest) => Some(seq![RecordView { id, title, due_date }] + rest),
                        None => None,
                    },
                    None => None,
                },
                None => None,
            },
            None => None,
        }
    }
}

#[via_fn]
proof fn decoded_decreases(s: Seq<char>, from: int) {
    lemma_read_line_advances(s, from);
    match read_line(s, from) {
        Some((id, after_id)) => {
            lemma_read_line_advances(s, after_id);
            match read_line(s, after_id) {
                Some((title, after_title)) => {
                    lemma_read_line_advances(s, after_title);
                },
                None => {},
            }
        },
        None => {},
    }
}

/// Reading the line of a field gives the field back, whatever stands
/// before and after the line.
pub proof fn lemma_read_line_of(before: Seq<char>, field: Seq<char>, after: Seq<char>)
    ensures
        read_line(before + line_of(field) + after, before.len() as int) == Some(
            (field, (before.len() + line_of(field).len()) as int),
        ),
    decreases field.len(),
{
    let s = before + line_of(field) + after;
    let from = before.len() as int;
    if field.len() == 0 {
        assert(escaped(field) =~= Seq::<char>::empty());
        assert(s[from] == '\n');
    } else {
        let c = field[0];
        let tail = field.skip(1);
        let head = before + escaped_char(c);
        assert(line_of(field) =~= escaped_char(c) + line_of(tail));
        assert(head + line_of(tail) + after =~= s);
        lemma_read_line_of(head, tail, after);
        assert(seq![c] + tail =~= field);
        if c == '\\' {
            assert(s[from] == '\\' && s[from + 1] == '\\');
        } else if c == '\n' {
            assert(s[from] == '\\' && s[from + 1] == 'n');
        } else {
            assert(s[from] == c);
        }
    }
}

/// Reading the text of a list of records gives the list back, whatever
/// stands before the text.
pub proof fn lemma_decoded_encoded(before: Seq<char>, recs: Seq<RecordView>)
    ensures
        decoded(before + encoded(recs), before.len() as int) == Some(recs),
    decreases recs.len(),
{
    let s = before + encoded(recs);
    let from = before.len() as int;
    if recs.len() == 0 {
        assert(s =~= before);
        assert(recs =~= Seq::<RecordView>::empty());
    } else {
        let r = recs[0];
        let tail = encoded(recs.skip(1));
        let b1 = before + line_of(r.id);
        let b2 = b1 + line_of(r.title);
        let b3 = b2 + line_of(r.due_date);
        assert(before + line_of(r.id) + (line_of(r.title) + line_of(r.due_date) + tail) =~= s);
        assert(b1 + line_of(r.title) + (line_of(r.due_date) + tail) =~= s);
        assert(b2 + line_of(r.due_date) + tail =~= s);
        assert(b3 + tail =~= s);
        lemma_read_line_of(before, r.id, line_of(r.title) + line_of(r.due_date) + tail);
        lemma_read_line_of(b1, r.title, line_of(r.due_date) + tail);
        lemma_read_line_of(b2, r.due_date, tail);
        lemma_decoded_encoded(b3, recs.skip(1));
        assert(seq![r] + recs.skip(1) =~= recs);
        assert(from < s.len());
    }
}

/// Writing a list of records and reading the text again gives the same
/// list: the same records, field for field, in the same order.
pub proof fn lemma_round_trip(recs: Seq<RecordView>)
    ensures
        decoded(encoded(recs), 0) == Some(recs),
{
    lemma_decoded_encoded(Seq::empty(), recs);
    assert(Seq::<char>::empty() + encoded(recs) =~= encoded(recs));
}

/// Appends the line that holds `field` to `out`.
pub fn push_line(out: &mut String, field: &str)
    ensures
        final(out)@ == old(out)@ + line_of(field@),
{
    let chars: Vec<char> = to_chars(field);
    let mut i: usize = 0;
    proof {
        assert(chars@.skip(0) =~= chars@);
    }
    while i < chars.len()
        invariant
            i <= chars.len(),
            chars@ == field@,
            out@ + escaped(chars@.skip(i as int)) == old(out)@ + escaped(chars@),
        decreases chars.len() - i,
    {
        let ghost so_far = out@;
        let ghost rest = escaped(chars@.skip(i + 1));
        let c: char = chars[i];
        proof {
            assert(chars@.skip(i as int).skip(1) =~= chars@.skip(i + 1));
        }
        if c == '\\' {
            out.push('\\');
            out.push('\\');
        } else if c == '\n' {
            out.push('\\');
            out.push('n');
        } else {
            out.push(c);
        }
        proof {
            assert(out@ + rest =~= so_far + (escaped_char(c) + rest));
        }
        i += 1;
    }
    proof {
        assert(escaped(chars@.skip(i as int)) =~= Seq::<char>::empty());
        assert(out@ + Seq::<char>::empty() =~= out@);
    }
    out.push('\n');
    proof {
        assert(out@ =~= old(out)@ + line_of(field@));
    }
}

/// The text that holds the given records.
pub fn encode(recs: &Vec<AssignmentRecord>) -> (text: String)
    ensures
        text@ == encoded(record_views(recs@)),
{
    let mut text: String = String::new();
    let mut i: usize = 0;
    let ghost all = record_views(recs@);
    proof {
        assert(all.skip(0) =~= all);
        assert(text@ + encoded(all) =~= encoded(all));
    }
    while i < recs.len()
        invariant
            i <= recs.len(),
            all == record_views(recs@),
            text@ + encoded(all.skip(i as int)) == encoded(all),
        decreases recs.len() - i,
    {
        let ghost so_far = text@;
        let ghost rest = encoded(all.skip(i + 1));
        push_line(&mut text, recs[i].id.as_str());
        push_line(&mut text, recs[i].title.as_str());
        push_line(&mut text, recs[i].due_date.as_str());
        proof {
            assert(all.skip(i as int).skip(1) =~= all.skip(i + 1));
            assert(all.skip(i as int)[0] == recs@[i as int]@);
            assert(text@ + rest =~= so_far + (record_text(recs@[i as int]@) + rest));
        }
        i += 1;
    }
    proof {
        assert(encoded(all.skip(i as int)) =~= Seq::<char>::empty());
        assert(text@ + Seq::<char>::empty() =~= text@);
    }
    text
}

/// Reads the line that starts at position `from` of `chars`.
pub fn read_field(chars: &Vec<char>, from: usize) -> (out: Option<(String, usize)>)
    ensures
        match out {
            Some((field, next)) => read_line(chars@, from as int) == Some((field@, next as int))
                && from < next <= chars@.len(),
            None => read_line(chars@, from as int).is_none(),
        },
{
    let mut field: String = String::new();
    let mut i: usize = from;
    proof {
        match read_line(chars@, from as int) {
            Some((f, next)) => {
                assert(field@ + f =~= f);
            },
            None => {},
        }
    }
    while i < chars.len()
        invariant
            from <= i,
            read_line(chars@, from as int) == (match read_line(chars@, i as int) {
                Some((f, next)) => Some((field@ + f, next)),
                None => None,
            }),
        decreases chars.len() - i,
    {
        let ghost so_far = field@;
        let c: char = chars[i];
        if c == '\n' {
            proof {
                assert(field@ + Seq::<char>::empty() =~= field@);
            }
            return Some((field, i + 1));
        }
        if c == '\\' {
            if i + 1 >= chars.len() {
                return None;
            }
            let d: char = chars[i + 1];
            if d == '\\' {
                field.push('\\');
            } else if d == 'n' {
                field.push('\n');
            } else {
                return None;
            }
            proof {
                match read_line(chars@, i + 2) {
                    Some((f, next)) => {
                        assert(so_far + (seq![unescaped(d)] + f) =~= field@ + f);
                    },
                    None => {},
                }
            }
            i += 2;
        } else {
            field.push(c);
            proof {
                match read_line(chars@, i + 1) {
                    Some((f, next)) => {
                        assert(so_far + (seq![c] + f) =~= field@ + f);
                    },
                    None => {},
                }
            }
            i += 1;
        }
    }
    None
}

/// Reads the records that `text` holds. Nothing where the text is not a
/// whole number of well-formed records.
pub fn decode(text: &str) -> (out: Option<Vec<AssignmentRecord>>)
    ensures
        match out {
            Some(recs) => decoded(text@, 0) == Some(record_views(recs@)),
            None => decoded(text@, 0).is_none(),
        },
{
    let chars: Vec<char> = to_chars(text);
    let mut recs: Vec<AssignmentRecord> = Vec::new();
    let mut i: usize = 0;
    proof {
        match decoded(chars@, 0) {
            Some(rest) => {
                assert(record_views(recs@) + rest =~= rest);
            },
            None => {},
        }
    }
    while i < chars.len()
        invariant
            chars@ == text@,
            decoded(chars@, 0) == (match decoded(chars@, i as int) {
                Some(rest) => Some(record_views(recs@) + rest),
                None => None,
            }),
        decreases chars.len() - i,
    {
        let ghost so_far = record_views(recs@);
        let (id, after_id) = match read_field(&chars, i) {
            Some(found) => found,
            None => {
                return None;
            },
        };
        let (title, after_title) = match read_field(&chars, after_id) {
            Some(found) => found,
            None => {
                return None;
            },
        };
        let (due_date, next) = match read_field(&chars, after_title) {
            Some(found) => found,
            None => {
                return None;
            },
        };
        let rec = AssignmentRecord { id, title, due_date };
        let ghost shown = rec@;
        recs.push(rec);
        proof {
            match decoded(chars@, next as int) {
                Some(rest) => {
                    assert(so_far + (seq![shown] + rest) =~= record_views(recs@) + rest);
                },
                None => {},
            }
        }
        i = next;
    }
    proof {
        assert(record_views(recs@) + Seq::<RecordView>::empty() =~= record_views(recs@));
    }
    Some(recs)
}

/// The text that holds the records of `store`.
pub open spec fn saved(store: RecordStore) -> Seq<char> {
    encoded(record_views(store.listing()))
}

/// The text that holds the records of `store`, in the order of its listing.
pub fn save_text(store: &RecordStore) -> (text: String)
    requires
        store.wf(),
    ensures
        text@ == saved(*store),
{
    encode(store.records())
}

/// Reads a store from `text`. Nothing where the text is not a whole number
/// of well-formed records, or where two of them share an identifier.
pub fn load_text(text: &str) -> (out: Option<RecordStore>)
    ensures
        out is Some <==> (decoded(text@, 0) is Some && distinct_record_ids(decoded(text@, 0).unwrap())),
        match out {
            Some(store) => store.wf() && decoded(text@, 0) == Some(record_views(store.listing())),
            None => true,
        },
{
    match decode(text) {
        Some(recs) => RecordStore::from_records(&recs),
        None => None,
    }
}

/// The text saved from a store can be loaded, and a store loaded from it
/// holds the same mapping: the same identifiers, each with the same three
/// fields.
pub proof fn lemma_saved_then_loaded(store: RecordStore, loaded: RecordStore)
    requires
        store.wf(),
        loaded.wf(),
        decoded(saved(store), 0) == Some(record_views(loaded.listing())),
    ensures
        loaded@ == store@,
        record_views(loaded.listing()) == record_views(store.listing()),
{
    lemma_round_trip(record_views(store.listing()));
    store.lemma_same_listing(&loaded);
}

/// The text saved from a store is a whole number of well-formed records
/// without a repeated identifier: loading it succeeds.
pub proof fn lemma_saved_can_be_loaded(store: RecordStore)
    requires
        store.wf(),
    ensures
        decoded(saved(store), 0) == Some(record_views(store.listing())),
        distinct_record_ids(record_views(store.listing())),
{
    lemma_round_trip(record_views(store.listing()));
    store.lemma_listing();
}

/// A store loaded from empty text holds no record.
pub proof fn lemma_empty_text_is_empty_store(loaded: RecordStore)
    requires
        loaded.wf(),
        decoded(Seq::<char>::empty(), 0) == Some(record_views(loaded.listing())),
    ensures
        loaded@ == Map::<Seq<char>, RecordView>::empty(),
{
    loaded.lemma_listing();
    assert(record_views(loaded.listing()).len() == 0);
    assert(loaded@ =~= Map::<Seq<char>, RecordView>::empty());
}

} // verus!
