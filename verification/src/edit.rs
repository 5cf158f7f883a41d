//! Edits of a file's text as an editor sends them: each change replaces a
//! range, given by editor positions, with new text, or, without a range,
//! replaces the whole text.

use vstd::prelude::*;
use vstd::string::*;
use vstd::utf8::*;
use crate::position::{Position, line_end_spec, line_mapping, line_starts_spec, offset_at, offset_spec, reaches_column, lemma_first_where, lemma_line_starts, is_continuation};
use crate::syntax::utf8_bytes;

verus! {

broadcast use vstd::utf8::group_utf8_lib;

/// One change of a text: the range it replaces, from a start to an end
/// position, or none for the whole text; and the text that takes its place.
pub struct TextChange {
    pub range: Option<(Position, Position)>,
    pub text: String,
}

/// The text after one change, or `None` when its range does not lie in the
/// text or ends before it starts.
pub open spec fn change_spec(text: Seq<char>, change: TextChange) -> Option<Seq<char>> {
    match change.range {
        None => Some(change.text@),
        Some(range) => {
            let b = utf8_bytes(text);
            match (
                offset_spec(b, range.0.line as int, range.0.character as int),
                offset_spec(b, range.1.line as int, range.1.character as int),
            ) {
                (Some(s), Some(e)) => if s <= e {
                    Some(decode_utf8(b.subrange(0, s)) + change.text@ + decode_utf8(b.subrange(e, b.len() as int)))
                } else {
                    None
                },
                _ => None,
            }
        },
    }
}

/// The text after a list of changes applied in order, or `None` when one of
/// them does not fit the text it applies to.
pub open spec fn changes_spec(text: Seq<char>, changes: Seq<TextChange>) -> Option<Seq<char>>
    decreases changes.len(),
{
    if changes.len() == 0 {
        Some(text)
    } else {
        match changes_spec(text, changes.drop_last()) {
            Some(t) => change_spec(t, changes.last()),
            None => None,
        }
    }
}

/// An offset that a position names lies in the text and on a character
/// boundary.
proof fn lemma_offset_boundary(b: Seq<u8>, line: int, character: int)
    requires
        valid_utf8(b),
        offset_spec(b, line, character) is Some,
    ensures
        0 <= offset_spec(b, line, character).unwrap() <= b.len(),
        is_char_boundary(b, offset_spec(b, line, character).unwrap()),
{
    let starts = line_starts_spec(b);
    lemma_line_starts(b);
    let s = starts[line];
    let e = line_end_spec(b, s);
    let nl = |i: int| b[i] == 10u8;
    lemma_first_where(s, b.len() as int, nl);
    let o = offset_spec(b, line, character).unwrap();
    lemma_first_where(s, e, reaches_column(b, s, character));
    if o < b.len() {
        is_char_boundary_iff_not_is_continuation_byte(b, o);
        assert(!is_continuation(b[o]));
    } else {
        is_char_boundary_start_end_of_seq(b);
    }
}

/// Applies one change to `content`.
pub fn apply_change(content: &str, change: &TextChange) -> (r: Option<String>)
    ensures
        r is Some <==> change_spec(content@, *change) is Some,
        r matches Some(t) ==> change_spec(content@, *change) == Some(t@),
{
    match &change.range {
        None => {
            let mut out = String::new();
            out.append(change.text.as_str());
            Some(out)
        },
        Some(range) => {
            let ghost b = content.spec_bytes();
            assert(b == utf8_bytes(content@));
            let mapping = line_mapping(content);
            let s = match offset_at(content, &mapping, range.0) {
                Some(s) => s,
                None => return None,
            };
            let e = match offset_at(content, &mapping, range.1) {
                Some(e) => e,
                None => return None,
            };
            if s > e {
                return None;
            }
            proof {
                lemma_offset_boundary(b, range.0.line as int, range.0.character as int);
                lemma_offset_boundary(b, range.1.line as int, range.1.character as int);
            }
            let (pre, _) = content.split_at(s);
            let (_, post) = content.split_at(e);
            let mut out = String::new();
            out.append(pre);
            out.append(change.text.as_str());
            out.append(post);
            Some(out)
        },
    }
}

/// Applies a list of changes, in order, to `content`.
pub fn apply_changes(content: &str, changes: &Vec<TextChange>) -> (r: Option<String>)
    ensures
        r is Some <==> changes_spec(content@, changes@) is Some,
        r matches Some(t) ==> changes_spec(content@, changes@) == Some(t@),
{
    let mut text = String::new();
    text.append(content);
    let mut i: usize = 0;
    assert(changes@.subrange(0, 0) =~= Seq::<TextChange>::empty());
    while i < changes.len()
        invariant
            i <= changes@.len(),
            changes_spec(content@, changes@.subrange(0, i as int)) == Some(text@),
        decreases changes@.len() - i,
    {
        assert(changes@.subrange(0, i + 1).drop_last() =~= changes@.subrange(0, i as int));
        match apply_change(text.as_str(), &changes[i]) {
            Some(t) => {
                text = t;
            },
            None => {
                proof {
                    lemma_changes_fail(content@, changes@, i as int + 1);
                }
                return None;
            },
        }
        i = i + 1;
    }
    assert(changes@.subrange(0, changes@.len() as int) =~= changes@);
    Some(text)
}

/// Once a change does not fit, the whole list does not.
proof fn lemma_changes_fail(text: Seq<char>, changes: Seq<TextChange>, n: int)
    requires
        0 <= n <= changes.len(),
        changes_spec(text, changes.subrange(0, n)) is None,
    ensures
        changes_spec(text, changes) is None,
    decreases changes.len() - n,
{
    if n < changes.len() {
        assert(changes.subrange(0, n + 1).drop_last() =~= changes.subrange(0, n));
        lemma_changes_fail(text, changes, n + 1);
    } else {
        assert(changes.subrange(0, n) =~= changes);
    }
}

} // verus!
