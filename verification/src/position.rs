//! Editor positions: lines and UTF-16 columns, against byte offsets.

use vstd::prelude::*;
use vstd::string::StringSliceAdditionalSpecFns;
use vstd::utf8::{encode_scalar, encode_utf8, has_width_1_encoding, has_width_2_encoding, has_width_3_encoding, has_width_4_encoding};
use crate::syntax::{as_ints, collect, first_where, last_where};

verus! {

/// The byte offsets at which the lines of a text start: zero, and one past
/// each line feed.
pub open spec fn line_starts_spec(b: Seq<u8>) -> Seq<int> {
    seq![0int] + collect(0, b.len() as int, |i: int| b[i] == 10u8).map_values(|i: int| i + 1)
}

/// Whether a byte continues a UTF-8 sequence rather than starting one.
pub open spec fn is_continuation(x: u8) -> bool {
    0x80 <= x && x < 0xc0
}

/// The UTF-16 code units that a UTF-8 byte adds: one for the first byte of
/// a character, two for the first byte of a four-byte character (which
/// UTF-16 writes as a surrogate pair), none for the others.
pub open spec fn utf16_weight(x: u8) -> int {
    if is_continuation(x) {
        0
    } else if x >= 0xf0 {
        2
    } else {
        1
    }
}

/// The length in UTF-16 code units of the text that UTF-8 bytes encode.
pub open spec fn utf16_units(b: Seq<u8>) -> int
    decreases b.len(),
{
    if b.len() == 0 {
        0
    } else {
        utf16_units(b.drop_last()) + utf16_weight(b.last())
    }
}

/// The end of the line that starts at `s`: its line feed, or the end of the text.
pub open spec fn line_end_spec(b: Seq<u8>, s: int) -> int {
    match first_where(s, b.len() as int, |i: int| b[i] == 10u8) {
        Some(i) => i,
        None => b.len() as int,
    }
}

/// The byte offset of the position at `line` and UTF-16 column `character`:
/// the first character boundary of the line at which the text of the line
/// before it is at least `character` units long, or the end of the line
/// when the line is shorter; `None` when the text has no such line.
pub open spec fn offset_spec(b: Seq<u8>, line: int, character: int) -> Option<int> {
    let starts = line_starts_spec(b);
    if line < 0 || line >= starts.len() {
        None
    } else {
        let s = starts[line];
        let e = line_end_spec(b, s);
        match first_where(s, e, reaches_column(b, s, character)) {
            Some(i) => Some(i),
            None => Some(e),
        }
    }
}

/// Whether byte `i` starts a character at which the text of the line from
/// `s` is at least `character` UTF-16 units long.
pub open spec fn reaches_column(b: Seq<u8>, s: int, character: int) -> spec_fn(int) -> bool {
    |i: int| !is_continuation(b[i]) && utf16_units(b.subrange(s, i)) >= character
}

/// The line on which byte `offset` lies: the last line that starts at or
/// before it.
pub open spec fn line_of_spec(b: Seq<u8>, offset: int) -> int {
    let starts = line_starts_spec(b);
    match last_where(0, starts.len() as int, |k: int| starts[k] <= offset) {
        Some(k) => k,
        None => 0,
    }
}

/// The UTF-16 column of byte `offset` on its line.
pub open spec fn column_of_spec(b: Seq<u8>, offset: int) -> int {
    let s = line_starts_spec(b)[line_of_spec(b, offset)];
    utf16_units(b.subrange(s, offset))
}

/// A position as an editor gives it: a line and a column in UTF-16 code
/// units, both zero-based.
#[derive(Clone, Copy, PartialEq, Eq, Structural, Debug)]
pub struct Position {
    pub line: usize,
    pub character: u128,
}

/// The byte offsets at which the lines of `content` start.
pub fn line_mapping(content: &str) -> (r: Vec<usize>)
    ensures
        as_ints(r@) == line_starts_spec(content.spec_bytes()),
{
    let b = content.as_bytes();
    let ghost p = |i: int| b@[i] == 10u8;
    let mut r: Vec<usize> = Vec::new();
    r.push(0);
    let mut i: usize = 0;
    assert(as_ints(r@) =~= seq![0int] + collect(0, 0, p).map_values(|k: int| k + 1));
    while i < b.len()
        invariant
            i <= b@.len(),
            b@ == content.spec_bytes(),
            p == (|i: int| b@[i] == 10u8),
            as_ints(r@) == seq![0int] + collect(0, i as int, p).map_values(|k: int| k + 1),
        decreases b@.len() - i,
    {
        let ghost prev = collect(0, i as int, p);
        let ghost old_r = r@;
        if b[i] == 10 {
            assert(p(i as int));
            assert(collect(0, i + 1, p) == prev.push(i as int));
            r.push(i + 1);
            assert(as_ints(r@) =~= as_ints(old_r).push(i + 1));
            assert(prev.push(i as int).map_values(|k: int| k + 1) =~= prev.map_values(|k: int| k + 1).push(i + 1));
        } else {
            assert(collect(0, i + 1, p) == prev);
        }
        assert(as_ints(r@) =~= seq![0int] + collect(0, i + 1, p).map_values(|k: int| k + 1));
        i = i + 1;
    }
    r
}

proof fn lemma_utf16_units_push(b: Seq<u8>, s: int, i: int)
    requires
        0 <= s <= i < b.len(),
    ensures
        utf16_units(b.subrange(s, i + 1)) == utf16_units(b.subrange(s, i)) + utf16_weight(b[i]),
{
    assert(b.subrange(s, i + 1).drop_last() =~= b.subrange(s, i));
}

proof fn lemma_utf16_units_bound(b: Seq<u8>)
    ensures
        0 <= utf16_units(b) <= 2 * b.len(),
    decreases b.len(),
{
    if b.len() > 0 {
        lemma_utf16_units_bound(b.drop_last());
    }
}

/// The byte offset of `position` in `content`, whose line starts are
/// `mapping`; `None` when the content has no such line.
pub fn offset_at(content: &str, mapping: &Vec<usize>, position: Position) -> (r: Option<usize>)
    requires
        as_ints(mapping@) == line_starts_spec(content.spec_bytes()),
    ensures
        r is Some <==> offset_spec(content.spec_bytes(), position.line as int, position.character as int) is Some,
        r matches Some(o) ==> offset_spec(content.spec_bytes(), position.line as int, position.character as int) == Some(o as int),
{
    let b = content.as_bytes();
    let ghost bs = content.spec_bytes();
    if position.line >= mapping.len() {
        return None;
    }
    let s = mapping[position.line];
    assert(as_ints(mapping@)[position.line as int] == s);
    assert(mapping@.len() == line_starts_spec(bs).len());
    let ghost e = line_end_spec(bs, s as int);
    let ghost p = reaches_column(bs, s as int, position.character as int);
    let ghost nl = |i: int| bs[i] == 10u8;
    proof {
        let starts = line_starts_spec(bs);
        if position.line > 0 {
            let c = collect(0, bs.len() as int, nl);
            assert(starts.len() == 1 + c.len());
            assert(starts[position.line as int] == c[position.line - 1] + 1);
            lemma_collect_bounds(0, bs.len() as int, nl, position.line - 1);
        }
        lemma_first_where(s as int, bs.len() as int, nl);
    }
    let mut i = s;
    let mut units: u128 = 0;
    assert(bs.subrange(s as int, s as int) =~= Seq::<u8>::empty());
    while i < b.len() && b[i] != 10
        invariant
            b@ == bs,
            s <= i <= bs.len(),
            units == utf16_units(bs.subrange(s as int, i as int)),
            units <= 2 * (i - s),
            e == line_end_spec(bs, s as int),
            line_end_spec(bs, s as int) == line_end_spec(bs, i as int),
            p == reaches_column(bs, s as int, position.character as int),
            first_where(s as int, e, p) == first_where(i as int, e, p),
            i <= e,
            nl == (|i: int| bs[i] == 10u8),
            bs == content.spec_bytes(),
            0 <= position.line < line_starts_spec(bs).len(),
            s as int == line_starts_spec(bs)[position.line as int],
        decreases bs.len() - i,
    {
        let x = b[i];
        proof {
            assert(!nl(i as int));
            assert(line_end_spec(bs, i as int) == line_end_spec(bs, i + 1)) by {
                assert(first_where(i as int, bs.len() as int, nl) == first_where(i + 1, bs.len() as int, nl));
            }
            lemma_first_where(i + 1, bs.len() as int, nl);
        }
        if !(0x80 <= x && x < 0xc0) && units >= position.character {
            assert(p(i as int));
            assert(first_where(i as int, e, p) == Some(i as int));
            return Some(i);
        }
        assert(!p(i as int));
        proof {
            lemma_utf16_units_push(bs, s as int, i as int);
        }
        let w: u128 = if 0x80 <= x && x < 0xc0 {
            0
        } else if x >= 0xf0 {
            2
        } else {
            1
        };
        units = units + w;
        i = i + 1;
    }
    assert(i as int == e) by {
        assert(first_where(i as int, bs.len() as int, nl) == if i < bs.len() { Some(i as int) } else { None::<int> });
    }
    Some(i)
}

/// The line and UTF-16 column of byte `offset` in `content`, whose line
/// starts are `mapping`.
pub fn position_of(content: &str, mapping: &Vec<usize>, offset: usize) -> (r: Position)
    requires
        as_ints(mapping@) == line_starts_spec(content.spec_bytes()),
        offset <= content.spec_bytes().len(),
    ensures
        r.line == line_of_spec(content.spec_bytes(), offset as int),
        r.character == column_of_spec(content.spec_bytes(), offset as int),
{
    let b = content.as_bytes();
    let ghost bs = content.spec_bytes();
    let ghost starts = line_starts_spec(bs);
    let ghost q = |k: int| starts[k] <= offset;
    let mut k = mapping.len();
    while k > 1 && mapping[k - 1] > offset
        invariant
            1 <= k <= mapping@.len(),
            as_ints(mapping@) == starts,
            starts == line_starts_spec(bs),
            q == (|k: int| starts[k] <= offset),
            last_where(0, starts.len() as int, q) == last_where(0, k as int, q),
        decreases k,
    {
        assert(!q(k - 1));
        k = k - 1;
    }
    let line = k - 1;
    assert(q(line as int)) by {
        if line == 0 {
            assert(starts[0] == 0);
        }
    }
    let s = mapping[line];
    proof {
        assert(s as int == starts[line as int]);
    }
    let mut i = s;
    let mut units: u128 = 0;
    assert(bs.subrange(s as int, s as int) =~= Seq::<u8>::empty());
    while i < offset
        invariant
            b@ == bs,
            s <= i <= offset,
            offset <= bs.len(),
            units == utf16_units(bs.subrange(s as int, i as int)),
            units <= 2 * (i - s),
        decreases offset - i,
    {
        let x = b[i];
        proof {
            lemma_utf16_units_push(bs, s as int, i as int);
        }
        let w: u128 = if 0x80 <= x && x < 0xc0 {
            0
        } else if x >= 0xf0 {
            2
        } else {
            1
        };
        units = units + w;
        i = i + 1;
    }
    Position { line, character: units }
}

/// What `first_where` finds: the index satisfies `p`, and no smaller one in
/// range does; when it finds none, no index in range satisfies `p`.
pub proof fn lemma_first_where(lo: int, hi: int, p: spec_fn(int) -> bool)
    ensures
        first_where(lo, hi, p) matches Some(k) ==> lo <= k < hi && p(k) && forall|j: int|
            lo <= j < k ==> !#[trigger] p(j),
        first_where(lo, hi, p) is None ==> forall|j: int| lo <= j < hi ==> !#[trigger] p(j),
    decreases hi - lo,
{
    if hi > lo && !p(lo) {
        lemma_first_where(lo + 1, hi, p);
    }
}

proof fn lemma_utf16_units_split(b: Seq<u8>, s: int, i: int, o: int)
    requires
        0 <= s <= i <= o <= b.len(),
    ensures
        utf16_units(b.subrange(s, o)) == utf16_units(b.subrange(s, i)) + utf16_units(
            b.subrange(i, o),
        ),
    decreases o - i,
{
    if o > i {
        lemma_utf16_units_split(b, s, i, o - 1);
        lemma_utf16_units_push(b, s, o - 1);
        lemma_utf16_units_push(b, i, o - 1);
    } else {
        assert(b.subrange(i, o).len() == 0);
    }
}

proof fn lemma_utf16_units_first(b: Seq<u8>, i: int, o: int)
    requires
        0 <= i < o <= b.len(),
    ensures
        utf16_units(b.subrange(i, o)) >= utf16_weight(b[i]),
        utf16_units(b.subrange(i, o)) >= 0,
    decreases o - i,
{
    if o == i + 1 {
        let t = b.subrange(i, o);
        assert(t.drop_last() =~= Seq::<u8>::empty());
        assert(utf16_units(t.drop_last()) == 0);
        assert(t.last() == b[i]);
    } else {
        lemma_utf16_units_first(b, i, o - 1);
        lemma_utf16_units_push(b, i, o - 1);
        assert(utf16_weight(b[o - 1]) >= 0);
    }
}

/// Every line start lies in the text, and line starts increase.
pub proof fn lemma_line_starts(b: Seq<u8>)
    ensures
        forall|k: int|
            0 <= k < line_starts_spec(b).len() ==> 0 <= #[trigger] line_starts_spec(b)[k] <= b.len(),
        forall|k: int, l: int|
            0 <= k < l < line_starts_spec(b).len() ==> line_starts_spec(b)[k] < line_starts_spec(
                b,
            )[l],
        forall|k: int| 0 < k < line_starts_spec(b).len() ==> b[#[trigger] line_starts_spec(b)[k] - 1] == 10u8,
        forall|j: int|
            0 <= j < b.len() && b[j] == 10u8 ==> #[trigger] line_starts_spec(b).contains(j + 1),
{
    let nl = |i: int| b[i] == 10u8;
    let c = collect(0, b.len() as int, nl);
    let starts = line_starts_spec(b);
    assert forall|k: int| 0 <= k < starts.len() implies 0 <= #[trigger] starts[k] <= b.len() by {
        if k > 0 {
            lemma_collect_bounds(0, b.len() as int, nl, k - 1);
        }
    }
    crate::tree_parser::reference::lemma_collect_increasing(0, b.len() as int, nl);
    assert forall|k: int, l: int| 0 <= k < l < starts.len() implies starts[k] < starts[l] by {
        if k > 0 {
            assert(starts[k] == c[k - 1] + 1);
        }
        assert(starts[l] == c[l - 1] + 1);
        lemma_collect_bounds(0, b.len() as int, nl, l - 1);
    }
    assert forall|k: int| 0 < k < starts.len() implies b[#[trigger] starts[k] - 1] == 10u8 by {
        assert(starts[k] == c[k - 1] + 1);
        lemma_collect_bounds(0, b.len() as int, nl, k - 1);
    }
    assert forall|j: int| 0 <= j < b.len() && b[j] == 10u8 implies #[trigger] starts.contains(j + 1) by {
        crate::tree_parser::reference::lemma_collect_contains(0, b.len() as int, nl, j);
        let k = choose|k: int| 0 <= k < c.len() && c[k] == j;
        assert(starts[k + 1] == j + 1);
    }
}

/// Converting a byte offset that starts a character (or ends the text) to a
/// line and UTF-16 column, and back, gives the same offset.
pub proof fn lemma_position_round_trip(b: Seq<u8>, o: int)
    requires
        0 <= o <= b.len(),
        o == b.len() || !is_continuation(b[o]),
    ensures
        offset_spec(b, line_of_spec(b, o), column_of_spec(b, o)) == Some(o),
{
    let starts = line_starts_spec(b);
    let q = |k: int| starts[k] <= o;
    lemma_line_starts(b);
    assert(starts[0] == 0);
    lemma_last_where_found(0, starts.len() as int, q, 0);
    let line = line_of_spec(b, o);
    crate::syntax::lemma_last_where(0, starts.len() as int, q);
    let s = starts[line];
    let col = column_of_spec(b, o);
    let nl = |i: int| b[i] == 10u8;
    // no line feed lies in [s, o)
    assert forall|j: int| s <= j < o implies !#[trigger] nl(j) by {
        if nl(j) {
            assert(starts.contains(j + 1));
            let k = choose|k: int| 0 <= k < starts.len() && starts[k] == j + 1;
            assert(q(k));
            if k <= line {
                if k < line {
                    assert(starts[k] < starts[line]);
                }
                assert(false);
            }
        }
    }
    lemma_first_where(s, b.len() as int, nl);
    let e = line_end_spec(b, s);
    assert(o <= e);
    let p = reaches_column(b, s, col);
    lemma_first_where(s, e, p);
    assert forall|i: int| s <= i < o implies !#[trigger] p(i) by {
        if !is_continuation(b[i]) {
            lemma_utf16_units_split(b, s, i, o);
            lemma_utf16_units_first(b, i, o);
        }
    }
    if o < e {
        assert(p(o));
    }
}

proof fn lemma_last_where_found(lo: int, hi: int, p: spec_fn(int) -> bool, k: int)
    requires
        lo <= k < hi,
        p(k),
    ensures
        last_where(lo, hi, p) is Some,
    decreases hi - lo,
{
    if !p(hi - 1) {
        lemma_last_where_found(lo, hi - 1, p, k);
    }
}

/// Every index that `collect` lists lies in its range.
pub proof fn lemma_collect_bounds(lo: int, hi: int, p: spec_fn(int) -> bool, k: int)
    requires
        0 <= k < collect(lo, hi, p).len(),
    ensures
        lo <= collect(lo, hi, p)[k] < hi,
        p(collect(lo, hi, p)[k]),
    decreases hi - lo,
{
    if hi > lo {
        let prev = collect(lo, hi - 1, p);
        if p(hi - 1) {
            if k < prev.len() {
                lemma_collect_bounds(lo, hi - 1, p, k);
            }
        } else {
            lemma_collect_bounds(lo, hi - 1, p, k);
        }
    }
}

/// The length of a text in UTF-16 code units: one for each character below
/// U+10000, two for each other one.
pub open spec fn utf16_length(s: Seq<char>) -> int
    decreases s.len(),
{
    if s.len() == 0 {
        0
    } else {
        (if (s[0] as u32) < 0x10000 {
            1int
        } else {
            2int
        }) + utf16_length(s.drop_first())
    }
}

proof fn lemma_utf16_units_concat(a: Seq<u8>, b: Seq<u8>)
    ensures
        utf16_units(a + b) == utf16_units(a) + utf16_units(b),
    decreases b.len(),
{
    if b.len() > 0 {
        assert((a + b).drop_last() =~= a + b.drop_last());
        lemma_utf16_units_concat(a, b.drop_last());
    } else {
        assert(a + b =~= a);
    }
}

proof fn lemma_utf16_units_one(x: u8)
    ensures
        utf16_units(seq![x]) == utf16_weight(x),
{
    assert(seq![x].drop_last() =~= Seq::<u8>::empty());
    assert(seq![x].last() == x);
    assert(utf16_units(Seq::<u8>::empty()) == 0);
}

/// The UTF-16 units that the UTF-8 bytes of one character count.
proof fn lemma_utf16_units_scalar(c: char)
    ensures
        utf16_units(encode_scalar(c as u32)) == (if (c as u32) < 0x10000 {
            1int
        } else {
            2int
        }),
{
    let v = c as u32;
    let e = encode_scalar(v);
    if has_width_1_encoding(v) {
        let b0 = (v & 0x7F) as u8;
        assert(b0 < 0x80) by (bit_vector)
            requires
                b0 == (v & 0x7F) as u8,
        ;
        lemma_utf16_units_one(b0);
    } else if has_width_2_encoding(v) {
        let b0 = 0xC0 | ((v >> 6) & 0x1F) as u8;
        let b1 = 0x80 | (v & 0x3F) as u8;
        assert(0xC0 <= b0 && b0 < 0xF0) by (bit_vector)
            requires
                b0 == 0xC0 | ((v >> 6) & 0x1F) as u8,
        ;
        assert(0x80 <= b1 && b1 < 0xC0) by (bit_vector)
            requires
                b1 == 0x80 | (v & 0x3F) as u8,
        ;
        assert(e =~= seq![b0] + seq![b1]);
        lemma_utf16_units_concat(seq![b0], seq![b1]);
        lemma_utf16_units_one(b0);
        lemma_utf16_units_one(b1);
    } else if has_width_3_encoding(v) {
        let b0 = 0xE0 | ((v >> 12) & 0x0F) as u8;
        let b1 = 0x80 | ((v >> 6) & 0x3F) as u8;
        let b2 = 0x80 | (v & 0x3F) as u8;
        assert(0xE0 <= b0 && b0 < 0xF0) by (bit_vector)
            requires
                b0 == 0xE0 | ((v >> 12) & 0x0F) as u8,
        ;
        assert(0x80 <= b1 && b1 < 0xC0) by (bit_vector)
            requires
                b1 == 0x80 | ((v >> 6) & 0x3F) as u8,
        ;
        assert(0x80 <= b2 && b2 < 0xC0) by (bit_vector)
            requires
                b2 == 0x80 | (v & 0x3F) as u8,
        ;
        assert(e =~= seq![b0] + seq![b1] + seq![b2]);
        lemma_utf16_units_concat(seq![b0] + seq![b1], seq![b2]);
        lemma_utf16_units_concat(seq![b0], seq![b1]);
        lemma_utf16_units_one(b0);
        lemma_utf16_units_one(b1);
        lemma_utf16_units_one(b2);
    } else {
        assert(has_width_4_encoding(v));
        let b0 = 0xF0 | ((v >> 18) & 0x7) as u8;
        let b1 = 0x80 | ((v >> 12) & 0x3F) as u8;
        let b2 = 0x80 | ((v >> 6) & 0x3F) as u8;
        let b3 = 0x80 | (v & 0x3F) as u8;
        assert(0xF0 <= b0) by (bit_vector)
            requires
                b0 == 0xF0 | ((v >> 18) & 0x7) as u8,
        ;
        assert(0x80 <= b1 && b1 < 0xC0) by (bit_vector)
            requires
                b1 == 0x80 | ((v >> 12) & 0x3F) as u8,
        ;
        assert(0x80 <= b2 && b2 < 0xC0) by (bit_vector)
            requires
                b2 == 0x80 | ((v >> 6) & 0x3F) as u8,
        ;
        assert(0x80 <= b3 && b3 < 0xC0) by (bit_vector)
            requires
                b3 == 0x80 | (v & 0x3F) as u8,
        ;
        assert(e =~= seq![b0] + seq![b1] + seq![b2] + seq![b3]);
        lemma_utf16_units_concat(seq![b0] + seq![b1] + seq![b2], seq![b3]);
        lemma_utf16_units_concat(seq![b0] + seq![b1], seq![b2]);
        lemma_utf16_units_concat(seq![b0], seq![b1]);
        lemma_utf16_units_one(b0);
        lemma_utf16_units_one(b1);
        lemma_utf16_units_one(b2);
        lemma_utf16_units_one(b3);
    }
}

/// The columns that positions count are UTF-16 code units: the UTF-16
/// length that the UTF-8 bytes of a text give is the number of UTF-16 code
/// units of the text.
pub proof fn lemma_utf16_units_of_text(s: Seq<char>)
    ensures
        utf16_units(encode_utf8(s)) == utf16_length(s),
    decreases s.len(),
{
    if s.len() > 0 {
        lemma_utf16_units_of_text(s.drop_first());
        lemma_utf16_units_scalar(s[0]);
        lemma_utf16_units_concat(encode_scalar(s[0] as u32), encode_utf8(s.drop_first()));
    }
}

} // verus!
