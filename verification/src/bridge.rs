use vstd::prelude::*;
use vstd::string::StringSliceAdditionalSpecFns;

use crate::span::Span;
use crate::text::{
    are_char_indices, byte_len, byte_offset, char_indices, char_len_utf16, index_of_offset,
    is_boundary, lemma_byte_len_is_encoding_len, lemma_byte_offset_bound, lemma_byte_offset_end,
    lemma_byte_offset_mono, lemma_byte_offset_step, lemma_byte_offset_strict,
    lemma_index_of_offset, utf16_len, utf16_width, utf8_width,
};

verus! {

/// An editor position: zero-based line and UTF-16 column.
#[derive(Clone, Copy, Debug, PartialEq, Eq, Structural, Hash)]
pub struct Position {
    pub line: u32,
    pub character: u32,
}

/// An editor range between two positions.
#[derive(Clone, Copy, Debug, PartialEq, Eq, Structural, Hash)]
pub struct Range {
    pub start: Position,
    pub end: Position,
}

impl Position {
    pub fn new(line: u32, character: u32) -> (p: Position)
        ensures
            p.line == line,
            p.character == character,
    {
        Position { line, character }
    }
}

impl Range {
    pub fn new(start: Position, end: Position) -> (r: Range)
        ensures
            r.start == start,
            r.end == end,
    {
        Range { start, end }
    }
}

// ---------------------------------------------------------------------------
// Lines of a source text.
// ---------------------------------------------------------------------------

/// Char indices where lines start: 0 and the index after each newline.
pub open spec fn line_start_indices(cs: Seq<char>) -> Seq<int>
    decreases cs.len(),
{
    if cs.len() == 0 {
        seq![0]
    } else {
        let prefix = line_start_indices(cs.drop_last());
        if cs.last() == '\n' {
            prefix.push(cs.len() as int)
        } else {
            prefix
        }
    }
}

/// Byte offsets where lines start.
pub open spec fn line_start_offsets(cs: Seq<char>) -> Seq<int> {
    line_start_indices(cs).map_values(|k: int| byte_offset(cs, k) as int)
}

/// End (char index) of the content of the line spanning the chars `a..b`:
/// a trailing `\n`, and then a `\r` before it, are not content.
pub open spec fn content_end_index(cs: Seq<char>, a: int, b: int) -> int {
    let c1 = if b > 0 && cs[b - 1] == '\n' {
        b - 1
    } else {
        b
    };
    let c2 = if c1 > 0 && cs[c1 - 1] == '\r' {
        c1 - 1
    } else {
        c1
    };
    if c2 < a {
        a
    } else {
        c2
    }
}

/// The byte-level trimming that `trim_line_break` performs on `bytes`.
pub open spec fn trim_line_break_spec(bytes: Seq<u8>, start: int, end: int) -> int {
    let i1 = if end > 0 {
        end - 1
    } else {
        0
    };
    let e1 = if 0 <= i1 < bytes.len() && bytes[i1] == 10u8 {
        i1
    } else {
        end
    };
    let i2 = if e1 > 0 {
        e1 - 1
    } else {
        0
    };
    let e2 = if 0 <= i2 < bytes.len() && bytes[i2] == 13u8 {
        i2
    } else {
        e1
    };
    if e2 < start {
        start
    } else {
        e2
    }
}

/// Char index where line `line` starts and where it ends (exclusive, newline included).
pub open spec fn line_bounds(cs: Seq<char>, line: int) -> (int, int) {
    let ls = line_start_indices(cs);
    (ls[line], if line + 1 < ls.len() {
        ls[line + 1]
    } else {
        cs.len() as int
    })
}

/// The byte offset that an editor position denotes, if any.
pub open spec fn position_offset(cs: Seq<char>, line: int, character: int) -> Option<int> {
    let ls = line_start_indices(cs);
    if line < 0 || line >= ls.len() {
        None
    } else {
        let (a, b) = line_bounds(cs, line);
        let c = content_end_index(cs, a, b);
        if exists|m: int| a <= m <= c && #[trigger] utf16_len(cs.subrange(a, m)) == character {
            let m = choose|m: int| a <= m <= c && #[trigger] utf16_len(cs.subrange(a, m)) == character;
            Some(byte_offset(cs, m) as int)
        } else {
            None
        }
    }
}

/// `l` is the line holding char index `m`: the last line starting at or before `m`.
pub open spec fn is_line_of(cs: Seq<char>, m: int, l: int) -> bool {
    let ls = line_start_indices(cs);
    &&& 0 <= l < ls.len()
    &&& ls[l] <= m
    &&& (l + 1 == ls.len() || m < ls[l + 1])
}

pub open spec fn line_of_index(cs: Seq<char>, m: int) -> int {
    choose|l: int| is_line_of(cs, m, l)
}

/// The offset clamped to the end of the text.
pub open spec fn clamp_offset(cs: Seq<char>, offset: int) -> int {
    if offset < byte_len(cs) {
        offset
    } else {
        byte_len(cs) as int
    }
}

/// The editor position of a byte offset (clamped to the end of the text).
pub open spec fn offset_position(cs: Seq<char>, offset: int) -> Position {
    let m = index_of_offset(cs, clamp_offset(cs, offset));
    let line = line_of_index(cs, m);
    let start = line_start_indices(cs)[line];
    Position { line: line as u32, character: utf16_len(cs.subrange(start, m)) as u32 }
}

// ---------------------------------------------------------------------------
// Facts about lines.
// ---------------------------------------------------------------------------

/// Line starts are strictly increasing char indices, the first is 0, and
/// every other one follows a newline.
pub proof fn lemma_line_starts(cs: Seq<char>)
    ensures
        line_start_indices(cs).len() >= 1,
        line_start_indices(cs)[0] == 0,
        forall|k: int|
            0 <= k < line_start_indices(cs).len() ==> 0 <= #[trigger] line_start_indices(cs)[k]
                <= cs.len(),
        forall|k: int, j: int|
            0 <= k < j < line_start_indices(cs).len() ==> #[trigger] line_start_indices(cs)[k]
                < #[trigger] line_start_indices(cs)[j],
        forall|k: int|
            1 <= k < line_start_indices(cs).len() ==> cs[#[trigger] line_start_indices(cs)[k] - 1]
                == '\n',
    decreases cs.len(),
{
    if cs.len() > 0 {
        let p = cs.drop_last();
        lemma_line_starts(p);
        let ls = line_start_indices(cs);
        let lp = line_start_indices(p);
        assert forall|k: int| 1 <= k < ls.len() implies cs[#[trigger] ls[k] - 1] == '\n' by {
            if k < lp.len() {
                assert(ls[k] == lp[k]);
                assert(p[lp[k] - 1] == '\n');
            }
        }
    }
}

/// A newline is always followed by a line start, so no line start lies strictly
/// between a newline and the index after it; equivalently, the chars strictly
/// inside a line are not newlines.
pub proof fn lemma_line_has_no_newline(cs: Seq<char>, l: int, m: int)
    requires
        0 <= l < line_start_indices(cs).len(),
        line_start_indices(cs)[l] <= m,
        l + 1 < line_start_indices(cs).len() ==> m + 1 < line_start_indices(cs)[l + 1],
        m < cs.len(),
    ensures
        cs[m] != '\n',
    decreases cs.len(),
{
    let p = cs.drop_last();
    let ls = line_start_indices(cs);
    let lp = line_start_indices(p);
    lemma_line_starts(cs);
    lemma_line_starts(p);
    if m == cs.len() - 1 {
        if cs[m] == '\n' {
            // then cs.len() is a line start, after index l
            assert(ls == lp.push(cs.len() as int));
            assert(ls[ls.len() - 1] == cs.len());
            if l + 1 < ls.len() {
                assert(ls[l + 1] <= ls[ls.len() - 1]) by {
                    if l + 1 < ls.len() - 1 {
                    }
                }
            } else {
                assert(l == ls.len() - 1);
                assert(ls[l] == cs.len());
            }
        }
    } else {
        assert(p[m] == cs[m]);
        if cs.last() == '\n' {
            assert(ls == lp.push(cs.len() as int));
            if l < lp.len() {
                assert(ls[l] == lp[l]);
                if l + 1 < lp.len() {
                    assert(ls[l + 1] == lp[l + 1]);
                }
                lemma_line_has_no_newline(p, l, m);
            } else {
                assert(ls[l] == cs.len());
            }
        } else {
            assert(ls == lp);
            lemma_line_has_no_newline(p, l, m);
        }
    }
}

/// Each char index lies on exactly one line.
pub proof fn lemma_line_of_index(cs: Seq<char>, m: int)
    requires
        0 <= m <= cs.len(),
    ensures
        is_line_of(cs, m, line_of_index(cs, m)),
        forall|l: int| is_line_of(cs, m, l) ==> l == line_of_index(cs, m),
{
    lemma_line_starts(cs);
    let ls = line_start_indices(cs);
    lemma_line_of_index_exists(cs, m, 0);
    assert forall|l: int| is_line_of(cs, m, l) implies l == line_of_index(cs, m) by {
        let l2 = line_of_index(cs, m);
        if l < l2 {
            assert(ls[l + 1] <= ls[l2]);
        } else if l2 < l {
            assert(ls[l2 + 1] <= ls[l]);
        }
    }
}

proof fn lemma_line_of_index_exists(cs: Seq<char>, m: int, l: int)
    requires
        0 <= m,
        0 <= l < line_start_indices(cs).len(),
        line_start_indices(cs)[l] <= m,
    ensures
        exists|l2: int| is_line_of(cs, m, l2),
    decreases line_start_indices(cs).len() - l,
{
    let ls = line_start_indices(cs);
    if l + 1 == ls.len() || m < ls[l + 1] {
        assert(is_line_of(cs, m, l));
    } else {
        lemma_line_of_index_exists(cs, m, l + 1);
    }
}

/// UTF-16 length of `cs[a..m]` grows strictly with `m`.
pub proof fn lemma_utf16_prefix_strict(cs: Seq<char>, a: int, m1: int, m2: int)
    requires
        0 <= a <= m1 < m2 <= cs.len(),
    ensures
        utf16_len(cs.subrange(a, m1)) < utf16_len(cs.subrange(a, m2)),
    decreases m2 - m1,
{
    assert(cs.subrange(a, m2).drop_last() =~= cs.subrange(a, m2 - 1));
    if m1 < m2 - 1 {
        lemma_utf16_prefix_strict(cs, a, m1, m2 - 1);
    }
}

proof fn lemma_utf16_prefix_step(cs: Seq<char>, a: int, m: int)
    requires
        0 <= a <= m < cs.len(),
    ensures
        utf16_len(cs.subrange(a, m + 1)) == utf16_len(cs.subrange(a, m)) + utf16_width(cs[m]),
{
    assert(cs.subrange(a, m + 1).drop_last() =~= cs.subrange(a, m));
}

proof fn lemma_width_order(c: char)
    ensures
        1 <= utf16_width(c) <= utf8_width(c),
{
}

/// UTF-16 needs no more units than UTF-8 needs bytes.
pub proof fn lemma_utf16_len_le_byte_len(cs: Seq<char>)
    ensures
        utf16_len(cs) <= byte_len(cs),
    decreases cs.len(),
{
    if cs.len() > 0 {
        lemma_utf16_len_le_byte_len(cs.drop_last());
        lemma_width_order(cs.last());
    }
}

/// Line starts are at least their own index.
proof fn lemma_line_start_index_bound(cs: Seq<char>, k: int)
    requires
        0 <= k < line_start_indices(cs).len(),
    ensures
        line_start_indices(cs)[k] >= k,
    decreases k,
{
    lemma_line_starts(cs);
    if k > 0 {
        lemma_line_start_index_bound(cs, k - 1);
    }
}

/// Positions grow with offsets: a later char boundary is on a later line,
/// or on the same line at the same or a later column.
pub proof fn lemma_offset_position_mono(cs: Seq<char>, o1: int, o2: int)
    requires
        is_boundary(cs, o1),
        is_boundary(cs, o2),
        o1 <= o2,
        byte_len(cs) <= u32::MAX,
    ensures
        offset_position(cs, o1).line <= offset_position(cs, o2).line,
        offset_position(cs, o1).line == offset_position(cs, o2).line ==> offset_position(cs, o1).character
            <= offset_position(cs, o2).character,
{
    let w1 = choose|i: int| 0 <= i <= cs.len() && byte_offset(cs, i) == o1;
    let w2 = choose|i: int| 0 <= i <= cs.len() && byte_offset(cs, i) == o2;
    lemma_byte_offset_bound(cs, w1);
    lemma_byte_offset_bound(cs, w2);
    lemma_index_of_offset(cs, w1);
    lemma_index_of_offset(cs, w2);
    let m1 = index_of_offset(cs, o1);
    let m2 = index_of_offset(cs, o2);
    assert(m1 == w1 && m2 == w2);
    if m2 < m1 {
        lemma_byte_offset_strict(cs, m2, m1);
    }
    assert(m1 <= m2);
    lemma_line_starts(cs);
    lemma_line_of_index(cs, m1);
    lemma_line_of_index(cs, m2);
    let ls = line_start_indices(cs);
    let l1 = line_of_index(cs, m1);
    let l2 = line_of_index(cs, m2);
    if l2 < l1 {
        assert(ls[l2 + 1] <= ls[l1]);
        assert(false);
    }
    lemma_line_start_index_bound(cs, ls.len() - 1);
    crate::text::lemma_byte_len_is_encoding_len(cs);
    assert(cs.len() <= byte_len(cs)) by {
        lemma_chars_le_bytes(cs);
    }
    let a1 = ls[l1];
    let a2 = ls[l2];
    lemma_utf16_len_le_byte_len(cs.subrange(a1, m1));
    lemma_utf16_len_le_byte_len(cs.subrange(a2, m2));
    crate::text::lemma_byte_offset_split(cs, a1, m1);
    crate::text::lemma_byte_offset_split(cs, a2, m2);
    lemma_byte_offset_bound(cs, m1);
    lemma_byte_offset_bound(cs, m2);
    if l1 == l2 && m1 < m2 {
        lemma_utf16_prefix_strict(cs, a1, m1, m2);
    }
}

/// A text has at most as many chars as bytes.
proof fn lemma_chars_le_bytes(cs: Seq<char>)
    ensures
        cs.len() <= byte_len(cs),
    decreases cs.len(),
{
    if cs.len() > 0 {
        lemma_chars_le_bytes(cs.drop_last());
    }
}

// ---------------------------------------------------------------------------
// Executable conversions.
// ---------------------------------------------------------------------------

/// Char indices where the lines of the text described by `cis` start.
fn line_start_char_indices(cis: &Vec<(usize, char)>, Ghost(cs): Ghost<Seq<char>>) -> (ls: Vec<usize>)
    requires
        are_char_indices(cis@, cs),
    ensures
        ls@.len() == line_start_indices(cs).len(),
        forall|k: int| 0 <= k < ls@.len() ==> ls@[k] as int == #[trigger] line_start_indices(cs)[k],
{
    let mut ls: Vec<usize> = Vec::new();
    ls.push(0);
    let mut k: usize = 0;
    assert(cs.take(0) =~= Seq::<char>::empty());
    while k < cis.len()
        invariant
            are_char_indices(cis@, cs),
            k <= cis@.len(),
            ls@.len() == line_start_indices(cs.take(k as int)).len(),
            forall|j: int|
                0 <= j < ls@.len() ==> ls@[j] as int == #[trigger] line_start_indices(
                    cs.take(k as int),
                )[j],
        decreases cis@.len() - k,
    {
        let ch = cis[k].1;
        assert(cs.take(k + 1).drop_last() =~= cs.take(k as int));
        assert(cs.take(k + 1).last() == cs[k as int]);
        if ch == '\n' {
            ls.push(k + 1);
        }
        k = k + 1;
    }
    assert(cs.take(cis@.len() as int) =~= cs);
    ls
}

/// Byte offsets where the lines of `source` start: 0 and the offset after
/// each newline.
pub fn line_starts(source: &str) -> (starts: Vec<usize>)
    ensures
        starts@.len() == line_start_offsets(source@).len(),
        forall|k: int| 0 <= k < starts@.len() ==> starts@[k] as int == #[trigger] line_start_offsets(source@)[k],
{
    let cis = char_indices(source);
    let ghost cs = source@;
    let lsi = line_start_char_indices(&cis, Ghost(cs));
    let n = cis.len();
    let len = source.len();
    let mut starts: Vec<usize> = Vec::new();
    let mut k: usize = 0;
    proof {
        lemma_line_starts(cs);
        lemma_byte_offset_end(cs);
    }
    while k < lsi.len()
        invariant
            are_char_indices(cis@, cs),
            n == cs.len(),
            len == byte_len(cs),
            lsi@.len() == line_start_indices(cs).len(),
            forall|j: int| 0 <= j < lsi@.len() ==> lsi@[j] as int == #[trigger] line_start_indices(cs)[j],
            forall|j: int| 0 <= j < line_start_indices(cs).len() ==> 0 <= #[trigger] line_start_indices(cs)[j] <= cs.len(),
            k <= lsi@.len(),
            starts@.len() == k,
            forall|j: int| 0 <= j < k ==> starts@[j] as int == #[trigger] line_start_offsets(cs)[j],
        decreases lsi@.len() - k,
    {
        let idx = lsi[k];
        assert(0 <= line_start_indices(cs)[k as int] <= cs.len());
        let off = if idx < n {
            cis[idx].0
        } else {
            len
        };
        proof {
            lemma_byte_offset_end(cs);
            lemma_byte_offset_bound(cs, idx as int);
        }
        starts.push(off);
        k = k + 1;
    }
    starts
}

/// Trims a trailing line break (`\n`, then `\r`) from the line `start..end`,
/// never going below `start`.
pub fn trim_line_break(source: &str, start: usize, end: usize) -> (content_end: usize)
    ensures
        content_end as int == trim_line_break_spec(source.spec_bytes(), start as int, end as int),
{
    let bytes = source.as_bytes();
    let mut content_end = end;
    let i1 = content_end.saturating_sub(1);
    if i1 < bytes.len() && bytes[i1] == 10u8 {
        content_end = i1;
    }
    let i2 = content_end.saturating_sub(1);
    if i2 < bytes.len() && bytes[i2] == 13u8 {
        content_end = i2;
    }
    if content_end < start {
        start
    } else {
        content_end
    }
}

/// Char index just past the content of the line `a..b`.
fn content_end_char_index(cis: &Vec<(usize, char)>, a: usize, b: usize, Ghost(cs): Ghost<Seq<char>>) -> (c: usize)
    requires
        are_char_indices(cis@, cs),
        a <= b <= cs.len(),
    ensures
        c as int == content_end_index(cs, a as int, b as int),
        a <= c <= b,
{
    let mut c = b;
    if c > 0 && cis[c - 1].1 == '\n' {
        c = c - 1;
    }
    if c > 0 && cis[c - 1].1 == '\r' {
        c = c - 1;
    }
    if c < a {
        a
    } else {
        c
    }
}

/// Byte offset of the char index `k` (the text length for the end index).
fn offset_of_index(cis: &Vec<(usize, char)>, k: usize, len: usize, Ghost(cs): Ghost<Seq<char>>) -> (o: usize)
    requires
        are_char_indices(cis@, cs),
        len == byte_len(cs),
        k <= cs.len(),
    ensures
        o as int == byte_offset(cs, k as int),
{
    proof {
        lemma_byte_offset_end(cs);
    }
    if k < cis.len() {
        cis[k].0
    } else {
        len
    }
}

/// The byte offset of an editor position, if the position is on a line and
/// its column (in UTF-16 units) falls on a char boundary within the line's
/// content.
#[verifier::spinoff_prover]
pub fn position_to_offset(source: &str, position: Position) -> (offset: Option<usize>)
    ensures
        match offset {
            Some(o) => position_offset(source@, position.line as int, position.character as int)
                == Some(o as int),
            None => position_offset(source@, position.line as int, position.character as int) is None,
        },
{
    let ghost cs = source@;
    let cis = char_indices(source);
    let len = source.len();
    let ls = line_start_char_indices(&cis, Ghost(cs));
    proof {
        lemma_line_starts(cs);
    }
    let line_index = position.line as usize;
    if line_index >= ls.len() {
        return None;
    }
    let a = ls[line_index];
    let b = if line_index + 1 < ls.len() {
        ls[line_index + 1]
    } else {
        cis.len()
    };
    assert(0 <= line_start_indices(cs)[line_index as int] <= cs.len());
    proof {
        if line_index + 1 < ls.len() {
            assert(line_start_indices(cs)[line_index as int] < line_start_indices(cs)[line_index + 1]);
            assert(0 <= line_start_indices(cs)[line_index + 1] <= cs.len());
        }
    }
    let c = content_end_char_index(&cis, a, b, Ghost(cs));
    let target = position.character as u64;
    let mut units: u64 = 0;
    let mut m = a;
    assert(cs.subrange(a as int, a as int) =~= Seq::<char>::empty());
    while m < c
        invariant
            are_char_indices(cis@, cs),
            len == byte_len(cs),
            a <= m <= c <= cs.len(),
            units as int == utf16_len(cs.subrange(a as int, m as int)),
            units <= target,
            target == position.character,
            forall|m2: int| a <= m2 < m ==> #[trigger] utf16_len(cs.subrange(a as int, m2)) < target,
            c as int == content_end_index(cs, a as int, b as int),
            (a as int, b as int) == line_bounds(cs, position.line as int),
            cs == source@,
            0 <= position.line < line_start_indices(cs).len(),
        decreases c - m,
    {
        if units == target {
            proof {
                assert(utf16_len(cs.subrange(a as int, m as int)) == target);
                lemma_unique_column(cs, a as int, c as int, m as int, target as int);
                let l = position.line as int;
                assert(line_bounds(cs, l) == (a as int, b as int));
                assert(content_end_index(cs, a as int, b as int) == c);
                assert(exists|m2: int| a <= m2 <= c && #[trigger] utf16_len(cs.subrange(a as int, m2)) == position.character as int);
                assert(position_offset(cs, l, position.character as int) == Some(byte_offset(cs, m as int) as int));
            }
            return Some(cis[m].0);
        }
        proof {
            lemma_utf16_prefix_step(cs, a as int, m as int);
        }
        units = units + char_len_utf16(cis[m].1) as u64;
        if units > target {
            proof {
                lemma_no_column(cs, a as int, c as int, m as int, target as int);
            }
            return None;
        }
        m = m + 1;
    }
    if units == target {
        let o = offset_of_index(&cis, c, len, Ghost(cs));
        proof {
            lemma_unique_column(cs, a as int, c as int, c as int, target as int);
            let l = position.line as int;
            assert(line_bounds(cs, l) == (a as int, b as int));
            assert(content_end_index(cs, a as int, b as int) == c);
            assert(utf16_len(cs.subrange(a as int, c as int)) == target);
            assert(exists|m2: int| a <= m2 <= c && #[trigger] utf16_len(cs.subrange(a as int, m2)) == position.character as int);
            assert(position_offset(cs, l, position.character as int) == Some(byte_offset(cs, c as int) as int));
        }
        Some(o)
    } else {
        proof {
            assert forall|m2: int| a <= m2 <= c implies #[trigger] utf16_len(cs.subrange(a as int, m2)) != target by {
                if m2 < c {
                } else {
                }
            }
        }
        None
    }
}

/// The editor position of a byte offset; offsets past the end are clamped
/// to the end. The (clamped) offset must be a char boundary.
pub fn offset_to_position(source: &str, offset: usize) -> (position: Position)
    requires
        is_boundary(source@, clamp_offset(source@, offset as int)),
    ensures
        position == offset_position(source@, offset as int),
{
    let ghost cs = source@;
    let cis = char_indices(source);
    let len = source.len();
    let clamped = if offset < len {
        offset
    } else {
        len
    };
    let ls = line_start_char_indices(&cis, Ghost(cs));
    proof {
        lemma_line_starts(cs);
        lemma_byte_offset_end(cs);
    }
    // char index of the clamped offset
    let ghost target_index = index_of_offset(cs, clamped as int);
    let mut m: usize = 0;
    while m < cis.len() && cis[m].0 < clamped
        invariant
            are_char_indices(cis@, cs),
            len == byte_len(cs),
            m <= cs.len(),
            is_boundary(cs, clamped as int),
            clamped <= len,
            byte_offset(cs, m as int) <= clamped,
        decreases cs.len() - m,
    {
        proof {
            lemma_byte_offset_step(cs, m as int);
            lemma_byte_offset_bound(cs, m + 1);
        }
        let ghost before = m;
        m = m + 1;
        proof {
            let k = index_of_offset(cs, clamped as int);
            assert(0 <= k <= cs.len() && byte_offset(cs, k) == clamped);
            if byte_offset(cs, m as int) > clamped {
                // the boundary would lie strictly inside one char
                if k <= before {
                    lemma_byte_offset_mono(cs, k, before as int);
                } else if k >= m {
                    lemma_byte_offset_mono(cs, m as int, k);
                }
            }
        }
    }
    proof {
        if m < cs.len() {
            assert(byte_offset(cs, m as int) == clamped);
        } else {
            assert(byte_offset(cs, m as int) == len);
        }
        lemma_index_of_offset(cs, m as int);
    }
    // line of m: number of line starts at or before m, minus one
    let mut count: usize = 1;
    while count < ls.len() && ls[count] <= m
        invariant
            1 <= count <= ls@.len(),
            ls@.len() == line_start_indices(cs).len(),
            forall|k: int| 0 <= k < ls@.len() ==> ls@[k] as int == #[trigger] line_start_indices(cs)[k],
            line_start_indices(cs)[count - 1] <= m,
        decreases ls@.len() - count,
    {
        count = count + 1;
    }
    let line = count - 1;
    proof {
        assert(is_line_of(cs, m as int, line as int));
        lemma_line_of_index(cs, m as int);
    }
    let start = ls[line];
    let mut units: usize = 0;
    let mut k = start;
    assert(cs.subrange(start as int, start as int) =~= Seq::<char>::empty());
    proof {
        lemma_byte_offset_mono(cs, start as int, m as int);
    }
    while k < m
        invariant
            are_char_indices(cis@, cs),
            start <= k <= m <= cs.len(),
            units as int == utf16_len(cs.subrange(start as int, k as int)),
            units as int <= byte_offset(cs, k as int) - byte_offset(cs, start as int),
            byte_offset(cs, m as int) <= usize::MAX,
        decreases m - k,
    {
        proof {
            lemma_utf16_prefix_step(cs, start as int, k as int);
            lemma_byte_offset_step(cs, k as int);
            lemma_width_order(cs[k as int]);
            lemma_byte_offset_mono(cs, k + 1, m as int);
        }
        units = units + char_len_utf16(cis[k].1);
        k = k + 1;
    }
    Position { line: line as u32, character: units as u32 }
}

/// The editor range of a byte span whose ends are char boundaries.
pub fn span_to_range(source: &str, span: Span) -> (range: Range)
    requires
        is_boundary(source@, clamp_offset(source@, span.start as int)),
        is_boundary(source@, clamp_offset(source@, span.end as int)),
    ensures
        range.start == offset_position(source@, span.start as int),
        range.end == offset_position(source@, span.end as int),
{
    Range::new(offset_to_position(source, span.start), offset_to_position(source, span.end))
}

/// Position order: by line, then by column.
pub fn position_leq(lhs: Position, rhs: Position) -> (leq: bool)
    ensures
        leq == (lhs.line < rhs.line || (lhs.line == rhs.line && lhs.character <= rhs.character)),
{
    lhs.line < rhs.line || (lhs.line == rhs.line && lhs.character <= rhs.character)
}

/// Closed ranges that share at least one position.
pub fn ranges_overlap(lhs: Range, rhs: Range) -> (overlap: bool)
    ensures
        overlap == (position_le(lhs.start, rhs.end) && position_le(rhs.start, lhs.end)),
{
    position_leq(lhs.start, rhs.end) && position_leq(rhs.start, lhs.end)
}

pub open spec fn position_le(lhs: Position, rhs: Position) -> bool {
    lhs.line < rhs.line || (lhs.line == rhs.line && lhs.character <= rhs.character)
}

/// Half-open byte spans that share at least one byte.
pub fn spans_overlap(left: Span, right: Span) -> (overlap: bool)
    ensures
        overlap == (left.start < right.end && right.start < left.end),
{
    left.start < right.end && right.start < left.end
}

/// A char index sits between a line's `\r` and the `\n` (or end of text)
/// that ends the line: there the content of the line has already ended.
pub open spec fn after_line_end_cr(cs: Seq<char>, m: int) -> bool {
    &&& m > 0
    &&& cs[m - 1] == '\r'
    &&& (m == cs.len() || cs[m] == '\n')
}

proof fn lemma_last_newline_starts_line(cs: Seq<char>)
    requires
        cs.len() > 0,
        cs.last() == '\n',
    ensures
        line_start_indices(cs).last() == cs.len(),
{
}

/// Converting a position to an offset and back gives the position again.
pub proof fn lemma_position_offset_round_trip(cs: Seq<char>, line: u32, character: u32)
    requires
        position_offset(cs, line as int, character as int) is Some,
    ensures
        offset_position(cs, position_offset(cs, line as int, character as int)->0)
            == (Position { line, character }),
        is_boundary(cs, position_offset(cs, line as int, character as int)->0),
{
    lemma_line_starts(cs);
    let ls = line_start_indices(cs);
    let l = line as int;
    let (a, b) = line_bounds(cs, l);
    let c = content_end_index(cs, a, b);
    let m = choose|m: int| a <= m <= c && #[trigger] utf16_len(cs.subrange(a, m)) == character as int;
    assert(a <= m <= c && utf16_len(cs.subrange(a, m)) == character as int);
    assert(0 <= a <= b <= cs.len()) by {
        if l + 1 < ls.len() {
            assert(ls[l] < ls[l + 1]);
        }
    }
    let o = byte_offset(cs, m) as int;
    lemma_byte_offset_bound(cs, m);
    lemma_index_of_offset(cs, m);
    assert(clamp_offset(cs, o) == o);
    assert(index_of_offset(cs, o) == m);
    // m lies on line `l`
    if l + 1 < ls.len() {
        assert(ls[l] < ls[l + 1]);
        assert(cs[ls[l + 1] - 1] == '\n');
        assert(m < b);
    }
    assert(is_line_of(cs, m, l));
    lemma_line_of_index(cs, m);
    assert(line_of_index(cs, m) == l);
}

/// Converting an offset to a position and back gives the offset again,
/// unless the offset points past a `\r` that ends its line's content, or its
/// line or column does not fit in the `u32` fields of a position.
pub proof fn lemma_offset_position_round_trip(cs: Seq<char>, m: int)
    requires
        0 <= m <= cs.len(),
        !after_line_end_cr(cs, m),
        line_of_index(cs, m) <= u32::MAX,
        utf16_len(cs.subrange(line_start_indices(cs)[line_of_index(cs, m)], m)) <= u32::MAX,
    ensures
        position_offset(
            cs,
            offset_position(cs, byte_offset(cs, m) as int).line as int,
            offset_position(cs, byte_offset(cs, m) as int).character as int,
        ) == Some(byte_offset(cs, m) as int),
{
    lemma_line_starts(cs);
    let ls = line_start_indices(cs);
    let o = byte_offset(cs, m) as int;
    lemma_byte_offset_bound(cs, m);
    lemma_index_of_offset(cs, m);
    assert(clamp_offset(cs, o) == o);
    lemma_line_of_index(cs, m);
    let l = line_of_index(cs, m);
    let a = ls[l];
    let (a2, b) = line_bounds(cs, l);
    assert(a2 == a);
    let u = utf16_len(cs.subrange(a, m));
    assert(l as u32 == l);
    assert(u as u32 == u);
    let p = offset_position(cs, o);
    assert(p.line == l && p.character == u);
    assert(0 <= a <= b <= cs.len()) by {
        if l + 1 < ls.len() {
            assert(ls[l] < ls[l + 1]);
        }
    }
    let c = content_end_index(cs, a, b);
    // m is within the line's content
    if m > a {
        if l + 1 < ls.len() {
            assert(m < b);
        }
        lemma_line_has_no_newline(cs, l, m - 1);
        if b > 0 && cs[b - 1] == '\n' {
            if m == b {
                lemma_last_newline_starts_line(cs);
                assert(false);
            }
        }
    }
    assert(m <= c);
    assert(utf16_len(cs.subrange(a, m)) == u);
    lemma_unique_column(cs, a, c, m, u as int);
}

proof fn lemma_unique_column(cs: Seq<char>, a: int, c: int, m: int, target: int)
    requires
        0 <= a <= m <= c <= cs.len(),
        utf16_len(cs.subrange(a, m)) == target,
    ensures
        (choose|m2: int| a <= m2 <= c && #[trigger] utf16_len(cs.subrange(a, m2)) == target) == m,
{
    let m2 = choose|m2: int| a <= m2 <= c && #[trigger] utf16_len(cs.subrange(a, m2)) == target;
    assert(a <= m2 <= c && utf16_len(cs.subrange(a, m2)) == target);
    if m2 < m {
        lemma_utf16_prefix_strict(cs, a, m2, m);
    } else if m < m2 {
        lemma_utf16_prefix_strict(cs, a, m, m2);
    }
}

proof fn lemma_no_column(cs: Seq<char>, a: int, c: int, m: int, target: int)
    requires
        0 <= a <= m < c <= cs.len(),
        utf16_len(cs.subrange(a, m)) < target < utf16_len(cs.subrange(a, m + 1)),
    ensures
        !(exists|m2: int| a <= m2 <= c && #[trigger] utf16_len(cs.subrange(a, m2)) == target),
{
    assert forall|m2: int| a <= m2 <= c implies #[trigger] utf16_len(cs.subrange(a, m2)) != target by {
        if m2 < m {
            lemma_utf16_prefix_strict(cs, a, m2, m);
        } else if m + 1 < m2 {
            lemma_utf16_prefix_strict(cs, a, m + 1, m2);
        }
    }
}

// ---------------------------------------------------------------------------
// Text edits.
// ---------------------------------------------------------------------------

/// The editor range of a byte span of the source.
pub open spec fn span_range(source: Seq<char>, span: Span) -> Range {
    Range { start: offset_position(source, span.start as int), end: offset_position(source, span.end as int) }
}

/// A replacement of the text in an editor range.
#[derive(Debug, PartialEq, Eq)]
pub struct TextEdit {
    pub range: Range,
    pub new_text: String,
}

impl TextEdit {
    pub fn new(range: Range, new_text: String) -> (edit: TextEdit)
        ensures
            edit.range == range,
            edit.new_text == new_text,
    {
        TextEdit { range, new_text }
    }
}

pub open spec fn text_edit_view(e: TextEdit) -> (Range, Seq<char>) {
    (e.range, e.new_text@)
}

pub open spec fn text_edits_view(edits: Seq<TextEdit>) -> Seq<(Range, Seq<char>)> {
    edits.map_values(|e: TextEdit| text_edit_view(e))
}

} // verus!
