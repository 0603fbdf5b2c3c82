use vstd::prelude::*;
use vstd::string::StringExecFns;

use crate::bridge::{
    clamp_offset, offset_position, position_offset, position_to_offset, span_range, span_to_range,
    text_edits_view, Position, Range, TextEdit,
};
use crate::span::Span;
use crate::strings::{decimal, decimal_string};
use crate::text::{
    lemma_byte_offset_mono, lemma_byte_offset_strict, lemma_index_of_offset, str_equal, substring, are_char_indices, byte_len, byte_offset, char_indices, char_len_utf8, is_boundary,
    lemma_byte_offset_bound, lemma_byte_offset_end, lemma_byte_offset_split, lemma_byte_offset_step, source_chars,
    str_byte_len, string_from_chars, };

verus! {

// ---------------------------------------------------------------------------
// Common prefix and suffix of two lines.
// ---------------------------------------------------------------------------

/// Number of leading chars that `a` and `b` share, counting from `k`.
pub open spec fn common_chars(a: Seq<char>, b: Seq<char>, k: int) -> int
    decreases a.len() - k,
{
    if 0 <= k < a.len() && k < b.len() && a[k] == b[k] {
        common_chars(a, b, k + 1)
    } else {
        k
    }
}

/// Equal char sequences have equal byte lengths.
proof fn lemma_equal_prefix_offsets(a: Seq<char>, b: Seq<char>, k: int)
    requires
        0 <= k <= a.len(),
        k <= b.len(),
        forall|j: int| 0 <= j < k ==> a[j] == b[j],
    ensures
        byte_offset(a, k) == byte_offset(b, k),
{
    assert(a.take(k) =~= b.take(k));
}

/// Byte length of the longest common prefix of two texts.
pub fn common_prefix_len(left: &str, right: &str) -> (len: usize)
    ensures
        len as int == byte_offset(left@, common_chars(left@, right@, 0)),
{
    let ghost a = left@;
    let ghost b = right@;
    let lc = char_indices(left);
    let rc = char_indices(right);
    let mut matched: usize = 0;
    let mut j: usize = 0;
    while j < lc.len() && j < rc.len()
        invariant
            a == left@,
            b == right@,
            are_char_indices(lc@, a),
            are_char_indices(rc@, b),
            byte_len(a) == left.len(),
            j <= a.len(),
            j <= b.len(),
            forall|k: int| 0 <= k < j ==> a[k] == b[k],
            common_chars(a, b, 0) == common_chars(a, b, j as int),
            matched == byte_offset(a, j as int),
        decreases a.len() - j,
    {
        let (left_index, left_char) = lc[j];
        let (right_index, right_char) = rc[j];
        if left_char != right_char {
            proof {
                lemma_equal_prefix_offsets(a, b, j as int);
            }
            return if left_index < right_index {
                left_index
            } else {
                right_index
            };
        }
        proof {
            lemma_byte_offset_step(a, j as int);
            lemma_byte_offset_bound(a, j + 1);
        }
        matched = left_index + char_len_utf8(left_char);
        j = j + 1;
    }
    matched
}

/// Char indices where the common suffix of `a[..i]` and `b[..j]` starts,
/// not reaching below byte offset `prefix` in either text.
pub open spec fn suffix_starts(a: Seq<char>, b: Seq<char>, i: int, j: int, prefix: int) -> (int, int)
    decreases i,
{
    if 0 < i <= a.len() && 0 < j <= b.len() && byte_offset(a, i - 1) >= prefix && byte_offset(
        b,
        j - 1,
    ) >= prefix && a[i - 1] == b[j - 1] {
        suffix_starts(a, b, i - 1, j - 1, prefix)
    } else {
        (i, j)
    }
}

/// From a shared suffix `a[i..] == b[j..]` that starts at or after char
/// `k`, the search extends it backwards until it reaches `k` in either text
/// or two chars differ.
proof fn lemma_suffix_starts(a: Seq<char>, b: Seq<char>, i: int, j: int, k: int, prefix: int)
    requires
        0 <= k <= i <= a.len(),
        k <= j <= b.len(),
        prefix == byte_offset(a, k),
        prefix == byte_offset(b, k),
        a.subrange(i, a.len() as int) == b.subrange(j, b.len() as int),
    ensures
        ({
            let (x, y) = suffix_starts(a, b, i, j, prefix);
            &&& k <= x <= i
            &&& k <= y <= j
            &&& a.subrange(x, a.len() as int) == b.subrange(y, b.len() as int)
            &&& (x == k || y == k || a[x - 1] != b[y - 1])
        }),
    decreases i,
{
    if i > k && j > k {
        lemma_byte_offset_mono(a, k, i - 1);
        lemma_byte_offset_mono(b, k, j - 1);
        if a[i - 1] == b[j - 1] {
            let sa = a.subrange(i, a.len() as int);
            let sb = b.subrange(j, b.len() as int);
            assert(a.subrange(i - 1, a.len() as int) =~= seq![a[i - 1]] + sa);
            assert(b.subrange(j - 1, b.len() as int) =~= seq![b[j - 1]] + sb);
            lemma_suffix_starts(a, b, i - 1, j - 1, k, prefix);
        }
    } else if i == k {
        if i > 0 {
            lemma_byte_offset_strict(a, i - 1, i);
        }
    } else {
        if j > 0 {
            lemma_byte_offset_strict(b, j - 1, j);
        }
    }
}

/// Given the common prefix that `common_prefix_len` finds, the common suffix
/// that `common_suffix_starts` finds is the longest one clear of it: both
/// suffixes start at or after the prefix, they are equal, and they cannot be
/// extended by one more char without reaching into the prefix of one of the
/// texts or taking two different chars.
pub proof fn lemma_common_suffix_is_longest_clear_of_prefix(left: Seq<char>, right: Seq<char>)
    ensures
        ({
            let k = common_chars(left, right, 0);
            let prefix = byte_offset(left, k) as int;
            let (i, j) = suffix_starts(left, right, left.len() as int, right.len() as int, prefix);
            &&& 0 <= k <= i <= left.len()
            &&& k <= j <= right.len()
            &&& prefix == byte_offset(right, k)
            &&& prefix <= byte_offset(left, i) <= byte_len(left)
            &&& prefix <= byte_offset(right, j) <= byte_len(right)
            &&& left.subrange(i, left.len() as int) == right.subrange(j, right.len() as int)
            &&& (byte_offset(left, i) == prefix || byte_offset(right, j) == prefix || left[i - 1] != right[j - 1])
        }),
{
    let k = common_chars(left, right, 0);
    lemma_common_chars(left, right, 0);
    lemma_equal_prefix_offsets(left, right, k);
    let prefix = byte_offset(left, k) as int;
    assert(left.subrange(left.len() as int, left.len() as int) =~= right.subrange(
        right.len() as int,
        right.len() as int,
    ));
    lemma_suffix_starts(left, right, left.len() as int, right.len() as int, k, prefix);
    let (i, j) = suffix_starts(left, right, left.len() as int, right.len() as int, prefix);
    lemma_byte_offset_mono(left, k, i);
    lemma_byte_offset_mono(right, k, j);
    lemma_byte_offset_bound(left, i);
    lemma_byte_offset_bound(right, j);
}

/// Byte offsets, in each text, where their common suffix (kept clear of the
/// first `prefix` bytes) starts.
pub fn common_suffix_starts(left: &str, right: &str, prefix: usize) -> (ends: (usize, usize))
    ensures
        ({
            let (i, j) = suffix_starts(left@, right@, left@.len() as int, right@.len() as int, prefix as int);
            ends.0 as int == byte_offset(left@, i) && ends.1 as int == byte_offset(right@, j)
        }),
{
    let ghost a = left@;
    let ghost b = right@;
    let lc = char_indices(left);
    let rc = char_indices(right);
    let mut left_end = str_byte_len(left);
    let mut right_end = str_byte_len(right);
    let mut i = lc.len();
    let mut j = rc.len();
    proof {
        lemma_byte_offset_end(a);
        lemma_byte_offset_end(b);
    }
    while i > 0 && j > 0 && lc[i - 1].0 >= prefix && rc[j - 1].0 >= prefix && lc[i - 1].1 == rc[j
        - 1].1
        invariant
            a == left@,
            b == right@,
            are_char_indices(lc@, a),
            are_char_indices(rc@, b),
            i <= a.len(),
            j <= b.len(),
            left_end == byte_offset(a, i as int),
            right_end == byte_offset(b, j as int),
            suffix_starts(a, b, a.len() as int, b.len() as int, prefix as int) == suffix_starts(
                a,
                b,
                i as int,
                j as int,
                prefix as int,
            ),
        decreases i,
    {
        left_end = lc[i - 1].0;
        right_end = rc[j - 1].0;
        i = i - 1;
        j = j - 1;
    }
    (left_end, right_end)
}

// ---------------------------------------------------------------------------
// Line-wise formatting edits.
// ---------------------------------------------------------------------------

/// A replacement of the source bytes in `span`.
#[derive(Debug, PartialEq, Eq)]
pub struct FormattingEdit {
    pub span: Span,
    pub replacement: String,
}

/// The lines of a text as char index ranges `(start, content_end)`: a line
/// ends at a newline, and a `\r` just before the newline is not content. The
/// last line is present when it is not empty or the text ends with a newline.
pub open spec fn line_pieces(cs: Seq<char>, start: int, k: int) -> Seq<(int, int)>
    decreases cs.len() - k,
{
    if k < 0 || k >= cs.len() {
        if start < cs.len() || (cs.len() > 0 && cs.last() == '\n') {
            seq![(start, cs.len() as int)]
        } else {
            seq![]
        }
    } else if cs[k] == '\n' {
        let content_end = if k > start && cs[k - 1] == '\r' {
            k - 1
        } else {
            k
        };
        seq![(start, content_end)] + line_pieces(cs, k + 1, k + 1)
    } else {
        line_pieces(cs, start, k + 1)
    }
}

/// The byte span and text of the line piece `p`.
pub open spec fn piece_view(cs: Seq<char>, p: (int, int)) -> (Span, Seq<char>) {
    (Span { start: byte_offset(cs, p.0) as usize, end: byte_offset(cs, p.1) as usize }, cs.subrange(p.0, p.1))
}

/// The line content spans of a text, in bytes, with their text.
pub open spec fn line_content_spans_spec(cs: Seq<char>) -> Seq<(Span, Seq<char>)> {
    line_pieces(cs, 0, 0).map_values(|p: (int, int)| piece_view(cs, p))
}

pub open spec fn line_entries_view(lines: Seq<(Span, String)>) -> Seq<(Span, Seq<char>)> {
    lines.map_values(|l: (Span, String)| (l.0, l.1@))
}

/// Each line is the text between two char indices of `cs`, and its span
/// runs between their byte offsets.
pub open spec fn lines_in_source(lines: Seq<(Span, String)>, cs: Seq<char>) -> bool {
    forall|i: int|
        #![trigger lines[i]]
        0 <= i < lines.len() ==> exists|ci: int, cj: int|
            0 <= ci <= cj <= cs.len() && lines[i].0.start == byte_offset(cs, ci) && lines[i].0.end
                == byte_offset(cs, cj) && lines[i].1@ == cs.subrange(ci, cj)
}

/// Each line's span holds exactly its text and ends within `len` bytes.
pub open spec fn lines_within(lines: Seq<(Span, String)>, len: int) -> bool {
    forall|i: int|
        #![trigger lines[i]]
        0 <= i < lines.len() ==> lines[i].0.start + byte_len(lines[i].1@) == lines[i].0.end
            && lines[i].0.end <= len
}

/// The lines of `source` with the byte span and text of their content.
pub fn line_content_spans(source: &str) -> (lines: Vec<(Span, String)>)
    ensures
        line_entries_view(lines@) == line_content_spans_spec(source@),
        lines_within(lines@, byte_len(source@) as int),
        lines_in_source(lines@, source@),
{
    let ghost cs = source@;
    let chars = source_chars(source);
    let cis = char_indices(source);
    let len = str_byte_len(source);
    let mut lines: Vec<(Span, String)> = Vec::new();
    let mut start: usize = 0;
    let mut k: usize = 0;
    let ghost goal = line_content_spans_spec(cs);
    proof {
        lemma_byte_offset_end(cs);
    }
    while k < chars.len()
        invariant
            chars@ == cs,
            cs == source@,
            are_char_indices(cis@, cs),
            len == byte_len(cs),
            byte_offset(cs, cs.len() as int) == byte_len(cs),
            start <= k <= cs.len(),
            goal == line_content_spans_spec(cs),
            lines_within(lines@, len as int),
            lines_in_source(lines@, cs),
            line_entries_view(lines@) + line_pieces(cs, start as int, k as int).map_values(
                |p: (int, int)| piece_view(cs, p),
            ) == goal,
        decreases cs.len() - k,
    {
        if chars[k] != '\n' {
            k = k + 1;
            continue;
        }
        let content_end = if k > start && chars[k - 1] == '\r' {
            k - 1
        } else {
            k
        };
        proof {
            lemma_byte_offset_bound(cs, start as int);
            lemma_byte_offset_bound(cs, content_end as int);
            lemma_byte_offset_split(cs, start as int, content_end as int);
        }
        let span = Span::new(cis[start].0, if content_end < cis.len() {
            cis[content_end].0
        } else {
            len
        });
        let text = string_from_chars(&chars, start, content_end);
        let ghost item = (span, text@);
        proof {
            assert(item == piece_view(cs, (start as int, content_end as int)));
            let nl = lines@.push((span, text));
            assert(nl[lines@.len() as int].0.start == byte_offset(cs, start as int) && nl[lines@.len() as int].0.end == byte_offset(cs, content_end as int) && nl[lines@.len() as int].1@ == cs.subrange(start as int, content_end as int));
            assert(lines_in_source(nl, cs));
            let rest = line_pieces(cs, k + 1, k + 1);
            assert(line_pieces(cs, start as int, k as int) == seq![(start as int, content_end as int)]
                + rest);
            assert((seq![(start as int, content_end as int)] + rest).map_values(|p: (int, int)| piece_view(cs, p)) =~= seq![item]
                + rest.map_values(|p: (int, int)| piece_view(cs, p)));
            assert(line_entries_view(lines@.push((span, text))) =~= line_entries_view(lines@).push(item));
        }
        lines.push((span, text));
        start = k + 1;
        k = k + 1;
    }
    proof {
        assert(k == cs.len());
        assert(line_pieces(cs, start as int, k as int) == (if start < cs.len() || (cs.len() > 0
            && cs.last() == '\n') {
            seq![(start as int, cs.len() as int)]
        } else {
            Seq::<(int, int)>::empty()
        }));
    }
    if start < chars.len() || (chars.len() > 0 && chars[chars.len() - 1] == '\n') {
        proof {
            lemma_byte_offset_bound(cs, start as int);
            lemma_byte_offset_split(cs, start as int, cs.len() as int);
            if start < cs.len() {
                crate::text::lemma_byte_offset_strict(cs, start as int, cs.len() as int);
            }
        }
        let span = Span::new(if start < cis.len() {
            cis[start].0
        } else {
            len
        }, len);
        let text = string_from_chars(&chars, start, chars.len());
        let ghost item = (span, text@);
        proof {
            assert(item == piece_view(cs, (start as int, cs.len() as int)));
            let nl = lines@.push((span, text));
            assert(nl[lines@.len() as int].0.start == byte_offset(cs, start as int) && nl[lines@.len() as int].0.end == byte_offset(cs, cs.len() as int) && nl[lines@.len() as int].1@ == cs.subrange(start as int, cs.len() as int));
            assert(lines_in_source(nl, cs));
            assert(line_entries_view(lines@.push((span, text))) =~= line_entries_view(lines@).push(item));
            assert(seq![(start as int, cs.len() as int)].map_values(|p: (int, int)| piece_view(cs, p)) =~= seq![item]);
        }
        lines.push((span, text));
    } else {
        proof {
            if start < cs.len() {
                crate::text::lemma_byte_offset_strict(cs, start as int, cs.len() as int);
            }
            assert(Seq::<(int, int)>::empty().map_values(|p: (int, int)| piece_view(cs, p)) =~= Seq::<(Span, Seq<char>)>::empty());
            assert(line_entries_view(lines@) + Seq::<(Span, Seq<char>)>::empty() =~= line_entries_view(lines@));
        }
    }
    lines
}

/// Facts about the common prefix: it is shared and fits in both texts.
proof fn lemma_common_chars(a: Seq<char>, b: Seq<char>, k: int)
    requires
        0 <= k <= a.len(),
        k <= b.len(),
        forall|j: int| 0 <= j < k ==> a[j] == b[j],
    ensures
        k <= common_chars(a, b, k) <= a.len(),
        common_chars(a, b, k) <= b.len(),
        forall|j: int| 0 <= j < common_chars(a, b, k) ==> a[j] == b[j],
    decreases a.len() - k,
{
    if k < a.len() && k < b.len() && a[k] == b[k] {
        lemma_common_chars(a, b, k + 1);
    }
}

/// The common suffix never reaches into the common prefix.
proof fn lemma_suffix_starts_bounds(a: Seq<char>, b: Seq<char>, i: int, j: int, p: int, prefix: int)
    requires
        0 <= p <= i <= a.len(),
        p <= j <= b.len(),
        byte_offset(a, p) == prefix,
        byte_offset(b, p) == prefix,
    ensures
        p <= suffix_starts(a, b, i, j, prefix).0 <= i,
        p <= suffix_starts(a, b, i, j, prefix).1 <= j,
    decreases i,
{
    if 0 < i <= a.len() && 0 < j <= b.len() && byte_offset(a, i - 1) >= prefix && byte_offset(
        b,
        j - 1,
    ) >= prefix && a[i - 1] == b[j - 1] {
        if i - 1 < p {
            crate::text::lemma_byte_offset_strict(a, i - 1, p);
        }
        if j - 1 < p {
            crate::text::lemma_byte_offset_strict(b, j - 1, p);
        }
        lemma_suffix_starts_bounds(a, b, i - 1, j - 1, p, prefix);
    }
}

/// The edit that turns the line `a`, whose content starts at byte
/// `line_start`, into the line `b`: none when they are equal, else the
/// replacement of what lies between their common prefix and common suffix.
pub open spec fn line_edit_spec(line_start: int, a: Seq<char>, b: Seq<char>) -> Option<(Span, Seq<char>)> {
    if a == b {
        None
    } else {
        let p = common_chars(a, b, 0);
        let prefix = byte_offset(a, p) as int;
        let (i, j) = suffix_starts(a, b, a.len() as int, b.len() as int, prefix);
        Some(
            (
                Span { start: (line_start + prefix) as usize, end: (line_start + byte_offset(a, i)) as usize },
                b.subrange(p, j),
            ),
        )
    }
}

pub open spec fn edit_view(e: FormattingEdit) -> (Span, Seq<char>) {
    (e.span, e.replacement@)
}

/// The edit turning one line into its formatted form, if they differ.
pub fn line_formatting_edit(source_span: Span, source_line: &str, formatted_line: &str) -> (edit: Option<FormattingEdit>)
    requires
        source_span.start + byte_len(source_line@) <= usize::MAX,
    ensures
        match edit {
            Some(e) => line_edit_spec(source_span.start as int, source_line@, formatted_line@) == Some(edit_view(e)),
            None => line_edit_spec(source_span.start as int, source_line@, formatted_line@) is None,
        },
{
    let ghost a = source_line@;
    let ghost b = formatted_line@;
    if str_equal(source_line, formatted_line) {
        return None;
    }
    let prefix = common_prefix_len(source_line, formatted_line);
    let ghost p = common_chars(a, b, 0);
    proof {
        lemma_common_chars(a, b, 0);
        lemma_equal_prefix_offsets(a, b, p);
    }
    let (source_end, formatted_end) = common_suffix_starts(source_line, formatted_line, prefix);
    let ghost ij = suffix_starts(a, b, a.len() as int, b.len() as int, prefix as int);
    proof {
        lemma_suffix_starts_bounds(a, b, a.len() as int, b.len() as int, p, prefix as int);
        lemma_byte_offset_mono(a, p, ij.0);
        lemma_byte_offset_bound(a, ij.0);
        lemma_byte_offset_mono(b, p, ij.1);
        lemma_index_of_offset(b, p);
        lemma_index_of_offset(b, ij.1);
    }
    let replacement = substring(formatted_line, prefix, formatted_end);
    Some(
        FormattingEdit {
            span: Span::new(source_span.start + prefix, source_span.start + source_end),
            replacement,
        },
    )
}

/// Offsets within a piece of a text, shifted by the piece's start, are
/// offsets within the text.
proof fn lemma_subrange_offset(cs: Seq<char>, ci: int, cj: int, p: int)
    requires
        0 <= ci <= cj <= cs.len(),
        0 <= p <= cj - ci,
    ensures
        byte_offset(cs, ci) + byte_offset(cs.subrange(ci, cj), p) == byte_offset(cs, ci + p),
{
    lemma_byte_offset_split(cs, ci, ci + p);
    assert(cs.subrange(ci, cj).take(p) =~= cs.subrange(ci, ci + p));
}

/// The edit of a line of a text spans char boundaries of the text.
proof fn lemma_line_edit_in_source(cs: Seq<char>, ci: int, cj: int, b: Seq<char>)
    requires
        0 <= ci <= cj <= cs.len(),
        byte_len(cs) <= usize::MAX,
    ensures
        line_edit_spec(byte_offset(cs, ci) as int, cs.subrange(ci, cj), b) matches Some(e) ==> {
            &&& is_boundary(cs, e.0.start as int)
            &&& is_boundary(cs, e.0.end as int)
            &&& e.0.start <= e.0.end
        },
{
    let a = cs.subrange(ci, cj);
    if a != b {
        lemma_common_chars(a, b, 0);
        let p = common_chars(a, b, 0);
        lemma_equal_prefix_offsets(a, b, p);
        let prefix = byte_offset(a, p) as int;
        lemma_suffix_starts_bounds(a, b, a.len() as int, b.len() as int, p, prefix);
        let i = suffix_starts(a, b, a.len() as int, b.len() as int, prefix).0;
        lemma_subrange_offset(cs, ci, cj, p);
        lemma_subrange_offset(cs, ci, cj, i);
        lemma_byte_offset_mono(cs, ci + p, ci + i);
        lemma_byte_offset_bound(cs, ci + i);
        assert(0 <= ci + p <= cs.len() && byte_offset(cs, ci + p) == byte_offset(cs, ci) + prefix);
        assert(0 <= ci + i <= cs.len() && byte_offset(cs, ci + i) == byte_offset(cs, ci) + byte_offset(a, i));
    }
}

/// Edits whose spans run between char boundaries of `cs`, in order.
pub open spec fn edits_on_boundaries(edits: Seq<FormattingEdit>, cs: Seq<char>) -> bool {
    forall|i: int|
        #![trigger edits[i]]
        0 <= i < edits.len() ==> is_boundary(cs, edits[i].span.start as int) && is_boundary(
            cs,
            edits[i].span.end as int,
        ) && edits[i].span.start <= edits[i].span.end
}

/// The edits of corresponding lines, in line order, skipping lines that
/// need none.
pub open spec fn line_edits_upto(sl: Seq<(Span, Seq<char>)>, fl: Seq<(Span, Seq<char>)>, n: int) -> Seq<(Span, Seq<char>)>
    decreases n,
{
    if n <= 0 {
        seq![]
    } else {
        let prev = line_edits_upto(sl, fl, n - 1);
        match line_edit_spec(sl[n - 1].0.start as int, sl[n - 1].1, fl[n - 1].1) {
            Some(e) => prev.push(e),
            None => prev,
        }
    }
}

/// Line-wise edits from a text to its formatted form: none when the two
/// have a different number of lines.
pub open spec fn line_edits_spec(source: Seq<char>, formatted: Seq<char>) -> Seq<(Span, Seq<char>)> {
    let sl = line_content_spans_spec(source);
    let fl = line_content_spans_spec(formatted);
    if sl.len() != fl.len() {
        seq![]
    } else {
        line_edits_upto(sl, fl, sl.len() as int)
    }
}

/// The edits that turn each line of `source` into the matching line of
/// `formatted`.
pub fn line_formatting_edits(source: &str, formatted: &str) -> (edits: Vec<FormattingEdit>)
    ensures
        edits@.map_values(|e: FormattingEdit| edit_view(e)) == line_edits_spec(source@, formatted@),
        edits_on_boundaries(edits@, source@),
{
    let source_lines = line_content_spans(source);
    let formatted_lines = line_content_spans(formatted);
    let ghost sl = line_content_spans_spec(source@);
    let ghost fl = line_content_spans_spec(formatted@);
    proof {
        assert(source_lines@.len() == sl.len());
        assert(formatted_lines@.len() == fl.len());
    }
    let mut edits: Vec<FormattingEdit> = Vec::new();
    let _source_len = str_byte_len(source);
    if source_lines.len() != formatted_lines.len() {
        proof {
            assert(edits@.map_values(|e: FormattingEdit| edit_view(e)) =~= Seq::<(Span, Seq<char>)>::empty());
        }
        return edits;
    }
    let mut k: usize = 0;
    while k < source_lines.len()
        invariant
            sl == line_content_spans_spec(source@),
            fl == line_content_spans_spec(formatted@),
            line_entries_view(source_lines@) == sl,
            line_entries_view(formatted_lines@) == fl,
            lines_within(source_lines@, byte_len(source@) as int),
            lines_in_source(source_lines@, source@),
            byte_len(source@) <= usize::MAX,
            edits_on_boundaries(edits@, source@),
            source_lines@.len() == formatted_lines@.len(),
            k <= source_lines@.len(),
            edits@.map_values(|e: FormattingEdit| edit_view(e)) == line_edits_upto(sl, fl, k as int),
        decreases source_lines@.len() - k,
    {
        let ghost entry = source_lines@[k as int];
        proof {
            assert(sl[k as int] == (entry.0, entry.1@));
            assert(fl[k as int] == (formatted_lines@[k as int].0, formatted_lines@[k as int].1@));
            crate::text::lemma_byte_len_is_encoding_len(source@);
        }
        proof {
            let (ci, cj) = choose|ci: int, cj: int|
                0 <= ci <= cj <= source@.len() && entry.0.start == byte_offset(source@, ci)
                    && entry.0.end == byte_offset(source@, cj) && entry.1@ == source@.subrange(ci, cj);
            lemma_line_edit_in_source(source@, ci, cj, formatted_lines@[k as int].1@);
        }
        let edit = line_formatting_edit(
            source_lines[k].0,
            source_lines[k].1.as_str(),
            formatted_lines[k].1.as_str(),
        );
        match edit {
            Some(e) => {
                proof {
                    assert(edits@.push(e).map_values(|e: FormattingEdit| edit_view(e)) =~= edits@.map_values(|e: FormattingEdit| edit_view(e)).push(edit_view(e)));
                }
                edits.push(e);
            },
            None => {},
        }
        k = k + 1;
    }
    edits
}

// ---------------------------------------------------------------------------
// Formatter errors.
// ---------------------------------------------------------------------------

/// A parse error reported by the formatter.
#[derive(Debug, PartialEq, Eq)]
pub struct FormatParseError {
    pub message: String,
    pub span: Span,
}

/// The message shown when formatting is skipped because of parse errors:
/// with the one-based line and column of the first error and its message,
/// when there is one.
pub open spec fn skipped_formatting_message(source: Seq<char>, first: Option<(Seq<char>, Span)>) -> Seq<
    char,
> {
    match first {
        None => "qlang: document formatting skipped because the document has parse errors"@,
        Some((message, span)) => {
            let p = offset_position(source, span.start as int);
            "qlang: document formatting skipped because the document has parse errors at "@
                + decimal((p.line + 1) as nat) + ":"@ + decimal((p.character + 1) as nat) + ": "@
                + message
        },
    }
}

/// The formatter's result as the language server reports it: the formatted
/// text, or the message explaining why formatting was skipped.
pub fn format_source_for_lsp(source: &str, formatted: Result<String, Vec<FormatParseError>>) -> (r:
    Result<String, String>)
    requires
        formatted matches Err(errors) ==> (errors@.len() > 0 ==> is_boundary(
            source@,
            clamp_offset(source@, errors@[0].span.start as int),
        )),
        formatted matches Err(errors) ==> (errors@.len() > 0 ==> is_boundary(
            source@,
            clamp_offset(source@, errors@[0].span.end as int),
        )),
    ensures
        match formatted {
            Ok(text) => r == Ok::<String, String>(text),
            Err(errors) => match r {
                Err(message) => message@ == skipped_formatting_message(
                    source@,
                    if errors@.len() > 0 {
                        Some((errors@[0].message@, errors@[0].span))
                    } else {
                        None
                    },
                ),
                Ok(_) => false,
            },
        },
{
    match formatted {
        Ok(text) => Ok(text),
        Err(errors) => {
            if errors.len() == 0 {
                return Err(
                    String::from_str(
                        "qlang: document formatting skipped because the document has parse errors",
                    ),
                );
            }
            let error = &errors[0];
            let range = span_to_range(source, error.span);
            let mut message = String::from_str(
                "qlang: document formatting skipped because the document has parse errors at ",
            );
            let line = decimal_string(range.start.line as u64 + 1);
            message.append(line.as_str());
            message.append(":");
            let column = decimal_string(range.start.character as u64 + 1);
            message.append(column.as_str());
            message.append(": ");
            message.append(error.message.as_str());
            Err(message)
        },
    }
}

// ---------------------------------------------------------------------------
// Editor text edits.
// ---------------------------------------------------------------------------

/// The formatter's outcome as the language server reports it.
pub open spec fn lsp_format_outcome(source: Seq<char>, formatted: Result<String, Vec<FormatParseError>>) -> Result<Seq<char>, Seq<char>> {
    match formatted {
        Ok(text) => Ok(text@),
        Err(errors) => Err(
            skipped_formatting_message(
                source,
                if errors@.len() > 0 {
                    Some((errors@[0].message@, errors@[0].span))
                } else {
                    None
                },
            ),
        ),
    }
}

/// The first parse error, if any, starts and ends on char boundaries of
/// the source (once clamped to its end).
pub open spec fn first_error_on_boundaries(source: Seq<char>, formatted: Result<String, Vec<FormatParseError>>) -> bool {
    formatted matches Err(errors) ==> (errors@.len() > 0 ==> is_boundary(
        source,
        clamp_offset(source, errors@[0].span.start as int),
    ) && is_boundary(source, clamp_offset(source, errors@[0].span.end as int)))
}

/// Whole-document formatting: no edit when the text is already formatted,
/// else one edit that replaces the whole text.
pub fn document_formatting_edits(source: &str, formatted: Result<String, Vec<FormatParseError>>) -> (r: Result<Vec<TextEdit>, String>)
    requires
        first_error_on_boundaries(source@, formatted),
    ensures
        match lsp_format_outcome(source@, formatted) {
            Err(message) => r matches Err(m) && m@ == message,
            Ok(text) => r matches Ok(edits) && text_edits_view(edits@) == if text == source@ {
                Seq::<(Range, Seq<char>)>::empty()
            } else {
                seq![(span_range(source@, Span { start: 0, end: byte_len(source@) as usize }), text)]
            },
        },
{
    let formatted = match format_source_for_lsp(source, formatted) {
        Ok(text) => text,
        Err(message) => {
            return Err(message);
        },
    };
    let mut edits: Vec<TextEdit> = Vec::new();
    if str_equal(formatted.as_str(), source) {
        proof {
            assert(text_edits_view(edits@) =~= Seq::<(Range, Seq<char>)>::empty());
        }
        return Ok(edits);
    }
    let len = str_byte_len(source);
    proof {
        lemma_byte_offset_end(source@);
        crate::text::lemma_index_of_offset(source@, 0);
        crate::text::lemma_index_of_offset(source@, source@.len() as int);
        assert(source@.take(0) =~= Seq::<char>::empty());
    }
    let range = span_to_range(source, Span::new(0, len));
    let ghost text = formatted@;
    edits.push(TextEdit::new(range, formatted));
    proof {
        assert(text_edits_view(edits@) =~= seq![(range, text)]);
    }
    Ok(edits)
}

/// The byte span between the two ends of an editor range, in order.
pub open spec fn range_offsets_spec(source: Seq<char>, range: Range) -> Result<Span, Seq<char>> {
    match position_offset(source, range.start.line as int, range.start.character as int) {
        None => Err("qlang: formatting skipped because the range start is invalid"@),
        Some(start) => match position_offset(source, range.end.line as int, range.end.character as int) {
            None => Err("qlang: formatting skipped because the range end is invalid"@),
            Some(end) => Ok(
                if start <= end {
                    Span { start: start as usize, end: end as usize }
                } else {
                    Span { start: end as usize, end: start as usize }
                },
            ),
        },
    }
}

/// The byte span that an editor range covers.
pub fn range_offsets(source: &str, range: Range) -> (r: Result<Span, String>)
    ensures
        match range_offsets_spec(source@, range) {
            Ok(span) => r == Ok::<Span, String>(span),
            Err(message) => r matches Err(m) && m@ == message,
        },
{
    let start = match position_to_offset(source, range.start) {
        Some(o) => o,
        None => {
            return Err(String::from_str("qlang: formatting skipped because the range start is invalid"));
        },
    };
    let end = match position_to_offset(source, range.end) {
        Some(o) => o,
        None => {
            return Err(String::from_str("qlang: formatting skipped because the range end is invalid"));
        },
    };
    if start <= end {
        Ok(Span::new(start, end))
    } else {
        Ok(Span::new(end, start))
    }
}

/// The editor form of the line edits that `keep` selects, in order.
pub open spec fn selected_text_edits(
    source: Seq<char>,
    edits: Seq<(Span, Seq<char>)>,
    keep: spec_fn(Span, Range) -> bool,
) -> Seq<(Range, Seq<char>)>
    decreases edits.len(),
{
    if edits.len() == 0 {
        seq![]
    } else {
        let prev = selected_text_edits(source, edits.drop_last(), keep);
        let e = edits.last();
        if keep(e.0, span_range(source, e.0)) {
            prev.push((span_range(source, e.0), e.1))
        } else {
            prev
        }
    }
}

/// Whether the edit lies inside the requested span.
pub open spec fn edit_inside(requested: Span) -> spec_fn(Span, Range) -> bool {
    |span: Span, range: Range| span.start >= requested.start && span.end <= requested.end
}

/// Whether the edit lies on the line of the trigger position.
pub open spec fn edit_on_line(line: u32) -> spec_fn(Span, Range) -> bool {
    |span: Span, range: Range| range.start.line == line && range.end.line == line
}

/// Whether an edit is kept: inside the requested span (`Ok`) or on the
/// given line (`Err`).
fn keep_edit(edit: &FormattingEdit, range: Range, filter: Result<Span, u32>) -> (keep: bool)
    ensures
        keep == match filter {
            Ok(requested) => (edit_inside(requested))(edit.span, range),
            Err(line) => (edit_on_line(line))(edit.span, range),
        },
{
    match filter {
        Ok(requested) => edit.span.start >= requested.start && edit.span.end <= requested.end,
        Err(line) => range.start.line == line && range.end.line == line,
    }
}

pub open spec fn edit_filter(filter: Result<Span, u32>) -> spec_fn(Span, Range) -> bool {
    match filter {
        Ok(requested) => edit_inside(requested),
        Err(line) => edit_on_line(line),
    }
}

/// The line edits from `source` to `formatted` that the filter keeps, as
/// editor edits.
fn select_text_edits(source: &str, formatted: &str, filter: Result<Span, u32>) -> (r: Vec<TextEdit>)
    ensures
        text_edits_view(r@) == selected_text_edits(source@, line_edits_spec(source@, formatted@), edit_filter(filter)),
{
    let edits = line_formatting_edits(source, formatted);
    let ghost ev = line_edits_spec(source@, formatted@);
    let ghost keep = edit_filter(filter);
    let mut out: Vec<TextEdit> = Vec::new();
    let mut k: usize = 0;
    while k < edits.len()
        invariant
            edits@.map_values(|e: FormattingEdit| edit_view(e)) == ev,
            edits_on_boundaries(edits@, source@),
            keep == edit_filter(filter),
            k <= edits@.len(),
            text_edits_view(out@) == selected_text_edits(source@, ev.take(k as int), keep),
        decreases edits@.len() - k,
    {
        let edit = &edits[k];
        proof {
            assert(is_boundary(source@, edit.span.start as int));
            assert(is_boundary(source@, edit.span.end as int));
            assert(clamp_offset(source@, edit.span.start as int) == edit.span.start) by {
                let w = choose|i: int| 0 <= i <= source@.len() && byte_offset(source@, i) == edit.span.start;
                lemma_byte_offset_bound(source@, w);
            }
            assert(clamp_offset(source@, edit.span.end as int) == edit.span.end) by {
                let w = choose|i: int| 0 <= i <= source@.len() && byte_offset(source@, i) == edit.span.end;
                lemma_byte_offset_bound(source@, w);
            }
            assert(ev.take(k + 1).drop_last() =~= ev.take(k as int));
            assert(ev.take(k + 1).last() == edit_view(*edit));
        }
        let range = span_to_range(source, edit.span);
        if keep_edit(edit, range, filter) {
            let text = edit.replacement.clone();
            let ghost before = out@;
            out.push(TextEdit::new(range, text));
            proof {
                assert(text_edits_view(out@) =~= text_edits_view(before).push((range, edit.replacement@)));
            }
        }
        k = k + 1;
    }
    proof {
        assert(ev.take(edits@.len() as int) =~= ev);
    }
    out
}

/// Range formatting: the line edits that lie inside the requested range.
pub fn range_formatting_edits(source: &str, range: Range, formatted: Result<String, Vec<FormatParseError>>) -> (r: Result<Vec<TextEdit>, String>)
    requires
        first_error_on_boundaries(source@, formatted),
    ensures
        match lsp_format_outcome(source@, formatted) {
            Err(message) => r matches Err(m) && m@ == message,
            Ok(text) => match range_offsets_spec(source@, range) {
                Err(message) => r matches Err(m) && m@ == message,
                Ok(requested) => r matches Ok(edits) && text_edits_view(edits@) == selected_text_edits(
                    source@,
                    line_edits_spec(source@, text),
                    edit_inside(requested),
                ),
            },
        },
{
    let formatted = match format_source_for_lsp(source, formatted) {
        Ok(text) => text,
        Err(message) => {
            return Err(message);
        },
    };
    let requested = match range_offsets(source, range) {
        Ok(span) => span,
        Err(message) => {
            return Err(message);
        },
    };
    Ok(select_text_edits(source, formatted.as_str(), Ok(requested)))
}

/// Whether a typed text triggers formatting: a newline, `}`, `;` or `,`.
pub open spec fn is_format_trigger(ch: Seq<char>) -> bool {
    ch == "\n"@ || ch == "}"@ || ch == ";"@ || ch == ","@
}

/// On-type formatting: the line edits on the line of the trigger position,
/// after one of the trigger texts was typed.
pub fn on_type_formatting_edits(
    source: &str,
    position: Position,
    ch: &str,
    formatted: Result<String, Vec<FormatParseError>>,
) -> (r: Result<Vec<TextEdit>, String>)
    requires
        first_error_on_boundaries(source@, formatted),
    ensures
        !is_format_trigger(ch@) ==> (r matches Ok(edits) && edits@.len() == 0),
        is_format_trigger(ch@) && position_offset(source@, position.line as int, position.character as int) is None
            ==> (r matches Err(m) && m@ == "qlang: formatting skipped because the trigger position is invalid"@),
        is_format_trigger(ch@) && position_offset(source@, position.line as int, position.character as int) is Some
            ==> match lsp_format_outcome(source@, formatted) {
            Err(message) => r matches Err(m) && m@ == message,
            Ok(text) => r matches Ok(edits) && text_edits_view(edits@) == selected_text_edits(
                source@,
                line_edits_spec(source@, text),
                edit_on_line(position.line),
            ),
        },
{
    if !(str_equal(ch, "\n") || str_equal(ch, "}") || str_equal(ch, ";") || str_equal(ch, ",")) {
        return Ok(Vec::new());
    }
    if position_to_offset(source, position).is_none() {
        return Err(String::from_str("qlang: formatting skipped because the trigger position is invalid"));
    }
    let formatted = match format_source_for_lsp(source, formatted) {
        Ok(text) => text,
        Err(message) => {
            return Err(message);
        },
    };
    Ok(select_text_edits(source, formatted.as_str(), Err(position.line)))
}

} // verus!
