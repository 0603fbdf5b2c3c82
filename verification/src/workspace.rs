use vstd::prelude::*;
use vstd::string::StringExecFns;

use crate::strings::{
    find_char, find_char_from, is_prefix_of, lemma_find_char, replace_char,
    replace_char_spec, split_char, split_spec, starts_with, trim, trim_bounds, trim_spec,
    trim_start_matches_spec,
};
use crate::locations::{chars_le, lemma_chars_le_total, lemma_chars_le_transitive, str_chars_le};
use crate::sorting::{dedup_by_key, lemma_dedup_by_key, lemma_insert_stable_at, lemma_stable_sort, stable_sort, total_preorder};
use crate::text::{
    str_equal, byte_len, byte_offset, char_indices, index_of_offset, is_boundary, lemma_byte_offset_end,
    lemma_byte_offset_step, source_chars, str_byte_len, string_from_chars,
    };

verus! {

// ---------------------------------------------------------------------------
// Paths.
// ---------------------------------------------------------------------------

/// A path written with `/` separators only.
pub fn normalize_path(path: &str) -> (normalized: String)
    ensures
        normalized@ == replace_char_spec(path@, '\\', '/'),
{
    replace_char(path, '\\', '/')
}

/// A package-relative source path written with `/` separators only.
pub fn normalized_relative_source_path(path: &str) -> (normalized: String)
    ensures
        normalized@ == replace_char_spec(path@, '\\', '/'),
{
    replace_char(path, '\\', '/')
}

/// A dependency source path with `/` separators and no leading `./`.
pub fn normalized_dependency_source_path(path: &str) -> (normalized: String)
    ensures
        normalized@ == trim_start_matches_spec(replace_char_spec(path@, '\\', '/'), "./"@),
{
    let replaced = replace_char(path, '\\', '/');
    let cs = source_chars(replaced.as_str());
    proof {
        reveal_strlit("./");
    }
    let mut k: usize = 0;
    let ghost goal = trim_start_matches_spec(cs@, "./"@);
    assert(cs@.skip(0) =~= cs@);
    loop
        invariant
            k <= cs@.len(),
            cs@ == replaced@,
            replaced@ == replace_char_spec(path@, '\\', '/'),
            goal == trim_start_matches_spec(cs@, "./"@),
            trim_start_matches_spec(cs@.skip(k as int), "./"@) == goal,
        decreases cs@.len() - k,
    {
        let rest = string_from_chars(&cs, k, cs.len());
        assert(rest@ =~= cs@.skip(k as int));
        proof {
            reveal_strlit("./");
        }
        if !starts_with(rest.as_str(), "./") {
            return rest;
        }
        let n = "./".unicode_len();
        proof {
            reveal_strlit("./");
            assert(cs@.skip(k as int).skip(2) =~= cs@.skip(k + 2));
        }
        k = k + n;
    }
}

/// The path parts that `relative_path_from` compares: `/`-separated pieces,
/// without empty ones and `.`.
pub open spec fn path_parts(path: Seq<char>) -> Seq<Seq<char>> {
    split_spec(path, '/').filter(|p: Seq<char>| p.len() > 0 && p != "."@)
}

/// Number of leading parts that `a` and `b` share, counting from `k`.
pub open spec fn common_parts(a: Seq<Seq<char>>, b: Seq<Seq<char>>, k: int) -> int
    decreases a.len() - k,
{
    if 0 <= k < a.len() && k < b.len() && a[k] == b[k] {
        common_parts(a, b, k + 1)
    } else {
        k
    }
}

/// The parts joined with `/`.
pub open spec fn join_parts(parts: Seq<Seq<char>>) -> Seq<char>
    decreases parts.len(),
{
    if parts.len() == 0 {
        Seq::empty()
    } else if parts.len() == 1 {
        parts[0]
    } else {
        join_parts(parts.drop_last()) + "/"@ + parts.last()
    }
}

/// The relative path from directory `from` to `to`, in `/` notation: as
/// many `..` as `from` has parts beyond the shared ones, then the rest of
/// `to`; `.` when that is empty; `to` itself when the two share no first part.
pub open spec fn relative_path_spec(from: Seq<char>, to: Seq<char>) -> Seq<char> {
    let from_n = replace_char_spec(from, '\\', '/');
    let to_n = replace_char_spec(to, '\\', '/');
    let fp = path_parts(from_n);
    let tp = path_parts(to_n);
    let common = common_parts(fp, tp, 0);
    if common == 0 && fp.len() > 0 && tp.len() > 0 && fp[0] != tp[0] {
        to_n
    } else {
        let relative = Seq::new((fp.len() - common) as nat, |i: int| ".."@) + tp.skip(common);
        if relative.len() == 0 {
            "."@
        } else {
            join_parts(relative)
        }
    }
}

/// The parts of a normalized path.
fn path_parts_of(path: &str) -> (parts: Vec<String>)
    ensures
        parts@.map_values(|p: String| p@) == path_parts(path@),
{
    let pieces = split_char(path, '/');
    let ghost all = split_spec(path@, '/');
    let mut parts: Vec<String> = Vec::new();
    let mut i: usize = 0;
    assert(all.take(0).filter(|p: Seq<char>| p.len() > 0 && p != "."@) =~= Seq::<Seq<char>>::empty());
    while i < pieces.len()
        invariant
            pieces@.map_values(|p: String| p@) == all,
            all == split_spec(path@, '/'),
            i <= pieces@.len(),
            parts@.map_values(|p: String| p@) == all.take(i as int).filter(
                |p: Seq<char>| p.len() > 0 && p != "."@,
            ),
        decreases pieces@.len() - i,
    {
        let piece = &pieces[i];
        proof {
            assert(all[i as int] == pieces@[i as int]@);
            all.take(i as int).lemma_filter_push(all[i as int], |p: Seq<char>| p.len() > 0 && p != "."@);
            assert(all.take(i + 1) =~= all.take(i as int).push(all[i as int]));
        }
        if !piece.as_str().is_empty() && !crate::text::str_equal(piece.as_str(), ".") {
            let copy = piece.clone();
            proof {
                assert(parts@.push(copy).map_values(|p: String| p@) =~= parts@.map_values(
                    |p: String| p@,
                ).push(copy@));
            }
            parts.push(copy);
        }
        i = i + 1;
    }
    assert(all.take(pieces@.len() as int) =~= all);
    parts
}

fn join_strings(parts: &Vec<String>) -> (joined: String)
    ensures
        joined@ == join_parts(parts@.map_values(|p: String| p@)),
{
    let ghost v = parts@.map_values(|p: String| p@);
    let mut joined = String::new();
    let mut i: usize = 0;
    assert(v.take(0) =~= Seq::<Seq<char>>::empty());
    while i < parts.len()
        invariant
            v == parts@.map_values(|p: String| p@),
            i <= parts@.len(),
            joined@ == join_parts(v.take(i as int)),
        decreases parts@.len() - i,
    {
        if i > 0 {
            joined.append("/");
        }
        joined.append(parts[i].as_str());
        proof {
            assert(v.take(i + 1).drop_last() =~= v.take(i as int));
            assert(v[i as int] == parts@[i as int]@);
            if i == 0 {
                assert(joined@ =~= v[0]);
            }
        }
        i = i + 1;
    }
    assert(v.take(parts@.len() as int) =~= v);
    joined
}

/// The relative path from directory `from` to `to`.
pub fn relative_path_from(from: &str, to: &str) -> (relative: String)
    ensures
        relative@ == relative_path_spec(from@, to@),
{
    let from_n = normalize_path(from);
    let to_n = normalize_path(to);
    let from_parts = path_parts_of(from_n.as_str());
    let to_parts = path_parts_of(to_n.as_str());
    let ghost fp = path_parts(from_n@);
    let ghost tp = path_parts(to_n@);
    let mut common: usize = 0;
    while common < from_parts.len() && common < to_parts.len() && from_parts[common]
        == to_parts[common]
        invariant
            from_parts@.map_values(|p: String| p@) == fp,
            to_parts@.map_values(|p: String| p@) == tp,
            common <= from_parts@.len(),
            common <= to_parts@.len(),
            common_parts(fp, tp, 0) == common_parts(fp, tp, common as int),
        decreases from_parts@.len() - common,
    {
        proof {
            assert(fp[common as int] == from_parts@[common as int]@);
            assert(tp[common as int] == to_parts@[common as int]@);
        }
        common = common + 1;
    }
    proof {
        if common < from_parts@.len() && common < to_parts@.len() {
            assert(fp[common as int] == from_parts@[common as int]@);
            assert(tp[common as int] == to_parts@[common as int]@);
        }
    }
    if common == 0 && from_parts.len() > 0 && to_parts.len() > 0 && from_parts[0] != to_parts[0] {
        proof {
            assert(fp[0] == from_parts@[0]@);
            assert(tp[0] == to_parts@[0]@);
        }
        return to_n;
    }
    proof {
        if common == 0 && from_parts@.len() > 0 && to_parts@.len() > 0 {
            assert(fp[0] == from_parts@[0]@);
            assert(tp[0] == to_parts@[0]@);
        }
    }
    let mut relative: Vec<String> = Vec::new();
    let ups = from_parts.len() - common;
    let mut k: usize = 0;
    while k < ups
        invariant
            k <= ups,
            relative@.map_values(|p: String| p@) == Seq::new(k as nat, |i: int| ".."@),
        decreases ups - k,
    {
        let up = String::from_str("..");
        proof {
            assert(relative@.push(up).map_values(|p: String| p@) =~= relative@.map_values(
                |p: String| p@,
            ).push(up@));
            assert(relative@.push(up).map_values(|p: String| p@) =~= Seq::new(
                (k + 1) as nat,
                |i: int| ".."@,
            ));
        }
        relative.push(up);
        k = k + 1;
    }
    let mut j = common;
    let ghost ups_seq = Seq::new(ups as nat, |i: int| ".."@);
    assert(tp.skip(common as int).take(0) =~= Seq::<Seq<char>>::empty());
    assert(ups_seq + Seq::<Seq<char>>::empty() =~= ups_seq);
    while j < to_parts.len()
        invariant
            to_parts@.map_values(|p: String| p@) == tp,
            common <= j <= to_parts@.len(),
            relative@.map_values(|p: String| p@) == ups_seq + tp.skip(common as int).take(
                j - common,
            ),
        decreases to_parts@.len() - j,
    {
        let part = to_parts[j].clone();
        proof {
            assert(tp[j as int] == to_parts@[j as int]@);
            assert(part@ == tp[j as int]);
            assert(relative@.push(part).map_values(|p: String| p@) =~= relative@.map_values(
                |p: String| p@,
            ).push(part@));
            assert(relative@.push(part).map_values(|p: String| p@) =~= ups_seq + tp.skip(
                common as int,
            ).take(j + 1 - common));
        }
        relative.push(part);
        j = j + 1;
    }
    assert(tp.skip(common as int).take(to_parts@.len() - common) =~= tp.skip(common as int));
    if relative.len() == 0 {
        String::from_str(".")
    } else {
        join_strings(&relative)
    }
}

// ---------------------------------------------------------------------------
// Package declarations and import placement.
// ---------------------------------------------------------------------------

/// The first line whose trimmed text is neither empty nor a `//` comment,
/// searching the lines from index `k`.
pub open spec fn first_significant_line(lines: Seq<Seq<char>>, k: int) -> Option<Seq<char>>
    decreases lines.len() - k,
{
    if k < 0 || k >= lines.len() {
        None
    } else {
        let t = trim_spec(lines[k]);
        if t.len() == 0 || is_prefix_of("//"@, t) {
            first_significant_line(lines, k + 1)
        } else {
            Some(t)
        }
    }
}

/// The dot-separated segments of the package declaration that a source opens
/// with: the first significant line must read `package ` followed by at
/// least one non-empty segment.
pub open spec fn package_segments_spec(source: Seq<char>) -> Option<Seq<Seq<char>>> {
    match first_significant_line(split_spec(source, '\n'), 0) {
        None => None,
        Some(t) => if !is_prefix_of("package "@, t) {
            None
        } else {
            let segments = split_spec(t.skip("package "@.len() as int), '.').map_values(
                |p: Seq<char>| trim_spec(p),
            ).filter(|p: Seq<char>| p.len() > 0);
            if segments.len() == 0 {
                None
            } else {
                Some(segments)
            }
        },
    }
}

pub fn package_path_segments(source: &str) -> (segments: Option<Vec<String>>)
    ensures
        match segments {
            Some(v) => package_segments_spec(source@) == Some(v@.map_values(|p: String| p@)),
            None => package_segments_spec(source@) is None,
        },
{
    let lines = split_char(source, '\n');
    let ghost ls = split_spec(source@, '\n');
    let mut k: usize = 0;
    while k < lines.len()
        invariant
            lines@.map_values(|p: String| p@) == ls,
            ls == split_spec(source@, '\n'),
            k <= lines@.len(),
            first_significant_line(ls, 0) == first_significant_line(ls, k as int),
        decreases lines@.len() - k,
    {
        let trimmed = trim(lines[k].as_str());
        proof {
            assert(ls[k as int] == lines@[k as int]@);
        }
        if trimmed.as_str().is_empty() || starts_with(trimmed.as_str(), "//") {
            k = k + 1;
            continue;
        }
        assert(first_significant_line(ls, 0) == Some(trimmed@));
        if !starts_with(trimmed.as_str(), "package ") {
            return None;
        }
        let tc = source_chars(trimmed.as_str());
        let n = "package ".unicode_len();
        let rest = string_from_chars(&tc, n, tc.len());
        assert(rest@ =~= trimmed@.skip("package "@.len() as int));
        let pieces = split_char(rest.as_str(), '.');
        let ghost ps = split_spec(rest@, '.');
        let ghost mapped = ps.map_values(|p: Seq<char>| trim_spec(p));
        let mut out: Vec<String> = Vec::new();
        let mut i: usize = 0;
        assert(mapped.take(0).filter(|p: Seq<char>| p.len() > 0) =~= Seq::<Seq<char>>::empty());
        while i < pieces.len()
            invariant
                pieces@.map_values(|p: String| p@) == ps,
                mapped == ps.map_values(|p: Seq<char>| trim_spec(p)),
                i <= pieces@.len(),
                out@.map_values(|p: String| p@) == mapped.take(i as int).filter(
                    |p: Seq<char>| p.len() > 0,
                ),
            decreases pieces@.len() - i,
        {
            let t = trim(pieces[i].as_str());
            proof {
                assert(ps[i as int] == pieces@[i as int]@);
                assert(mapped[i as int] == t@);
                mapped.take(i as int).lemma_filter_push(mapped[i as int], |p: Seq<char>| p.len() > 0);
                assert(mapped.take(i + 1) =~= mapped.take(i as int).push(mapped[i as int]));
            }
            if !t.as_str().is_empty() {
                proof {
                    assert(out@.push(t).map_values(|p: String| p@) =~= out@.map_values(
                        |p: String| p@,
                    ).push(t@));
                }
                out.push(t);
            }
            i = i + 1;
        }
        assert(mapped.take(pieces@.len() as int) =~= mapped);
        if out.len() == 0 {
            return None;
        }
        return Some(out);
    }
    None
}

/// The byte offset just past the first newline at or after `offset`, or the
/// text length when there is none.
pub open spec fn line_break_end_spec(cs: Seq<char>, offset: int) -> int {
    let m = index_of_offset(cs, offset);
    match find_char(cs.skip(m), '\n') {
        Some(i) => byte_offset(cs, m + i) as int + 1,
        None => byte_len(cs) as int,
    }
}

pub fn line_break_end_offset(source: &str, offset: usize) -> (end: usize)
    requires
        is_boundary(source@, offset as int),
    ensures
        end as int == line_break_end_spec(source@, offset as int),
        is_boundary(source@, end as int),
{
    let ghost cs = source@;
    let cis = char_indices(source);
    let len = str_byte_len(source);
    let cs_exec = source_chars(source);
    let mut m: usize = 0;
    while m < cis.len() && cis[m].0 < offset
        invariant
            crate::text::are_char_indices(cis@, cs),
            m <= cs.len(),
            forall|j: int| 0 <= j < m ==> #[trigger] byte_offset(cs, j) < offset,
        decreases cs.len() - m,
    {
        m = m + 1;
    }
    proof {
        let k = index_of_offset(cs, offset as int);
        assert(0 <= k <= cs.len() && byte_offset(cs, k) == offset);
        if k < m {
            assert(byte_offset(cs, k) < offset);
        }
        if m < k {
            crate::text::lemma_byte_offset_strict(cs, m as int, k);
            assert(byte_offset(cs, m as int) >= offset);
        }
        assert(k == m);
    }
    match find_char_from(&cs_exec, m, '\n') {
        Some(i) => {
            proof {
                lemma_find_char(cs.skip(m as int), '\n');
                lemma_byte_offset_step(cs, m + i);
                assert(cs[m + i] == '\n');
                crate::text::lemma_byte_offset_bound(cs, m + i + 1);
                lemma_byte_offset_end(cs);
                assert(byte_offset(cs, m + i + 1) == cis@[m + i].0 + 1);
            }
            cis[m + i].0 + 1
        },
        None => {
            proof {
                lemma_byte_offset_end(cs);
                assert(byte_offset(cs, cs.len() as int) == len);
            }
            len
        },
    }
}

/// Char index just past the chunk (a line with its newline) starting at `k`.
pub open spec fn chunk_end(cs: Seq<char>, k: int) -> int {
    match find_char(cs.skip(k), '\n') {
        Some(i) => k + i + 1,
        None => cs.len() as int,
    }
}

/// Char index of the first chunk, from `k` on, that is neither blank nor a
/// `//` comment.
pub open spec fn skip_leading_chunks(cs: Seq<char>, k: int) -> int
    decreases cs.len() - k,
{
    if k < 0 || k >= cs.len() {
        k
    } else {
        let e = chunk_end(cs, k);
        if k < e <= cs.len() && (trim_spec(cs.subrange(k, e)).len() == 0 || is_prefix_of(
            "//"@,
            trim_spec(cs.subrange(k, e)),
        )) {
            skip_leading_chunks(cs, e)
        } else {
            k
        }
    }
}

/// Byte offset past the leading blank and comment lines.
pub fn leading_comment_or_blank_insert_offset(source: &str) -> (offset: usize)
    ensures
        offset as int == byte_offset(source@, skip_leading_chunks(source@, 0)),
        is_boundary(source@, offset as int),
{
    let ghost cs = source@;
    let chars = source_chars(source);
    let cis = char_indices(source);
    let len = str_byte_len(source);
    let mut k: usize = 0;
    loop
        invariant
            chars@ == cs,
            cs == source@,
            crate::text::are_char_indices(cis@, cs),
            len == byte_len(cs),
            k <= cs.len(),
            skip_leading_chunks(cs, 0) == skip_leading_chunks(cs, k as int),
        decreases cs.len() - k,
    {
        if k >= chars.len() {
            proof {
                lemma_byte_offset_end(cs);
                assert(byte_offset(cs, cs.len() as int) == len);
            }
            return len;
        }
        let e = match find_char_from(&chars, k, '\n') {
            Some(i) => {
                proof {
                    lemma_find_char(cs.skip(k as int), '\n');
                }
                k + i + 1
            },
            None => chars.len(),
        };
        assert(e as int == chunk_end(cs, k as int));
        let (a, b) = trim_bounds(&chars, k, e);
        let t = string_from_chars(&chars, a, b);
        if e > k && (a == b || starts_with(t.as_str(), "//")) {
            k = e;
        } else {
            proof {
                assert(byte_offset(cs, k as int) == cis@[k as int].0);
            }
            return cis[k].0;
        }
    }
}

/// The text inserted for an import statement at `offset`: the statement and
/// a newline, plus a blank line unless the insertion point already starts a
/// line break or ends a non-empty text.
pub open spec fn auto_import_insert_text_spec(source: Seq<char>, offset: int, import_stmt: Seq<char>) -> Seq<char> {
    if offset == 0 {
        if source.len() == 0 {
            import_stmt + "\n"@
        } else {
            import_stmt + "\n\n"@
        }
    } else {
        let suffix = source.skip(index_of_offset(source, offset));
        if (suffix.len() > 0 && suffix[0] == '\n') || suffix.len() == 0 {
            import_stmt + "\n"@
        } else {
            import_stmt + "\n\n"@
        }
    }
}

pub fn auto_import_insert_text(source: &str, offset: usize, import_stmt: &str) -> (text: String)
    requires
        offset == 0 || is_boundary(source@, offset as int),
    ensures
        text@ == auto_import_insert_text_spec(source@, offset as int, import_stmt@),
{
    if offset == 0 {
        let mut text = String::from_str(import_stmt);
        if source.is_empty() {
            text.append("\n");
        } else {
            text.append("\n\n");
        }
        return text;
    }
    let ghost cs = source@;
    let cis = char_indices(source);
    let mut m: usize = 0;
    while m < cis.len() && cis[m].0 < offset
        invariant
            crate::text::are_char_indices(cis@, cs),
            m <= cs.len(),
            forall|j: int| 0 <= j < m ==> #[trigger] byte_offset(cs, j) < offset,
        decreases cs.len() - m,
    {
        m = m + 1;
    }
    proof {
        let k = index_of_offset(cs, offset as int);
        assert(0 <= k <= cs.len() && byte_offset(cs, k) == offset);
        if k < m {
            assert(byte_offset(cs, k) < offset);
        }
        if m < k {
            crate::text::lemma_byte_offset_strict(cs, m as int, k);
        }
        assert(k == m);
    }
    let mut text = String::from_str(import_stmt);
    if m == cis.len() || cis[m].1 == '\n' {
        text.append("\n");
    } else {
        text.append("\n\n");
    }
    text
}

// ---------------------------------------------------------------------------
// Manifest paths in canonical order.
// ---------------------------------------------------------------------------

/// A manifest path with its canonical form: the path as given and the path
/// that the file system resolves it to (the path itself where it cannot).
pub open spec fn manifest_entries_view(entries: Seq<(String, String)>) -> Seq<(Seq<char>, Seq<char>)> {
    entries.map_values(|e: (String, String)| (e.0@, e.1@))
}

/// Order of manifest entries by canonical path.
pub open spec fn canonical_order() -> spec_fn((Seq<char>, Seq<char>), (Seq<char>, Seq<char>)) -> bool {
    |a: (Seq<char>, Seq<char>), b: (Seq<char>, Seq<char>)| chars_le(a.1, b.1)
}

/// The entries sorted by canonical path; entries with the same canonical
/// path keep their order.
pub open spec fn manifests_by_canonical(s: Seq<(Seq<char>, Seq<char>)>) -> Seq<(Seq<char>, Seq<char>)> {
    stable_sort(s, canonical_order())
}

/// Drops each entry whose canonical path is that of the entry kept just
/// before it.
pub open spec fn dedup_canonical(s: Seq<(Seq<char>, Seq<char>)>) -> Seq<(Seq<char>, Seq<char>)> {
    dedup_by_key(s, |e: (Seq<char>, Seq<char>)| e.1)
}

/// The entries sorted by canonical path, one per canonical path.
pub open spec fn canonical_manifest_entries(s: Seq<(Seq<char>, Seq<char>)>) -> Seq<(Seq<char>, Seq<char>)> {
    dedup_canonical(manifests_by_canonical(s))
}

/// The paths of the entries, sorted by canonical path, one per canonical path.
pub open spec fn canonical_manifest_paths(s: Seq<(Seq<char>, Seq<char>)>) -> Seq<Seq<char>> {
    canonical_manifest_entries(s).map_values(|e: (Seq<char>, Seq<char>)| e.0)
}

/// The entries whose canonical path differs from `canonical`.
pub open spec fn manifests_other_than(s: Seq<(Seq<char>, Seq<char>)>, canonical: Seq<char>) -> Seq<(Seq<char>, Seq<char>)> {
    s.filter(|e: (Seq<char>, Seq<char>)| e.1 != canonical)
}

/// Canonical-path order ranks any two entries and is transitive.
proof fn lemma_canonical_order_total_preorder()
    ensures
        total_preorder(canonical_order()),
{
    let le = canonical_order();
    assert forall|x: (Seq<char>, Seq<char>), y: (Seq<char>, Seq<char>)| #[trigger] le(x, y) || #[trigger] le(y, x) by {
        lemma_chars_le_total(x.1, y.1);
    }
    assert forall|x: (Seq<char>, Seq<char>), y: (Seq<char>, Seq<char>), z: (Seq<char>, Seq<char>)|
        #[trigger] le(x, y) && #[trigger] le(y, z) implies le(x, z) by {
        lemma_chars_le_transitive(x.1, y.1, z.1);
    }
}

/// The entries kept are in strictly increasing canonical-path order, so no
/// canonical path appears twice; each comes from the input, and every
/// canonical path of the input is among them.
pub proof fn lemma_canonical_manifest_entries(s: Seq<(Seq<char>, Seq<char>)>)
    ensures
        forall|i: int, j: int|
            0 <= i < j < canonical_manifest_entries(s).len() ==> chars_le(
                #[trigger] canonical_manifest_entries(s)[i].1,
                #[trigger] canonical_manifest_entries(s)[j].1,
            ) && canonical_manifest_entries(s)[i].1 != canonical_manifest_entries(s)[j].1,
        forall|e: (Seq<char>, Seq<char>)| #[trigger] canonical_manifest_entries(s).contains(e) ==> s.contains(e),
        forall|e: (Seq<char>, Seq<char>)| #[trigger] s.contains(e) ==> exists|i: int|
            0 <= i < canonical_manifest_entries(s).len() && #[trigger] canonical_manifest_entries(s)[i].1 == e.1,
{
    broadcast use vstd::seq_lib::group_to_multiset_ensures;

    let key = |e: (Seq<char>, Seq<char>)| e.1;
    let sorted = manifests_by_canonical(s);
    let r = canonical_manifest_entries(s);
    let le = canonical_order();
    lemma_canonical_order_total_preorder();
    lemma_stable_sort(s, le);
    lemma_dedup_by_key(sorted, key, le);
    assert forall|e: (Seq<char>, Seq<char>)| #[trigger] r.contains(e) implies s.contains(e) by {
        assert(sorted.contains(e));
        assert(sorted.to_multiset().count(e) == s.to_multiset().count(e));
    }
    assert forall|e: (Seq<char>, Seq<char>)| #[trigger] s.contains(e) implies exists|i: int|
        0 <= i < r.len() && #[trigger] r[i].1 == e.1 by {
        assert(sorted.to_multiset().count(e) == s.to_multiset().count(e));
        assert(sorted.contains(e));
        let i = choose|i: int| 0 <= i < r.len() && key(#[trigger] r[i]) == key(e);
        assert(r[i].1 == e.1);
    }
    assert forall|i: int, j: int| 0 <= i < j < r.len() implies chars_le(#[trigger] r[i].1, #[trigger] r[j].1)
        && r[i].1 != r[j].1 by {
        assert(le(r[i], r[j]));
        if r[i].1 == r[j].1 {
            assert(le(r[i], r[i + 1]));
            assert(le(r[i + 1], r[j]) || i + 1 == j);
            assert(key(r[i]) != key(r[i + 1]));
            lemma_chars_le_total(r[i].1, r[i + 1].1);
        }
    }
}

/// The manifests visible from a package are in strictly increasing
/// canonical order and their canonical paths are exactly the package's own
/// and those of the manifests its sources prefer.
pub proof fn lemma_visible_manifests(package: (Seq<char>, Seq<char>), preferred: Seq<(Seq<char>, Seq<char>)>)
    ensures
        ({
            let r = canonical_manifest_entries(seq![package] + preferred);
            &&& forall|i: int, j: int| 0 <= i < j < r.len() ==> chars_le(#[trigger] r[i].1, #[trigger] r[j].1) && r[i].1 != r[j].1
            &&& exists|i: int| 0 <= i < r.len() && #[trigger] r[i].1 == package.1
            &&& forall|e: (Seq<char>, Seq<char>)| #[trigger] preferred.contains(e) ==> exists|i: int| 0 <= i < r.len() && #[trigger] r[i].1 == e.1
            &&& forall|i: int| 0 <= i < r.len() ==> #[trigger] r[i].1 == package.1 || exists|e: (Seq<char>, Seq<char>)| #[trigger] preferred.contains(e) && e.1 == r[i].1
        }),
{
    let s = seq![package] + preferred;
    let r = canonical_manifest_entries(s);
    lemma_canonical_manifest_entries(s);
    assert(s[0] == package);
    assert(s.contains(package));
    assert forall|e: (Seq<char>, Seq<char>)| #[trigger] preferred.contains(e) implies exists|i: int| 0 <= i < r.len() && #[trigger] r[i].1 == e.1 by {
        let j = choose|j: int| 0 <= j < preferred.len() && preferred[j] == e;
        assert(s[j + 1] == e);
        assert(s.contains(e));
    }
    assert forall|i: int| 0 <= i < r.len() implies #[trigger] r[i].1 == package.1 || exists|e: (Seq<char>, Seq<char>)| #[trigger] preferred.contains(e) && e.1 == r[i].1 by {
        assert(r.contains(r[i]));
        assert(s.contains(r[i]));
        let j = choose|j: int| 0 <= j < s.len() && s[j] == r[i];
        if j > 0 {
            assert(preferred[j - 1] == r[i]);
            assert(preferred.contains(r[i]));
        }
    }
}

/// Sorts the entries by canonical path (stably) and keeps the path of the
/// first entry of each canonical path.
fn sorted_unique_manifest_paths(entries: Vec<(String, String)>) -> (paths: Vec<String>)
    ensures
        paths@.map_values(|p: String| p@) == canonical_manifest_paths(manifest_entries_view(entries@)),
{
    let mut input = entries;
    let ghost original = manifest_entries_view(input@);
    let ghost n = input@.len();
    let _total = input.len();
    let mut sorted: Vec<(String, String)> = Vec::new();
    let mut taken: usize = 0;
    assert(original.take(0) =~= Seq::<(Seq<char>, Seq<char>)>::empty());
    while input.len() > 0
        invariant
            taken + input@.len() == n,
            n == original.len(),
            n <= usize::MAX,
            manifest_entries_view(input@) == original.skip(taken as int),
            manifest_entries_view(sorted@) == manifests_by_canonical(original.take(taken as int)),
        decreases input@.len(),
    {
        let ghost rest = input@;
        let x = input.remove(0);
        let ghost xv = (x.0@, x.1@);
        proof {
            assert(manifest_entries_view(rest)[0] == xv);
            assert(original.take(taken + 1).drop_last() =~= original.take(taken as int));
            assert(original.take(taken + 1).last() == xv);
            assert(input@ =~= rest.drop_first());
            assert(manifest_entries_view(input@) =~= manifest_entries_view(rest).drop_first());
            assert(original.skip(taken as int).drop_first() =~= original.skip(taken + 1));
        }
        let ghost before = manifest_entries_view(sorted@);
        let mut j = sorted.len();
        while j > 0 && !str_chars_le(sorted[j - 1].1.as_str(), x.1.as_str())
            invariant
                j <= sorted@.len(),
                manifest_entries_view(sorted@) == before,
                forall|k: int| j <= k < before.len() ==> !chars_le(#[trigger] before[k].1, x.1@),
            decreases j,
        {
            j = j - 1;
        }
        proof {
            lemma_insert_stable_at(before, xv, canonical_order(), j as int);
        }
        sorted.insert(j, x);
        assert(manifest_entries_view(sorted@) =~= before.insert(j as int, xv));
        taken = taken + 1;
    }
    assert(original.take(n as int) =~= original);
    let ghost ordered = manifest_entries_view(sorted@);
    let mut kept: Vec<(String, String)> = Vec::new();
    let mut done: usize = 0;
    let _count = sorted.len();
    assert(ordered.take(0) =~= Seq::<(Seq<char>, Seq<char>)>::empty());
    while sorted.len() > 0
        invariant
            done + sorted@.len() == ordered.len(),
            ordered.len() <= usize::MAX,
            manifest_entries_view(sorted@) == ordered.skip(done as int),
            manifest_entries_view(kept@) == dedup_canonical(ordered.take(done as int)),
        decreases sorted@.len(),
    {
        let ghost rest = sorted@;
        let x = sorted.remove(0);
        let ghost xv = (x.0@, x.1@);
        proof {
            assert(manifest_entries_view(rest)[0] == xv);
            assert(ordered.take(done + 1).drop_last() =~= ordered.take(done as int));
            assert(ordered.take(done + 1).last() == xv);
            assert(sorted@ =~= rest.drop_first());
            assert(manifest_entries_view(sorted@) =~= manifest_entries_view(rest).drop_first());
            assert(ordered.skip(done as int).drop_first() =~= ordered.skip(done + 1));
        }
        let keep = if kept.len() > 0 {
            !str_equal(kept[kept.len() - 1].1.as_str(), x.1.as_str())
        } else {
            true
        };
        if keep {
            let ghost kv = manifest_entries_view(kept@);
            kept.push(x);
            assert(manifest_entries_view(kept@) =~= kv.push(xv));
        }
        done = done + 1;
    }
    assert(ordered.take(done as int) =~= ordered);
    let ghost deduped = manifest_entries_view(kept@);
    let mut paths: Vec<String> = Vec::new();
    let mut k: usize = 0;
    let _kept_count = kept.len();
    while kept.len() > 0
        invariant
            k + kept@.len() == deduped.len(),
            deduped.len() <= usize::MAX,
            manifest_entries_view(kept@) == deduped.skip(k as int),
            paths@.map_values(|p: String| p@) == deduped.take(k as int).map_values(|e: (Seq<char>, Seq<char>)| e.0),
        decreases kept@.len(),
    {
        let ghost rest = kept@;
        let x = kept.remove(0);
        proof {
            assert(manifest_entries_view(rest)[0] == (x.0@, x.1@));
            assert(deduped.skip(k as int)[0] == deduped[k as int]);
            assert(deduped.take(k + 1) =~= deduped.take(k as int).push(deduped[k as int]));
            assert(kept@ =~= rest.drop_first());
            assert(manifest_entries_view(kept@) =~= manifest_entries_view(rest).drop_first());
            assert(deduped.skip(k as int).drop_first() =~= deduped.skip(k + 1));
        }
        let ghost pv = paths@.map_values(|p: String| p@);
        let ghost name = x.0@;
        paths.push(x.0);
        assert(paths@.map_values(|p: String| p@) =~= pv.push(name));
        assert(paths@.map_values(|p: String| p@) =~= deduped.take(k + 1).map_values(|e: (Seq<char>, Seq<char>)| e.0));
        k = k + 1;
    }
    assert(deduped.take(k as int) =~= deduped);
    paths
}

/// The manifests a package's sources prefer, given as (path, canonical path)
/// entries (its workspace members, then its local dependencies): those other
/// than the package's own manifest, whose canonical path is
/// `package_canonical`, sorted by canonical path, one per canonical path.
pub fn source_preferred_manifest_paths_for_package(
    package_canonical: &str,
    manifests: Vec<(String, String)>,
) -> (paths: Vec<String>)
    ensures
        paths@.map_values(|p: String| p@) == canonical_manifest_paths(
            manifests_other_than(manifest_entries_view(manifests@), package_canonical@),
        ),
{
    let ghost all = manifest_entries_view(manifests@);
    let mut input = manifests;
    let mut others: Vec<(String, String)> = Vec::new();
    let mut k: usize = 0;
    let _total = input.len();
    assert(all.take(0).filter(|e: (Seq<char>, Seq<char>)| e.1 != package_canonical@) =~= Seq::<(Seq<char>, Seq<char>)>::empty());
    while input.len() > 0
        invariant
            k + input@.len() == all.len(),
            all.len() <= usize::MAX,
            manifest_entries_view(input@) == all.skip(k as int),
            manifest_entries_view(others@) == all.take(k as int).filter(|e: (Seq<char>, Seq<char>)| e.1 != package_canonical@),
        decreases input@.len(),
    {
        let ghost rest = input@;
        let x = input.remove(0);
        let ghost xv = (x.0@, x.1@);
        proof {
            assert(manifest_entries_view(rest)[0] == xv);
            assert(input@ =~= rest.drop_first());
            assert(manifest_entries_view(input@) =~= manifest_entries_view(rest).drop_first());
            assert(all.skip(k as int).drop_first() =~= all.skip(k + 1));
            assert(all.take(k + 1) =~= all.take(k as int).push(xv));
            all.take(k as int).lemma_filter_push(xv, |e: (Seq<char>, Seq<char>)| e.1 != package_canonical@);
        }
        if !str_equal(x.1.as_str(), package_canonical) {
            let ghost ov = manifest_entries_view(others@);
            others.push(x);
            assert(manifest_entries_view(others@) =~= ov.push(xv));
        }
        k = k + 1;
    }
    assert(all.take(k as int) =~= all);
    sorted_unique_manifest_paths(others)
}

/// The manifests visible from a package: its own manifest together with the
/// manifests its sources prefer, as (path, canonical path) entries, sorted by
/// canonical path, one per canonical path.
pub fn visible_manifest_paths_for_package(
    package: (String, String),
    preferred: Vec<(String, String)>,
) -> (paths: Vec<String>)
    ensures
        paths@.map_values(|p: String| p@) == canonical_manifest_paths(
            seq![(package.0@, package.1@)] + manifest_entries_view(preferred@),
        ),
{
    let ghost pv = (package.0@, package.1@);
    let ghost rest = manifest_entries_view(preferred@);
    let mut entries: Vec<(String, String)> = Vec::new();
    entries.push(package);
    let mut input = preferred;
    let mut k: usize = 0;
    let _total = input.len();
    while input.len() > 0
        invariant
            k + input@.len() == rest.len(),
            rest.len() <= usize::MAX,
            manifest_entries_view(input@) == rest.skip(k as int),
            manifest_entries_view(entries@) == seq![pv] + rest.take(k as int),
        decreases input@.len(),
    {
        let ghost before = input@;
        let x = input.remove(0);
        proof {
            assert(manifest_entries_view(before)[0] == (x.0@, x.1@));
            assert(rest.skip(k as int)[0] == rest[k as int]);
            assert(rest.take(k + 1) =~= rest.take(k as int).push(rest[k as int]));
            assert(input@ =~= before.drop_first());
            assert(manifest_entries_view(input@) =~= manifest_entries_view(before).drop_first());
            assert(rest.skip(k as int).drop_first() =~= rest.skip(k + 1));
        }
        let ghost ev = manifest_entries_view(entries@);
        let ghost xv = (x.0@, x.1@);
        entries.push(x);
        assert(manifest_entries_view(entries@) =~= ev.push(xv));
        assert(manifest_entries_view(entries@) =~= seq![pv] + rest.take(k + 1));
        k = k + 1;
    }
    assert(rest.take(k as int) =~= rest);
    sorted_unique_manifest_paths(entries)
}

} // verus!
