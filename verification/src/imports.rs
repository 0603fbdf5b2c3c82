use vstd::prelude::*;

use crate::lexer::{tokens_view, Token, TokenKind};
use crate::span::Span;
use crate::lexer::{token_covers, token_has_cover, token_stream_well_formed};
use crate::bridge::{span_range, span_to_range, text_edit_view, TextEdit};
use crate::lexer::{lex, lex_spec};
use crate::strings::{concat_str, join, join_spec, strings_view};
use crate::text::{byte_len, byte_offset, is_boundary, lemma_byte_offset_bound, str_byte_len, str_equal};
use crate::workspace::{
    auto_import_insert_text, auto_import_insert_text_spec, leading_comment_or_blank_insert_offset,
    line_break_end_offset, line_break_end_spec, skip_leading_chunks,
};

verus! {

/// A token as the import grammar reads it: kind, text and span.
pub type TokenView = (TokenKind, Seq<char>, Span);

/// A path segment: its text and where it stands.
pub type Segment = (Seq<char>, Span);

// ---------------------------------------------------------------------------
// The grammar of the import header of a source file:
//
//   header  := ("package" path)? ("use" imports)*
//   imports := path ("." "{" (item ("," item)*)? ","? "}" | alias)
//   item    := ident alias
//   alias   := ("as" ident)?
//   path    := ident ("." ident)*
// ---------------------------------------------------------------------------

pub open spec fn kind_at(ts: Seq<TokenView>, i: int) -> Option<TokenKind> {
    if 0 <= i < ts.len() {
        Some(ts[i].0)
    } else {
        None
    }
}

pub open spec fn segment_at(ts: Seq<TokenView>, i: int) -> Segment {
    (ts[i].1, ts[i].2)
}

/// The rest of a path after the segments `acc`: more `.` ident pairs.
pub open spec fn path_tail(ts: Seq<TokenView>, i: int, acc: Seq<Segment>) -> (Seq<Segment>, int)
    decreases ts.len() - i,
{
    if 0 <= i && kind_at(ts, i) == Some(TokenKind::Dot) && kind_at(ts, i + 1) == Some(
        TokenKind::Ident,
    ) {
        path_tail(ts, i + 2, acc.push(segment_at(ts, i + 1)))
    } else {
        (acc, i)
    }
}

/// A dotted path starting at token `i`: its segments and the index after it.
pub open spec fn import_path(ts: Seq<TokenView>, i: int) -> Option<(Seq<Segment>, int)> {
    if kind_at(ts, i) == Some(TokenKind::Ident) {
        Some(path_tail(ts, i + 1, seq![segment_at(ts, i)]))
    } else {
        None
    }
}

/// The index after an optional `as` alias at `i`.
pub open spec fn alias_end(ts: Seq<TokenView>, i: int) -> Option<int> {
    if kind_at(ts, i) != Some(TokenKind::As) {
        Some(i)
    } else if kind_at(ts, i + 1) == Some(TokenKind::Ident) {
        Some(i + 2)
    } else {
        None
    }
}

/// The items of a `{...}` group from token `i` on, each the prefix with the
/// item's name: the index after the closing brace and the paths so far.
pub open spec fn group_items(ts: Seq<TokenView>, prefix: Seq<Segment>, i: int, acc: Seq<Seq<Segment>>) -> Option<(int, Seq<Seq<Segment>>)>
    decreases ts.len() - i,
{
    if kind_at(ts, i) == Some(TokenKind::RBrace) {
        Some((i + 1, acc))
    } else if kind_at(ts, i) != Some(TokenKind::Ident) {
        None
    } else {
        let path = prefix.push(segment_at(ts, i));
        let j = if kind_at(ts, i + 1) != Some(TokenKind::As) {
            i + 1
        } else {
            i + 3
        };
        if kind_at(ts, i + 1) == Some(TokenKind::As) && kind_at(ts, i + 2) != Some(
            TokenKind::Ident,
        ) {
            None
        } else if kind_at(ts, j) == Some(TokenKind::Comma) {
            group_items(ts, prefix, j + 1, acc.push(path))
        } else if kind_at(ts, j) == Some(TokenKind::RBrace) {
            Some((j + 1, acc.push(path)))
        } else {
            None
        }
    }
}

/// What one `use` imports, read from the token after the keyword: the index
/// after it and its paths.
pub open spec fn paths_after_use(ts: Seq<TokenView>, i: int) -> Option<(int, Seq<Seq<Segment>>)> {
    match import_path(ts, i) {
        None => None,
        Some((prefix, k)) => if kind_at(ts, k) == Some(TokenKind::Dot) && kind_at(ts, k + 1) == Some(
            TokenKind::LBrace,
        ) {
            group_items(ts, prefix, k + 2, seq![])
        } else {
            match alias_end(ts, k) {
                None => None,
                Some(j) => Some((j, seq![prefix])),
            }
        },
    }
}

/// The `use` declarations from token `i` on: the paths they import, and
/// whether every one of them was well formed (reading stops at the first
/// that is not).
pub open spec fn use_decls(ts: Seq<TokenView>, i: int) -> (Seq<Seq<Segment>>, bool)
    decreases ts.len() - i,
    via use_decls_decreases
{
    if kind_at(ts, i) == Some(TokenKind::Use) {
        match paths_after_use(ts, i + 1) {
            None => (seq![], false),
            Some((next, paths)) => {
                let (rest, ok) = use_decls(ts, next);
                (paths + rest, ok)
            },
        }
    } else {
        (seq![], true)
    }
}

pub(crate) proof fn lemma_path_tail_bounds(ts: Seq<TokenView>, i: int, acc: Seq<Segment>)
    requires
        0 <= i <= ts.len(),
    ensures
        i <= path_tail(ts, i, acc).1 <= ts.len(),
        path_tail(ts, i, acc).0.len() >= acc.len(),
    decreases ts.len() - i,
{
    if kind_at(ts, i) == Some(TokenKind::Dot) && kind_at(ts, i + 1) == Some(TokenKind::Ident) {
        lemma_path_tail_bounds(ts, i + 2, acc.push(segment_at(ts, i + 1)));
    }
}

proof fn lemma_group_items_bounds(ts: Seq<TokenView>, prefix: Seq<Segment>, i: int, acc: Seq<Seq<Segment>>)
    requires
        0 <= i,
    ensures
        group_items(ts, prefix, i, acc) matches Some((j, _)) ==> i < j <= ts.len(),
    decreases ts.len() - i,
{
    let j = if kind_at(ts, i + 1) != Some(TokenKind::As) {
        i + 1
    } else {
        i + 3
    };
    if kind_at(ts, i) == Some(TokenKind::Ident) && kind_at(ts, j) == Some(TokenKind::Comma) {
        lemma_group_items_bounds(ts, prefix, j + 1, acc.push(prefix.push(segment_at(ts, i))));
    }
}

/// A `use` that reads well ends after the token it starts at, within the
/// tokens.
proof fn lemma_paths_after_use_bounds(ts: Seq<TokenView>, i: int)
    requires
        0 <= i,
    ensures
        paths_after_use(ts, i) matches Some((j, _)) ==> i < j <= ts.len(),
{
    if kind_at(ts, i) == Some(TokenKind::Ident) {
        lemma_path_tail_bounds(ts, i + 1, seq![segment_at(ts, i)]);
        let k = path_tail(ts, i + 1, seq![segment_at(ts, i)]).1;
        lemma_group_items_bounds(ts, path_tail(ts, i + 1, seq![segment_at(ts, i)]).0, k + 2, seq![]);
    }
}

#[via_fn]
proof fn use_decls_decreases(ts: Seq<TokenView>, i: int) {
    if kind_at(ts, i) == Some(TokenKind::Use) {
        lemma_paths_after_use_bounds(ts, i + 1);
    }
}

/// Where the `use` declarations start: after the package path, if the
/// header opens with a well-formed one.
pub open spec fn uses_start(ts: Seq<TokenView>) -> int {
    if kind_at(ts, 0) == Some(TokenKind::Package) {
        match import_path(ts, 1) {
            Some((_, next)) => next,
            None => 0,
        }
    } else {
        0
    }
}

pub open spec fn segment_names(path: Seq<Segment>) -> Seq<Seq<char>> {
    path.map_values(|s: Segment| s.0)
}

/// The paths that the top-level `use` declarations import, as names.
pub open spec fn top_level_import_paths(ts: Seq<TokenView>) -> Seq<Seq<Seq<char>>> {
    use_decls(ts, uses_start(ts)).0.map_values(|p: Seq<Segment>| segment_names(p))
}

/// The end of the import header: the end of the last imported path, or of
/// the package path when nothing is imported; none when the header is not
/// well formed.
pub open spec fn import_anchor_end(ts: Seq<TokenView>) -> Option<usize> {
    let package_end = if kind_at(ts, 0) == Some(TokenKind::Package) {
        match import_path(ts, 1) {
            Some((path, _)) => Some(Some(path.last().1.end)),
            None => None,
        }
    } else {
        Some(None)
    };
    match package_end {
        None => None,
        Some(anchor) => {
            let (paths, ok) = use_decls(ts, uses_start(ts));
            if !ok {
                None
            } else if paths.len() > 0 {
                Some(paths.last().last().1.end)
            } else {
                anchor
            }
        },
    }
}

// ---------------------------------------------------------------------------
// Reading the grammar from tokens.
// ---------------------------------------------------------------------------

pub open spec fn segments_view(v: Seq<(String, Span)>) -> Seq<Segment> {
    v.map_values(|s: (String, Span)| (s.0@, s.1))
}

pub open spec fn paths_view(v: Seq<Vec<(String, Span)>>) -> Seq<Seq<Segment>> {
    v.map_values(|p: Vec<(String, Span)>| segments_view(p@))
}

fn kind_at_exec(tokens: &[Token], i: usize) -> (k: Option<TokenKind>)
    ensures
        k == kind_at(tokens_view(tokens@), i as int),
{
    if i < tokens.len() {
        Some(tokens[i].kind)
    } else {
        None
    }
}

fn segment_of(tokens: &[Token], i: usize) -> (s: (String, Span))
    requires
        i < tokens@.len(),
    ensures
        (s.0@, s.1) == segment_at(tokens_view(tokens@), i as int),
{
    (tokens[i].text.clone(), tokens[i].span)
}

fn copy_segments(segments: &Vec<(String, Span)>) -> (r: Vec<(String, Span)>)
    ensures
        segments_view(r@) == segments_view(segments@),
{
    let mut r: Vec<(String, Span)> = Vec::new();
    let mut k: usize = 0;
    while k < segments.len()
        invariant
            k <= segments@.len(),
            segments_view(r@) == segments_view(segments@).take(k as int),
        decreases segments@.len() - k,
    {
        let ghost before = segments_view(r@);
        r.push((segments[k].0.clone(), segments[k].1));
        proof {
            assert(segments_view(r@) =~= before.push(segments_view(segments@)[k as int]));
            assert(segments_view(segments@).take(k + 1) =~= segments_view(segments@).take(k as int).push(
                segments_view(segments@)[k as int],
            ));
        }
        k = k + 1;
    }
    proof {
        assert(segments_view(segments@).take(segments@.len() as int) =~= segments_view(segments@));
    }
    r
}

/// The identifier token at `index`, if the token there is one.
pub fn top_level_import_ident_token(tokens: &[Token], index: usize) -> (t: Option<&Token>)
    ensures
        match t {
            Some(tok) => kind_at(tokens_view(tokens@), index as int) == Some(TokenKind::Ident)
                && *tok == tokens@[index as int],
            None => kind_at(tokens_view(tokens@), index as int) != Some(TokenKind::Ident),
        },
{
    if index < tokens.len() && tokens[index].kind == TokenKind::Ident {
        Some(&tokens[index])
    } else {
        None
    }
}

/// A dotted path at `index`: its segments and the index after it.
pub fn top_level_import_path_in_tokens(tokens: &[Token], index: usize) -> (r: Option<(Vec<(String, Span)>, usize)>)
    ensures
        match r {
            Some((segments, next)) => import_path(tokens_view(tokens@), index as int) == Some(
                (segments_view(segments@), next as int),
            ),
            None => import_path(tokens_view(tokens@), index as int) is None,
        },
{
    let ghost ts = tokens_view(tokens@);
    let n = tokens.len();
    if top_level_import_ident_token(tokens, index).is_none() {
        return None;
    }
    let mut segments: Vec<(String, Span)> = Vec::new();
    segments.push(segment_of(tokens, index));
    let mut i = index + 1;
    proof {
        assert(segments_view(segments@) =~= seq![segment_at(ts, index as int)]);
    }
    while kind_at_exec(tokens, i) == Some(TokenKind::Dot) && kind_at_exec(tokens, i + 1) == Some(
        TokenKind::Ident,
    )
        invariant
            ts == tokens_view(tokens@),
            n == tokens@.len(),
            index < i <= tokens@.len(),
            path_tail(ts, index + 1, seq![segment_at(ts, index as int)]) == path_tail(
                ts,
                i as int,
                segments_view(segments@),
            ),
        decreases tokens@.len() - i,
    {
        let ghost before = segments_view(segments@);
        segments.push(segment_of(tokens, i + 1));
        proof {
            assert(segments_view(segments@) =~= before.push(segment_at(ts, i + 1)));
        }
        i = i + 2;
    }
    Some((segments, i))
}

/// The index after an optional `as` alias at `index`.
pub fn top_level_import_alias_in_tokens(tokens: &[Token], index: usize) -> (r: Option<usize>)
    ensures
        match r {
            Some(j) => alias_end(tokens_view(tokens@), index as int) == Some(j as int),
            None => alias_end(tokens_view(tokens@), index as int) is None,
        },
{
    let _n = tokens.len();
    if kind_at_exec(tokens, index) != Some(TokenKind::As) {
        return Some(index);
    }
    if top_level_import_ident_token(tokens, index + 1).is_none() {
        return None;
    }
    Some(index + 2)
}

/// The paths that one `use` imports, read from the token after `use`.
pub fn top_level_import_paths_after_use(tokens: &[Token], index: usize) -> (r: Option<(usize, Vec<Vec<(String, Span)>>)>)
    ensures
        match r {
            Some((next, paths)) => paths_after_use(tokens_view(tokens@), index as int) == Some(
                (next as int, paths_view(paths@)),
            ),
            None => paths_after_use(tokens_view(tokens@), index as int) is None,
        },
{
    let ghost ts = tokens_view(tokens@);
    let n = tokens.len();
    let (prefix, after) = match top_level_import_path_in_tokens(tokens, index) {
        Some(found) => found,
        None => {
            return None;
        },
    };
    proof {
        lemma_path_tail_bounds(ts, index + 1, seq![segment_at(ts, index as int)]);
    }
    if kind_at_exec(tokens, after) == Some(TokenKind::Dot) && kind_at_exec(tokens, after + 1) == Some(
        TokenKind::LBrace,
    ) {
        let mut i = after + 2;
        let mut bindings: Vec<Vec<(String, Span)>> = Vec::new();
        let ghost pv = segments_view(prefix@);
        proof {
            assert(paths_view(bindings@) =~= Seq::<Seq<Segment>>::empty());
        }
        loop
            invariant
                ts == tokens_view(tokens@),
                n == tokens@.len(),
                pv == segments_view(prefix@),
                i <= tokens@.len(),
                paths_after_use(ts, index as int) == group_items(ts, pv, after + 2, seq![]),
                group_items(ts, pv, after + 2, seq![]) == group_items(ts, pv, i as int, paths_view(bindings@)),
            decreases tokens@.len() - i,
        {
            if kind_at_exec(tokens, i) == Some(TokenKind::RBrace) {
                return Some((i + 1, bindings));
            }
            let item = match top_level_import_ident_token(tokens, i) {
                Some(t) => t,
                None => {
                    return None;
                },
            };
            let mut path = copy_segments(&prefix);
            path.push((item.text.clone(), item.span));
            let ghost pathv = segments_view(path@);
            proof {
                assert(pathv =~= pv.push(segment_at(ts, i as int)));
            }
            i = i + 1;
            i = match top_level_import_alias_in_tokens(tokens, i) {
                Some(j) => j,
                None => {
                    return None;
                },
            };
            let ghost before = paths_view(bindings@);
            bindings.push(path);
            proof {
                assert(paths_view(bindings@) =~= before.push(pathv));
            }
            match kind_at_exec(tokens, i) {
                Some(TokenKind::Comma) => {
                    i = i + 1;
                },
                Some(TokenKind::RBrace) => {
                    return Some((i + 1, bindings));
                },
                _ => {
                    return None;
                },
            }
        }
    }
    let next = match top_level_import_alias_in_tokens(tokens, after) {
        Some(j) => j,
        None => {
            return None;
        },
    };
    let mut paths: Vec<Vec<(String, Span)>> = Vec::new();
    let ghost pv = segments_view(prefix@);
    paths.push(prefix);
    proof {
        assert(paths_view(paths@) =~= seq![pv]);
    }
    Some((next, paths))
}

// ---------------------------------------------------------------------------
// Facts about what the grammar reads.
// ---------------------------------------------------------------------------

/// Every token, read as a path segment, meets `ok`.
pub open spec fn tokens_segments_ok(ts: Seq<TokenView>, ok: spec_fn(Segment) -> bool) -> bool {
    forall|k: int| 0 <= k < ts.len() ==> #[trigger] ok(segment_at(ts, k))
}

/// A path has a segment, and each of its segments meets `ok`.
pub open spec fn path_ok(p: Seq<Segment>, ok: spec_fn(Segment) -> bool) -> bool {
    &&& p.len() > 0
    &&& forall|j: int| 0 <= j < p.len() ==> #[trigger] ok(p[j])
}

pub open spec fn paths_ok(ps: Seq<Seq<Segment>>, ok: spec_fn(Segment) -> bool) -> bool {
    forall|i: int| 0 <= i < ps.len() ==> path_ok(#[trigger] ps[i], ok)
}

proof fn lemma_path_tail_ok(ts: Seq<TokenView>, ok: spec_fn(Segment) -> bool, i: int, acc: Seq<Segment>)
    requires
        tokens_segments_ok(ts, ok),
        path_ok(acc, ok),
    ensures
        path_ok(path_tail(ts, i, acc).0, ok),
    decreases ts.len() - i,
{
    if 0 <= i && kind_at(ts, i) == Some(TokenKind::Dot) && kind_at(ts, i + 1) == Some(TokenKind::Ident) {
        let next = acc.push(segment_at(ts, i + 1));
        assert(ok(segment_at(ts, i + 1)));
        assert forall|j: int| 0 <= j < next.len() implies #[trigger] ok(next[j]) by {
            if j < acc.len() {
                assert(next[j] == acc[j]);
            }
        }
        lemma_path_tail_ok(ts, ok, i + 2, next);
    }
}

pub(crate) proof fn lemma_import_path_ok(ts: Seq<TokenView>, ok: spec_fn(Segment) -> bool, i: int)
    requires
        tokens_segments_ok(ts, ok),
    ensures
        import_path(ts, i) matches Some((p, _)) ==> path_ok(p, ok),
{
    if kind_at(ts, i) == Some(TokenKind::Ident) {
        let first = seq![segment_at(ts, i)];
        assert(ok(segment_at(ts, i)));
        assert(first[0] == segment_at(ts, i));
        lemma_path_tail_ok(ts, ok, i + 1, first);
    }
}

proof fn lemma_group_items_ok(ts: Seq<TokenView>, ok: spec_fn(Segment) -> bool, prefix: Seq<Segment>, i: int, acc: Seq<Seq<Segment>>)
    requires
        tokens_segments_ok(ts, ok),
        path_ok(prefix, ok),
        paths_ok(acc, ok),
    ensures
        group_items(ts, prefix, i, acc) matches Some((_, ps)) ==> paths_ok(ps, ok),
    decreases ts.len() - i,
{
    if kind_at(ts, i) != Some(TokenKind::RBrace) && kind_at(ts, i) == Some(TokenKind::Ident) {
        let path = prefix.push(segment_at(ts, i));
        assert(ok(segment_at(ts, i)));
        assert forall|j: int| 0 <= j < path.len() implies #[trigger] ok(path[j]) by {
            if j < prefix.len() {
                assert(path[j] == prefix[j]);
            }
        }
        let next = acc.push(path);
        assert forall|k: int| 0 <= k < next.len() implies path_ok(#[trigger] next[k], ok) by {
            if k < acc.len() {
                assert(next[k] == acc[k]);
            }
        }
        let j = if kind_at(ts, i + 1) != Some(TokenKind::As) {
            i + 1
        } else {
            i + 3
        };
        if kind_at(ts, j) == Some(TokenKind::Comma) {
            lemma_group_items_ok(ts, ok, prefix, j + 1, next);
        }
    }
}

proof fn lemma_paths_after_use_ok(ts: Seq<TokenView>, ok: spec_fn(Segment) -> bool, i: int)
    requires
        tokens_segments_ok(ts, ok),
    ensures
        paths_after_use(ts, i) matches Some((_, ps)) ==> paths_ok(ps, ok),
{
    lemma_import_path_ok(ts, ok, i);
    if let Some((prefix, k)) = import_path(ts, i) {
        lemma_group_items_ok(ts, ok, prefix, k + 2, seq![]);
        assert(seq![prefix][0] == prefix);
    }
}

proof fn lemma_use_decls_ok(ts: Seq<TokenView>, ok: spec_fn(Segment) -> bool, i: int)
    requires
        tokens_segments_ok(ts, ok),
        0 <= i,
    ensures
        paths_ok(use_decls(ts, i).0, ok),
    decreases ts.len() - i,
{
    if kind_at(ts, i) == Some(TokenKind::Use) {
        lemma_paths_after_use_ok(ts, ok, i + 1);
        lemma_paths_after_use_bounds(ts, i + 1);
        if let Some((next, paths)) = paths_after_use(ts, i + 1) {
            lemma_use_decls_ok(ts, ok, next);
            let all = paths + use_decls(ts, next).0;
            assert forall|k: int| 0 <= k < all.len() implies path_ok(#[trigger] all[k], ok) by {
                if k < paths.len() {
                    assert(all[k] == paths[k]);
                } else {
                    assert(all[k] == use_decls(ts, next).0[k - paths.len()]);
                }
            }
        }
    }
}

proof fn lemma_uses_start_bounds(ts: Seq<TokenView>)
    ensures
        0 <= uses_start(ts) <= ts.len(),
{
    if kind_at(ts, 0) == Some(TokenKind::Package) && kind_at(ts, 1) == Some(TokenKind::Ident) {
        lemma_path_tail_bounds(ts, 2, seq![segment_at(ts, 1)]);
    }
}

/// A segment that ends on a char boundary of `cs`.
pub open spec fn ends_on_boundary(cs: Seq<char>) -> spec_fn(Segment) -> bool {
    |s: Segment| is_boundary(cs, s.1.end as int)
}

pub open spec fn any_segment() -> spec_fn(Segment) -> bool {
    |s: Segment| true
}

/// The tokens of a source end on its char boundaries.
pub proof fn lemma_lexed_tokens_end_on_boundaries(cs: Seq<char>, ts: Seq<TokenView>)
    requires
        token_stream_well_formed(cs, ts),
        byte_len(cs) <= usize::MAX,
    ensures
        tokens_segments_ok(ts, ends_on_boundary(cs)),
{
    assert forall|k: int| 0 <= k < ts.len() implies #[trigger] (ends_on_boundary(cs))(segment_at(ts, k)) by {
        assert(token_has_cover(cs, ts[k]));
        let (a, b) = choose|a: int, b: int| #[trigger] token_covers(cs, ts[k], a, b);
        lemma_byte_offset_bound(cs, b);
        assert(ts[k].2.end == byte_offset(cs, b));
    }
}

/// The end of the import header, if it is well formed, is a char boundary.
pub proof fn lemma_import_anchor_on_boundary(ts: Seq<TokenView>, cs: Seq<char>)
    requires
        tokens_segments_ok(ts, ends_on_boundary(cs)),
    ensures
        import_anchor_end(ts) matches Some(a) ==> is_boundary(cs, a as int),
{
    let ok = ends_on_boundary(cs);
    lemma_import_path_ok(ts, ok, 1);
    lemma_uses_start_bounds(ts);
    lemma_use_decls_ok(ts, ok, uses_start(ts));
    let (paths, _) = use_decls(ts, uses_start(ts));
    if paths.len() > 0 {
        assert(path_ok(paths[paths.len() - 1], ok));
        assert(ok(paths.last()[paths.last().len() - 1]));
    }
    if let Some((p, _)) = import_path(ts, 1) {
        assert(ok(p[p.len() - 1]));
    }
}

// ---------------------------------------------------------------------------
// The import header of a token stream.
// ---------------------------------------------------------------------------

pub open spec fn names_view(v: Seq<Vec<String>>) -> Seq<Seq<Seq<char>>> {
    v.map_values(|p: Vec<String>| strings_view(p@))
}

fn path_names(path: &Vec<(String, Span)>) -> (names: Vec<String>)
    ensures
        strings_view(names@) == segment_names(segments_view(path@)),
{
    let mut names: Vec<String> = Vec::new();
    let mut k: usize = 0;
    while k < path.len()
        invariant
            k <= path@.len(),
            strings_view(names@) == segment_names(segments_view(path@)).take(k as int),
        decreases path@.len() - k,
    {
        let ghost before = strings_view(names@);
        names.push(path[k].0.clone());
        proof {
            assert(strings_view(names@) =~= before.push(path@[k as int].0@));
            assert(segment_names(segments_view(path@)).take(k + 1) =~= segment_names(segments_view(path@)).take(k as int).push(path@[k as int].0@));
        }
        k = k + 1;
    }
    proof {
        assert(segment_names(segments_view(path@)).take(path@.len() as int) =~= segment_names(segments_view(path@)));
    }
    names
}

/// Where the `use` declarations of a token stream start.
fn uses_start_in_tokens(tokens: &[Token]) -> (index: usize)
    ensures
        index as int == uses_start(tokens_view(tokens@)),
{
    if kind_at_exec(tokens, 0) == Some(TokenKind::Package) {
        if let Some((_, next)) = top_level_import_path_in_tokens(tokens, 1) {
            return next;
        }
    }
    0
}

/// The paths that the top-level `use` declarations import, as names; reading
/// stops at the first `use` that is not well formed.
pub fn top_level_import_paths_in_tokens(tokens: &[Token]) -> (paths: Vec<Vec<String>>)
    ensures
        names_view(paths@) == top_level_import_paths(tokens_view(tokens@)),
{
    let ghost ts = tokens_view(tokens@);
    let n = tokens.len();
    let mut paths: Vec<Vec<String>> = Vec::new();
    let mut index = uses_start_in_tokens(tokens);
    proof {
        lemma_uses_start_bounds(ts);
        assert(names_view(paths@) =~= Seq::<Seq<Seq<char>>>::empty());
    }
    while kind_at_exec(tokens, index) == Some(TokenKind::Use)
        invariant
            ts == tokens_view(tokens@),
            n == tokens@.len(),
            0 <= index,
            top_level_import_paths(ts) == names_view(paths@) + use_decls(ts, index as int).0.map_values(
                |p: Seq<Segment>| segment_names(p),
            ),
        decreases tokens@.len() - index,
    {
        let (next, use_paths) = match top_level_import_paths_after_use(tokens, index + 1) {
            Some(found) => found,
            None => {
                proof {
                    assert(names_view(paths@) + Seq::<Seq<Segment>>::empty().map_values(|p: Seq<Segment>| segment_names(p)) =~= names_view(paths@));
                }
                return paths;
            },
        };
        proof {
            lemma_paths_after_use_bounds(ts, index + 1);
        }
        let ghost rest = use_decls(ts, next as int).0;
        let ghost upv = paths_view(use_paths@);
        let mut k: usize = 0;
        while k < use_paths.len()
            invariant
                ts == tokens_view(tokens@),
                upv == paths_view(use_paths@),
                k <= use_paths@.len(),
                top_level_import_paths(ts) == names_view(paths@) + (upv.skip(k as int) + rest).map_values(
                    |p: Seq<Segment>| segment_names(p),
                ),
            decreases use_paths@.len() - k,
        {
            let names = path_names(&use_paths[k]);
            let ghost before = names_view(paths@);
            paths.push(names);
            proof {
                assert(names_view(paths@) =~= before.push(segment_names(upv[k as int])));
                let f = |p: Seq<Segment>| segment_names(p);
                assert((upv.skip(k as int) + rest).map_values(f) =~= seq![segment_names(upv[k as int])] + (upv.skip(k + 1) + rest).map_values(f));
                assert(before + (seq![segment_names(upv[k as int])] + (upv.skip(k + 1) + rest).map_values(f)) =~= before.push(segment_names(upv[k as int])) + (upv.skip(k + 1) + rest).map_values(f));
            }
            k = k + 1;
        }
        proof {
            assert(upv.skip(use_paths@.len() as int) + rest =~= rest);
        }
        index = next;
    }
    proof {
        assert(names_view(paths@) + Seq::<Seq<Segment>>::empty().map_values(|p: Seq<Segment>| segment_names(p)) =~= names_view(paths@));
    }
    paths
}

/// Whether a segment of the path covers byte `offset`.
pub open spec fn path_hits(path: Seq<Segment>, offset: int) -> bool {
    exists|k: int| 0 <= k < path.len() && (#[trigger] path[k]).1.start <= offset < path[k].1.end
}

/// The first of the paths with a segment covering `offset`.
pub open spec fn first_path_at(paths: Seq<Seq<Segment>>, offset: int) -> Option<Seq<Segment>>
    decreases paths.len(),
{
    if paths.len() == 0 {
        None
    } else if path_hits(paths[0], offset) {
        Some(paths[0])
    } else {
        first_path_at(paths.drop_first(), offset)
    }
}

fn path_hits_offset(path: &Vec<(String, Span)>, offset: usize) -> (hit: bool)
    ensures
        hit == path_hits(segments_view(path@), offset as int),
{
    let ghost sv = segments_view(path@);
    let mut k: usize = 0;
    while k < path.len()
        invariant
            sv == segments_view(path@),
            k <= path@.len(),
            forall|j: int| 0 <= j < k ==> !(sv[j].1.start <= offset && offset < sv[j].1.end),
        decreases path@.len() - k,
    {
        if path[k].1.contains(offset) {
            assert(sv[k as int].1 == path@[k as int].1);
            return true;
        }
        k = k + 1;
    }
    false
}

/// The names of the imported path, in the import header, that has a
/// segment covering byte `offset`: the first such path, reading the `use`
/// declarations up to the first that does not read well.
pub fn import_path_segments_in_tokens_at_offset(tokens: &[Token], offset: usize) -> (r: Option<Vec<String>>)
    ensures
        match r {
            Some(names) => first_path_at(use_decls(tokens_view(tokens@), uses_start(tokens_view(tokens@))).0, offset as int)
                matches Some(path) && strings_view(names@) == segment_names(path),
            None => first_path_at(use_decls(tokens_view(tokens@), uses_start(tokens_view(tokens@))).0, offset as int) is None,
        },
{
    let ghost ts = tokens_view(tokens@);
    let ghost target = first_path_at(use_decls(ts, uses_start(ts)).0, offset as int);
    let n = tokens.len();
    let mut index = uses_start_in_tokens(tokens);
    proof {
        lemma_uses_start_bounds(ts);
    }
    while kind_at_exec(tokens, index) == Some(TokenKind::Use)
        invariant
            ts == tokens_view(tokens@),
            n == tokens@.len(),
            0 <= index,
            target == first_path_at(use_decls(ts, uses_start(ts)).0, offset as int),
            target == first_path_at(use_decls(ts, index as int).0, offset as int),
        decreases tokens@.len() - index,
    {
        let (next, use_paths) = match top_level_import_paths_after_use(tokens, index + 1) {
            Some(found) => found,
            None => {
                assert(use_decls(ts, index as int).0 =~= Seq::<Seq<Segment>>::empty());
                return None;
            },
        };
        proof {
            lemma_paths_after_use_bounds(ts, index + 1);
        }
        let ghost rest = use_decls(ts, next as int).0;
        let ghost upv = paths_view(use_paths@);
        let mut k: usize = 0;
        assert(upv.skip(0) + rest =~= use_decls(ts, index as int).0);
        while k < use_paths.len()
            invariant
                upv == paths_view(use_paths@),
                k <= use_paths@.len(),
                ts == tokens_view(tokens@),
                target == first_path_at(use_decls(ts, uses_start(ts)).0, offset as int),
                target == first_path_at(upv.skip(k as int) + rest, offset as int),
            decreases use_paths@.len() - k,
        {
            let ghost cur = upv.skip(k as int) + rest;
            assert(cur[0] == upv[k as int]);
            assert(cur.drop_first() =~= upv.skip(k + 1) + rest);
            assert(upv[k as int] == segments_view(use_paths@[k as int]@));
            if path_hits_offset(&use_paths[k], offset) {
                return Some(path_names(&use_paths[k]));
            }
            k = k + 1;
        }
        proof {
            assert(upv.skip(use_paths@.len() as int) + rest =~= rest);
        }
        index = next;
    }
    None
}

/// The end of the import header as it stands after token `i`, given the
/// header's end so far.
pub open spec fn anchor_from(ts: Seq<TokenView>, i: int, anchor: Option<usize>) -> Option<usize> {
    let (paths, ok) = use_decls(ts, i);
    if !ok {
        None
    } else if paths.len() > 0 {
        Some(paths.last().last().1.end)
    } else {
        anchor
    }
}

/// The byte offset where the import header ends: after the last imported
/// path, or the package path; `None` when the header is not well formed.
pub fn top_level_import_anchor_end_in_tokens(tokens: &[Token]) -> (anchor: Option<usize>)
    ensures
        anchor == import_anchor_end(tokens_view(tokens@)),
{
    let ghost ts = tokens_view(tokens@);
    let ghost ok = any_segment();
    proof {
        assert forall|k: int| 0 <= k < ts.len() implies #[trigger] ok(segment_at(ts, k)) by {}
    }
    let n = tokens.len();
    let mut index: usize = 0;
    let mut anchor_end: Option<usize> = None;
    if kind_at_exec(tokens, 0) == Some(TokenKind::Package) {
        let (package_path, next) = match top_level_import_path_in_tokens(tokens, 1) {
            Some(found) => found,
            None => {
                return None;
            },
        };
        proof {
            lemma_uses_start_bounds(ts);
            lemma_import_path_ok(ts, ok, 1);
        }
        anchor_end = Some(package_path[package_path.len() - 1].1.end);
        index = next;
    }
    while kind_at_exec(tokens, index) == Some(TokenKind::Use)
        invariant
            ts == tokens_view(tokens@),
            n == tokens@.len(),
            index <= tokens@.len(),
            ok == any_segment(),
            tokens_segments_ok(ts, ok),
            import_anchor_end(ts) == anchor_from(ts, index as int, anchor_end),
        decreases tokens@.len() - index,
    {
        let (next, import_paths) = match top_level_import_paths_after_use(tokens, index + 1) {
            Some(found) => found,
            None => {
                return None;
            },
        };
        proof {
            lemma_paths_after_use_bounds(ts, index + 1);
            lemma_paths_after_use_ok(ts, ok, index + 1);
        }
        let ghost pv = paths_view(import_paths@);
        let ghost rest = use_decls(ts, next as int);
        if import_paths.len() > 0 {
            let last = &import_paths[import_paths.len() - 1];
            proof {
                assert(path_ok(pv[pv.len() - 1], ok));
            }
            anchor_end = Some(last[last.len() - 1].1.end);
            proof {
                if rest.0.len() > 0 {
                    assert((pv + rest.0).last() == rest.0.last());
                } else {
                    assert(pv + rest.0 =~= pv);
                }
            }
        } else {
            proof {
                assert(pv + rest.0 =~= rest.0);
            }
        }
        index = next;
    }
    anchor_end
}

// ---------------------------------------------------------------------------
// Automatic imports.
// ---------------------------------------------------------------------------

fn names_equal(a: &Vec<String>, b: &[String]) -> (eq: bool)
    ensures
        eq == (strings_view(a@) == strings_view(b@)),
{
    if a.len() != b.len() {
        proof {
            if strings_view(a@) == strings_view(b@) {
                assert(strings_view(a@).len() == strings_view(b@).len());
            }
        }
        return false;
    }
    let mut k: usize = 0;
    while k < a.len()
        invariant
            a@.len() == b@.len(),
            k <= a@.len(),
            forall|j: int| 0 <= j < k ==> a@[j]@ == b@[j]@,
        decreases a@.len() - k,
    {
        if !str_equal(a[k].as_str(), b[k].as_str()) {
            proof {
                assert(strings_view(a@)[k as int] != strings_view(b@)[k as int]);
            }
            return false;
        }
        k = k + 1;
    }
    proof {
        assert(strings_view(a@) =~= strings_view(b@));
    }
    true
}

/// Whether the import header of `source` already imports `import_path`.
pub fn source_already_imports_path(source: &str, import_path: &[String]) -> (r: bool)
    ensures
        r == top_level_import_paths(lex_spec(source@).0).contains(strings_view(import_path@)),
{
    let (tokens, _) = lex(source);
    let paths = top_level_import_paths_in_tokens(tokens.as_slice());
    let ghost target = strings_view(import_path@);
    let ghost all = top_level_import_paths(lex_spec(source@).0);
    let mut k: usize = 0;
    while k < paths.len()
        invariant
            names_view(paths@) == all,
            all == top_level_import_paths(lex_spec(source@).0),
            target == strings_view(import_path@),
            k <= paths@.len(),
            forall|j: int| 0 <= j < k ==> all[j] != target,
        decreases paths@.len() - k,
    {
        let same = names_equal(&paths[k], import_path);
        proof {
            assert(all[k as int] == strings_view(paths@[k as int]@));
        }
        if same {
            return true;
        }
        k = k + 1;
    }
    false
}

/// Where an automatic import goes: after the line that ends the import
/// header, or, when there is no well-formed header, after the leading blank
/// and comment lines.
pub open spec fn import_insert_offset(cs: Seq<char>) -> int {
    match import_anchor_end(lex_spec(cs).0) {
        Some(anchor) => line_break_end_spec(cs, anchor as int),
        None => byte_offset(cs, skip_leading_chunks(cs, 0)) as int,
    }
}

/// The byte offset at which an automatic import is inserted.
pub fn auto_import_insert_offset(source: &str) -> (offset: usize)
    ensures
        offset as int == import_insert_offset(source@),
        is_boundary(source@, offset as int),
{
    let _len = str_byte_len(source);
    let (tokens, _) = lex(source);
    proof {
        lemma_lexed_tokens_end_on_boundaries(source@, tokens_view(tokens@));
        lemma_import_anchor_on_boundary(tokens_view(tokens@), source@);
    }
    match top_level_import_anchor_end_in_tokens(tokens.as_slice()) {
        None => leading_comment_or_blank_insert_offset(source),
        Some(anchor_end) => line_break_end_offset(source, anchor_end),
    }
}

/// The import statement for a path: `use` and the dotted path.
pub open spec fn import_statement(import_path: Seq<Seq<char>>) -> Seq<char> {
    "use "@ + join_spec(import_path, "."@)
}

/// The edit that inserts an import of `import_path` into `source`.
pub fn auto_import_insertion_edit(source: &str, import_path: &[String]) -> (edit: TextEdit)
    ensures
        ({
            let offset = import_insert_offset(source@);
            text_edit_view(edit) == (
                span_range(source@, Span { start: offset as usize, end: offset as usize }),
                auto_import_insert_text_spec(source@, offset, import_statement(strings_view(import_path@))),
            )
        }),
{
    let offset = auto_import_insert_offset(source);
    let path = join(import_path, ".");
    let import_stmt = concat_str("use ", path.as_str());
    proof {
        let w = choose|i: int| 0 <= i <= source@.len() && byte_offset(source@, i) == offset;
        lemma_byte_offset_bound(source@, w);
        crate::text::lemma_byte_len_is_encoding_len(source@);
    }
    let _len = str_byte_len(source);
    let range = span_to_range(source, Span::new(offset, offset));
    let text = auto_import_insert_text(source, offset, import_stmt.as_str());
    TextEdit::new(range, text)
}

} // verus!
