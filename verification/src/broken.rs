use vstd::prelude::*;

use crate::imports::{
    import_path, kind_at, lemma_import_path_ok, segment_at, segment_names, segments_view,
    tokens_segments_ok, top_level_import_path_in_tokens, Segment,
    TokenView,
};
use crate::bridge::{clamp_offset, position_offset, position_to_offset, span_range, span_to_range, Position, Range};
use crate::features::spans_on_boundaries;
use crate::lexer::{lex, lex_spec, tokens_view, Token, TokenKind};
use crate::locations::Location;
use crate::strings::strings_view;
use crate::text::{byte_len, byte_offset, is_boundary, str_byte_len, str_equal};
use vstd::string::StringExecFns;
use crate::semantic_tokens::SymbolKind;
use crate::span::Span;

verus! {

// ---------------------------------------------------------------------------
// Reading tokens of a source that may not parse.
// ---------------------------------------------------------------------------

/// From token `i` at brace depth `depth`: the index after the `}` that
/// brings the depth to zero, if any.
pub open spec fn balanced_scan(ts: Seq<TokenView>, i: int, depth: nat) -> Option<int>
    decreases ts.len() - i,
{
    if i < 0 || i >= ts.len() {
        None
    } else if ts[i].0 == TokenKind::LBrace {
        balanced_scan(ts, i + 1, depth + 1)
    } else if ts[i].0 == TokenKind::RBrace {
        let d: nat = if depth > 0 {
            (depth - 1) as nat
        } else {
            0
        };
        if d == 0 {
            Some(i + 1)
        } else {
            balanced_scan(ts, i + 1, d)
        }
    } else {
        balanced_scan(ts, i + 1, depth)
    }
}

/// The index after the `}` that closes the `{` at `open`.
pub open spec fn after_balanced_braces(ts: Seq<TokenView>, open: int) -> Option<int> {
    if kind_at(ts, open) != Some(TokenKind::LBrace) {
        None
    } else {
        balanced_scan(ts, open + 1, 1)
    }
}

proof fn lemma_balanced_scan_bounds(ts: Seq<TokenView>, i: int, depth: nat)
    requires
        0 <= i,
    ensures
        balanced_scan(ts, i, depth) matches Some(j) ==> i < j <= ts.len(),
    decreases ts.len() - i,
{
    if i < ts.len() {
        let d: nat = if depth > 0 {
            (depth - 1) as nat
        } else {
            0
        };
        if ts[i].0 == TokenKind::LBrace {
            lemma_balanced_scan_bounds(ts, i + 1, depth + 1);
        } else if ts[i].0 == TokenKind::RBrace {
            if d != 0 {
                lemma_balanced_scan_bounds(ts, i + 1, d);
            }
        } else {
            lemma_balanced_scan_bounds(ts, i + 1, depth);
        }
    }
}

pub fn token_index_after_balanced_braces_in_tokens(tokens: &[Token], open_index: usize) -> (after: Option<usize>)
    ensures
        match after {
            Some(a) => after_balanced_braces(tokens_view(tokens@), open_index as int) == Some(a as int),
            None => after_balanced_braces(tokens_view(tokens@), open_index as int) is None,
        },
{
    let ghost ts = tokens_view(tokens@);
    if !(open_index < tokens.len() && tokens[open_index].kind == TokenKind::LBrace) {
        return None;
    }
    let mut depth: usize = 1;
    let mut index = open_index + 1;
    while index < tokens.len()
        invariant
            ts == tokens_view(tokens@),
            open_index < index <= tokens@.len(),
            1 <= depth <= index - open_index,
            after_balanced_braces(ts, open_index as int) == balanced_scan(ts, index as int, depth as nat),
        decreases tokens@.len() - index,
    {
        match tokens[index].kind {
            TokenKind::LBrace => {
                depth = depth + 1;
            },
            TokenKind::RBrace => {
                depth = depth - 1;
                if depth == 0 {
                    return Some(index + 1);
                }
            },
            _ => {},
        }
        index = index + 1;
    }
    None
}

/// The last identifier of the dotted path at `index`, with the index after
/// the path.
pub open spec fn path_last_ident(ts: Seq<TokenView>, index: int) -> Option<(TokenView, int)> {
    match import_path(ts, index) {
        Some((_, next)) => Some((ts[next - 1], next)),
        None => None,
    }
}

pub fn broken_source_path_last_ident_token(tokens: &[Token], index: usize) -> (r: Option<(&Token, usize)>)
    ensures
        match r {
            Some((t, next)) => path_last_ident(tokens_view(tokens@), index as int) == Some((t@, next as int)),
            None => path_last_ident(tokens_view(tokens@), index as int) is None,
        },
{
    let ghost ts = tokens_view(tokens@);
    let n = tokens.len();
    if !(index < tokens.len() && tokens[index].kind == TokenKind::Ident) {
        return None;
    }
    let mut last = &tokens[index];
    let mut i = index + 1;
    let ghost first = seq![segment_at(ts, index as int)];
    let ghost segs = first;
    while i < tokens.len() && tokens[i].kind == TokenKind::Dot && i + 1 < tokens.len()
        && tokens[i + 1].kind == TokenKind::Ident
        invariant
            ts == tokens_view(tokens@),
            n == tokens@.len(),
            index < i <= tokens@.len(),
            *last == tokens@[i - 1],
            crate::imports::path_tail(ts, index + 1, first) == crate::imports::path_tail(ts, i as int, segs),
        decreases tokens@.len() - i,
    {
        last = &tokens[i + 1];
        proof {
            segs = segs.push(segment_at(ts, i + 1));
        }
        i = i + 2;
    }
    proof {
        assert(ts[i - 1] == tokens@[i - 1]@);
    }
    Some((last, i))
}

/// The names of the methods declared at brace depth zero in tokens
/// `i..end`: each `fn` followed by an identifier.
pub open spec fn method_scan(ts: Seq<TokenView>, i: int, end: int, depth: nat) -> Seq<Segment>
    decreases end - i,
{
    if i < 0 || i >= end {
        seq![]
    } else if ts[i].0 == TokenKind::LBrace {
        method_scan(ts, i + 1, end, depth + 1)
    } else if ts[i].0 == TokenKind::RBrace {
        method_scan(ts, i + 1, end, if depth > 0 {
            (depth - 1) as nat
        } else {
            0
        })
    } else if ts[i].0 == TokenKind::Fn && depth == 0 {
        if kind_at(ts, i + 1) == Some(TokenKind::Ident) {
            seq![segment_at(ts, i + 1)] + method_scan(ts, i + 1, end, depth)
        } else {
            method_scan(ts, i + 1, end, depth)
        }
    } else {
        method_scan(ts, i + 1, end, depth)
    }
}

pub fn broken_source_impl_method_name_spans_in_tokens(tokens: &[Token], start_index: usize, end_index: usize) -> (methods: Vec<(String, Span)>)
    requires
        end_index <= tokens@.len(),
    ensures
        segments_view(methods@) == method_scan(tokens_view(tokens@), start_index as int, end_index as int, 0),
{
    let ghost ts = tokens_view(tokens@);
    let mut methods: Vec<(String, Span)> = Vec::new();
    let mut depth: usize = 0;
    let mut index = start_index;
    while index < end_index
        invariant
            ts == tokens_view(tokens@),
            end_index <= tokens@.len(),
            start_index <= index,
            index >= end_index ==> index == start_index || index == end_index,
            depth <= index - start_index,
            segments_view(methods@) + method_scan(ts, index as int, end_index as int, depth as nat)
                == method_scan(ts, start_index as int, end_index as int, 0),
        decreases end_index - index,
    {
        let ghost before = segments_view(methods@);
        match tokens[index].kind {
            TokenKind::LBrace => {
                depth = depth + 1;
            },
            TokenKind::RBrace => {
                if depth > 0 {
                    depth = depth - 1;
                }
            },
            TokenKind::Fn => {
                if depth == 0 && index + 1 < tokens.len() && tokens[index + 1].kind == TokenKind::Ident {
                    methods.push((tokens[index + 1].text.clone(), tokens[index + 1].span));
                    proof {
                        assert(segments_view(methods@) =~= before.push(segment_at(ts, index + 1)));
                        assert(before.push(segment_at(ts, index + 1)) + method_scan(ts, index + 1, end_index as int, depth as nat)
                            =~= before + (seq![segment_at(ts, index + 1)] + method_scan(ts, index + 1, end_index as int, depth as nat)));
                    }
                }
            },
            _ => {},
        }
        index = index + 1;
    }
    proof {
        assert(segments_view(methods@) + Seq::<Segment>::empty() =~= segments_view(methods@));
    }
    methods
}

/// Whether the identifier at `index` stands where an imported name is used:
/// not after `.` or `as`, and before a call, index, block, member access,
/// `?` or `for`, or after `:` or `->`.
pub open spec fn reference_context(ts: Seq<TokenView>, index: int) -> bool {
    let prev = if index >= 1 {
        kind_at(ts, index - 1)
    } else {
        None
    };
    let next = kind_at(ts, index + 1);
    if prev == Some(TokenKind::Dot) || prev == Some(TokenKind::As) {
        false
    } else {
        ||| next == Some(TokenKind::LParen)
        ||| next == Some(TokenKind::LBracket)
        ||| next == Some(TokenKind::LBrace)
        ||| next == Some(TokenKind::Dot)
        ||| next == Some(TokenKind::Question)
        ||| next == Some(TokenKind::For)
        ||| prev == Some(TokenKind::Colon)
        ||| prev == Some(TokenKind::Arrow)
    }
}

fn kind_at_index(tokens: &[Token], i: usize) -> (k: Option<TokenKind>)
    ensures
        k == kind_at(tokens_view(tokens@), i as int),
{
    if i < tokens.len() {
        Some(tokens[i].kind)
    } else {
        None
    }
}

pub fn broken_source_import_token_matches_reference_context(tokens: &[Token], index: usize) -> (matches: bool)
    ensures
        matches == reference_context(tokens_view(tokens@), index as int),
{
    let _n = tokens.len();
    let prev_kind = if index >= 1 {
        kind_at_index(tokens, index - 1)
    } else {
        None
    };
    let next_kind = if index < tokens.len() {
        kind_at_index(tokens, index + 1)
    } else {
        None
    };
    if prev_kind == Some(TokenKind::Dot) || prev_kind == Some(TokenKind::As) {
        return false;
    }
    next_kind == Some(TokenKind::LParen) || next_kind == Some(TokenKind::LBracket) || next_kind
        == Some(TokenKind::LBrace) || next_kind == Some(TokenKind::Dot) || next_kind == Some(
        TokenKind::Question,
    ) || next_kind == Some(TokenKind::For) || prev_kind == Some(TokenKind::Colon) || prev_kind
        == Some(TokenKind::Arrow)
}

// ---------------------------------------------------------------------------
// Definition sites.
// ---------------------------------------------------------------------------

/// A struct, enum or trait declared at the top level.
#[derive(Clone, Debug, PartialEq, Eq)]
pub struct BrokenSourceRootDefinitionSite {
    pub kind: SymbolKind,
    pub name: String,
    pub span: Span,
}

pub open spec fn root_site_view(s: BrokenSourceRootDefinitionSite) -> (SymbolKind, Seq<char>, Span) {
    (s.kind, s.name@, s.span)
}

/// An optionally `pub` struct, enum or trait with its name, read at
/// `index`: the site and the index after the name.
pub open spec fn root_definition_site(ts: Seq<TokenView>, index: int) -> Option<((SymbolKind, Seq<char>, Span), int)> {
    let i = if kind_at(ts, index) == Some(TokenKind::Pub) {
        index + 1
    } else {
        index
    };
    let kind = if kind_at(ts, i) == Some(TokenKind::Struct) {
        Some(SymbolKind::Struct)
    } else if kind_at(ts, i) == Some(TokenKind::Enum) {
        Some(SymbolKind::Enum)
    } else if kind_at(ts, i) == Some(TokenKind::Trait) {
        Some(SymbolKind::Trait)
    } else {
        None
    };
    match kind {
        None => None,
        Some(k) => if kind_at(ts, i + 1) == Some(TokenKind::Ident) {
            Some(((k, ts[i + 1].1, ts[i + 1].2), i + 2))
        } else {
            None
        },
    }
}

pub fn broken_source_root_definition_site_in_tokens(tokens: &[Token], index: usize) -> (r: Option<(BrokenSourceRootDefinitionSite, usize)>)
    ensures
        match r {
            Some((site, next)) => root_definition_site(tokens_view(tokens@), index as int) == Some(
                (root_site_view(site), next as int),
            ),
            None => root_definition_site(tokens_view(tokens@), index as int) is None,
        },
{
    let _n = tokens.len();
    let mut i = index;
    if kind_at_index(tokens, i) == Some(TokenKind::Pub) {
        i = i + 1;
    }
    let kind = match kind_at_index(tokens, i) {
        Some(TokenKind::Struct) => SymbolKind::Struct,
        Some(TokenKind::Enum) => SymbolKind::Enum,
        Some(TokenKind::Trait) => SymbolKind::Trait,
        _ => {
            return None;
        },
    };
    if !(i + 1 < tokens.len() && tokens[i + 1].kind == TokenKind::Ident) {
        return None;
    }
    let name = &tokens[i + 1];
    Some((BrokenSourceRootDefinitionSite { kind, name: name.text.clone(), span: name.span }, i + 2))
}

/// The definition sites at brace depth zero from token `i` on.
pub open spec fn root_sites_from(ts: Seq<TokenView>, i: int, depth: nat) -> Seq<(SymbolKind, Seq<char>, Span)>
    decreases ts.len() - i,
{
    if i < 0 || i >= ts.len() {
        seq![]
    } else {
        let k = ts[i].0;
        if k == TokenKind::LBrace {
            root_sites_from(ts, i + 1, depth + 1)
        } else if k == TokenKind::RBrace {
            root_sites_from(ts, i + 1, if depth > 0 {
                (depth - 1) as nat
            } else {
                0
            })
        } else if (k == TokenKind::Pub || k == TokenKind::Struct || k == TokenKind::Enum || k
            == TokenKind::Trait) && depth == 0 && root_definition_site(ts, i) is Some {
            let (site, next) = root_definition_site(ts, i)->0;
            seq![site] + root_sites_from(ts, next, depth)
        } else {
            root_sites_from(ts, i + 1, depth)
        }
    }
}

/// The structs, enums and traits declared at the top level of a source.
pub fn broken_source_root_definition_sites_in_source(source: &str) -> (sites: Vec<BrokenSourceRootDefinitionSite>)
    ensures
        sites@.map_values(|s: BrokenSourceRootDefinitionSite| root_site_view(s)) == root_sites_from(
            lex_spec(source@).0,
            0,
            0,
        ),
{
    let (tokens, _) = lex(source);
    let ghost ts = tokens_view(tokens@);
    let mut sites: Vec<BrokenSourceRootDefinitionSite> = Vec::new();
    let mut depth: usize = 0;
    let mut index: usize = 0;
    while index < tokens.len()
        invariant
            ts == tokens_view(tokens@),
            ts == lex_spec(source@).0,
            index <= tokens@.len(),
            depth <= index,
            sites@.map_values(|s: BrokenSourceRootDefinitionSite| root_site_view(s)) + root_sites_from(
                ts,
                index as int,
                depth as nat,
            ) == root_sites_from(ts, 0, 0),
        decreases tokens@.len() - index,
    {
        let kind = tokens[index].kind;
        if kind == TokenKind::LBrace {
            depth = depth + 1;
        } else if kind == TokenKind::RBrace {
            if depth > 0 {
                depth = depth - 1;
            }
        } else if (kind == TokenKind::Pub || kind == TokenKind::Struct || kind == TokenKind::Enum
            || kind == TokenKind::Trait) && depth == 0 {
            match broken_source_root_definition_site_in_tokens(tokens.as_slice(), index) {
                Some((site, next_index)) => {
                    let ghost before = sites@.map_values(|s: BrokenSourceRootDefinitionSite| root_site_view(s));
                    let ghost sv = root_site_view(site);
                    sites.push(site);
                    proof {
                        assert(sites@.map_values(|s: BrokenSourceRootDefinitionSite| root_site_view(s)) =~= before.push(sv));
                        assert(before.push(sv) + root_sites_from(ts, next_index as int, depth as nat) =~= before + (seq![sv] + root_sites_from(ts, next_index as int, depth as nat)));
                    }
                    index = next_index;
                    continue;
                },
                None => {},
            }
        }
        index = index + 1;
    }
    proof {
        let v = sites@.map_values(|s: BrokenSourceRootDefinitionSite| root_site_view(s));
        assert(v + Seq::<(SymbolKind, Seq<char>, Span)>::empty() =~= v);
    }
    sites
}

/// The first `{` at or after token `i`.
pub open spec fn first_lbrace_from(ts: Seq<TokenView>, i: int) -> Option<int>
    decreases ts.len() - i,
{
    if i < 0 || i >= ts.len() {
        None
    } else if ts[i].0 == TokenKind::LBrace {
        Some(i)
    } else {
        first_lbrace_from(ts, i + 1)
    }
}

proof fn lemma_first_lbrace_bounds(ts: Seq<TokenView>, i: int)
    requires
        0 <= i,
    ensures
        first_lbrace_from(ts, i) matches Some(j) ==> i <= j < ts.len() && ts[j].0 == TokenKind::LBrace,
    decreases ts.len() - i,
{
    if i < ts.len() && ts[i].0 != TokenKind::LBrace {
        lemma_first_lbrace_bounds(ts, i + 1);
    }
}

/// A trait declared at the top level, with the names of its methods.
#[derive(Clone, Debug, PartialEq, Eq)]
pub struct BrokenSourceTraitDeclSite {
    pub trait_name: String,
    pub trait_span: Span,
    pub method_spans: Vec<(String, Span)>,
}

pub open spec fn trait_site_view(s: BrokenSourceTraitDeclSite) -> (Seq<char>, Span, Seq<Segment>) {
    (s.trait_name@, s.trait_span, segments_view(s.method_spans@))
}

/// The body of a block opened at `open`: where its methods end and where
/// reading goes on; an unclosed block runs to the end of the tokens.
pub open spec fn block_bounds(ts: Seq<TokenView>, open: int) -> (int, int) {
    match after_balanced_braces(ts, open) {
        Some(close) => (close - 1, close),
        None => (ts.len() as int, ts.len() as int),
    }
}

/// An optionally `pub` trait declaration read at `index`: the trait's name
/// and methods, and the index after its body.
pub open spec fn trait_decl_site(ts: Seq<TokenView>, index: int) -> Option<((Seq<char>, Span, Seq<Segment>), int)> {
    let i = if kind_at(ts, index) == Some(TokenKind::Pub) {
        index + 1
    } else {
        index
    };
    if kind_at(ts, i) != Some(TokenKind::Trait) || kind_at(ts, i + 1) != Some(TokenKind::Ident) {
        None
    } else {
        match first_lbrace_from(ts, i + 2) {
            None => None,
            Some(open) => {
                let (method_end, next) = block_bounds(ts, open);
                Some(((ts[i + 1].1, ts[i + 1].2, method_scan(ts, open + 1, method_end, 0)), next))
            },
        }
    }
}

proof fn lemma_trait_decl_site_bounds(ts: Seq<TokenView>, index: int)
    requires
        0 <= index,
    ensures
        trait_decl_site(ts, index) matches Some((_, next)) ==> index < next <= ts.len(),
{
    let i = if kind_at(ts, index) == Some(TokenKind::Pub) {
        index + 1
    } else {
        index
    };
    lemma_first_lbrace_bounds(ts, i + 2);
    if let Some(open) = first_lbrace_from(ts, i + 2) {
        lemma_balanced_scan_bounds(ts, open + 1, 1);
    }
}

pub fn broken_source_trait_decl_site_in_tokens(tokens: &[Token], index: usize) -> (r: Option<(BrokenSourceTraitDeclSite, usize)>)
    ensures
        match r {
            Some((site, next)) => trait_decl_site(tokens_view(tokens@), index as int) == Some(
                (trait_site_view(site), next as int),
            ),
            None => trait_decl_site(tokens_view(tokens@), index as int) is None,
        },
{
    let ghost ts = tokens_view(tokens@);
    let n = tokens.len();
    let mut i = index;
    if kind_at_index(tokens, i) == Some(TokenKind::Pub) {
        i = i + 1;
    }
    if kind_at_index(tokens, i) != Some(TokenKind::Trait) {
        return None;
    }
    if !(i + 1 < n && tokens[i + 1].kind == TokenKind::Ident) {
        return None;
    }
    let trait_name = &tokens[i + 1];
    let mut open = i + 2;
    while open < n && tokens[open].kind != TokenKind::LBrace
        invariant
            ts == tokens_view(tokens@),
            n == tokens@.len(),
            i + 2 <= open <= n,
            first_lbrace_from(ts, i + 2) == first_lbrace_from(ts, open as int),
        decreases n - open,
    {
        open = open + 1;
    }
    if open >= n {
        return None;
    }
    proof {
        lemma_balanced_scan_bounds(ts, open + 1, 1);
    }
    let close = token_index_after_balanced_braces_in_tokens(tokens, open);
    let (method_end, next) = match close {
        Some(c) => (c - 1, c),
        None => (n, n),
    };
    let methods = broken_source_impl_method_name_spans_in_tokens(tokens, open + 1, method_end);
    Some((BrokenSourceTraitDeclSite { trait_name: trait_name.text.clone(), trait_span: trait_name.span, method_spans: methods }, next))
}

/// The trait declarations at brace depth zero from token `i` on.
pub open spec fn trait_sites_from(ts: Seq<TokenView>, i: int, depth: nat) -> Seq<(Seq<char>, Span, Seq<Segment>)>
    decreases ts.len() - i,
    via trait_sites_decreases
{
    if i < 0 || i >= ts.len() {
        seq![]
    } else {
        let k = ts[i].0;
        if k == TokenKind::LBrace {
            trait_sites_from(ts, i + 1, depth + 1)
        } else if k == TokenKind::RBrace {
            trait_sites_from(ts, i + 1, if depth > 0 {
                (depth - 1) as nat
            } else {
                0
            })
        } else if (k == TokenKind::Pub || k == TokenKind::Trait) && depth == 0 && trait_decl_site(ts, i) is Some {
            let (site, next) = trait_decl_site(ts, i)->0;
            seq![site] + trait_sites_from(ts, next, depth)
        } else {
            trait_sites_from(ts, i + 1, depth)
        }
    }
}

#[via_fn]
proof fn trait_sites_decreases(ts: Seq<TokenView>, i: int, depth: nat) {
    if 0 <= i {
        lemma_trait_decl_site_bounds(ts, i);
    }
}

/// The traits declared at the top level of a source.
pub fn broken_source_trait_decl_sites_in_source(source: &str) -> (sites: Vec<BrokenSourceTraitDeclSite>)
    ensures
        sites@.map_values(|s: BrokenSourceTraitDeclSite| trait_site_view(s)) == trait_sites_from(
            lex_spec(source@).0,
            0,
            0,
        ),
{
    let (tokens, _) = lex(source);
    let ghost ts = tokens_view(tokens@);
    let mut sites: Vec<BrokenSourceTraitDeclSite> = Vec::new();
    let mut depth: usize = 0;
    let mut index: usize = 0;
    while index < tokens.len()
        invariant
            ts == tokens_view(tokens@),
            ts == lex_spec(source@).0,
            index <= tokens@.len(),
            depth <= index,
            sites@.map_values(|s: BrokenSourceTraitDeclSite| trait_site_view(s)) + trait_sites_from(
                ts,
                index as int,
                depth as nat,
            ) == trait_sites_from(ts, 0, 0),
        decreases tokens@.len() - index,
    {
        let kind = tokens[index].kind;
        if kind == TokenKind::LBrace {
            depth = depth + 1;
        } else if kind == TokenKind::RBrace {
            if depth > 0 {
                depth = depth - 1;
            }
        } else if (kind == TokenKind::Pub || kind == TokenKind::Trait) && depth == 0 {
            proof {
                lemma_trait_decl_site_bounds(ts, index as int);
            }
            match broken_source_trait_decl_site_in_tokens(tokens.as_slice(), index) {
                Some((site, next_index)) => {
                    let ghost before = sites@.map_values(|s: BrokenSourceTraitDeclSite| trait_site_view(s));
                    let ghost sv = trait_site_view(site);
                    sites.push(site);
                    proof {
                        assert(sites@.map_values(|s: BrokenSourceTraitDeclSite| trait_site_view(s)) =~= before.push(sv));
                        assert(before.push(sv) + trait_sites_from(ts, next_index as int, depth as nat) =~= before + (seq![sv] + trait_sites_from(ts, next_index as int, depth as nat)));
                    }
                    index = next_index;
                    continue;
                },
                None => {},
            }
        }
        index = index + 1;
    }
    proof {
        let v = sites@.map_values(|s: BrokenSourceTraitDeclSite| trait_site_view(s));
        assert(v + Seq::<(Seq<char>, Span, Seq<Segment>)>::empty() =~= v);
    }
    sites
}

/// An `impl` or `extend` block at the top level: where it stands, the trait
/// it implements (if any), the type it is for, and its methods.
#[derive(Debug, PartialEq, Eq)]
pub struct BrokenSourceImplBlockSite {
    pub location: Location,
    pub trait_name: Option<String>,
    pub target_name: String,
    pub method_spans: Vec<(String, Span)>,
}

pub type ImplSiteView = ((Seq<char>, Range), Option<Seq<char>>, Seq<char>, Seq<Segment>);

pub open spec fn impl_site_view(s: BrokenSourceImplBlockSite) -> ImplSiteView {
    (
        s.location@,
        match s.trait_name {
            Some(t) => Some(t@),
            None => None,
        },
        s.target_name@,
        segments_view(s.method_spans@),
    )
}

/// The header of an `impl Trait for Type`, `impl Type` or `extend Type`
/// block at `index`: the trait's and the type's last path segments and the
/// index where the body should open.
pub open spec fn impl_header(ts: Seq<TokenView>, index: int) -> Option<(Option<Seq<char>>, Seq<char>, int)> {
    if kind_at(ts, index) == Some(TokenKind::Impl) {
        match path_last_ident(ts, index + 1) {
            None => None,
            Some((first, next)) => if kind_at(ts, next) == Some(TokenKind::For) {
                match path_last_ident(ts, next + 1) {
                    None => None,
                    Some((target, after)) => Some((Some(first.1), target.1, after)),
                }
            } else {
                Some((None, first.1, next))
            },
        }
    } else if kind_at(ts, index) == Some(TokenKind::Extend) {
        match path_last_ident(ts, index + 1) {
            None => None,
            Some((target, next)) => Some((None, target.1, next)),
        }
    } else {
        None
    }
}

/// The `impl` or `extend` block at `index` of the tokens of `cs`, in the
/// document `uri`: its site and the index after its body. The site spans
/// from the keyword to the closing `}`, or to the end of the text.
pub open spec fn impl_block_site(uri: Seq<char>, cs: Seq<char>, ts: Seq<TokenView>, index: int) -> Option<(ImplSiteView, int)> {
    match impl_header(ts, index) {
        None => None,
        Some((trait_name, target_name, open)) => if kind_at(ts, open) != Some(TokenKind::LBrace) {
            None
        } else {
            let (method_end, next) = block_bounds(ts, open);
            let block_end = match after_balanced_braces(ts, open) {
                Some(close) => ts[close - 1].2.end,
                None => byte_len(cs) as usize,
            };
            Some(
                (
                    (
                        (uri, span_range(cs, Span { start: ts[index].2.start, end: block_end })),
                        trait_name,
                        target_name,
                        method_scan(ts, open + 1, method_end, 0),
                    ),
                    next,
                ),
            )
        },
    }
}

proof fn lemma_path_last_ident_bounds(ts: Seq<TokenView>, index: int)
    requires
        0 <= index,
    ensures
        path_last_ident(ts, index) matches Some((t, next)) ==> index < next <= ts.len() && t == ts[next - 1],
{
    if kind_at(ts, index) == Some(TokenKind::Ident) {
        crate::imports::lemma_path_tail_bounds(ts, index + 1, seq![segment_at(ts, index)]);
    }
}

proof fn lemma_impl_block_site_bounds(uri: Seq<char>, cs: Seq<char>, ts: Seq<TokenView>, index: int)
    requires
        0 <= index,
    ensures
        impl_block_site(uri, cs, ts, index) matches Some((_, next)) ==> index < next <= ts.len(),
{
    lemma_path_last_ident_bounds(ts, index + 1);
    if let Some((_, next)) = path_last_ident(ts, index + 1) {
        lemma_path_last_ident_bounds(ts, next + 1);
    }
    if let Some((_, _, open)) = impl_header(ts, index) {
        if open >= 0 {
            lemma_balanced_scan_bounds(ts, open + 1, 1);
        }
    }
}

pub fn broken_source_impl_block_site_in_tokens(uri: &str, source: &str, tokens: &[Token], index: usize) -> (r: Option<(BrokenSourceImplBlockSite, usize)>)
    requires
        spans_on_boundaries(source@, tokens_view(tokens@)),
    ensures
        match r {
            Some((site, next)) => impl_block_site(uri@, source@, tokens_view(tokens@), index as int) == Some(
                (impl_site_view(site), next as int),
            ),
            None => impl_block_site(uri@, source@, tokens_view(tokens@), index as int) is None,
        },
{
    let ghost ts = tokens_view(tokens@);
    let ghost cs = source@;
    let n = tokens.len();
    if index >= n {
        return None;
    }
    let token = &tokens[index];
    let (trait_name, target_name, open) = if token.kind == TokenKind::Impl {
        let (first_name, next) = match broken_source_path_last_ident_token(tokens, index + 1) {
            Some(found) => found,
            None => {
                return None;
            },
        };
        if kind_at_index(tokens, next) == Some(TokenKind::For) {
            let (target, after) = match broken_source_path_last_ident_token(tokens, next + 1) {
                Some(found) => found,
                None => {
                    return None;
                },
            };
            (Some(first_name.text.clone()), target.text.clone(), after)
        } else {
            (None, first_name.text.clone(), next)
        }
    } else if token.kind == TokenKind::Extend {
        let (target, next) = match broken_source_path_last_ident_token(tokens, index + 1) {
            Some(found) => found,
            None => {
                return None;
            },
        };
        (None, target.text.clone(), next)
    } else {
        return None;
    };
    if kind_at_index(tokens, open) != Some(TokenKind::LBrace) {
        return None;
    }
    proof {
        lemma_balanced_scan_bounds(ts, open + 1, 1);
    }
    let close = token_index_after_balanced_braces_in_tokens(tokens, open);
    let len = str_byte_len(source);
    let (method_end, next, block_end) = match close {
        Some(c) => (c - 1, c, tokens[c - 1].span.end),
        None => (n, n, len),
    };
    proof {
        assert(ts[index as int] == token@);
        lemma_clamp_on_boundary(cs, token.span.start as int);
        if let Some(c) = close {
            assert(ts[c - 1] == tokens@[c - 1]@);
            lemma_clamp_on_boundary(cs, block_end as int);
        } else {
            crate::text::lemma_byte_offset_end(cs);
            assert(is_boundary(cs, byte_offset(cs, cs.len() as int) as int));
            lemma_clamp_on_boundary(cs, block_end as int);
        }
    }
    let methods = broken_source_impl_method_name_spans_in_tokens(tokens, open + 1, method_end);
    let range = span_to_range(source, Span::new(token.span.start, block_end));
    let location = Location::new(String::from_str(uri), range);
    Some((BrokenSourceImplBlockSite { location, trait_name, target_name, method_spans: methods }, next))
}

pub(crate) proof fn lemma_clamp_on_boundary(cs: Seq<char>, offset: int)
    requires
        is_boundary(cs, offset),
    ensures
        clamp_offset(cs, offset) == offset,
{
    let w = choose|i: int| 0 <= i <= cs.len() && byte_offset(cs, i) == offset;
    crate::text::lemma_byte_offset_bound(cs, w);
}

/// The `impl` and `extend` blocks at brace depth zero from token `i` on.
pub open spec fn impl_sites_from(uri: Seq<char>, cs: Seq<char>, ts: Seq<TokenView>, i: int, depth: nat) -> Seq<ImplSiteView>
    decreases ts.len() - i,
    via impl_sites_decreases
{
    if i < 0 || i >= ts.len() {
        seq![]
    } else {
        let k = ts[i].0;
        if k == TokenKind::LBrace {
            impl_sites_from(uri, cs, ts, i + 1, depth + 1)
        } else if k == TokenKind::RBrace {
            impl_sites_from(uri, cs, ts, i + 1, if depth > 0 {
                (depth - 1) as nat
            } else {
                0
            })
        } else if (k == TokenKind::Impl || k == TokenKind::Extend) && depth == 0 && impl_block_site(uri, cs, ts, i) is Some {
            let (site, next) = impl_block_site(uri, cs, ts, i)->0;
            seq![site] + impl_sites_from(uri, cs, ts, next, depth)
        } else {
            impl_sites_from(uri, cs, ts, i + 1, depth)
        }
    }
}

#[via_fn]
proof fn impl_sites_decreases(uri: Seq<char>, cs: Seq<char>, ts: Seq<TokenView>, i: int, depth: nat) {
    if 0 <= i {
        lemma_impl_block_site_bounds(uri, cs, ts, i);
    }
}

/// The `impl` and `extend` blocks at the top level of a source.
#[verifier::spinoff_prover]
#[verifier::rlimit(80)]
pub fn broken_source_impl_block_sites_in_source(uri: &str, source: &str) -> (sites: Vec<BrokenSourceImplBlockSite>)
    ensures
        sites@.map_values(|s: BrokenSourceImplBlockSite| impl_site_view(s)) == impl_sites_from(
            uri@,
            source@,
            lex_spec(source@).0,
            0,
            0,
        ),
{
    let _len = str_byte_len(source);
    let (tokens, _) = lex(source);
    let ghost ts = tokens_view(tokens@);
    let ghost cs = source@;
    proof {
        crate::features::lemma_lexed_spans_on_boundaries(cs);
    }
    let mut sites: Vec<BrokenSourceImplBlockSite> = Vec::new();
    let mut depth: usize = 0;
    let mut index: usize = 0;
    while index < tokens.len()
        invariant
            ts == tokens_view(tokens@),
            ts == lex_spec(cs).0,
            cs == source@,
            spans_on_boundaries(cs, ts),
            index <= tokens@.len(),
            depth <= index,
            sites@.map_values(|s: BrokenSourceImplBlockSite| impl_site_view(s)) + impl_sites_from(
                uri@,
                cs,
                ts,
                index as int,
                depth as nat,
            ) == impl_sites_from(uri@, cs, ts, 0, 0),
        decreases tokens@.len() - index,
    {
        let kind = tokens[index].kind;
        if kind == TokenKind::LBrace {
            depth = depth + 1;
        } else if kind == TokenKind::RBrace {
            if depth > 0 {
                depth = depth - 1;
            }
        } else if (kind == TokenKind::Impl || kind == TokenKind::Extend) && depth == 0 {
            proof {
                lemma_impl_block_site_bounds(uri@, cs, ts, index as int);
            }
            match broken_source_impl_block_site_in_tokens(uri, source, tokens.as_slice(), index) {
                Some((site, next_index)) => {
                    let ghost before = sites@.map_values(|s: BrokenSourceImplBlockSite| impl_site_view(s));
                    let ghost sv = impl_site_view(site);
                    sites.push(site);
                    proof {
                        assert(sites@.map_values(|s: BrokenSourceImplBlockSite| impl_site_view(s)) =~= before.push(sv));
                        assert(before.push(sv) + impl_sites_from(uri@, cs, ts, next_index as int, depth as nat) =~= before + (seq![sv] + impl_sites_from(uri@, cs, ts, next_index as int, depth as nat)));
                    }
                    index = next_index;
                    continue;
                },
                None => {},
            }
        }
        index = index + 1;
    }
    proof {
        let v = sites@.map_values(|s: BrokenSourceImplBlockSite| impl_site_view(s));
        assert(v + Seq::<ImplSiteView>::empty() =~= v);
    }
    sites
}

// ---------------------------------------------------------------------------
// Import bindings.
// ---------------------------------------------------------------------------

/// A name that a `use` brings into scope: the imported name, the path before
/// it, the local name (its alias, or itself), and where the imported name
/// and the local name stand.
#[derive(Clone, Debug, PartialEq, Eq)]
pub struct BrokenSourceImportBinding {
    pub imported_name: String,
    pub import_prefix: Vec<String>,
    pub local_name: String,
    pub imported_span: Span,
    pub definition_span: Span,
}

pub type BindingView = (Seq<char>, Seq<Seq<char>>, Seq<char>, Span, Span);

pub open spec fn binding_view(b: BrokenSourceImportBinding) -> BindingView {
    (b.imported_name@, strings_view(b.import_prefix@), b.local_name@, b.imported_span, b.definition_span)
}

pub open spec fn bindings_view(v: Seq<BrokenSourceImportBinding>) -> Seq<BindingView> {
    v.map_values(|b: BrokenSourceImportBinding| binding_view(b))
}

/// The binding of `imported`, under `alias` when there is one.
pub open spec fn make_binding(imported: Segment, prefix: Seq<Segment>, alias: Option<Segment>) -> BindingView {
    (
        imported.0,
        segment_names(prefix),
        match alias {
            Some(a) => a.0,
            None => imported.0,
        },
        imported.1,
        match alias {
            Some(a) => a.1,
            None => imported.1,
        },
    )
}

/// An optional `as` alias at `i`: the alias and the index after it.
pub open spec fn alias_info(ts: Seq<TokenView>, i: int) -> Option<(Option<Segment>, int)> {
    if kind_at(ts, i) != Some(TokenKind::As) {
        Some((None, i))
    } else if kind_at(ts, i + 1) == Some(TokenKind::Ident) {
        Some((Some(segment_at(ts, i + 1)), i + 2))
    } else {
        None
    }
}

/// The bindings of a `{...}` group from token `i` on.
pub open spec fn group_bindings(ts: Seq<TokenView>, prefix: Seq<Segment>, i: int, acc: Seq<BindingView>) -> Option<(int, Seq<BindingView>)>
    decreases ts.len() - i,
{
    if kind_at(ts, i) == Some(TokenKind::RBrace) {
        Some((i + 1, acc))
    } else if kind_at(ts, i) != Some(TokenKind::Ident) {
        None
    } else {
        let j = if kind_at(ts, i + 1) != Some(TokenKind::As) {
            i + 1
        } else {
            i + 3
        };
        match alias_info(ts, i + 1) {
            None => None,
            Some((alias, _)) => {
                let next = acc.push(make_binding(segment_at(ts, i), prefix, alias));
                if kind_at(ts, j) == Some(TokenKind::Comma) {
                    group_bindings(ts, prefix, j + 1, next)
                } else if kind_at(ts, j) == Some(TokenKind::RBrace) {
                    Some((j + 1, next))
                } else {
                    None
                }
            },
        }
    }
}

/// The bindings of one `use`, read from the token after the keyword.
pub open spec fn bindings_after_use(ts: Seq<TokenView>, i: int) -> Option<(int, Seq<BindingView>)> {
    match import_path(ts, i) {
        None => None,
        Some((prefix, k)) => if kind_at(ts, k) == Some(TokenKind::Dot) && kind_at(ts, k + 1) == Some(
            TokenKind::LBrace,
        ) {
            group_bindings(ts, prefix, k + 2, seq![])
        } else {
            match alias_info(ts, k) {
                None => None,
                Some((alias, j)) => Some((j, seq![make_binding(prefix.last(), prefix.drop_last(), alias)])),
            }
        },
    }
}

proof fn lemma_group_bindings_bounds(ts: Seq<TokenView>, prefix: Seq<Segment>, i: int, acc: Seq<BindingView>)
    requires
        0 <= i,
    ensures
        group_bindings(ts, prefix, i, acc) matches Some((j, _)) ==> i < j <= ts.len(),
    decreases ts.len() - i,
{
    let j = if kind_at(ts, i + 1) != Some(TokenKind::As) {
        i + 1
    } else {
        i + 3
    };
    if kind_at(ts, i) == Some(TokenKind::Ident) && kind_at(ts, j) == Some(TokenKind::Comma) {
        if let Some((alias, _)) = alias_info(ts, i + 1) {
            lemma_group_bindings_bounds(ts, prefix, j + 1, acc.push(make_binding(segment_at(ts, i), prefix, alias)));
        }
    }
}

proof fn lemma_bindings_after_use_bounds(ts: Seq<TokenView>, i: int)
    requires
        0 <= i,
    ensures
        bindings_after_use(ts, i) matches Some((j, _)) ==> i < j <= ts.len(),
{
    if kind_at(ts, i) == Some(TokenKind::Ident) {
        crate::imports::lemma_path_tail_bounds(ts, i + 1, seq![segment_at(ts, i)]);
        let (prefix, k) = import_path(ts, i)->0;
        lemma_group_bindings_bounds(ts, prefix, k + 2, seq![]);
    }
}

/// The bindings of every `use` in the tokens from `i` on; a `use` that does
/// not read well is skipped.
pub open spec fn bindings_from(ts: Seq<TokenView>, i: int) -> Seq<BindingView>
    decreases ts.len() - i,
    via bindings_from_decreases
{
    if i < 0 || i >= ts.len() {
        seq![]
    } else if ts[i].0 != TokenKind::Use {
        bindings_from(ts, i + 1)
    } else {
        match bindings_after_use(ts, i + 1) {
            None => bindings_from(ts, i + 1),
            Some((next, bindings)) => bindings + bindings_from(ts, if next > i + 1 {
                next
            } else {
                i + 1
            }),
        }
    }
}

#[via_fn]
proof fn bindings_from_decreases(ts: Seq<TokenView>, i: int) {
    if 0 <= i {
        lemma_bindings_after_use_bounds(ts, i + 1);
    }
}

/// The imported name of a binding and where it stands, as a path segment.
pub open spec fn imported_segment(b: BindingView) -> Segment {
    (b.0, b.3)
}

/// The local name of a binding and where it is defined, as a path segment.
pub open spec fn definition_segment(b: BindingView) -> Segment {
    (b.2, b.4)
}

/// The imported and the defining segment of a binding meet `ok`.
pub open spec fn binding_segments_ok(b: BindingView, ok: spec_fn(Segment) -> bool) -> bool {
    ok(imported_segment(b)) && ok(definition_segment(b))
}

/// Every binding's segments meet `ok`.
pub open spec fn bindings_ok(bs: Seq<BindingView>, ok: spec_fn(Segment) -> bool) -> bool {
    forall|k: int| 0 <= k < bs.len() ==> #[trigger] binding_segments_ok(bs[k], ok)
}

proof fn lemma_alias_info_ok(ts: Seq<TokenView>, ok: spec_fn(Segment) -> bool, i: int)
    requires
        tokens_segments_ok(ts, ok),
    ensures
        alias_info(ts, i) matches Some((Some(a), _)) ==> ok(a),
{
    if kind_at(ts, i) == Some(TokenKind::As) && kind_at(ts, i + 1) == Some(TokenKind::Ident) {
        assert(ok(segment_at(ts, i + 1)));
    }
}

proof fn lemma_group_bindings_ok(
    ts: Seq<TokenView>,
    ok: spec_fn(Segment) -> bool,
    prefix: Seq<Segment>,
    i: int,
    acc: Seq<BindingView>,
)
    requires
        tokens_segments_ok(ts, ok),
        bindings_ok(acc, ok),
    ensures
        group_bindings(ts, prefix, i, acc) matches Some((_, bs)) ==> bindings_ok(bs, ok),
    decreases ts.len() - i,
{
    if kind_at(ts, i) == Some(TokenKind::Ident) {
        let j = if kind_at(ts, i + 1) != Some(TokenKind::As) {
            i + 1
        } else {
            i + 3
        };
        lemma_alias_info_ok(ts, ok, i + 1);
        if let Some((alias, _)) = alias_info(ts, i + 1) {
            let b = make_binding(segment_at(ts, i), prefix, alias);
            let next = acc.push(b);
            assert(ok(segment_at(ts, i)));
            assert(imported_segment(b) == segment_at(ts, i));
            assert(binding_segments_ok(b, ok));
            assert forall|k: int| 0 <= k < next.len() implies #[trigger] binding_segments_ok(next[k], ok) by {
                if k < acc.len() {
                    assert(next[k] == acc[k]);
                }
            }
            if kind_at(ts, j) == Some(TokenKind::Comma) {
                lemma_group_bindings_ok(ts, ok, prefix, j + 1, next);
            }
        }
    }
}

proof fn lemma_bindings_after_use_ok(ts: Seq<TokenView>, ok: spec_fn(Segment) -> bool, i: int)
    requires
        tokens_segments_ok(ts, ok),
    ensures
        bindings_after_use(ts, i) matches Some((_, bs)) ==> bindings_ok(bs, ok),
{
    lemma_import_path_ok(ts, ok, i);
    if let Some((prefix, k)) = import_path(ts, i) {
        if kind_at(ts, k) == Some(TokenKind::Dot) && kind_at(ts, k + 1) == Some(TokenKind::LBrace) {
            lemma_group_bindings_ok(ts, ok, prefix, k + 2, seq![]);
        } else {
            lemma_alias_info_ok(ts, ok, k);
            if let Some((alias, j)) = alias_info(ts, k) {
                let b = make_binding(prefix.last(), prefix.drop_last(), alias);
                assert(ok(prefix[prefix.len() - 1]));
                assert(imported_segment(b) == prefix.last());
                assert(binding_segments_ok(b, ok));
                assert(seq![b][0] == b);
            }
        }
    }
}

/// The imported and the defining segment of every binding of the tokens
/// are among the tokens' segments, so they meet whatever every token
/// segment meets.
pub proof fn lemma_bindings_from_ok(ts: Seq<TokenView>, ok: spec_fn(Segment) -> bool, i: int)
    requires
        tokens_segments_ok(ts, ok),
    ensures
        bindings_ok(bindings_from(ts, i), ok),
    decreases ts.len() - i,
{
    if 0 <= i < ts.len() {
        if ts[i].0 != TokenKind::Use {
            lemma_bindings_from_ok(ts, ok, i + 1);
        } else {
            lemma_bindings_after_use_bounds(ts, i + 1);
            lemma_bindings_after_use_ok(ts, ok, i + 1);
            match bindings_after_use(ts, i + 1) {
                None => lemma_bindings_from_ok(ts, ok, i + 1),
                Some((next, bs)) => {
                    let k = if next > i + 1 {
                        next
                    } else {
                        i + 1
                    };
                    lemma_bindings_from_ok(ts, ok, k);
                    let rest = bindings_from(ts, k);
                    let all = bs + rest;
                    assert forall|m: int| 0 <= m < all.len() implies #[trigger] binding_segments_ok(all[m], ok) by {
                        if m < bs.len() {
                            assert(all[m] == bs[m]);
                        } else {
                            assert(all[m] == rest[m - bs.len()]);
                        }
                    }
                },
            }
        }
    }
}

fn alias_in_tokens(tokens: &[Token], index: usize) -> (r: Option<(Option<(String, Span)>, usize)>)
    ensures
        match r {
            Some((alias, next)) => alias_info(tokens_view(tokens@), index as int) == Some(
                (
                    match alias {
                        Some(a) => Some((a.0@, a.1)),
                        None => None,
                    },
                    next as int,
                ),
            ),
            None => alias_info(tokens_view(tokens@), index as int) is None,
        },
{
    let _n = tokens.len();
    if kind_at_index(tokens, index) != Some(TokenKind::As) {
        return Some((None, index));
    }
    if !(index + 1 < tokens.len() && tokens[index + 1].kind == TokenKind::Ident) {
        return None;
    }
    let alias = &tokens[index + 1];
    Some((Some((alias.text.clone(), alias.span)), index + 2))
}

/// The optional `as` alias at `index`: its text and span, and the index
/// after it.
pub fn broken_source_import_alias_in_tokens(tokens: &[Token], index: usize) -> (r: Option<(Option<String>, Option<Span>, usize)>)
    ensures
        match r {
            Some((alias, span, next)) => alias_info(tokens_view(tokens@), index as int) == Some(
                (
                    match (alias, span) {
                        (Some(a), Some(s)) => Some((a@, s)),
                        _ => None,
                    },
                    next as int,
                ),
            ) && (alias is Some <==> span is Some),
            None => alias_info(tokens_view(tokens@), index as int) is None,
        },
{
    match alias_in_tokens(tokens, index) {
        Some((Some((text, span)), next)) => Some((Some(text), Some(span), next)),
        Some((None, next)) => Some((None, None, next)),
        None => None,
    }
}

fn segment_names_exec(segments: &Vec<(String, Span)>, count: usize) -> (names: Vec<String>)
    requires
        count <= segments@.len(),
    ensures
        strings_view(names@) == segment_names(segments_view(segments@).take(count as int)),
{
    let mut names: Vec<String> = Vec::new();
    let mut k: usize = 0;
    while k < count
        invariant
            count <= segments@.len(),
            k <= count,
            strings_view(names@) == segment_names(segments_view(segments@).take(k as int)),
        decreases count - k,
    {
        let ghost before = strings_view(names@);
        names.push(segments[k].0.clone());
        proof {
            assert(strings_view(names@) =~= before.push(segments@[k as int].0@));
            assert(segment_names(segments_view(segments@).take(k + 1)) =~= segment_names(segments_view(segments@).take(k as int)).push(segments@[k as int].0@));
        }
        k = k + 1;
    }
    names
}

fn new_binding(imported: &(String, Span), prefix: &Vec<(String, Span)>, prefix_len: usize, alias: Option<(String, Span)>) -> (b: BrokenSourceImportBinding)
    requires
        prefix_len <= prefix@.len(),
    ensures
        binding_view(b) == make_binding(
            (imported.0@, imported.1),
            segments_view(prefix@).take(prefix_len as int),
            match alias {
                Some(a) => Some((a.0@, a.1)),
                None => None,
            },
        ),
{
    let import_prefix = segment_names_exec(prefix, prefix_len);
    match alias {
        Some((text, span)) => BrokenSourceImportBinding {
            imported_name: imported.0.clone(),
            import_prefix,
            local_name: text,
            imported_span: imported.1,
            definition_span: span,
        },
        None => BrokenSourceImportBinding {
            imported_name: imported.0.clone(),
            import_prefix,
            local_name: imported.0.clone(),
            imported_span: imported.1,
            definition_span: imported.1,
        },
    }
}

/// The bindings of one `use`, read from the token after the keyword, with
/// the index after them.
pub fn broken_source_import_bindings_after_use(tokens: &[Token], index: usize) -> (r: Option<(usize, Vec<BrokenSourceImportBinding>)>)
    ensures
        match r {
            Some((next, bindings)) => bindings_after_use(tokens_view(tokens@), index as int) == Some(
                (next as int, bindings_view(bindings@)),
            ),
            None => bindings_after_use(tokens_view(tokens@), index as int) is None,
        },
{
    let ghost ts = tokens_view(tokens@);
    let (prefix, after) = match top_level_import_path_in_tokens(tokens, index) {
        Some(found) => found,
        None => {
            return None;
        },
    };
    let ghost pv = segments_view(prefix@);
    let n = tokens.len();
    proof {
        crate::imports::lemma_path_tail_bounds(ts, index + 1, seq![segment_at(ts, index as int)]);
        assert(pv.take(pv.len() as int) =~= pv);
    }
    if kind_at_index(tokens, after) == Some(TokenKind::Dot) && kind_at_index(tokens, after + 1) == Some(
        TokenKind::LBrace,
    ) {
        let mut i = after + 2;
        let mut bindings: Vec<BrokenSourceImportBinding> = Vec::new();
        proof {
            assert(bindings_view(bindings@) =~= Seq::<BindingView>::empty());
        }
        loop
            invariant
                ts == tokens_view(tokens@),
                n == tokens@.len(),
                pv == segments_view(prefix@),
                pv.take(pv.len() as int) == pv,
                i <= n,
                bindings_after_use(ts, index as int) == group_bindings(ts, pv, after + 2, seq![]),
                group_bindings(ts, pv, after + 2, seq![]) == group_bindings(ts, pv, i as int, bindings_view(bindings@)),
            decreases n - i,
        {
            if kind_at_index(tokens, i) == Some(TokenKind::RBrace) {
                return Some((i + 1, bindings));
            }
            if !(i < n && tokens[i].kind == TokenKind::Ident) {
                return None;
            }
            let item = (tokens[i].text.clone(), tokens[i].span);
            let (alias, j) = match alias_in_tokens(tokens, i + 1) {
                Some(found) => found,
                None => {
                    return None;
                },
            };
            let binding = new_binding(&item, &prefix, prefix.len(), alias);
            let ghost before = bindings_view(bindings@);
            bindings.push(binding);
            proof {
                assert(bindings_view(bindings@) =~= before.push(binding_view(binding)));
            }
            match kind_at_index(tokens, j) {
                Some(TokenKind::Comma) => {
                    i = j + 1;
                },
                Some(TokenKind::RBrace) => {
                    return Some((j + 1, bindings));
                },
                _ => {
                    return None;
                },
            }
        }
    }
    let (alias, next) = match alias_in_tokens(tokens, after) {
        Some(found) => found,
        None => {
            return None;
        },
    };
    let last = (prefix[prefix.len() - 1].0.clone(), prefix[prefix.len() - 1].1);
    proof {
        assert(pv.drop_last() =~= pv.take(pv.len() - 1));
        assert((last.0@, last.1) == pv.last());
    }
    let binding = new_binding(&last, &prefix, prefix.len() - 1, alias);
    let mut bindings: Vec<BrokenSourceImportBinding> = Vec::new();
    let ghost bv = binding_view(binding);
    bindings.push(binding);
    proof {
        assert(bindings_view(bindings@) =~= seq![bv]);
    }
    Some((next, bindings))
}

/// The bindings of every `use` among the tokens; a `use` that does not read
/// well is skipped.
pub fn broken_source_import_bindings_in_tokens(tokens: &[Token]) -> (bindings: Vec<BrokenSourceImportBinding>)
    ensures
        bindings_view(bindings@) == bindings_from(tokens_view(tokens@), 0),
{
    let ghost ts = tokens_view(tokens@);
    let mut bindings: Vec<BrokenSourceImportBinding> = Vec::new();
    let mut index: usize = 0;
    while index < tokens.len()
        invariant
            ts == tokens_view(tokens@),
            index <= tokens@.len(),
            bindings_view(bindings@) + bindings_from(ts, index as int) == bindings_from(ts, 0),
        decreases tokens@.len() - index,
    {
        if tokens[index].kind != TokenKind::Use {
            index = index + 1;
            continue;
        }
        proof {
            lemma_bindings_after_use_bounds(ts, index + 1);
        }
        match broken_source_import_bindings_after_use(tokens, index + 1) {
            None => {
                index = index + 1;
            },
            Some((next, use_bindings)) => {
                let ghost before = bindings_view(bindings@);
                let ghost added = bindings_view(use_bindings@);
                let mut more = use_bindings;
                bindings.append(&mut more);
                proof {
                    assert(bindings_view(bindings@) =~= before + added);
                }
                let following = if next > index + 1 {
                    next
                } else {
                    index + 1
                };
                proof {
                    assert(before + added + bindings_from(ts, following as int) =~= before + (added + bindings_from(ts, following as int)));
                }
                index = following;
            },
        }
    }
    proof {
        assert(bindings_view(bindings@) + Seq::<BindingView>::empty() =~= bindings_view(bindings@));
    }
    bindings
}

/// The first identifier token whose span contains `offset`.
pub open spec fn ident_containing(ts: Seq<TokenView>, offset: int, k: int) -> Option<int>
    decreases ts.len() - k,
{
    if k < 0 || k >= ts.len() {
        None
    } else if ts[k].0 == TokenKind::Ident && ts[k].2.start <= offset && offset < ts[k].2.end {
        Some(k)
    } else {
        ident_containing(ts, offset, k + 1)
    }
}

pub open spec fn has_local_name(name: Seq<char>) -> spec_fn(BindingView) -> bool {
    |b: BindingView| b.2 == name
}

/// The import binding that the identifier at an editor position names: the
/// identifier must be the local name of exactly one binding, and stand
/// where that binding is defined or where an imported name is used.
pub open spec fn binding_at(cs: Seq<char>, line: int, character: int) -> Option<BindingView> {
    match position_offset(cs, line, character) {
        None => None,
        Some(offset) => {
            let ts = lex_spec(cs).0;
            match ident_containing(ts, offset, 0) {
                None => None,
                Some(k) => {
                    let named = bindings_from(ts, 0).filter(has_local_name(ts[k].1));
                    if named.len() != 1 {
                        None
                    } else if ts[k].2 == named[0].4 || reference_context(ts, k) {
                        Some(named[0])
                    } else {
                        None
                    }
                },
            }
        },
    }
}

pub fn broken_source_import_binding_at(source: &str, position: Position) -> (binding: Option<BrokenSourceImportBinding>)
    ensures
        match binding {
            Some(b) => binding_at(source@, position.line as int, position.character as int) == Some(binding_view(b)),
            None => binding_at(source@, position.line as int, position.character as int) is None,
        },
{
    let offset = match position_to_offset(source, position) {
        Some(o) => o,
        None => {
            return None;
        },
    };
    let (tokens, _) = lex(source);
    let ghost ts = tokens_view(tokens@);
    let bindings = broken_source_import_bindings_in_tokens(tokens.as_slice());
    let ghost bs = bindings_view(bindings@);
    let mut index: usize = 0;
    while index < tokens.len() && !(tokens[index].kind == TokenKind::Ident && tokens[index].span.contains(offset))
        invariant
            ts == tokens_view(tokens@),
            index <= tokens@.len(),
            ident_containing(ts, offset as int, 0) == ident_containing(ts, offset as int, index as int),
        decreases tokens@.len() - index,
    {
        index = index + 1;
    }
    if index >= tokens.len() {
        return None;
    }
    let token = &tokens[index];
    let ghost name = token.text@;
    let ghost pred = has_local_name(name);
    let mut count: usize = 0;
    let mut first: Option<usize> = None;
    let mut k: usize = 0;
    proof {
        assert(bs.take(0).filter(pred) =~= Seq::<BindingView>::empty());
    }
    while k < bindings.len()
        invariant
            bs == bindings_view(bindings@),
            name == token.text@,
            pred == has_local_name(name),
            k <= bs.len(),
            count as int == bs.take(k as int).filter(pred).len(),
            count <= k,
            match first {
                None => count == 0,
                Some(f) => f < k && count > 0 && bs.take(k as int).filter(pred)[0] == bs[f as int],
            },
        decreases bs.len() - k,
    {
        proof {
            assert(bs.take(k + 1) =~= bs.take(k as int).push(bs[k as int]));
            bs.take(k as int).lemma_filter_push(bs[k as int], pred);
            assert(bs[k as int] == binding_view(bindings@[k as int]));
        }
        if str_equal(bindings[k].local_name.as_str(), token.text.as_str()) {
            if first.is_none() {
                first = Some(k);
            }
            count = count + 1;
        }
        k = k + 1;
    }
    proof {
        assert(bs.take(bs.len() as int) =~= bs);
        assert(ts[index as int] == token@);
    }
    if count != 1 {
        return None;
    }
    let f = first.unwrap();
    let binding = &bindings[f];
    if token.span == binding.definition_span || broken_source_import_token_matches_reference_context(tokens.as_slice(), index) {
        Some(binding.clone_binding())
    } else {
        None
    }
}

impl BrokenSourceImportBinding {
    /// A copy of the binding.
    pub fn clone_binding(&self) -> (copy: BrokenSourceImportBinding)
        ensures
            binding_view(copy) == binding_view(*self),
    {
        let mut prefix: Vec<String> = Vec::new();
        let mut k: usize = 0;
        while k < self.import_prefix.len()
            invariant
                k <= self.import_prefix@.len(),
                strings_view(prefix@) == strings_view(self.import_prefix@).take(k as int),
            decreases self.import_prefix@.len() - k,
        {
            let ghost before = strings_view(prefix@);
            prefix.push(self.import_prefix[k].clone());
            proof {
                assert(strings_view(prefix@) =~= before.push(self.import_prefix@[k as int]@));
                assert(strings_view(self.import_prefix@).take(k + 1) =~= strings_view(self.import_prefix@).take(k as int).push(self.import_prefix@[k as int]@));
            }
            k = k + 1;
        }
        proof {
            assert(strings_view(self.import_prefix@).take(self.import_prefix@.len() as int) =~= strings_view(self.import_prefix@));
        }
        BrokenSourceImportBinding {
            imported_name: self.imported_name.clone(),
            import_prefix: prefix,
            local_name: self.local_name.clone(),
            imported_span: self.imported_span,
            definition_span: self.definition_span,
        }
    }
}

/// Whether a binding imports exactly `import_path`: its prefix followed by
/// its imported name.
pub fn broken_source_import_binding_matches_path(binding: &BrokenSourceImportBinding, import_path: &[String]) -> (matches: bool)
    ensures
        matches == (strings_view(import_path@) == strings_view(binding.import_prefix@).push(
            binding.imported_name@,
        )),
{
    let ghost want = strings_view(binding.import_prefix@).push(binding.imported_name@);
    let ghost have = strings_view(import_path@);
    let n = import_path.len();
    if n == 0 {
        assert(have.len() != want.len());
        return false;
    }
    if binding.import_prefix.len() != n - 1 {
        assert(have.len() != want.len());
        return false;
    }
    if !str_equal(import_path[n - 1].as_str(), binding.imported_name.as_str()) {
        assert(have[n - 1] != want[n - 1]);
        return false;
    }
    let mut k: usize = 0;
    while k < binding.import_prefix.len()
        invariant
            want == strings_view(binding.import_prefix@).push(binding.imported_name@),
            have == strings_view(import_path@),
            n == import_path@.len(),
            binding.import_prefix@.len() + 1 == n,
            have[n - 1] == want[n - 1],
            k <= binding.import_prefix@.len(),
            forall|j: int| 0 <= j < k ==> have[j] == want[j],
        decreases binding.import_prefix@.len() - k,
    {
        if !str_equal(binding.import_prefix[k].as_str(), import_path[k].as_str()) {
            assert(have[k as int] != want[k as int]);
            return false;
        }
        k = k + 1;
    }
    assert(have =~= want);
    true
}

// ---------------------------------------------------------------------------
// The sites read from tokens stand where tokens stand.
// ---------------------------------------------------------------------------

/// Every site's span meets `ok`, read as the segment of its name.
pub open spec fn root_sites_ok(sites: Seq<(SymbolKind, Seq<char>, Span)>, ok: spec_fn(Segment) -> bool) -> bool {
    forall|k: int| 0 <= k < sites.len() ==> #[trigger] ok((sites[k].1, sites[k].2))
}

/// The names of the declarations found at the top level are token segments.
pub proof fn lemma_root_sites_ok(ts: Seq<TokenView>, ok: spec_fn(Segment) -> bool, i: int, depth: nat)
    requires
        tokens_segments_ok(ts, ok),
    ensures
        root_sites_ok(root_sites_from(ts, i, depth), ok),
    decreases ts.len() - i,
{
    if 0 <= i < ts.len() {
        let k = ts[i].0;
        if k == TokenKind::LBrace {
            lemma_root_sites_ok(ts, ok, i + 1, depth + 1);
        } else if k == TokenKind::RBrace {
            lemma_root_sites_ok(ts, ok, i + 1, if depth > 0 {
                (depth - 1) as nat
            } else {
                0
            });
        } else if (k == TokenKind::Pub || k == TokenKind::Struct || k == TokenKind::Enum || k
            == TokenKind::Trait) && depth == 0 && root_definition_site(ts, i) is Some {
            let (site, next) = root_definition_site(ts, i)->0;
            let j = if kind_at(ts, i) == Some(TokenKind::Pub) {
                i + 1
            } else {
                i
            };
            assert(ok(segment_at(ts, j + 1)));
            assert((site.1, site.2) == segment_at(ts, j + 1));
            lemma_root_sites_ok(ts, ok, next, depth);
            let rest = root_sites_from(ts, next, depth);
            let all = seq![site] + rest;
            assert forall|m: int| 0 <= m < all.len() implies #[trigger] ok((all[m].1, all[m].2)) by {
                if m > 0 {
                    assert(all[m] == rest[m - 1]);
                }
            }
        } else {
            lemma_root_sites_ok(ts, ok, i + 1, depth);
        }
    }
}

/// Every segment meets `ok`.
pub open spec fn segments_ok(segments: Seq<Segment>, ok: spec_fn(Segment) -> bool) -> bool {
    forall|k: int| 0 <= k < segments.len() ==> #[trigger] ok(segments[k])
}

proof fn lemma_method_scan_ok(ts: Seq<TokenView>, ok: spec_fn(Segment) -> bool, i: int, end: int, depth: nat)
    requires
        tokens_segments_ok(ts, ok),
        end <= ts.len(),
    ensures
        segments_ok(method_scan(ts, i, end, depth), ok),
    decreases end - i,
{
    if 0 <= i < end {
        if ts[i].0 == TokenKind::LBrace {
            lemma_method_scan_ok(ts, ok, i + 1, end, depth + 1);
        } else if ts[i].0 == TokenKind::RBrace {
            lemma_method_scan_ok(ts, ok, i + 1, end, if depth > 0 {
                (depth - 1) as nat
            } else {
                0
            });
        } else {
            lemma_method_scan_ok(ts, ok, i + 1, end, depth);
            if ts[i].0 == TokenKind::Fn && depth == 0 && kind_at(ts, i + 1) == Some(TokenKind::Ident) {
                let rest = method_scan(ts, i + 1, end, depth);
                let all = seq![segment_at(ts, i + 1)] + rest;
                assert(ok(segment_at(ts, i + 1)));
                assert forall|m: int| 0 <= m < all.len() implies #[trigger] ok(all[m]) by {
                    if m > 0 {
                        assert(all[m] == rest[m - 1]);
                    }
                }
            }
        }
    }
}

/// Every site's method segments meet `ok`.
pub open spec fn impl_sites_ok(sites: Seq<ImplSiteView>, ok: spec_fn(Segment) -> bool) -> bool {
    forall|k: int| 0 <= k < sites.len() ==> segments_ok(#[trigger] sites[k].3, ok)
}

/// The method names found in the blocks at the top level are token
/// segments.
pub proof fn lemma_impl_sites_ok(uri: Seq<char>, cs: Seq<char>, ts: Seq<TokenView>, ok: spec_fn(Segment) -> bool, i: int, depth: nat)
    requires
        tokens_segments_ok(ts, ok),
    ensures
        impl_sites_ok(impl_sites_from(uri, cs, ts, i, depth), ok),
    decreases ts.len() - i,
{
    if 0 <= i < ts.len() {
        let k = ts[i].0;
        if k == TokenKind::LBrace {
            lemma_impl_sites_ok(uri, cs, ts, ok, i + 1, depth + 1);
        } else if k == TokenKind::RBrace {
            lemma_impl_sites_ok(uri, cs, ts, ok, i + 1, if depth > 0 {
                (depth - 1) as nat
            } else {
                0
            });
        } else if (k == TokenKind::Impl || k == TokenKind::Extend) && depth == 0 && impl_block_site(uri, cs, ts, i) is Some {
            let (site, next) = impl_block_site(uri, cs, ts, i)->0;
            lemma_impl_block_site_bounds(uri, cs, ts, i);
            let (_, _, open) = impl_header(ts, i)->0;
            let (method_end, _) = block_bounds(ts, open);
            lemma_balanced_scan_bounds(ts, open + 1, 1);
            lemma_method_scan_ok(ts, ok, open + 1, method_end, 0);
            lemma_impl_sites_ok(uri, cs, ts, ok, next, depth);
            let rest = impl_sites_from(uri, cs, ts, next, depth);
            let all = seq![site] + rest;
            assert forall|m: int| 0 <= m < all.len() implies segments_ok(#[trigger] all[m].3, ok) by {
                if m > 0 {
                    assert(all[m] == rest[m - 1]);
                }
            }
        } else {
            lemma_impl_sites_ok(uri, cs, ts, ok, i + 1, depth);
        }
    }
}

} // verus!
