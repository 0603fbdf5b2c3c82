use vstd::prelude::*;

use crate::features::{lemma_lexed_spans_on_boundaries, spans_on_boundaries};
use crate::imports::TokenView;
use crate::lexer::{lex, lex_spec, tokens_view, Token, TokenKind};
use crate::span::Span;
use crate::strings::{find_char, find_char_from, lemma_find_char, strings_view};
use crate::text::{
    are_char_indices, byte_len, byte_offset, char_indices, index_of_offset, is_boundary,
    lemma_byte_offset_end, source_chars, str_byte_len,
};

verus! {

/// The byte offset of the first newline at or after `offset`, or the text
/// length when there is none.
pub open spec fn line_end_spec(cs: Seq<char>, offset: int) -> int {
    let m = index_of_offset(cs, offset);
    match find_char(cs.skip(m), '\n') {
        Some(i) => byte_offset(cs, m + i) as int,
        None => byte_len(cs) as int,
    }
}

fn line_end_offset(source: &str, offset: usize) -> (end: usize)
    requires
        is_boundary(source@, offset as int),
    ensures
        end as int == line_end_spec(source@, offset as int),
{
    let ghost cs = source@;
    let cis = char_indices(source);
    let len = str_byte_len(source);
    let chars = source_chars(source);
    let mut m: usize = 0;
    while m < cis.len() && cis[m].0 < offset
        invariant
            are_char_indices(cis@, cs),
            m <= cs.len(),
            forall|j: int| 0 <= j < m ==> #[trigger] byte_offset(cs, j) < offset,
        decreases cs.len() - m,
    {
        m = m + 1;
    }
    proof {
        let k = index_of_offset(cs, offset as int);
        if k < m {
            assert(byte_offset(cs, k) < offset);
        }
        if m < k {
            crate::text::lemma_byte_offset_strict(cs, m as int, k);
        }
        assert(k == m);
    }
    match find_char_from(&chars, m, '\n') {
        Some(i) => {
            proof {
                lemma_find_char(cs.skip(m as int), '\n');
            }
            cis[m + i].0
        },
        None => {
            proof {
                lemma_byte_offset_end(cs);
            }
            len
        },
    }
}

/// The path after the `use` at token `use_index`, read on the line of the
/// `use` from token `j` on: identifiers separated by dots, up to the first
/// other token. With the path so far (its start and end and its names), the
/// result is the span of the whole path and its names; none when the path
/// opens with a dot or has no name.
pub open spec fn link_path_scan(
    ts: Seq<TokenView>,
    j: int,
    line_end: int,
    start: Option<usize>,
    end: usize,
    names: Seq<Seq<char>>,
) -> Option<(Span, Seq<Seq<char>>)>
    decreases ts.len() - j,
{
    if j < 0 || j >= ts.len() || ts[j].2.start >= line_end || !(ts[j].0 == TokenKind::Ident || ts[j].0
        == TokenKind::Dot) {
        match start {
            Some(s) => Some((Span { start: s, end }, names)),
            None => None,
        }
    } else if ts[j].0 == TokenKind::Ident {
        link_path_scan(
            ts,
            j + 1,
            line_end,
            Some(
                match start {
                    Some(s) => s,
                    None => ts[j].2.start,
                },
            ),
            ts[j].2.end,
            names.push(ts[j].1),
        )
    } else if start is None {
        None
    } else {
        link_path_scan(ts, j + 1, line_end, start, end, names)
    }
}

/// The path that the `use` at token `use_index` imports, as a document link
/// reads it: its span and its names.
pub open spec fn use_link_path(cs: Seq<char>, ts: Seq<TokenView>, use_index: int) -> Option<(Span, Seq<Seq<char>>)> {
    if 0 <= use_index < ts.len() {
        link_path_scan(ts, use_index + 1, line_end_spec(cs, ts[use_index].2.end as int), None, 0, seq![])
    } else {
        None
    }
}

/// The span and the names of the path imported by the `use` at token
/// `use_index`, read to the end of its line: the part of a document link
/// that the text alone decides.
pub fn use_path_for_document_link(source: &str, tokens: &Vec<Token>, use_index: usize) -> (path: Option<(Span, Vec<String>)>)
    requires
        tokens_view(tokens@) == lex_spec(source@).0,
    ensures
        match path {
            Some((span, names)) => use_link_path(source@, tokens_view(tokens@), use_index as int) == Some(
                (span, strings_view(names@)),
            ),
            None => use_link_path(source@, tokens_view(tokens@), use_index as int) is None,
        },
{
    let ghost cs = source@;
    let ghost ts = tokens_view(tokens@);
    if use_index >= tokens.len() {
        return None;
    }
    let _len = str_byte_len(source);
    proof {
        lemma_lexed_spans_on_boundaries(cs);
        assert(spans_on_boundaries(cs, ts));
        assert(is_boundary(cs, ts[use_index as int].2.end as int));
    }
    let line_end = line_end_offset(source, tokens[use_index].span.end);
    let mut start: Option<usize> = None;
    let mut end: usize = 0;
    let mut names: Vec<String> = Vec::new();
    let mut j = use_index + 1;
    assert(strings_view(names@) =~= Seq::<Seq<char>>::empty());
    while j < tokens.len()
        invariant
            ts == tokens_view(tokens@),
            cs == source@,
            use_index < j <= tokens@.len(),
            use_link_path(cs, ts, use_index as int) == link_path_scan(
                ts,
                j as int,
                line_end as int,
                start,
                end,
                strings_view(names@),
            ),
        ensures
            use_link_path(cs, ts, use_index as int) == match start {
                Some(s) => Some((Span { start: s, end }, strings_view(names@))),
                None => None,
            },
        decreases tokens@.len() - j,
    {
        let token = &tokens[j];
        if token.span.start >= line_end {
            break;
        }
        match token.kind {
            TokenKind::Ident => {
                if start.is_none() {
                    start = Some(token.span.start);
                }
                end = token.span.end;
                let ghost before = strings_view(names@);
                names.push(token.text.clone());
                assert(strings_view(names@) =~= before.push(ts[j as int].1));
            },
            TokenKind::Dot => {
                if start.is_none() {
                    return None;
                }
            },
            _ => {
                break;
            },
        }
        j = j + 1;
    }
    match start {
        Some(s) => Some((Span::new(s, end), names)),
        None => None,
    }
}

/// The import paths that document links are made from: for each `use` token
/// of the source, in token order, the span and names of the path after it,
/// where it has one.
pub open spec fn use_link_paths_upto(cs: Seq<char>, ts: Seq<TokenView>, n: int) -> Seq<(Span, Seq<Seq<char>>)>
    decreases n,
{
    if n <= 0 || n > ts.len() {
        seq![]
    } else {
        let before = use_link_paths_upto(cs, ts, n - 1);
        if ts[n - 1].0 == TokenKind::Use && use_link_path(cs, ts, n - 1) is Some {
            before.push(use_link_path(cs, ts, n - 1)->0)
        } else {
            before
        }
    }
}

pub open spec fn link_paths_view(paths: Seq<(Span, Vec<String>)>) -> Seq<(Span, Seq<Seq<char>>)> {
    paths.map_values(|p: (Span, Vec<String>)| (p.0, strings_view(p.1@)))
}

/// Lexes the source and reads the import path after each of its `use`
/// tokens, in order, leaving out the `use`s that are not followed by a path.
pub fn use_paths_for_document_links(source: &str) -> (paths: Vec<(Span, Vec<String>)>)
    ensures
        link_paths_view(paths@) == ({
            let ts = lex_spec(source@).0;
            use_link_paths_upto(source@, ts, ts.len() as int)
        }),
{
    let (tokens, _) = lex(source);
    let ghost cs = source@;
    let ghost ts = tokens_view(tokens@);
    let mut paths: Vec<(Span, Vec<String>)> = Vec::new();
    let mut index: usize = 0;
    while index < tokens.len()
        invariant
            ts == tokens_view(tokens@),
            ts == lex_spec(cs).0,
            cs == source@,
            index <= tokens@.len(),
            link_paths_view(paths@) == use_link_paths_upto(cs, ts, index as int),
        decreases tokens@.len() - index,
    {
        if tokens[index].kind == TokenKind::Use {
            match use_path_for_document_link(source, &tokens, index) {
                Some(path) => {
                    let ghost before = link_paths_view(paths@);
                    let ghost pv = (path.0, strings_view(path.1@));
                    paths.push(path);
                    assert(link_paths_view(paths@) =~= before.push(pv));
                },
                None => {},
            }
        }
        index = index + 1;
    }
    paths
}

} // verus!
