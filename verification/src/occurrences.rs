use vstd::prelude::*;
use vstd::string::StringExecFns;

use crate::bridge::{offset_position, offset_to_position, position_offset, position_to_offset, Position, Range};
use crate::features::{lemma_lexed_spans_on_boundaries, spans_on_boundaries};
use crate::imports::TokenView;
use crate::lexer::{lex, lex_spec, tokens_view, Token, TokenKind};
use crate::locations::Location;
use crate::span::Span;
use crate::text::{
    byte_offset, index_of_offset, is_boundary, lemma_byte_offset_end,
    lemma_index_of_offset, str_byte_len, str_equal, substring,
};

verus! {

// ---------------------------------------------------------------------------
// Identifier tokens under the cursor.
// ---------------------------------------------------------------------------

/// An offset hits a span when it lies inside it or at its end.
pub open spec fn offset_hits(offset: int, span: Span) -> bool {
    (span.start <= offset && offset < span.end) || span.end == offset
}

pub fn offset_hits_span(offset: usize, span: Span) -> (hit: bool)
    ensures
        hit == offset_hits(offset as int, span),
{
    span.contains(offset) || span.end == offset
}

/// The first identifier token, from index `k` on, that `offset` hits.
pub open spec fn ident_hit_index(ts: Seq<TokenView>, offset: int, k: int) -> Option<int>
    decreases ts.len() - k,
{
    if k < 0 || k >= ts.len() {
        None
    } else if ts[k].0 == TokenKind::Ident && offset_hits(offset, ts[k].2) {
        Some(k)
    } else {
        ident_hit_index(ts, offset, k + 1)
    }
}

proof fn lemma_ident_hit_index_bounds(ts: Seq<TokenView>, offset: int, k: int)
    ensures
        ident_hit_index(ts, offset, k) matches Some(i) ==> k <= i < ts.len() && ts[i].0
            == TokenKind::Ident && offset_hits(offset, ts[i].2),
    decreases ts.len() - k,
{
    if 0 <= k < ts.len() && !(ts[k].0 == TokenKind::Ident && offset_hits(offset, ts[k].2)) {
        lemma_ident_hit_index_bounds(ts, offset, k + 1);
    }
}

fn ident_hit_index_in(tokens: &Vec<Token>, offset: usize) -> (index: Option<usize>)
    ensures
        match index {
            Some(i) => ident_hit_index(tokens_view(tokens@), offset as int, 0) == Some(i as int),
            None => ident_hit_index(tokens_view(tokens@), offset as int, 0) is None,
        },
{
    let ghost ts = tokens_view(tokens@);
    let mut k: usize = 0;
    while k < tokens.len()
        invariant
            ts == tokens_view(tokens@),
            k <= tokens@.len(),
            ident_hit_index(ts, offset as int, 0) == ident_hit_index(ts, offset as int, k as int),
        decreases tokens@.len() - k,
    {
        if tokens[k].kind == TokenKind::Ident && offset_hits_span(offset, tokens[k].span) {
            return Some(k);
        }
        k = k + 1;
    }
    None
}

/// The identifier token that the cursor at (`line`, `character`) hits.
pub open spec fn identifier_token_at(cs: Seq<char>, line: int, character: int) -> Option<TokenView> {
    match position_offset(cs, line, character) {
        Some(offset) => match ident_hit_index(lex_spec(cs).0, offset, 0) {
            Some(i) => Some(lex_spec(cs).0[i]),
            None => None,
        },
        None => None,
    }
}

/// The identifier token under the cursor: the first one that the cursor's
/// offset lies in or at the end of.
pub fn dependency_identifier_token_at(source: &str, position: Position) -> (token: Option<Token>)
    ensures
        match token {
            Some(t) => identifier_token_at(source@, position.line as int, position.character as int)
                == Some(t@),
            None => identifier_token_at(source@, position.line as int, position.character as int) is None,
        },
{
    let offset = match position_to_offset(source, position) {
        Some(offset) => offset,
        None => return None,
    };
    let (tokens, _) = lex(source);
    match ident_hit_index_in(&tokens, offset) {
        Some(i) => {
            proof {
                lemma_ident_hit_index_bounds(tokens_view(tokens@), offset as int, 0);
            }
            Some(Token { kind: tokens[i].kind, text: tokens[i].text.clone(), span: tokens[i].span })
        },
        None => None,
    }
}

/// The index of the identifier under the cursor when it is the name of a
/// method call: a `.` before it and a `(` right after it.
pub open spec fn method_call_index(ts: Seq<TokenView>, offset: int) -> Option<int> {
    match ident_hit_index(ts, offset, 0) {
        Some(i) => if i > 0 && ts[i - 1].0 == TokenKind::Dot && i + 1 < ts.len() && ts[i + 1].0
            == TokenKind::LParen {
            Some(i)
        } else {
            None
        },
        None => None,
    }
}

fn method_call_index_in(tokens: &Vec<Token>, offset: usize) -> (index: Option<usize>)
    ensures
        match index {
            Some(i) => method_call_index(tokens_view(tokens@), offset as int) == Some(i as int) && i
                + 1 < tokens@.len(),
            None => method_call_index(tokens_view(tokens@), offset as int) is None,
        },
{
    let i = match ident_hit_index_in(tokens, offset) {
        Some(i) => i,
        None => return None,
    };
    proof {
        lemma_ident_hit_index_bounds(tokens_view(tokens@), offset as int, 0);
    }
    let n = tokens.len();
    if i == 0 || tokens[i - 1].kind != TokenKind::Dot {
        return None;
    }
    if i + 1 >= n || tokens[i + 1].kind != TokenKind::LParen {
        return None;
    }
    Some(i)
}

/// The method name of the call whose name is under the cursor.
pub open spec fn method_call_name_at(cs: Seq<char>, line: int, character: int) -> Option<Seq<char>> {
    match position_offset(cs, line, character) {
        Some(offset) => match method_call_index(lex_spec(cs).0, offset) {
            Some(i) => Some(lex_spec(cs).0[i].1),
            None => None,
        },
        None => None,
    }
}

/// The name of the method call under the cursor, in a source that may not
/// parse: the identifier there, between a `.` and a `(`.
pub fn broken_source_method_call_name_at(source: &str, position: Position) -> (name: Option<String>)
    ensures
        match name {
            Some(n) => method_call_name_at(source@, position.line as int, position.character as int)
                == Some(n@),
            None => method_call_name_at(source@, position.line as int, position.character as int) is None,
        },
{
    let offset = match position_to_offset(source, position) {
        Some(offset) => offset,
        None => return None,
    };
    let (tokens, _) = lex(source);
    match method_call_index_in(&tokens, offset) {
        Some(i) => Some(tokens[i].text.clone()),
        None => None,
    }
}

/// A method call being typed, such as `value.len(`, is closed with a `)`
/// right after its `(` so that the source parses; the result is the source
/// so repaired and the position where the `)` went in.
pub open spec fn repaired_method_call(cs: Seq<char>, line: int, character: int) -> Option<(Seq<char>, Position)> {
    match position_offset(cs, line, character) {
        Some(offset) => match method_call_index(lex_spec(cs).0, offset) {
            Some(i) => {
                let at = lex_spec(cs).0[i + 1].2.end as int;
                let m = index_of_offset(cs, at);
                Some((cs.take(m) + seq![')'] + cs.skip(m), offset_position(cs, at)))
            },
            None => None,
        },
        None => None,
    }
}

/// Closes the method call under the cursor with a `)` right after its `(`,
/// giving the repaired source and the position of the inserted `)`.
pub fn repaired_method_call_source(source: &str, position: Position) -> (repaired: Option<(String, Position)>)
    ensures
        match repaired {
            Some((text, at)) => repaired_method_call(source@, position.line as int, position.character as int)
                == Some((text@, at)),
            None => repaired_method_call(source@, position.line as int, position.character as int) is None,
        },
{
    let ghost cs = source@;
    let offset = match position_to_offset(source, position) {
        Some(offset) => offset,
        None => return None,
    };
    let total = str_byte_len(source);
    let (tokens, _) = lex(source);
    let i = match method_call_index_in(&tokens, offset) {
        Some(i) => i,
        None => return None,
    };
    let n = tokens.len();
    let at = tokens[i + 1].span.end;
    proof {
        lemma_lexed_spans_on_boundaries(cs);
        let ts = lex_spec(cs).0;
        assert(ts[i + 1] == tokens_view(tokens@)[i + 1]);
        assert(spans_on_boundaries(cs, ts));
        assert(is_boundary(cs, ts[i + 1].2.end as int));
        lemma_index_of_offset(cs, 0);
        lemma_index_of_offset(cs, cs.len() as int);
        lemma_byte_offset_end(cs);
        assert(byte_offset(cs, 0) == 0) by {
            assert(cs.take(0) =~= Seq::<char>::empty());
        }
    }
    let mut text = substring(source, 0, at);
    text.append(")");
    let rest = substring(source, at, total);
    text.append(rest.as_str());
    proof {
        reveal_strlit(")");
        let m = index_of_offset(cs, at as int);
        assert(cs.subrange(0, m) =~= cs.take(m));
        assert(cs.subrange(m, cs.len() as int) =~= cs.skip(m));
        assert(text@ =~= cs.take(m) + seq![')'] + cs.skip(m));
    }
    let inserted = offset_to_position(source, at);
    Some((text, inserted))
}

/// The span of the occurrence of the import named `local_name` under the
/// cursor: the first identifier token with that text that covers the
/// cursor's offset.
pub open spec fn import_occurrence_index(ts: Seq<TokenView>, offset: int, name: Seq<char>, k: int) -> Option<int>
    decreases ts.len() - k,
{
    if k < 0 || k >= ts.len() {
        None
    } else if ts[k].0 == TokenKind::Ident && ts[k].1 == name && ts[k].2.start <= offset && offset < ts[k].2.end {
        Some(k)
    } else {
        import_occurrence_index(ts, offset, name, k + 1)
    }
}

pub open spec fn import_occurrence_span_at(cs: Seq<char>, line: int, character: int, name: Seq<char>) -> Option<Span> {
    match position_offset(cs, line, character) {
        Some(offset) => match import_occurrence_index(lex_spec(cs).0, offset, name, 0) {
            Some(i) => Some(lex_spec(cs).0[i].2),
            None => None,
        },
        None => None,
    }
}

proof fn lemma_import_occurrence_index_bounds(ts: Seq<TokenView>, offset: int, name: Seq<char>, k: int)
    ensures
        import_occurrence_index(ts, offset, name, k) matches Some(i) ==> k <= i < ts.len(),
    decreases ts.len() - k,
{
    if 0 <= k < ts.len() && !(ts[k].0 == TokenKind::Ident && ts[k].1 == name && ts[k].2.start <= offset
        && offset < ts[k].2.end) {
        lemma_import_occurrence_index_bounds(ts, offset, name, k + 1);
    }
}

/// Where the import named `local_name` occurs under the cursor, in a source
/// that may not parse.
pub fn broken_source_import_occurrence_span_at(source: &str, position: Position, local_name: &str) -> (span: Option<Span>)
    ensures
        span == import_occurrence_span_at(source@, position.line as int, position.character as int, local_name@),
{
    let offset = match position_to_offset(source, position) {
        Some(offset) => offset,
        None => return None,
    };
    let (tokens, _) = lex(source);
    let ghost ts = tokens_view(tokens@);
    let mut k: usize = 0;
    while k < tokens.len()
        invariant
            ts == tokens_view(tokens@),
            ts == lex_spec(source@).0,
            position_offset(source@, position.line as int, position.character as int) == Some(offset as int),
            k <= tokens@.len(),
            import_occurrence_index(ts, offset as int, local_name@, 0) == import_occurrence_index(
                ts,
                offset as int,
                local_name@,
                k as int,
            ),
        decreases tokens@.len() - k,
    {
        let token = &tokens[k];
        if token.kind == TokenKind::Ident && str_equal(token.text.as_str(), local_name) && token.span.contains(offset) {
            return Some(token.span);
        }
        k = k + 1;
    }
    None
}

// ---------------------------------------------------------------------------
// Positions in a source with an inserted `)`.
// ---------------------------------------------------------------------------

/// A position on the line of the inserted char and after it moves back by
/// one column; every other position stays.
pub open spec fn position_before_insert(position: Position, inserted: Position) -> Position {
    if position.line == inserted.line && position.character > inserted.character {
        Position { line: position.line, character: (position.character - 1) as u32 }
    } else {
        position
    }
}

/// Maps a position in the repaired source back to the source without the
/// inserted `)`.
pub fn map_position_after_repaired_method_call_insert(position: Position, inserted_position: Position) -> (mapped: Position)
    ensures
        mapped == position_before_insert(position, inserted_position),
{
    if position.line == inserted_position.line && position.character > inserted_position.character {
        Position::new(position.line, position.character - 1)
    } else {
        position
    }
}

/// Maps a location in the current document back to the source without the
/// inserted `)`; locations in other documents stay.
pub fn map_location_after_repaired_method_call_insert(
    current_uri: &str,
    location: Location,
    inserted_position: Position,
) -> (mapped: Location)
    ensures
        mapped@ == (if location.uri@ != current_uri@ {
            location@
        } else {
            (
                location.uri@,
                Range {
                    start: position_before_insert(location.range.start, inserted_position),
                    end: position_before_insert(location.range.end, inserted_position),
                },
            )
        }),
{
    if !str_equal(location.uri.as_str(), current_uri) {
        return location;
    }
    let range = Range::new(
        map_position_after_repaired_method_call_insert(location.range.start, inserted_position),
        map_position_after_repaired_method_call_insert(location.range.end, inserted_position),
    );
    Location::new(location.uri, range)
}

} // verus!
