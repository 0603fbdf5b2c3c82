use vstd::prelude::*;
use vstd::string::StringExecFns;

use crate::bridge::{
    lemma_position_offset_round_trip, text_edit_view, TextEdit, clamp_offset, position_offset, position_to_offset, span_range, span_to_range, Position, Range,
};
use crate::imports::{TokenView};
use crate::editor::{
    keyword_completion_labels, keyword_info, keyword_info_spec, keyword_labels_spec, keyword_snippets,
    keyword_snippets_spec, matching_delimiters, KeywordInfo,
};
use crate::strings::{concat_str, is_prefix_of, starts_with, trim, trim_spec};
use crate::lexer::{
    keyword_kind, keyword_kind_for_label, lemma_lex_well_formed, lex, lex_spec, token_covers, token_has_cover, token_stream_well_formed,
    tokens_view, Token, TokenKind,
};
use crate::text::{
    are_char_indices, byte_len, byte_offset, char_index_at, char_indices,
    char_is_ascii_alphanumeric, index_of_offset, is_ascii_alnum_char, is_boundary,
    lemma_byte_offset_bound, lemma_byte_offset_end, lemma_index_of_offset, source_chars, str_byte_len,
    str_equal, substring,
};
use crate::span::Span;

verus! {

// ---------------------------------------------------------------------------
// Reading a token stream around an offset.
// ---------------------------------------------------------------------------

/// Whether a `let`/`var` binding spells out its type: a `:` comes before
/// the first `=`, `;` or end of input.
pub open spec fn explicit_type_before_eq(ts: Seq<TokenView>) -> bool
    decreases ts.len(),
{
    if ts.len() == 0 {
        false
    } else if ts[0].0 == TokenKind::Colon {
        true
    } else if ts[0].0 == TokenKind::Eq || ts[0].0 == TokenKind::Semi || ts[0].0 == TokenKind::Eof {
        false
    } else {
        explicit_type_before_eq(ts.drop_first())
    }
}

pub fn has_explicit_type_before_eq(tokens: &[Token]) -> (explicit: bool)
    ensures
        explicit == explicit_type_before_eq(tokens_view(tokens@)),
{
    let ghost ts = tokens_view(tokens@);
    let mut k: usize = 0;
    assert(ts.skip(0) =~= ts);
    while k < tokens.len()
        invariant
            ts == tokens_view(tokens@),
            k <= tokens@.len(),
            explicit_type_before_eq(ts) == explicit_type_before_eq(ts.skip(k as int)),
        decreases tokens@.len() - k,
    {
        proof {
            assert(ts.skip(k as int)[0] == ts[k as int]);
            assert(ts.skip(k as int).drop_first() =~= ts.skip(k + 1));
        }
        match tokens[k].kind {
            TokenKind::Colon => {
                return true;
            },
            TokenKind::Eq | TokenKind::Semi | TokenKind::Eof => {
                return false;
            },
            _ => {},
        }
        k = k + 1;
    }
    false
}

/// Whether a position lies in a range, both ends included.
pub open spec fn range_contains(range: Range, position: Position) -> bool {
    &&& (position.line > range.start.line || (position.line == range.start.line
        && position.character >= range.start.character))
    &&& (position.line < range.end.line || (position.line == range.end.line && position.character
        <= range.end.character))
}

pub fn range_contains_position(range: Range, position: Position) -> (contains: bool)
    ensures
        contains == range_contains(range, position),
{
    (position.line > range.start.line || (position.line == range.start.line && position.character
        >= range.start.character)) && (position.line < range.end.line || (position.line
        == range.end.line && position.character <= range.end.character))
}

/// Tokens that can name a callee.
pub open spec fn names_callee(kind: TokenKind) -> bool {
    kind == TokenKind::Ident || kind == TokenKind::SelfKw
}

/// The last index before `before` whose token can name a callee.
pub open spec fn previous_identifier(ts: Seq<TokenView>, before: int) -> Option<int>
    decreases before,
{
    if before <= 0 {
        None
    } else if names_callee(ts[before - 1].0) {
        Some(before - 1)
    } else {
        previous_identifier(ts, before - 1)
    }
}

pub fn previous_identifier_index(tokens: &[Token], before: usize) -> (index: Option<usize>)
    requires
        before <= tokens@.len(),
    ensures
        match index {
            Some(i) => previous_identifier(tokens_view(tokens@), before as int) == Some(i as int),
            None => previous_identifier(tokens_view(tokens@), before as int) is None,
        },
{
    let ghost ts = tokens_view(tokens@);
    let mut k = before;
    while k > 0
        invariant
            ts == tokens_view(tokens@),
            k <= before <= tokens@.len(),
            previous_identifier(ts, before as int) == previous_identifier(ts, k as int),
        decreases k,
    {
        if tokens[k - 1].kind == TokenKind::Ident || tokens[k - 1].kind == TokenKind::SelfKw {
            return Some(k - 1);
        }
        k = k - 1;
    }
    None
}

/// A callee preceded by `.` is called as a method.
pub fn is_method_call(tokens: &[Token], callee_index: usize) -> (method: bool)
    requires
        callee_index <= tokens@.len(),
    ensures
        method == (callee_index > 0 && tokens@[callee_index - 1].kind == TokenKind::Dot),
{
    callee_index > 0 && tokens[callee_index - 1].kind == TokenKind::Dot
}

/// The number of leading tokens that start before `offset`.
pub open spec fn tokens_before(ts: Seq<TokenView>, offset: int, k: int) -> int
    decreases ts.len() - k,
{
    if 0 <= k < ts.len() && ts[k].2.start < offset {
        tokens_before(ts, offset, k + 1)
    } else {
        k
    }
}

/// The indexes of the `(` tokens still open after the first `n` tokens; a
/// `)` closes the innermost one, if any.
pub open spec fn open_parens(ts: Seq<TokenView>, n: int) -> Seq<int>
    decreases n,
{
    if n <= 0 {
        seq![]
    } else {
        let stack = open_parens(ts, n - 1);
        if ts[n - 1].0 == TokenKind::LParen {
            stack.push(n - 1)
        } else if ts[n - 1].0 == TokenKind::RParen {
            if stack.len() > 0 {
                stack.drop_last()
            } else {
                stack
            }
        } else {
            stack
        }
    }
}

/// The innermost call open at `offset`: the index of its `(` and of the
/// token naming its callee.
pub open spec fn active_call(ts: Seq<TokenView>, offset: int) -> Option<(int, int)> {
    let stack = open_parens(ts, tokens_before(ts, offset, 0));
    if stack.len() == 0 {
        None
    } else {
        match previous_identifier(ts, stack.last()) {
            Some(callee) => Some((stack.last(), callee)),
            None => None,
        }
    }
}

proof fn lemma_tokens_before_bounds(ts: Seq<TokenView>, offset: int, k: int)
    requires
        0 <= k <= ts.len(),
    ensures
        k <= tokens_before(ts, offset, k) <= ts.len(),
    decreases ts.len() - k,
{
    if k < ts.len() && ts[k].2.start < offset {
        lemma_tokens_before_bounds(ts, offset, k + 1);
    }
}

proof fn lemma_open_parens_bounds(ts: Seq<TokenView>, n: int)
    requires
        0 <= n <= ts.len(),
    ensures
        open_parens(ts, n).len() <= n,
        forall|i: int| 0 <= i < open_parens(ts, n).len() ==> 0 <= #[trigger] open_parens(ts, n)[i] < n,
    decreases n,
{
    if n > 0 {
        lemma_open_parens_bounds(ts, n - 1);
    }
}

/// The call whose argument list is open at `offset`: the index of its `(`
/// and of its callee.
pub fn active_call_indexes(tokens: &[Token], offset: usize) -> (r: Option<(usize, usize)>)
    ensures
        match r {
            Some((open, callee)) => active_call(tokens_view(tokens@), offset as int) == Some(
                (open as int, callee as int),
            ),
            None => active_call(tokens_view(tokens@), offset as int) is None,
        },
{
    let ghost ts = tokens_view(tokens@);
    let mut stack: Vec<usize> = Vec::new();
    let mut index: usize = 0;
    while index < tokens.len() && tokens[index].span.start < offset
        invariant
            ts == tokens_view(tokens@),
            index <= tokens@.len(),
            tokens_before(ts, offset as int, 0) == tokens_before(ts, offset as int, index as int),
            stack@.map_values(|i: usize| i as int) == open_parens(ts, index as int),
        decreases tokens@.len() - index,
    {
        let ghost before = stack@;
        match tokens[index].kind {
            TokenKind::LParen => {
                stack.push(index);
                proof {
                    assert(stack@.map_values(|i: usize| i as int) =~= before.map_values(
                        |i: usize| i as int,
                    ).push(index as int));
                }
            },
            TokenKind::RParen => {
                stack.pop();
                proof {
                    if before.len() > 0 {
                        assert(stack@.map_values(|i: usize| i as int) =~= before.map_values(
                            |i: usize| i as int,
                        ).drop_last());
                    }
                }
            },
            _ => {},
        }
        index = index + 1;
    }
    proof {
        lemma_open_parens_bounds(ts, index as int);
    }
    if stack.len() == 0 {
        return None;
    }
    let open_index = stack[stack.len() - 1];
    proof {
        assert(open_parens(ts, index as int)[stack@.len() - 1] == open_index);
    }
    match previous_identifier_index(tokens, open_index) {
        Some(callee_index) => Some((open_index, callee_index)),
        None => None,
    }
}

/// The index of the argument at `offset` in the call whose `(` is token
/// `open`: the commas at nesting depth zero among the tokens after it that
/// start before `offset`.
pub open spec fn parameter_scan(ts: Seq<TokenView>, k: int, offset: int, depth: int, active: int) -> int
    decreases ts.len() - k,
{
    if k < 0 || k >= ts.len() || ts[k].2.start >= offset {
        active
    } else {
        let kind = ts[k].0;
        if kind == TokenKind::LParen || kind == TokenKind::LBracket || kind == TokenKind::LBrace {
            parameter_scan(ts, k + 1, offset, depth + 1, active)
        } else if kind == TokenKind::RParen || kind == TokenKind::RBracket || kind == TokenKind::RBrace {
            parameter_scan(ts, k + 1, offset, depth - 1, active)
        } else if kind == TokenKind::Comma && depth == 0 {
            parameter_scan(ts, k + 1, offset, depth, active + 1)
        } else {
            parameter_scan(ts, k + 1, offset, depth, active)
        }
    }
}

/// How a token changes the bracket nesting depth: `(`, `[` and `{` open a
/// level, `)`, `]` and `}` close one.
pub open spec fn bracket_delta(kind: TokenKind) -> int {
    match kind {
        TokenKind::LBracket | TokenKind::LBrace | TokenKind::LParen => 1,
        TokenKind::RBracket | TokenKind::RBrace | TokenKind::RParen => -1,
        _ => 0,
    }
}

/// The bracket nesting depth just before token `to`, counted from token
/// `from`: openers minus closers among the tokens in between.
pub open spec fn bracket_depth(ts: Seq<TokenView>, from: int, to: int) -> int
    decreases to - from,
{
    if to <= from {
        0
    } else {
        bracket_depth(ts, from, to - 1) + bracket_delta(ts[to - 1].0)
    }
}

/// The number of commas among the tokens `from..to` that are at bracket
/// depth zero counted from `from`.
pub open spec fn depth_zero_commas(ts: Seq<TokenView>, from: int, to: int) -> int
    decreases to - from,
{
    if to <= from {
        0
    } else {
        depth_zero_commas(ts, from, to - 1) + if ts[to - 1].0 == TokenKind::Comma && bracket_depth(ts, from, to - 1) == 0 {
            1int
        } else {
            0int
        }
    }
}

/// The first token from `k` on that starts at or after `offset` (the
/// number of tokens when there is none).
pub open spec fn first_token_from_offset(ts: Seq<TokenView>, k: int, offset: int) -> int
    decreases ts.len() - k,
{
    if k >= ts.len() || ts[k].2.start >= offset {
        k
    } else {
        first_token_from_offset(ts, k + 1, offset)
    }
}

proof fn lemma_parameter_scan_counts(ts: Seq<TokenView>, from: int, k: int, offset: int)
    requires
        0 <= from <= k,
    ensures
        parameter_scan(ts, k, offset, bracket_depth(ts, from, k), depth_zero_commas(ts, from, k)) == depth_zero_commas(
            ts,
            from,
            first_token_from_offset(ts, k, offset),
        ),
    decreases ts.len() - k,
{
    if !(k >= ts.len() || ts[k].2.start >= offset) {
        lemma_parameter_scan_counts(ts, from, k + 1, offset);
    }
}

/// The active parameter of a call is the number of commas between its `(`
/// and the cursor that are not nested in any parenthesis, bracket or brace
/// opened after the `(`: a comma inside `[1, 2]` or `{ a, b }` or a nested
/// call does not advance it.
pub proof fn lemma_active_parameter_counts_depth_zero_commas(ts: Seq<TokenView>, open_index: int, offset: int)
    requires
        0 <= open_index,
    ensures
        parameter_scan(ts, open_index + 1, offset, 0, 0) == depth_zero_commas(
            ts,
            open_index + 1,
            first_token_from_offset(ts, open_index + 1, offset),
        ),
{
    lemma_parameter_scan_counts(ts, open_index + 1, open_index + 1, offset);
}

pub fn active_parameter_index(tokens: &[Token], open_index: usize, offset: usize) -> (active: usize)
    requires
        open_index < tokens@.len() < i32::MAX,
    ensures
        active as int == parameter_scan(tokens_view(tokens@), open_index + 1, offset as int, 0, 0),
{
    let ghost ts = tokens_view(tokens@);
    let mut active: usize = 0;
    let mut depth: i32 = 0;
    let mut k = open_index + 1;
    while k < tokens.len()
        invariant
            ts == tokens_view(tokens@),
            tokens@.len() < i32::MAX,
            open_index < k <= tokens@.len(),
            -(k - open_index - 1) <= depth <= k - open_index - 1,
            active <= k - open_index - 1,
            parameter_scan(ts, open_index + 1, offset as int, 0, 0) == parameter_scan(
                ts,
                k as int,
                offset as int,
                depth as int,
                active as int,
            ),
        ensures
            parameter_scan(ts, open_index + 1, offset as int, 0, 0) == active,
        decreases tokens@.len() - k,
    {
        if tokens[k].span.start >= offset {
            break;
        }
        match tokens[k].kind {
            TokenKind::LParen | TokenKind::LBracket | TokenKind::LBrace => {
                depth = depth + 1;
            },
            TokenKind::RParen | TokenKind::RBracket | TokenKind::RBrace => {
                depth = depth - 1;
            },
            TokenKind::Comma => {
                if depth == 0 {
                    active = active + 1;
                }
            },
            _ => {},
        }
        k = k + 1;
    }
    active
}

/// The first token that covers `offset`, or ends at it without being empty.
pub open spec fn token_index_at(ts: Seq<TokenView>, offset: int, k: int) -> Option<int>
    decreases ts.len() - k,
{
    if k < 0 || k >= ts.len() {
        None
    } else if (ts[k].2.start <= offset && offset < ts[k].2.end) || (ts[k].2.end == offset
        && ts[k].2.start < ts[k].2.end) {
        Some(k)
    } else {
        token_index_at(ts, offset, k + 1)
    }
}

/// The token of `source` at `offset`.
pub open spec fn token_at(cs: Seq<char>, offset: int) -> Option<TokenView> {
    match token_index_at(lex_spec(cs).0, offset, 0) {
        Some(k) => Some(lex_spec(cs).0[k]),
        None => None,
    }
}

pub fn token_at_offset(source: &str, offset: usize) -> (token: Option<Token>)
    ensures
        match token {
            Some(t) => token_at(source@, offset as int) == Some(t@),
            None => token_at(source@, offset as int) is None,
        },
{
    let (tokens, _) = lex(source);
    let ghost ts = tokens_view(tokens@);
    let mut k: usize = 0;
    while k < tokens.len()
        invariant
            ts == tokens_view(tokens@),
            ts == lex_spec(source@).0,
            k <= tokens@.len(),
            token_index_at(ts, offset as int, 0) == token_index_at(ts, offset as int, k as int),
        decreases tokens@.len() - k,
    {
        let span = tokens[k].span;
        if span.contains(offset) || (span.end == offset && span.start < span.end) {
            return Some(Token { kind: tokens[k].kind, text: tokens[k].text.clone(), span });
        }
        k = k + 1;
    }
    None
}

// ---------------------------------------------------------------------------
// Token spans as editor ranges.
// ---------------------------------------------------------------------------

/// Both ends of every token's span are char boundaries of the source, within
/// its length.
pub open spec fn spans_on_boundaries(cs: Seq<char>, ts: Seq<TokenView>) -> bool {
    forall|k: int|
        0 <= k < ts.len() ==> {
            &&& is_boundary(cs, (#[trigger] ts[k]).2.start as int)
            &&& is_boundary(cs, ts[k].2.end as int)
            &&& ts[k].2.start <= ts[k].2.end <= byte_len(cs)
        }
}

pub proof fn lemma_lexed_spans_on_boundaries(cs: Seq<char>)
    requires
        byte_len(cs) <= usize::MAX,
    ensures
        spans_on_boundaries(cs, lex_spec(cs).0),
        token_stream_well_formed(cs, lex_spec(cs).0),
{
    lemma_lex_well_formed(cs);
    let ts = lex_spec(cs).0;
    assert forall|k: int| 0 <= k < ts.len() implies {
        &&& is_boundary(cs, (#[trigger] ts[k]).2.start as int)
        &&& is_boundary(cs, ts[k].2.end as int)
        &&& ts[k].2.start <= ts[k].2.end <= byte_len(cs)
    } by {
        assert(token_has_cover(cs, ts[k]));
        let (a, b) = choose|a: int, b: int| #[trigger] token_covers(cs, ts[k], a, b);
        lemma_byte_offset_bound(cs, a);
        lemma_byte_offset_bound(cs, b);
        assert(ts[k].2.start == byte_offset(cs, a));
        assert(ts[k].2.end == byte_offset(cs, b));
    }
}

/// A boundary within the text is its own clamp.
proof fn lemma_clamp_boundary(cs: Seq<char>, offset: int)
    requires
        is_boundary(cs, offset),
    ensures
        clamp_offset(cs, offset) == offset,
        offset <= byte_len(cs),
{
    let w = choose|i: int| 0 <= i <= cs.len() && byte_offset(cs, i) == offset;
    lemma_byte_offset_bound(cs, w);
}

// ---------------------------------------------------------------------------
// Folding ranges.
// ---------------------------------------------------------------------------

/// A foldable region: from a line and column to a later line and column.
#[derive(Clone, Copy, Debug, PartialEq, Eq, Structural, Hash)]
pub struct FoldingRange {
    pub start_line: u32,
    pub start_character: Option<u32>,
    pub end_line: u32,
    pub end_character: Option<u32>,
}

pub open spec fn is_fold_open(kind: TokenKind) -> bool {
    kind == TokenKind::LBrace || kind == TokenKind::LBracket
}

pub open spec fn is_fold_close(kind: TokenKind) -> bool {
    kind == TokenKind::RBrace || kind == TokenKind::RBracket
}

/// After the first `n` tokens: the indexes of the braces and brackets still
/// open, and the ranges folded so far. A closing token pops the innermost
/// open one; the pair folds when the two match and span several lines.
pub open spec fn fold_state(cs: Seq<char>, ts: Seq<TokenView>, n: int) -> (Seq<int>, Seq<Range>)
    decreases n,
{
    if n <= 0 {
        (seq![], seq![])
    } else {
        let (stack, folds) = fold_state(cs, ts, n - 1);
        let t = ts[n - 1];
        if is_fold_open(t.0) {
            (stack.push(n - 1), folds)
        } else if is_fold_close(t.0) && stack.len() > 0 {
            let open = ts[stack.last()];
            let range = span_range(cs, Span { start: open.2.start, end: t.2.end });
            if matching_delimiter_kinds(open.0, t.0) && range.start.line < range.end.line {
                (stack.drop_last(), folds.push(range))
            } else {
                (stack.drop_last(), folds)
            }
        } else {
            (stack, folds)
        }
    }
}

pub open spec fn matching_delimiter_kinds(open: TokenKind, close: TokenKind) -> bool {
    (open == TokenKind::LBrace && close == TokenKind::RBrace) || (open == TokenKind::LBracket
        && close == TokenKind::RBracket)
}

pub open spec fn folding_range_of(r: Range) -> FoldingRange {
    FoldingRange {
        start_line: r.start.line,
        start_character: Some(r.start.character),
        end_line: r.end.line,
        end_character: Some(r.end.character),
    }
}

/// The folding ranges of a text: its multi-line brace and bracket pairs, in
/// the order they close; none when there is no such pair.
pub open spec fn folding_ranges_spec(cs: Seq<char>) -> Option<Seq<FoldingRange>> {
    let ts = lex_spec(cs).0;
    let folds = fold_state(cs, ts, ts.len() as int).1;
    if folds.len() == 0 {
        None
    } else {
        Some(folds.map_values(|r: Range| folding_range_of(r)))
    }
}

proof fn lemma_stack_bounds(cs: Seq<char>, ts: Seq<TokenView>, n: int)
    requires
        0 <= n <= ts.len(),
    ensures
        forall|i: int|
            0 <= i < fold_state(cs, ts, n).0.len() ==> 0 <= #[trigger] fold_state(cs, ts, n).0[i] < n,
    decreases n,
{
    if n > 0 {
        lemma_stack_bounds(cs, ts, n - 1);
        let prev = fold_state(cs, ts, n - 1).0;
        let cur = fold_state(cs, ts, n).0;
        assert forall|i: int| 0 <= i < cur.len() implies 0 <= #[trigger] cur[i] < n by {
            if i < prev.len() {
                assert(cur[i] == prev[i]);
            }
        }
    }
}

#[verifier::rlimit(30)]
pub fn folding_ranges_for_source(source: &str) -> (ranges: Option<Vec<FoldingRange>>)
    ensures
        match ranges {
            Some(v) => folding_ranges_spec(source@) == Some(v@),
            None => folding_ranges_spec(source@) is None,
        },
{
    let _len = str_byte_len(source);
    let (tokens, _) = lex(source);
    let ghost cs = source@;
    let ghost ts = tokens_view(tokens@);
    proof {
        lemma_lexed_spans_on_boundaries(cs);
    }
    let mut stack: Vec<usize> = Vec::new();
    let mut ranges: Vec<FoldingRange> = Vec::new();
    let mut k: usize = 0;
    while k < tokens.len()
        invariant
            cs == source@,
            ts == tokens_view(tokens@),
            ts == lex_spec(cs).0,
            spans_on_boundaries(cs, ts),
            k <= tokens@.len(),
            stack@.map_values(|i: usize| i as int) == fold_state(cs, ts, k as int).0,
            ranges@ == fold_state(cs, ts, k as int).1.map_values(|r: Range| folding_range_of(r)),
        decreases tokens@.len() - k,
    {
        proof {
            lemma_stack_bounds(cs, ts, k as int);
        }
        let ghost before = stack@;
        let ghost folds = fold_state(cs, ts, k as int).1;
        let kind = tokens[k].kind;
        if kind == TokenKind::LBrace || kind == TokenKind::LBracket {
            stack.push(k);
            proof {
                assert(stack@.map_values(|i: usize| i as int) =~= before.map_values(|i: usize| i as int).push(k as int));
            }
        } else if kind == TokenKind::RBrace || kind == TokenKind::RBracket {
            if stack.len() > 0 {
                let open_index = stack.pop().unwrap();
                proof {
                    assert(stack@.map_values(|i: usize| i as int) =~= before.map_values(|i: usize| i as int).drop_last());
                    assert(open_index as int == before.map_values(|i: usize| i as int).last());
                }
                let open = &tokens[open_index];
                if matching_delimiters(open.kind, kind) {
                    proof {
                        assert(ts[open_index as int] == open@);
                        assert(ts[k as int] == tokens@[k as int]@);
                        lemma_clamp_boundary(cs, open.span.start as int);
                        lemma_clamp_boundary(cs, tokens@[k as int].span.end as int);
                    }
                    let range = span_to_range(source, Span::new(open.span.start, tokens[k].span.end));
                    if range.start.line < range.end.line {
                        ranges.push(
                            FoldingRange {
                                start_line: range.start.line,
                                start_character: Some(range.start.character),
                                end_line: range.end.line,
                                end_character: Some(range.end.character),
                            },
                        );
                        proof {
                            assert(ranges@ =~= folds.push(range).map_values(|r: Range| folding_range_of(r)));
                        }
                    }
                }
            }
        }
        k = k + 1;
    }
    if ranges.len() == 0 {
        None
    } else {
        Some(ranges)
    }
}

// ---------------------------------------------------------------------------
// Selection ranges.
// ---------------------------------------------------------------------------

pub open spec fn is_delimiter_open(kind: TokenKind) -> bool {
    kind == TokenKind::LBrace || kind == TokenKind::LBracket || kind == TokenKind::LParen
}

pub open spec fn is_delimiter_close(kind: TokenKind) -> bool {
    kind == TokenKind::RBrace || kind == TokenKind::RBracket || kind == TokenKind::RParen
}

/// The number of leading tokens that start at or before `offset`.
pub open spec fn tokens_through(ts: Seq<TokenView>, offset: int, k: int) -> int
    decreases ts.len() - k,
{
    if 0 <= k < ts.len() && ts[k].2.start <= offset {
        tokens_through(ts, offset, k + 1)
    } else {
        k
    }
}

/// After the first `n` tokens: the indexes of the delimiters still open,
/// and the ranges of the closed pairs that contain `offset`. A closing
/// delimiter pops the innermost open one, whatever its kind.
pub open spec fn delimiter_state(cs: Seq<char>, ts: Seq<TokenView>, offset: int, n: int) -> (Seq<int>, Seq<Range>)
    decreases n,
{
    if n <= 0 {
        (seq![], seq![])
    } else {
        let (stack, ranges) = delimiter_state(cs, ts, offset, n - 1);
        let t = ts[n - 1];
        if is_delimiter_open(t.0) {
            (stack.push(n - 1), ranges)
        } else if is_delimiter_close(t.0) && stack.len() > 0 {
            let open = ts[stack.last()];
            if open.2.start <= offset && offset <= t.2.end {
                (stack.drop_last(), ranges.push(span_range(cs, Span { start: open.2.start, end: t.2.end })))
            } else {
                (stack.drop_last(), ranges)
            }
        } else {
            (stack, ranges)
        }
    }
}

/// How far a range reaches: lines, then columns, each as a 32-bit
/// difference that wraps around when the end column is before the start one.
pub open spec fn range_extent(r: Range) -> (u32, u32) {
    (r.end.line.wrapping_sub(r.start.line), r.end.character.wrapping_sub(r.start.character))
}

pub open spec fn extent_lt(a: (u32, u32), b: (u32, u32)) -> bool {
    a.0 < b.0 || (a.0 == b.0 && a.1 < b.1)
}

/// The first range of least extent.
pub open spec fn narrowest(rs: Seq<Range>) -> Option<Range>
    decreases rs.len(),
{
    if rs.len() == 0 {
        None
    } else {
        match narrowest(rs.drop_last()) {
            None => Some(rs.last()),
            Some(best) => if extent_lt(range_extent(rs.last()), range_extent(best)) {
                Some(rs.last())
            } else {
                Some(best)
            },
        }
    }
}

/// The narrowest delimited region around `offset`.
pub open spec fn containing_delimiter(cs: Seq<char>, offset: int) -> Option<Range> {
    let ts = lex_spec(cs).0;
    narrowest(delimiter_state(cs, ts, offset, tokens_through(ts, offset, 0)).1)
}

proof fn lemma_delimiter_stack_bounds(cs: Seq<char>, ts: Seq<TokenView>, offset: int, n: int)
    requires
        0 <= n <= ts.len(),
    ensures
        forall|i: int|
            0 <= i < delimiter_state(cs, ts, offset, n).0.len() ==> 0 <= #[trigger] delimiter_state(
                cs,
                ts,
                offset,
                n,
            ).0[i] < n,
    decreases n,
{
    if n > 0 {
        lemma_delimiter_stack_bounds(cs, ts, offset, n - 1);
        let prev = delimiter_state(cs, ts, offset, n - 1).0;
        let cur = delimiter_state(cs, ts, offset, n).0;
        assert forall|i: int| 0 <= i < cur.len() implies 0 <= #[trigger] cur[i] < n by {
            if i < prev.len() {
                assert(cur[i] == prev[i]);
            }
        }
    }
}

fn range_extent_exec(r: Range) -> (extent: (u32, u32))
    ensures
        extent == range_extent(r),
{
    (r.end.line.wrapping_sub(r.start.line), r.end.character.wrapping_sub(r.start.character))
}

/// The range of the narrowest pair of delimiters around `offset`.
#[verifier::rlimit(30)]
pub fn containing_delimiter_range(source: &str, offset: usize) -> (range: Option<Range>)
    ensures
        range == containing_delimiter(source@, offset as int),
{
    let _len = str_byte_len(source);
    let (tokens, _) = lex(source);
    let ghost cs = source@;
    let ghost ts = tokens_view(tokens@);
    proof {
        lemma_lexed_spans_on_boundaries(cs);
    }
    let mut stack: Vec<usize> = Vec::new();
    let mut ranges: Vec<Range> = Vec::new();
    let mut k: usize = 0;
    while k < tokens.len() && tokens[k].span.start <= offset
        invariant
            cs == source@,
            ts == tokens_view(tokens@),
            ts == lex_spec(cs).0,
            spans_on_boundaries(cs, ts),
            k <= tokens@.len(),
            tokens_through(ts, offset as int, 0) == tokens_through(ts, offset as int, k as int),
            stack@.map_values(|i: usize| i as int) == delimiter_state(cs, ts, offset as int, k as int).0,
            ranges@ == delimiter_state(cs, ts, offset as int, k as int).1,
        decreases tokens@.len() - k,
    {
        proof {
            lemma_delimiter_stack_bounds(cs, ts, offset as int, k as int);
        }
        let ghost before = stack@;
        let kind = tokens[k].kind;
        if kind == TokenKind::LBrace || kind == TokenKind::LBracket || kind == TokenKind::LParen {
            stack.push(k);
            proof {
                assert(stack@.map_values(|i: usize| i as int) =~= before.map_values(|i: usize| i as int).push(k as int));
            }
        } else if kind == TokenKind::RBrace || kind == TokenKind::RBracket || kind == TokenKind::RParen {
            if stack.len() > 0 {
                let open_index = stack.pop().unwrap();
                proof {
                    assert(stack@.map_values(|i: usize| i as int) =~= before.map_values(|i: usize| i as int).drop_last());
                    assert(open_index as int == before.map_values(|i: usize| i as int).last());
                }
                let open = &tokens[open_index];
                if open.span.start <= offset && offset <= tokens[k].span.end {
                    proof {
                        assert(ts[open_index as int] == open@);
                        assert(ts[k as int] == tokens@[k as int]@);
                        lemma_clamp_boundary(cs, open.span.start as int);
                        lemma_clamp_boundary(cs, tokens@[k as int].span.end as int);
                    }
                    let range = span_to_range(source, Span::new(open.span.start, tokens[k].span.end));
                    ranges.push(range);
                }
            }
        }
        k = k + 1;
    }
    let ghost all = ranges@;
    let mut best: Option<Range> = None;
    let mut i: usize = 0;
    while i < ranges.len()
        invariant
            all == ranges@,
            i <= all.len(),
            best == narrowest(all.take(i as int)),
        decreases all.len() - i,
    {
        proof {
            assert(all.take(i + 1).drop_last() =~= all.take(i as int));
        }
        let candidate = ranges[i];
        match best {
            None => {
                best = Some(candidate);
            },
            Some(current) => {
                let a = range_extent_exec(candidate);
                let b = range_extent_exec(current);
                if a.0 < b.0 || (a.0 == b.0 && a.1 < b.1) {
                    best = Some(candidate);
                }
            },
        }
        i = i + 1;
    }
    proof {
        assert(all.take(all.len() as int) =~= all);
    }
    best
}

/// A range with the chain of ranges around it, innermost first.
#[derive(Debug, PartialEq, Eq)]
pub struct SelectionRange {
    pub range: Range,
    pub parent: Option<Box<SelectionRange>>,
}

/// The ranges of a selection, from the innermost outwards.
pub open spec fn selection_chain(s: SelectionRange) -> Seq<Range>
    decreases s,
{
    match s.parent {
        None => seq![s.range],
        Some(parent) => seq![s.range] + selection_chain(*parent),
    }
}

/// Around `offset`: the token there (unless it is the end of input), the
/// narrowest delimited region, and the whole text.
pub open spec fn selection_chain_at(cs: Seq<char>, offset: int) -> Seq<Range> {
    let whole = span_range(cs, Span { start: 0, end: byte_len(cs) as usize });
    let outer = match containing_delimiter(cs, offset) {
        Some(r) => seq![r, whole],
        None => seq![whole],
    };
    match token_at(cs, offset) {
        Some(t) => if t.0 != TokenKind::Eof {
            seq![span_range(cs, t.2)] + outer
        } else {
            outer
        },
        None => outer,
    }
}

proof fn lemma_token_index_at_bounds(ts: Seq<TokenView>, offset: int, k: int)
    requires
        0 <= k,
    ensures
        token_index_at(ts, offset, k) matches Some(i) ==> k <= i < ts.len(),
    decreases ts.len() - k,
{
    if k < ts.len() && !((ts[k].2.start <= offset && offset < ts[k].2.end) || (ts[k].2.end == offset
        && ts[k].2.start < ts[k].2.end)) {
        lemma_token_index_at_bounds(ts, offset, k + 1);
    }
}

/// The selection ranges around an editor position, when the position is
/// valid.
pub fn selection_range_for_position(source: &str, position: Position) -> (selection: Option<SelectionRange>)
    ensures
        match position_offset(source@, position.line as int, position.character as int) {
            None => selection is None,
            Some(offset) => selection matches Some(s) && selection_chain(s) == selection_chain_at(source@, offset),
        },
{
    let ghost cs = source@;
    let offset = match position_to_offset(source, position) {
        Some(o) => o,
        None => {
            return None;
        },
    };
    let len = str_byte_len(source);
    proof {
        lemma_byte_offset_end(cs);
        lemma_index_of_offset(cs, 0);
        lemma_index_of_offset(cs, cs.len() as int);
        assert(cs.take(0) =~= Seq::<char>::empty());
        lemma_lexed_spans_on_boundaries(cs);
        lemma_token_index_at_bounds(lex_spec(cs).0, offset as int, 0);
    }
    let block = containing_delimiter_range(source, offset);
    let whole = span_to_range(source, Span::new(0, len));
    let ghost whole_spec = span_range(cs, Span { start: 0, end: byte_len(cs) as usize });
    assert(whole == whole_spec);
    let outer = match block {
        Some(range) => {
            let parent = SelectionRange { range: whole, parent: None };
            assert(selection_chain(parent) == seq![whole]);
            let s = SelectionRange { range, parent: Some(Box::new(parent)) };
            assert(selection_chain(s) =~= seq![range, whole]);
            s
        },
        None => {
            let s = SelectionRange { range: whole, parent: None };
            assert(selection_chain(s) =~= seq![whole]);
            s
        },
    };
    let ghost outer_spec = match containing_delimiter(cs, offset as int) {
        Some(r) => seq![r, whole_spec],
        None => seq![whole_spec],
    };
    assert(selection_chain(outer) == outer_spec);
    match token_at_offset(source, offset) {
        Some(token) => {
            if token.kind != TokenKind::Eof {
                proof {
                    let k = token_index_at(lex_spec(cs).0, offset as int, 0)->0;
                    assert(lex_spec(cs).0[k] == token@);
                    lemma_clamp_boundary(cs, token.span.start as int);
                    lemma_clamp_boundary(cs, token.span.end as int);
                }
                let range = span_to_range(source, token.span);
                let s = SelectionRange { range, parent: Some(Box::new(outer)) };
                assert(selection_chain(s) =~= seq![range] + outer_spec);
                return Some(s);
            }
            Some(outer)
        },
        None => Some(outer),
    }
}

/// The selection chains of the valid positions, in order.
pub open spec fn selection_chains(cs: Seq<char>, positions: Seq<Position>) -> Seq<Seq<Range>>
    decreases positions.len(),
{
    if positions.len() == 0 {
        seq![]
    } else {
        let prev = selection_chains(cs, positions.drop_last());
        let p = positions.last();
        match position_offset(cs, p.line as int, p.character as int) {
            Some(offset) => prev.push(selection_chain_at(cs, offset)),
            None => prev,
        }
    }
}

/// Selection ranges for each valid position; none when no position is
/// valid.
pub fn selection_ranges_for_source(source: &str, positions: Vec<Position>) -> (selections: Option<Vec<SelectionRange>>)
    ensures
        match selections {
            Some(v) => v@.len() > 0 && v@.map_values(|s: SelectionRange| selection_chain(s))
                == selection_chains(source@, positions@),
            None => selection_chains(source@, positions@).len() == 0,
        },
{
    let mut out: Vec<SelectionRange> = Vec::new();
    let mut k: usize = 0;
    while k < positions.len()
        invariant
            k <= positions@.len(),
            out@.map_values(|s: SelectionRange| selection_chain(s)) == selection_chains(source@, positions@.take(k as int)),
        decreases positions@.len() - k,
    {
        proof {
            assert(positions@.take(k + 1).drop_last() =~= positions@.take(k as int));
        }
        let ghost before = out@;
        match selection_range_for_position(source, positions[k]) {
            Some(selection) => {
                out.push(selection);
                proof {
                    assert(out@.map_values(|s: SelectionRange| selection_chain(s)) =~= before.map_values(|s: SelectionRange| selection_chain(s)).push(selection_chain(selection)));
                }
            },
            None => {},
        }
        k = k + 1;
    }
    proof {
        assert(positions@.take(positions@.len() as int) =~= positions@);
    }
    if out.len() == 0 {
        None
    } else {
        Some(out)
    }
}

// ---------------------------------------------------------------------------
// Words around an offset.
// ---------------------------------------------------------------------------

/// Chars of a plain identifier word.
pub open spec fn is_word_char(c: char) -> bool {
    c == '_' || is_ascii_alnum_char(c)
}

/// The char index where the run of word chars ending at `m` starts.
pub open spec fn word_start(cs: Seq<char>, m: int) -> int
    decreases m,
{
    if 0 < m <= cs.len() && is_word_char(cs[m - 1]) {
        word_start(cs, m - 1)
    } else {
        m
    }
}

/// The char index where the run of word chars starting at `m` ends.
pub open spec fn word_end(cs: Seq<char>, m: int) -> int
    decreases cs.len() - m,
{
    if 0 <= m < cs.len() && is_word_char(cs[m]) {
        word_end(cs, m + 1)
    } else {
        m
    }
}

proof fn lemma_word_bounds(cs: Seq<char>, m: int)
    requires
        0 <= m <= cs.len(),
    ensures
        0 <= word_start(cs, m) <= m,
        m <= word_end(cs, m) <= cs.len(),
    decreases cs.len() + m,
{
    if 0 < m && is_word_char(cs[m - 1]) {
        lemma_word_start_bounds(cs, m - 1);
    }
    lemma_word_end_bounds(cs, m);
}

proof fn lemma_word_start_bounds(cs: Seq<char>, m: int)
    requires
        0 <= m <= cs.len(),
    ensures
        0 <= word_start(cs, m) <= m,
    decreases m,
{
    if 0 < m && is_word_char(cs[m - 1]) {
        lemma_word_start_bounds(cs, m - 1);
    }
}

proof fn lemma_word_end_bounds(cs: Seq<char>, m: int)
    requires
        0 <= m <= cs.len(),
    ensures
        m <= word_end(cs, m) <= cs.len(),
    decreases cs.len() - m,
{
    if m < cs.len() && is_word_char(cs[m]) {
        lemma_word_end_bounds(cs, m + 1);
    }
}

/// The word (a run of ASCII letters, digits and `_`) around a byte offset,
/// clamped to the end of the text; none when there is no word char there.
pub open spec fn word_span_at(cs: Seq<char>, offset: int) -> Option<Span> {
    let m = index_of_offset(cs, clamp_offset(cs, offset));
    let a = word_start(cs, m);
    let b = word_end(cs, m);
    if a < b {
        Some(Span { start: byte_offset(cs, a) as usize, end: byte_offset(cs, b) as usize })
    } else {
        None
    }
}

fn is_word_char_exec(c: char) -> (r: bool)
    ensures
        r == is_word_char(c),
{
    c == '_' || char_is_ascii_alphanumeric(c)
}

fn word_start_exec(chars: &Vec<char>, m: usize) -> (start: usize)
    requires
        m <= chars@.len(),
    ensures
        start as int == word_start(chars@, m as int),
{
    let mut k = m;
    while k > 0 && is_word_char_exec(chars[k - 1])
        invariant
            k <= m <= chars@.len(),
            word_start(chars@, m as int) == word_start(chars@, k as int),
        decreases k,
    {
        k = k - 1;
    }
    k
}

fn word_end_exec(chars: &Vec<char>, m: usize) -> (end: usize)
    requires
        m <= chars@.len(),
    ensures
        end as int == word_end(chars@, m as int),
{
    let mut k = m;
    while k < chars.len() && is_word_char_exec(chars[k])
        invariant
            m <= k <= chars@.len(),
            word_end(chars@, m as int) == word_end(chars@, k as int),
        decreases chars@.len() - k,
    {
        k = k + 1;
    }
    k
}

/// The byte offset of a char index given the char indices of the text.
pub(crate) fn offset_at_index(cis: &Vec<(usize, char)>, total: usize, k: usize, Ghost(cs): Ghost<Seq<char>>) -> (offset: usize)
    requires
        are_char_indices(cis@, cs),
        total == byte_len(cs),
        k <= cs.len(),
    ensures
        offset as int == byte_offset(cs, k as int),
{
    if k < cis.len() {
        cis[k].0
    } else {
        proof {
            lemma_byte_offset_end(cs);
        }
        total
    }
}

pub fn identifier_word_span_at_offset(source: &str, offset: usize) -> (span: Option<Span>)
    requires
        is_boundary(source@, clamp_offset(source@, offset as int)),
    ensures
        span == word_span_at(source@, offset as int),
{
    let ghost cs = source@;
    let len = str_byte_len(source);
    let cis = char_indices(source);
    let chars = source_chars(source);
    let clamped = if offset < len {
        offset
    } else {
        len
    };
    let m = char_index_at(&cis, len, clamped, Ghost(cs));
    let a = word_start_exec(&chars, m);
    let b = word_end_exec(&chars, m);
    proof {
        lemma_word_bounds(cs, m as int);
        lemma_byte_offset_bound(cs, a as int);
        lemma_byte_offset_bound(cs, b as int);
    }
    if a < b {
        Some(Span::new(offset_at_index(&cis, len, a, Ghost(cs)), offset_at_index(&cis, len, b, Ghost(cs))))
    } else {
        None
    }
}

/// Whether a word is written between backticks, as an escaped identifier.
pub open spec fn is_escaped_word(cs: Seq<char>, span: Span) -> bool {
    let a = index_of_offset(cs, span.start as int);
    let b = index_of_offset(cs, span.end as int);
    (a > 0 && cs[a - 1] == '`') || (b < cs.len() && cs[b] == '`')
}

pub fn is_escaped_identifier_word(source: &str, span: Span) -> (escaped: bool)
    requires
        is_boundary(source@, span.start as int),
        is_boundary(source@, span.end as int),
    ensures
        escaped == is_escaped_word(source@, span),
{
    let ghost cs = source@;
    let len = str_byte_len(source);
    let cis = char_indices(source);
    let a = char_index_at(&cis, len, span.start, Ghost(cs));
    let b = char_index_at(&cis, len, span.end, Ghost(cs));
    (a > 0 && cis[a - 1].1 == '`') || (b < cis.len() && cis[b].1 == '`')
}

/// The span from the start of the word ending at `offset` to `offset`.
pub open spec fn prefix_span(cs: Seq<char>, offset: int) -> Span {
    let m = index_of_offset(cs, offset);
    Span { start: byte_offset(cs, word_start(cs, m)) as usize, end: offset as usize }
}

pub fn identifier_prefix_span(source: &str, offset: usize) -> (span: Span)
    requires
        is_boundary(source@, offset as int),
    ensures
        span == prefix_span(source@, offset as int),
{
    let ghost cs = source@;
    let len = str_byte_len(source);
    let cis = char_indices(source);
    let chars = source_chars(source);
    let m = char_index_at(&cis, len, offset, Ghost(cs));
    let a = word_start_exec(&chars, m);
    proof {
        lemma_word_start_bounds(cs, m as int);
        lemma_byte_offset_bound(cs, a as int);
    }
    Span::new(offset_at_index(&cis, len, a, Ghost(cs)), offset)
}

// ---------------------------------------------------------------------------
// Keyword hover.
// ---------------------------------------------------------------------------

/// A keyword found in the text: its kind, its text and where it stands.
#[derive(Debug, PartialEq, Eq)]
pub struct KeywordTarget {
    pub kind: TokenKind,
    pub text: String,
    pub span: Span,
}

pub open spec fn keyword_target_view(t: KeywordTarget) -> (TokenKind, Seq<char>, Span) {
    (t.kind, t.text@, t.span)
}

/// The text of a span between two boundaries.
pub open spec fn span_text(cs: Seq<char>, span: Span) -> Seq<char> {
    cs.subrange(index_of_offset(cs, span.start as int), index_of_offset(cs, span.end as int))
}

/// The keyword at `offset`: the token there when it is a keyword (or an
/// identifier spelled like one); else the plain word there, unless it is
/// escaped, when it spells a keyword.
pub open spec fn keyword_target_at(cs: Seq<char>, offset: int) -> Option<(TokenKind, Seq<char>, Span)> {
    let from_token = match token_at(cs, offset) {
        Some(t) => if keyword_info_spec(t.0) is Some {
            Some(t)
        } else if t.0 == TokenKind::Ident && span_text(cs, t.2) == t.1 && keyword_kind(t.1) is Some {
            Some((keyword_kind(t.1)->0, t.1, t.2))
        } else {
            None
        },
        None => None,
    };
    match from_token {
        Some(t) => Some(t),
        None => match word_span_at(cs, offset) {
            None => None,
            Some(span) => if is_escaped_word(cs, span) {
                None
            } else {
                match keyword_kind(span_text(cs, span)) {
                    Some(kind) => Some((kind, span_text(cs, span), span)),
                    None => None,
                }
            },
        },
    }
}

pub fn keyword_target_at_offset(source: &str, offset: usize) -> (target: Option<KeywordTarget>)
    requires
        is_boundary(source@, offset as int),
    ensures
        match target {
            Some(t) => keyword_target_at(source@, offset as int) == Some(keyword_target_view(t)),
            None => keyword_target_at(source@, offset as int) is None,
        },
{
    let ghost cs = source@;
    let _len = str_byte_len(source);
    proof {
        lemma_lexed_spans_on_boundaries(cs);
        lemma_token_index_at_bounds(lex_spec(cs).0, offset as int, 0);
        lemma_clamp_boundary(cs, offset as int);
    }
    match token_at_offset(source, offset) {
        Some(token) => {
            proof {
                let k = token_index_at(lex_spec(cs).0, offset as int, 0)->0;
                assert(lex_spec(cs).0[k] == token@);
            }
            if keyword_info(token.kind).is_some() {
                return Some(KeywordTarget { kind: token.kind, text: token.text, span: token.span });
            }
            if token.kind == TokenKind::Ident {
                let spelled = substring(source, token.span.start, token.span.end);
                if str_equal(spelled.as_str(), token.text.as_str()) {
                    match keyword_kind_for_label(token.text.as_str()) {
                        Some(kind) => {
                            return Some(KeywordTarget { kind, text: token.text, span: token.span });
                        },
                        None => {},
                    }
                }
            }
        },
        None => {},
    }
    let span = match identifier_word_span_at_offset(source, offset) {
        Some(span) => span,
        None => {
            return None;
        },
    };
    proof {
        let m = index_of_offset(cs, offset as int);
        lemma_index_of_offset(cs, m);
        lemma_word_bounds(cs, m);
        lemma_index_of_offset(cs, word_start(cs, m));
        lemma_index_of_offset(cs, word_end(cs, m));
        lemma_byte_offset_bound(cs, word_start(cs, m));
        lemma_byte_offset_bound(cs, word_end(cs, m));
        crate::text::lemma_byte_offset_mono(cs, word_start(cs, m), word_end(cs, m));
    }
    if is_escaped_identifier_word(source, span) {
        return None;
    }
    let text = substring(source, span.start, span.end);
    match keyword_kind_for_label(text.as_str()) {
        Some(kind) => Some(KeywordTarget { kind, text, span }),
        None => None,
    }
}

/// Hover text, in Markdown, with the range it describes.
#[derive(Debug, PartialEq, Eq)]
pub struct Hover {
    pub contents: String,
    pub range: Option<Range>,
}

/// The hover text of a keyword: its category and spelling, its summary and
/// an example.
pub open spec fn keyword_hover_text(category: Seq<char>, text: Seq<char>, summary: Seq<char>, example: Seq<char>) -> Seq<char> {
    "**"@ + category + " keyword `"@ + text + "`**\n\n"@ + summary + "\n\n```ql\n"@ + example + "\n```"@
}

/// The hover of the keyword at an editor position.
pub open spec fn keyword_hover(cs: Seq<char>, line: int, character: int) -> Option<(Seq<char>, Range)> {
    match position_offset(cs, line, character) {
        None => None,
        Some(offset) => match keyword_target_at(cs, offset) {
            None => None,
            Some((kind, text, span)) => match keyword_info_spec(kind) {
                None => None,
                Some((category, summary, example)) => Some(
                    (keyword_hover_text(category, text, summary, example), span_range(cs, span)),
                ),
            },
        },
    }
}

pub fn hover_for_keyword(source: &str, position: Position) -> (hover: Option<Hover>)
    ensures
        match hover {
            Some(h) => keyword_hover(source@, position.line as int, position.character as int) == Some(
                (h.contents@, h.range->0),
            ) && h.range is Some,
            None => keyword_hover(source@, position.line as int, position.character as int) is None,
        },
{
    let ghost cs = source@;
    let offset = match position_to_offset(source, position) {
        Some(o) => o,
        None => {
            return None;
        },
    };
    proof {
        lemma_position_offset_round_trip(cs, position.line, position.character);
    }
    let _len = str_byte_len(source);
    let keyword = match keyword_target_at_offset(source, offset) {
        Some(k) => k,
        None => {
            return None;
        },
    };
    let info = match keyword_info(keyword.kind) {
        Some(i) => i,
        None => {
            return None;
        },
    };
    proof {
        keyword_target_span_on_boundaries(cs, offset as int);
    }
    let mut contents = String::from_str("**");
    contents.append(info.category);
    contents.append(" keyword `");
    contents.append(keyword.text.as_str());
    contents.append("`**\n\n");
    contents.append(info.summary);
    contents.append("\n\n```ql\n");
    contents.append(info.example);
    contents.append("\n```");
    let range = span_to_range(source, keyword.span);
    Some(Hover { contents, range: Some(range) })
}

/// The span of a keyword target runs between char boundaries.
proof fn keyword_target_span_on_boundaries(cs: Seq<char>, offset: int)
    requires
        is_boundary(cs, offset),
        byte_len(cs) <= usize::MAX,
    ensures
        keyword_target_at(cs, offset) matches Some(t) ==> clamp_offset(cs, t.2.start as int) == t.2.start
            && clamp_offset(cs, t.2.end as int) == t.2.end && is_boundary(cs, t.2.start as int)
            && is_boundary(cs, t.2.end as int),
{
    lemma_lexed_spans_on_boundaries(cs);
    lemma_token_index_at_bounds(lex_spec(cs).0, offset, 0);
    lemma_clamp_boundary(cs, offset);
    let m = index_of_offset(cs, offset);
    lemma_word_bounds(cs, m);
    lemma_byte_offset_bound(cs, word_start(cs, m));
    lemma_byte_offset_bound(cs, word_end(cs, m));
    if let Some(t) = keyword_target_at(cs, offset) {
        if let Some(k) = token_index_at(lex_spec(cs).0, offset, 0) {
            lemma_clamp_boundary(cs, lex_spec(cs).0[k].2.start as int);
            lemma_clamp_boundary(cs, lex_spec(cs).0[k].2.end as int);
        }
        assert(is_boundary(cs, byte_offset(cs, word_start(cs, m)) as int));
        assert(is_boundary(cs, byte_offset(cs, word_end(cs, m)) as int));
        lemma_clamp_boundary(cs, byte_offset(cs, word_start(cs, m)) as int);
        lemma_clamp_boundary(cs, byte_offset(cs, word_end(cs, m)) as int);
    }
}

// ---------------------------------------------------------------------------
// Keyword completion.
// ---------------------------------------------------------------------------

/// The editor's completion kind for keywords.
pub const COMPLETION_KIND_KEYWORD: i32 = 14;

/// The editor's completion kind for snippets.
pub const COMPLETION_KIND_SNIPPET: i32 = 15;

/// The editor's insert text format for snippets with placeholders.
pub const INSERT_TEXT_FORMAT_SNIPPET: i32 = 2;

/// How documentation text is to be read.
#[derive(Clone, Copy, Debug, PartialEq, Eq, Structural, Hash)]
pub enum MarkupKind {
    PlainText,
    Markdown,
}

#[derive(Debug, PartialEq, Eq)]
pub struct MarkupContent {
    pub kind: MarkupKind,
    pub value: String,
}

/// The parts of a completion item that completion and its resolution
/// produce or read.
#[derive(Debug, PartialEq, Eq)]
pub struct CompletionItem {
    pub label: String,
    pub kind: Option<i32>,
    pub detail: Option<String>,
    pub documentation: Option<MarkupContent>,
    pub text_edit: Option<TextEdit>,
    pub insert_text_format: Option<i32>,
}

pub open spec fn opt_text(s: Option<String>) -> Option<Seq<char>> {
    match s {
        Some(t) => Some(t@),
        None => None,
    }
}

pub open spec fn opt_markup(m: Option<MarkupContent>) -> Option<(MarkupKind, Seq<char>)> {
    match m {
        Some(c) => Some((c.kind, c.value@)),
        None => None,
    }
}

pub open spec fn opt_edit(e: Option<TextEdit>) -> Option<(Range, Seq<char>)> {
    match e {
        Some(t) => Some(text_edit_view(t)),
        None => None,
    }
}

pub type ItemView = (
    Seq<char>,
    Option<i32>,
    Option<Seq<char>>,
    Option<(MarkupKind, Seq<char>)>,
    Option<(Range, Seq<char>)>,
    Option<i32>,
);

pub open spec fn item_view(item: CompletionItem) -> ItemView {
    (
        item.label@,
        item.kind,
        opt_text(item.detail),
        opt_markup(item.documentation),
        opt_edit(item.text_edit),
        item.insert_text_format,
    )
}

/// The Markdown documentation of a keyword: its summary and an example.
pub open spec fn keyword_doc_text(summary: Seq<char>, example: Seq<char>) -> Seq<char> {
    summary + "\n\n```ql\n"@ + example + "\n```"@
}

pub fn keyword_documentation(info: KeywordInfo) -> (doc: MarkupContent)
    ensures
        doc.kind == MarkupKind::Markdown,
        doc.value@ == keyword_doc_text(info.summary@, info.example@),
{
    let mut value = String::from_str(info.summary);
    value.append("\n\n```ql\n");
    value.append(info.example);
    value.append("\n```");
    MarkupContent { kind: MarkupKind::Markdown, value }
}

/// A keyword completion replacing `span` with `insert`.
pub open spec fn keyword_item(
    cs: Seq<char>,
    span: Span,
    label: Seq<char>,
    insert: Seq<char>,
    info: (Seq<char>, Seq<char>, Seq<char>),
    kind: i32,
    format: Option<i32>,
) -> ItemView {
    (
        label,
        Some(kind),
        Some(info.0 + " keyword"@),
        Some((MarkupKind::Markdown, keyword_doc_text(info.1, info.2))),
        Some((span_range(cs, span), insert)),
        format,
    )
}

pub fn keyword_completion_item(
    source: &str,
    replace_span: Span,
    label: &str,
    insert_text: &str,
    info: KeywordInfo,
) -> (item: CompletionItem)
    requires
        is_boundary(source@, replace_span.start as int),
        is_boundary(source@, replace_span.end as int),
    ensures
        item_view(item) == keyword_item(
            source@,
            replace_span,
            label@,
            insert_text@,
            (info.category@, info.summary@, info.example@),
            COMPLETION_KIND_KEYWORD,
            None,
        ),
{
    proof {
        lemma_clamp_boundary(source@, replace_span.start as int);
        lemma_clamp_boundary(source@, replace_span.end as int);
    }
    let detail = concat_str(info.category, " keyword");
    let range = span_to_range(source, replace_span);
    CompletionItem {
        label: String::from_str(label),
        kind: Some(COMPLETION_KIND_KEYWORD),
        detail: Some(detail),
        documentation: Some(keyword_documentation(info)),
        text_edit: Some(TextEdit::new(range, String::from_str(insert_text))),
        insert_text_format: None,
    }
}

/// Completions for the keyword labels that are documented keywords.
pub open spec fn label_items(cs: Seq<char>, span: Span, labels: Seq<Seq<char>>) -> Seq<ItemView>
    decreases labels.len(),
{
    if labels.len() == 0 {
        seq![]
    } else {
        let prev = label_items(cs, span, labels.drop_last());
        let label = labels.last();
        match keyword_kind(label) {
            Some(kind) => match keyword_info_spec(kind) {
                Some(info) => prev.push(keyword_item(cs, span, label, label, info, COMPLETION_KIND_KEYWORD, None)),
                None => prev,
            },
            None => prev,
        }
    }
}

/// Snippet completions, documented by their keyword (by `fn` when the label
/// is not one).
pub open spec fn snippet_items(cs: Seq<char>, span: Span, snippets: Seq<(Seq<char>, Seq<char>)>) -> Seq<ItemView>
    decreases snippets.len(),
{
    if snippets.len() == 0 {
        seq![]
    } else {
        let prev = snippet_items(cs, span, snippets.drop_last());
        let (label, snippet) = snippets.last();
        let kind = match keyword_kind(label) {
            Some(k) => k,
            None => TokenKind::Fn,
        };
        match keyword_info_spec(kind) {
            Some(info) => prev.push(
                keyword_item(cs, span, label, snippet, info, COMPLETION_KIND_SNIPPET, Some(INSERT_TEXT_FORMAT_SNIPPET)),
            ),
            None => prev,
        }
    }
}

/// All keyword completions replacing `span`: the keywords, then the snippets.
pub open spec fn keyword_items(cs: Seq<char>, span: Span) -> Seq<ItemView> {
    label_items(cs, span, keyword_labels_spec()) + snippet_items(cs, span, keyword_snippets_spec())
}

pub fn keyword_completion_items(source: &str, replace_span: Span) -> (items: Vec<CompletionItem>)
    requires
        is_boundary(source@, replace_span.start as int),
        is_boundary(source@, replace_span.end as int),
    ensures
        items@.map_values(|i: CompletionItem| item_view(i)) == keyword_items(source@, replace_span),
{
    let ghost cs = source@;
    let labels = keyword_completion_labels();
    let ghost lv = labels@.map_values(|l: &str| l@);
    let mut items: Vec<CompletionItem> = Vec::new();
    let mut k: usize = 0;
    while k < labels.len()
        invariant
            cs == source@,
            is_boundary(cs, replace_span.start as int),
            is_boundary(cs, replace_span.end as int),
            lv == labels@.map_values(|l: &str| l@),
            lv == keyword_labels_spec(),
            k <= labels@.len(),
            items@.map_values(|i: CompletionItem| item_view(i)) == label_items(cs, replace_span, lv.take(k as int)),
        decreases labels@.len() - k,
    {
        let label = labels[k];
        proof {
            assert(lv.take(k + 1).drop_last() =~= lv.take(k as int));
            assert(lv.take(k + 1).last() == label@);
        }
        match keyword_kind_for_label(label) {
            Some(kind) => match keyword_info(kind) {
                Some(info) => {
                    let ghost before = items@;
                    items.push(keyword_completion_item(source, replace_span, label, label, info));
                    proof {
                        assert(items@.map_values(|i: CompletionItem| item_view(i)) =~= before.map_values(|i: CompletionItem| item_view(i)).push(item_view(items@.last())));
                    }
                },
                None => {},
            },
            None => {},
        }
        k = k + 1;
    }
    proof {
        assert(lv.take(labels@.len() as int) =~= lv);
    }
    let ghost first = items@.map_values(|i: CompletionItem| item_view(i));
    let snippets = keyword_snippets();
    let ghost sv = snippets@.map_values(|p: (&str, &str)| (p.0@, p.1@));
    let mut j: usize = 0;
    while j < snippets.len()
        invariant
            cs == source@,
            is_boundary(cs, replace_span.start as int),
            is_boundary(cs, replace_span.end as int),
            sv == snippets@.map_values(|p: (&str, &str)| (p.0@, p.1@)),
            sv == keyword_snippets_spec(),
            first == label_items(cs, replace_span, keyword_labels_spec()),
            j <= snippets@.len(),
            items@.map_values(|i: CompletionItem| item_view(i)) == first + snippet_items(cs, replace_span, sv.take(j as int)),
        decreases snippets@.len() - j,
    {
        let (label, snippet) = snippets[j];
        proof {
            assert(sv.take(j + 1).drop_last() =~= sv.take(j as int));
            assert(sv.take(j + 1).last() == (label@, snippet@));
        }
        let kind = match keyword_kind_for_label(label) {
            Some(k) => k,
            None => TokenKind::Fn,
        };
        match keyword_info(kind) {
            Some(info) => {
                let mut item = keyword_completion_item(source, replace_span, label, snippet, info);
                item.kind = Some(COMPLETION_KIND_SNIPPET);
                item.insert_text_format = Some(INSERT_TEXT_FORMAT_SNIPPET);
                let ghost before = items@;
                items.push(item);
                proof {
                    assert(items@.map_values(|i: CompletionItem| item_view(i)) =~= before.map_values(|i: CompletionItem| item_view(i)).push(item_view(items@.last())));
                }
            },
            None => {},
        }
        j = j + 1;
    }
    proof {
        assert(sv.take(snippets@.len() as int) =~= sv);
    }
    items
}

/// Keyword completions at an editor position: those whose label starts
/// with the word typed before the position; none when there is none.
pub open spec fn keyword_completions(cs: Seq<char>, line: int, character: int) -> Option<Seq<ItemView>> {
    match position_offset(cs, line, character) {
        None => None,
        Some(offset) => {
            let span = prefix_span(cs, offset);
            let prefix = span_text(cs, span);
            let items = keyword_items(cs, span).filter(|i: ItemView| is_prefix_of(prefix, i.0));
            if items.len() == 0 {
                None
            } else {
                Some(items)
            }
        },
    }
}

pub fn completion_for_keywords(source: &str, position: Position) -> (items: Option<Vec<CompletionItem>>)
    ensures
        match items {
            Some(v) => keyword_completions(source@, position.line as int, position.character as int)
                == Some(v@.map_values(|i: CompletionItem| item_view(i))),
            None => keyword_completions(source@, position.line as int, position.character as int) is None,
        },
{
    let ghost cs = source@;
    let offset = match position_to_offset(source, position) {
        Some(o) => o,
        None => {
            return None;
        },
    };
    proof {
        lemma_position_offset_round_trip(cs, position.line, position.character);
    }
    let replace_span = identifier_prefix_span(source, offset);
    proof {
        let m = index_of_offset(cs, offset as int);
        lemma_index_of_offset(cs, m);
        lemma_word_start_bounds(cs, m);
        lemma_index_of_offset(cs, word_start(cs, m));
        crate::text::lemma_byte_offset_mono(cs, word_start(cs, m), m);
        lemma_byte_offset_bound(cs, word_start(cs, m));
        crate::text::lemma_byte_len_is_encoding_len(cs);
    }
    let _len = str_byte_len(source);
    let prefix = substring(source, replace_span.start, offset);
    let all = keyword_completion_items(source, replace_span);
    let total = all.len();
    let ghost av = all@.map_values(|i: CompletionItem| item_view(i));
    let ghost keep = |i: ItemView| is_prefix_of(prefix@, i.0);
    let mut items: Vec<CompletionItem> = Vec::new();
    let mut rest = all;
    let mut k: usize = 0;
    proof {
        assert(av.take(0).filter(keep) =~= Seq::<ItemView>::empty());
        assert(rest@.map_values(|i: CompletionItem| item_view(i)) =~= av.skip(0));
    }
    while rest.len() > 0
        invariant
            k + rest@.len() == av.len(),
            av.len() == total,
            rest@.map_values(|i: CompletionItem| item_view(i)) == av.skip(k as int),
            items@.map_values(|i: CompletionItem| item_view(i)) == av.take(k as int).filter(keep),
            keep == (|i: ItemView| is_prefix_of(prefix@, i.0)),
        decreases rest@.len(),
    {
        let ghost old_rest = rest@;
        let item = rest.remove(0);
        proof {
            assert(old_rest.map_values(|i: CompletionItem| item_view(i))[0] == av.skip(k as int)[0]);
            assert(item == old_rest[0]);
            assert(item_view(item) == av[k as int]);
            assert(rest@ =~= old_rest.drop_first());
            assert(rest@.map_values(|i: CompletionItem| item_view(i)) =~= old_rest.map_values(|i: CompletionItem| item_view(i)).drop_first());
            assert(av.take(k + 1).drop_last() =~= av.take(k as int));
            av.take(k as int).lemma_filter_push(av[k as int], keep);
            assert(av.take(k + 1) =~= av.take(k as int).push(av[k as int]));
            assert(rest@.map_values(|i: CompletionItem| item_view(i)) =~= av.skip(k + 1));
        }
        if starts_with(item.label.as_str(), prefix.as_str()) {
            let ghost before = items@;
            items.push(item);
            proof {
                assert(items@.map_values(|i: CompletionItem| item_view(i)) =~= before.map_values(|i: CompletionItem| item_view(i)).push(item_view(item)));
            }
        }
        k = k + 1;
    }
    proof {
        assert(av.take(av.len() as int) =~= av);
    }
    if items.len() == 0 {
        None
    } else {
        Some(items)
    }
}

/// A completion item filled in for display: a keyword gets its category as
/// detail and its documentation; another item with a non-blank detail gets
/// that detail, as a code block, for documentation. What the item already
/// has is kept.
pub open spec fn resolved_item(item: ItemView) -> ItemView {
    let info = match keyword_kind(item.0) {
        Some(kind) => keyword_info_spec(kind),
        None => None,
    };
    let detail = match (item.2, info) {
        (None, Some(i)) => Some(i.0 + " keyword"@),
        _ => item.2,
    };
    let documentation = match item.3 {
        Some(d) => Some(d),
        None => match info {
            Some(i) => Some((MarkupKind::Markdown, keyword_doc_text(i.1, i.2))),
            None => match detail {
                Some(d) => if trim_spec(d).len() > 0 {
                    Some((MarkupKind::Markdown, "```ql\n"@ + d + "\n```"@))
                } else {
                    None
                },
                None => None,
            },
        },
    };
    (item.0, item.1, detail, documentation, item.4, item.5)
}

pub fn resolve_completion_item(item: CompletionItem) -> (resolved: CompletionItem)
    ensures
        item_view(resolved) == resolved_item(item_view(item)),
{
    let mut item = item;
    let info = match keyword_kind_for_label(item.label.as_str()) {
        Some(kind) => keyword_info(kind),
        None => None,
    };
    if item.detail.is_none() {
        match info {
            Some(i) => {
                item.detail = Some(concat_str(i.category, " keyword"));
            },
            None => {},
        }
    }
    if item.documentation.is_none() {
        match info {
            Some(i) => {
                item.documentation = Some(keyword_documentation(i));
            },
            None => {
                let doc = match &item.detail {
                    Some(detail) => {
                        let trimmed = trim(detail.as_str());
                        if !trimmed.as_str().is_empty() {
                            let mut value = String::from_str("```ql\n");
                            value.append(detail.as_str());
                            value.append("\n```");
                            Some(MarkupContent { kind: MarkupKind::Markdown, value })
                        } else {
                            None
                        }
                    },
                    None => None,
                };
                item.documentation = doc;
            },
        }
    }
    item
}

} // verus!
