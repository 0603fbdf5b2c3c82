use vstd::prelude::*;

use crate::imports::TokenView;
use crate::lexer::{is_keyword_kind, lex, lex_spec, token_spelling, tokens_view, TokenKind};
use crate::bridge::{
    clamp_offset, lemma_offset_position_mono, lemma_utf16_len_le_byte_len, offset_position,
    offset_to_position, position_offset, position_to_offset, spans_overlap, Range,
};
use crate::span::Span;
use crate::text::{
    are_char_indices, byte_len, byte_offset, char_index_at, char_indices, char_len_utf16,
    index_of_offset, is_boundary, lemma_byte_offset_bound, lemma_byte_offset_split,
    lemma_byte_offset_strict, str_byte_len, utf16_len,
};

verus! {

/// Legend index of the semantic token type that lexing alone assigns to a
/// token kind: keyword, modifier, string, number or operator.
pub open spec fn lexical_token_type(kind: TokenKind) -> Option<u32> {
    if kind == TokenKind::Package || kind == TokenKind::Use || kind == TokenKind::Const || kind == TokenKind::Static || kind == TokenKind::Let || kind == TokenKind::Var || kind == TokenKind::Fn || kind == TokenKind::Await || kind == TokenKind::Spawn || kind == TokenKind::Defer || kind == TokenKind::Return || kind == TokenKind::Break || kind == TokenKind::Continue || kind == TokenKind::If || kind == TokenKind::Else || kind == TokenKind::Match || kind == TokenKind::For || kind == TokenKind::While || kind == TokenKind::Loop || kind == TokenKind::In || kind == TokenKind::Where || kind == TokenKind::Struct || kind == TokenKind::Data || kind == TokenKind::Enum || kind == TokenKind::Trait || kind == TokenKind::Impl || kind == TokenKind::Extend || kind == TokenKind::Type || kind == TokenKind::Opaque || kind == TokenKind::Extern || kind == TokenKind::Is || kind == TokenKind::As || kind == TokenKind::Satisfies || kind == TokenKind::NoneKw || kind == TokenKind::TrueKw || kind == TokenKind::FalseKw || kind == TokenKind::MoveKw {
        Some(12u32)
    } else if kind == TokenKind::Pub || kind == TokenKind::Async || kind == TokenKind::Unsafe {
        Some(13u32)
    } else if kind == TokenKind::String || kind == TokenKind::FormatString {
        Some(14u32)
    } else if kind == TokenKind::Int {
        Some(15u32)
    } else if kind == TokenKind::Arrow || kind == TokenKind::FatArrow || kind == TokenKind::Question || kind == TokenKind::Eq || kind == TokenKind::EqEq || kind == TokenKind::BangEq || kind == TokenKind::Plus || kind == TokenKind::Minus || kind == TokenKind::Star || kind == TokenKind::Slash || kind == TokenKind::Percent || kind == TokenKind::Lt || kind == TokenKind::Gt || kind == TokenKind::LtEq || kind == TokenKind::GtEq {
        Some(16u32)
    } else {
        None
    }
}

pub fn lexical_semantic_token_type(kind: TokenKind) -> (token_type: Option<u32>)
    ensures
        token_type == lexical_token_type(kind),
{
    match kind {
        TokenKind::Package | TokenKind::Use | TokenKind::Const | TokenKind::Static | TokenKind::Let | TokenKind::Var | TokenKind::Fn | TokenKind::Await | TokenKind::Spawn | TokenKind::Defer | TokenKind::Return | TokenKind::Break | TokenKind::Continue | TokenKind::If | TokenKind::Else | TokenKind::Match | TokenKind::For | TokenKind::While | TokenKind::Loop | TokenKind::In | TokenKind::Where | TokenKind::Struct | TokenKind::Data | TokenKind::Enum | TokenKind::Trait | TokenKind::Impl | TokenKind::Extend | TokenKind::Type | TokenKind::Opaque | TokenKind::Extern | TokenKind::Is | TokenKind::As | TokenKind::Satisfies | TokenKind::NoneKw | TokenKind::TrueKw | TokenKind::FalseKw | TokenKind::MoveKw => Some(12),
        TokenKind::Pub | TokenKind::Async | TokenKind::Unsafe => Some(13),
        TokenKind::String | TokenKind::FormatString => Some(14),
        TokenKind::Int => Some(15),
        TokenKind::Arrow | TokenKind::FatArrow | TokenKind::Question | TokenKind::Eq | TokenKind::EqEq | TokenKind::BangEq | TokenKind::Plus | TokenKind::Minus | TokenKind::Star | TokenKind::Slash | TokenKind::Percent | TokenKind::Lt | TokenKind::Gt | TokenKind::LtEq | TokenKind::GtEq => Some(16),
        _ => None,
    }
}

/// Modifier bits that lexing alone assigns to a token kind.
pub open spec fn lexical_token_modifiers(kind: TokenKind) -> u32 {
    if kind == TokenKind::Const || kind == TokenKind::Let || kind == TokenKind::Var || kind
        == TokenKind::Fn {
        1
    } else if kind == TokenKind::Static {
        3
    } else if kind == TokenKind::Async {
        8
    } else if kind == TokenKind::Unsafe {
        16
    } else {
        0
    }
}

pub fn lexical_semantic_token_modifiers(kind: TokenKind) -> (modifiers: u32)
    ensures
        modifiers == lexical_token_modifiers(kind),
{
    match kind {
        TokenKind::Const | TokenKind::Let | TokenKind::Var | TokenKind::Fn => 1,
        TokenKind::Static => 3,
        TokenKind::Async => 8,
        TokenKind::Unsafe => 16,
        _ => 0,
    }
}

// ---------------------------------------------------------------------------
// Symbol occurrences.
// ---------------------------------------------------------------------------

/// What a name denotes, as semantic analysis classifies it.
#[derive(Clone, Copy, Debug, PartialEq, Eq, Structural, Hash)]
pub enum SymbolKind {
    Import,
    BuiltinType,
    TypeAlias,
    Struct,
    Enum,
    Variant,
    Trait,
    Generic,
    Parameter,
    Local,
    SelfParameter,
    Field,
    Function,
    Const,
    Static,
    Method,
}

/// Legend index of the semantic token type of a symbol kind.
pub open spec fn kind_index(kind: SymbolKind) -> u32 {
    match kind {
        SymbolKind::Import => 0,
        SymbolKind::BuiltinType | SymbolKind::TypeAlias => 1,
        SymbolKind::Struct => 2,
        SymbolKind::Enum => 3,
        SymbolKind::Variant => 4,
        SymbolKind::Trait => 5,
        SymbolKind::Generic => 6,
        SymbolKind::Parameter => 7,
        SymbolKind::Local | SymbolKind::SelfParameter => 8,
        SymbolKind::Field => 9,
        SymbolKind::Function | SymbolKind::Const | SymbolKind::Static => 10,
        SymbolKind::Method => 11,
    }
}

pub fn semantic_token_kind_index(kind: SymbolKind) -> (index: u32)
    ensures
        index == kind_index(kind),
{
    match kind {
        SymbolKind::Import => 0,
        SymbolKind::BuiltinType | SymbolKind::TypeAlias => 1,
        SymbolKind::Struct => 2,
        SymbolKind::Enum => 3,
        SymbolKind::Variant => 4,
        SymbolKind::Trait => 5,
        SymbolKind::Generic => 6,
        SymbolKind::Parameter => 7,
        SymbolKind::Local | SymbolKind::SelfParameter => 8,
        SymbolKind::Field => 9,
        SymbolKind::Function | SymbolKind::Const | SymbolKind::Static => 10,
        SymbolKind::Method => 11,
    }
}

/// Modifier bits of a symbol kind: constants and statics are read-only.
pub open spec fn modifier_bits(kind: SymbolKind) -> u32 {
    if kind == SymbolKind::Const || kind == SymbolKind::Static {
        4
    } else {
        0
    }
}

pub fn semantic_token_modifier_bitset(kind: SymbolKind) -> (bits: u32)
    ensures
        bits == modifier_bits(kind),
{
    match kind {
        SymbolKind::Const | SymbolKind::Static => 4,
        _ => 0,
    }
}

/// A name of the source with the kind of symbol it denotes.
#[derive(Clone, Copy, Debug, PartialEq, Eq, Structural, Hash)]
pub struct SemanticTokenOccurrence {
    pub span: Span,
    pub kind: SymbolKind,
}

/// A span with its semantic token type and modifier bits.
#[derive(Clone, Copy, Debug, PartialEq, Eq, Structural, Hash)]
pub struct LspSemanticTokenOccurrence {
    pub span: Span,
    pub token_type: u32,
    pub token_modifiers_bitset: u32,
}

/// A token as the editor receives it: relative to the token before.
#[derive(Clone, Copy, Debug, PartialEq, Eq, Structural, Hash)]
pub struct SemanticToken {
    pub delta_line: u32,
    pub delta_start: u32,
    pub length: u32,
    pub token_type: u32,
    pub token_modifiers_bitset: u32,
}

pub open spec fn occurrence_entry(o: SemanticTokenOccurrence) -> LspSemanticTokenOccurrence {
    LspSemanticTokenOccurrence {
        span: o.span,
        token_type: kind_index(o.kind),
        token_modifiers_bitset: modifier_bits(o.kind),
    }
}

/// The tokens that lexing alone classifies, in source order.
pub open spec fn lexical_entries(ts: Seq<TokenView>) -> Seq<LspSemanticTokenOccurrence>
    decreases ts.len(),
{
    if ts.len() == 0 {
        seq![]
    } else {
        let prev = lexical_entries(ts.drop_last());
        let t = ts.last();
        match lexical_token_type(t.0) {
            Some(ty) => prev.push(
                LspSemanticTokenOccurrence {
                    span: t.2,
                    token_type: ty,
                    token_modifiers_bitset: lexical_token_modifiers(t.0),
                },
            ),
            None => prev,
        }
    }
}

pub fn lexical_semantic_tokens(source: &str) -> (entries: Vec<LspSemanticTokenOccurrence>)
    ensures
        entries@ == lexical_entries(lex_spec(source@).0),
{
    let (tokens, _) = lex(source);
    let ghost ts = tokens_view(tokens@);
    let mut entries: Vec<LspSemanticTokenOccurrence> = Vec::new();
    let mut k: usize = 0;
    while k < tokens.len()
        invariant
            ts == tokens_view(tokens@),
            ts == lex_spec(source@).0,
            k <= ts.len(),
            entries@ == lexical_entries(ts.take(k as int)),
        decreases ts.len() - k,
    {
        proof {
            assert(ts.take(k + 1).drop_last() =~= ts.take(k as int));
            assert(ts.take(k + 1).last() == tokens@[k as int]@);
        }
        match lexical_semantic_token_type(tokens[k].kind) {
            Some(token_type) => {
                entries.push(
                    LspSemanticTokenOccurrence {
                        span: tokens[k].span,
                        token_type,
                        token_modifiers_bitset: lexical_semantic_token_modifiers(tokens[k].kind),
                    },
                );
            },
            None => {},
        }
        k = k + 1;
    }
    proof {
        assert(ts.take(ts.len() as int) =~= ts);
    }
    entries
}

// ---------------------------------------------------------------------------
// Ordering and deduplication.
// ---------------------------------------------------------------------------

/// Order by start, then end, then token type.
pub open spec fn entry_le(a: LspSemanticTokenOccurrence, b: LspSemanticTokenOccurrence) -> bool {
    a.span.start < b.span.start || (a.span.start == b.span.start && (a.span.end < b.span.end || (
    a.span.end == b.span.end && a.token_type <= b.token_type)))
}

/// Inserts `x` after every entry that is not after it.
pub open spec fn insert_sorted(s: Seq<LspSemanticTokenOccurrence>, x: LspSemanticTokenOccurrence) -> Seq<LspSemanticTokenOccurrence>
    decreases s.len(),
{
    if s.len() == 0 {
        seq![x]
    } else if entry_le(s.last(), x) {
        s.push(x)
    } else {
        insert_sorted(s.drop_last(), x).push(s.last())
    }
}

/// The entries sorted by start, end and type; entries equal in these keep
/// their order.
pub open spec fn stable_sort(s: Seq<LspSemanticTokenOccurrence>) -> Seq<LspSemanticTokenOccurrence>
    decreases s.len(),
{
    if s.len() == 0 {
        seq![]
    } else {
        insert_sorted(stable_sort(s.drop_last()), s.last())
    }
}

/// Drops each entry equal to the entry kept before it.
pub open spec fn dedup_entries(s: Seq<LspSemanticTokenOccurrence>) -> Seq<LspSemanticTokenOccurrence>
    decreases s.len(),
{
    if s.len() == 0 {
        s
    } else {
        let kept = dedup_entries(s.drop_last());
        if kept.len() > 0 && kept.last() == s.last() {
            kept
        } else {
            kept.push(s.last())
        }
    }
}

pub open spec fn sorted_entries(s: Seq<LspSemanticTokenOccurrence>) -> bool {
    forall|i: int, j: int| 0 <= i < j < s.len() ==> entry_le(#[trigger] s[i], #[trigger] s[j])
}

/// Every entry meets `ok`.
pub open spec fn all_entries(s: Seq<LspSemanticTokenOccurrence>, ok: spec_fn(LspSemanticTokenOccurrence) -> bool) -> bool {
    forall|i: int| 0 <= i < s.len() ==> #[trigger] ok(s[i])
}

proof fn lemma_insert_sorted(s: Seq<LspSemanticTokenOccurrence>, x: LspSemanticTokenOccurrence, ok: spec_fn(LspSemanticTokenOccurrence) -> bool)
    ensures
        insert_sorted(s, x).len() == s.len() + 1,
        sorted_entries(s) ==> sorted_entries(insert_sorted(s, x)),
        all_entries(s, ok) && ok(x) ==> all_entries(insert_sorted(s, x), ok),
    decreases s.len(),
{
    if s.len() > 0 && !entry_le(s.last(), x) {
        let p = s.drop_last();
        lemma_insert_sorted(p, x, ok);
        let r = insert_sorted(p, x);
        let t = r.push(s.last());
        if sorted_entries(s) {
            assert(sorted_entries(p)) by {
                assert forall|i: int, j: int| 0 <= i < j < p.len() implies entry_le(#[trigger] p[i], #[trigger] p[j]) by {
                    assert(entry_le(s[i], s[j]));
                }
            }
            lemma_insert_members(p, x);
            assert forall|i: int, j: int| 0 <= i < j < t.len() implies entry_le(#[trigger] t[i], #[trigger] t[j]) by {
                if j < r.len() {
                    assert(t[i] == r[i] && t[j] == r[j]);
                } else {
                    assert(t[j] == s.last());
                    assert(t[i] == r[i]);
                    if r[i] == x {
                    } else {
                        let k = choose|k: int| 0 <= k < p.len() && r[i] == p[k];
                        assert(entry_le(s[k], s[s.len() - 1]));
                    }
                }
            }
        }
        if all_entries(s, ok) && ok(x) {
            assert(all_entries(p, ok)) by {
                assert forall|i: int| 0 <= i < p.len() implies #[trigger] ok(p[i]) by {
                    assert(ok(s[i]));
                }
            }
            assert forall|i: int| 0 <= i < t.len() implies #[trigger] ok(t[i]) by {
                if i < r.len() {
                    assert(t[i] == r[i]);
                } else {
                    assert(ok(s[s.len() - 1]));
                }
            }
        }
    } else if s.len() > 0 {
        let t = s.push(x);
        if sorted_entries(s) {
            assert forall|i: int, j: int| 0 <= i < j < t.len() implies entry_le(#[trigger] t[i], #[trigger] t[j]) by {
                if j < s.len() {
                    assert(t[i] == s[i] && t[j] == s[j]);
                } else if i < s.len() - 1 {
                    assert(entry_le(s[i], s[s.len() - 1]));
                }
            }
        }
        if all_entries(s, ok) && ok(x) {
            assert forall|i: int| 0 <= i < t.len() implies #[trigger] ok(t[i]) by {
                if i < s.len() {
                    assert(t[i] == s[i]);
                }
            }
        }
    }
}

proof fn lemma_insert_members(s: Seq<LspSemanticTokenOccurrence>, x: LspSemanticTokenOccurrence)
    ensures
        forall|i: int|
            0 <= i < insert_sorted(s, x).len() ==> #[trigger] insert_sorted(s, x)[i] == x || exists|k: int|
                0 <= k < s.len() && insert_sorted(s, x)[i] == s[k],
    decreases s.len(),
{
    if s.len() > 0 && !entry_le(s.last(), x) {
        let p = s.drop_last();
        lemma_insert_members(p, x);
        let r = insert_sorted(p, x);
        let t = r.push(s.last());
        assert forall|i: int| 0 <= i < t.len() implies #[trigger] t[i] == x || exists|k: int|
            0 <= k < s.len() && t[i] == s[k] by {
            if i < r.len() {
                assert(t[i] == r[i]);
                if r[i] != x {
                    let k = choose|k: int| 0 <= k < p.len() && r[i] == p[k];
                    assert(s[k] == p[k]);
                }
            } else {
                assert(t[i] == s[s.len() - 1]);
            }
        }
    } else if s.len() > 0 {
        let t = s.push(x);
        assert forall|i: int| 0 <= i < t.len() implies #[trigger] t[i] == x || exists|k: int|
            0 <= k < s.len() && t[i] == s[k] by {
            if i < s.len() {
                assert(t[i] == s[i]);
            }
        }
    }
}

proof fn lemma_stable_sort(s: Seq<LspSemanticTokenOccurrence>, ok: spec_fn(LspSemanticTokenOccurrence) -> bool)
    ensures
        sorted_entries(stable_sort(s)),
        all_entries(s, ok) ==> all_entries(stable_sort(s), ok),
    decreases s.len(),
{
    if s.len() > 0 {
        let p = s.drop_last();
        lemma_stable_sort(p, ok);
        lemma_insert_sorted(stable_sort(p), s.last(), ok);
        if all_entries(s, ok) {
            assert(all_entries(p, ok)) by {
                assert forall|i: int| 0 <= i < p.len() implies #[trigger] ok(p[i]) by {
                    assert(ok(s[i]));
                }
            }
            assert(ok(s[s.len() - 1]));
        }
    }
}

proof fn lemma_dedup_entries(s: Seq<LspSemanticTokenOccurrence>, ok: spec_fn(LspSemanticTokenOccurrence) -> bool)
    ensures
        forall|j: int|
            0 <= j < dedup_entries(s).len() ==> exists|i: int|
                0 <= i < s.len() && #[trigger] dedup_entries(s)[j] == s[i],
        sorted_entries(s) ==> sorted_entries(dedup_entries(s)),
        all_entries(s, ok) ==> all_entries(dedup_entries(s), ok),
    decreases s.len(),
{
    if s.len() > 0 {
        let p = s.drop_last();
        lemma_dedup_entries(p, ok);
        let d = dedup_entries(s);
        let dp = dedup_entries(p);
        assert forall|j: int| 0 <= j < d.len() implies exists|i: int|
            0 <= i < s.len() && #[trigger] d[j] == s[i] by {
            if j < dp.len() {
                assert(d[j] == dp[j]);
                let i = choose|i: int| 0 <= i < p.len() && dp[j] == p[i];
                assert(s[i] == p[i]);
            } else {
                assert(d[j] == s[s.len() - 1]);
            }
        }
        if sorted_entries(s) {
            assert(sorted_entries(p)) by {
                assert forall|i: int, j: int| 0 <= i < j < p.len() implies entry_le(#[trigger] p[i], #[trigger] p[j]) by {
                    assert(entry_le(s[i], s[j]));
                }
            }
            assert forall|i: int, j: int| 0 <= i < j < d.len() implies entry_le(#[trigger] d[i], #[trigger] d[j]) by {
                if j < dp.len() {
                    assert(d[i] == dp[i] && d[j] == dp[j]);
                } else {
                    assert(d[i] == dp[i]);
                    let k = choose|k: int| 0 <= k < p.len() && dp[i] == p[k];
                    assert(entry_le(s[k], s[s.len() - 1]));
                }
            }
        }
        if all_entries(s, ok) {
            assert(all_entries(p, ok)) by {
                assert forall|i: int| 0 <= i < p.len() implies #[trigger] ok(p[i]) by {
                    assert(ok(s[i]));
                }
            }
            assert forall|j: int| 0 <= j < d.len() implies #[trigger] ok(d[j]) by {
                let i = choose|i: int| 0 <= i < s.len() && d[j] == s[i];
                assert(ok(s[i]));
            }
        }
    }
}

// ---------------------------------------------------------------------------
// Encoding for the editor.
// ---------------------------------------------------------------------------

/// The text of a span between two boundaries.
pub open spec fn span_chars(cs: Seq<char>, span: Span) -> Seq<char> {
    cs.subrange(index_of_offset(cs, span.start as int), index_of_offset(cs, span.end as int))
}

/// Each token relative to the one before: lines down, then columns from the
/// previous start when on the same line, else from the line start; with
/// its length in UTF-16 units.
pub open spec fn encode_entries(
    cs: Seq<char>,
    toks: Seq<LspSemanticTokenOccurrence>,
    k: int,
    line: u32,
    start: u32,
) -> Seq<SemanticToken>
    decreases toks.len() - k,
{
    if k < 0 || k >= toks.len() {
        seq![]
    } else {
        let t = toks[k];
        let p = offset_position(cs, t.span.start as int);
        let delta_line = (p.line - line) as u32;
        let delta_start = if delta_line == 0 {
            (p.character - start) as u32
        } else {
            p.character
        };
        seq![
            SemanticToken {
                delta_line,
                delta_start,
                length: utf16_len(span_chars(cs, t.span)) as u32,
                token_type: t.token_type,
                token_modifiers_bitset: t.token_modifiers_bitset,
            },
        ] + encode_entries(cs, toks, k + 1, p.line, p.character)
    }
}

/// A non-empty entry has both ends on char boundaries.
pub open spec fn entry_on_boundaries(cs: Seq<char>) -> spec_fn(LspSemanticTokenOccurrence) -> bool {
    |t: LspSemanticTokenOccurrence| t.span.start < t.span.end ==> is_boundary(cs, t.span.start as int)
        && is_boundary(cs, t.span.end as int)
}

/// The length of a span in UTF-16 units.
fn semantic_token_length(source: &str, span: Span) -> (length: u32)
    requires
        is_boundary(source@, span.start as int),
        is_boundary(source@, span.end as int),
        span.start <= span.end,
        byte_len(source@) <= u32::MAX,
    ensures
        length as int == utf16_len(span_chars(source@, span)),
{
    let ghost cs = source@;
    let len = str_byte_len(source);
    let cis = char_indices(source);
    let i = char_index_at(&cis, len, span.start, Ghost(cs));
    let j = char_index_at(&cis, len, span.end, Ghost(cs));
    proof {
        if j < i {
            lemma_byte_offset_strict(cs, j as int, i as int);
        }
        lemma_utf16_len_le_byte_len(cs.subrange(i as int, j as int));
        lemma_byte_offset_split(cs, i as int, j as int);
        lemma_byte_offset_bound(cs, j as int);
        assert(cs.subrange(i as int, i as int) =~= Seq::<char>::empty());
    }
    let mut length: u32 = 0;
    let mut k = i;
    while k < j
        invariant
            are_char_indices(cis@, cs),
            i <= k <= j <= cs.len(),
            length as int == utf16_len(cs.subrange(i as int, k as int)),
            utf16_len(cs.subrange(i as int, j as int)) <= u32::MAX,
        decreases j - k,
    {
        proof {
            assert(cs.subrange(i as int, k + 1).drop_last() =~= cs.subrange(i as int, k as int));
            if k + 1 < j {
                crate::bridge::lemma_utf16_prefix_strict(cs, i as int, k + 1, j as int);
            }
        }
        length = length + char_len_utf16(cis[k].1) as u32;
        k = k + 1;
    }
    length
}

/// Tokens for the editor, given entries in order of start whose ends are
/// char boundaries.
fn semantic_tokens_result(source: &str, tokens: Vec<LspSemanticTokenOccurrence>) -> (data: Vec<SemanticToken>)
    requires
        sorted_entries(tokens@),
        all_entries(tokens@, entry_on_boundaries(source@)),
        all_entries(tokens@, non_empty_entry()),
        byte_len(source@) <= u32::MAX,
    ensures
        data@ == encode_entries(source@, tokens@, 0, 0, 0),
{
    let ghost cs = source@;
    let ghost toks = tokens@;
    let mut data: Vec<SemanticToken> = Vec::new();
    let mut previous_line: u32 = 0;
    let mut previous_start: u32 = 0;
    let mut k: usize = 0;
    while k < tokens.len()
        invariant
            cs == source@,
            toks == tokens@,
            sorted_entries(toks),
            all_entries(toks, entry_on_boundaries(cs)),
            all_entries(toks, non_empty_entry()),
            byte_len(cs) <= u32::MAX,
            k <= toks.len(),
            k == 0 ==> previous_line == 0 && previous_start == 0,
            k > 0 ==> previous_line == offset_position(cs, toks[k - 1].span.start as int).line
                && previous_start == offset_position(cs, toks[k - 1].span.start as int).character,
            data@ + encode_entries(cs, toks, k as int, previous_line, previous_start) == encode_entries(cs, toks, 0, 0, 0),
        decreases toks.len() - k,
    {
        let token = tokens[k];
        proof {
            assert((non_empty_entry())(toks[k as int]));
            assert((entry_on_boundaries(cs))(toks[k as int]));
            lemma_clamp_on_boundary(cs, token.span.start as int);
            if k > 0 {
                assert(entry_le(toks[k - 1], toks[k as int]));
                assert((non_empty_entry())(toks[k - 1]));
                assert((entry_on_boundaries(cs))(toks[k - 1]));
                lemma_offset_position_mono(cs, toks[k - 1].span.start as int, token.span.start as int);
            }
        }
        let start = offset_to_position(source, token.span.start);
        let delta_line = start.line - previous_line;
        let delta_start = if delta_line == 0 {
            start.character - previous_start
        } else {
            start.character
        };
        let length = semantic_token_length(source, token.span);
        let ghost before = data@;
        data.push(
            SemanticToken {
                delta_line,
                delta_start,
                length,
                token_type: token.token_type,
                token_modifiers_bitset: token.token_modifiers_bitset,
            },
        );
        proof {
            assert(data@ + encode_entries(cs, toks, k + 1, start.line, start.character) =~= before
                + encode_entries(cs, toks, k as int, previous_line, previous_start));
        }
        previous_line = start.line;
        previous_start = start.character;
        k = k + 1;
    }
    proof {
        assert(data@ + Seq::<SemanticToken>::empty() =~= data@);
    }
    data
}

proof fn lemma_clamp_on_boundary(cs: Seq<char>, offset: int)
    requires
        is_boundary(cs, offset),
    ensures
        clamp_offset(cs, offset) == offset,
{
    let w = choose|i: int| 0 <= i <= cs.len() && byte_offset(cs, i) == offset;
    lemma_byte_offset_bound(cs, w);
}

pub open spec fn non_empty_entry() -> spec_fn(LspSemanticTokenOccurrence) -> bool {
    |t: LspSemanticTokenOccurrence| t.span.start < t.span.end
}

// ---------------------------------------------------------------------------
// From occurrences to editor tokens.
// ---------------------------------------------------------------------------

/// Whether `span` overlaps one of `spans`.
pub open spec fn overlaps_any(spans: Seq<Span>, span: Span) -> bool {
    exists|i: int| 0 <= i < spans.len() && #[trigger] spans[i].start < span.end && span.start < spans[i].end
}

/// The symbol entries, followed, when asked for, by the lexical entries
/// that overlap no symbol.
pub open spec fn merged_entries(cs: Seq<char>, occurrences: Seq<SemanticTokenOccurrence>, lexical: bool) -> Seq<LspSemanticTokenOccurrence> {
    let symbols = occurrences.map_values(|o: SemanticTokenOccurrence| occurrence_entry(o));
    if lexical {
        symbols + lexical_entries(lex_spec(cs).0).filter(
            |t: LspSemanticTokenOccurrence| !overlaps_any(occurrences.map_values(|o: SemanticTokenOccurrence| o.span), t.span),
        )
    } else {
        symbols
    }
}

/// The byte window of a range, when both of its ends are valid positions.
pub open spec fn range_window(cs: Seq<char>, range: Option<Range>) -> Option<(int, int)> {
    match range {
        None => None,
        Some(r) => match (
            position_offset(cs, r.start.line as int, r.start.character as int),
            position_offset(cs, r.end.line as int, r.end.character as int),
        ) {
            (Some(a), Some(b)) => Some((a, b)),
            _ => None,
        },
    }
}

pub open spec fn in_window(window: Option<(int, int)>) -> spec_fn(LspSemanticTokenOccurrence) -> bool {
    |t: LspSemanticTokenOccurrence| match window {
        None => true,
        Some((a, b)) => t.span.start < b && t.span.end > a,
    }
}

/// The entries reported: merged, kept to the window, non-empty, sorted,
/// without repeats.
pub open spec fn reported_entries(cs: Seq<char>, occurrences: Seq<SemanticTokenOccurrence>, range: Option<Range>, lexical: bool) -> Seq<LspSemanticTokenOccurrence> {
    dedup_entries(
        stable_sort(
            merged_entries(cs, occurrences, lexical).filter(in_window(range_window(cs, range))).filter(
                non_empty_entry(),
            ),
        ),
    )
}

/// The semantic tokens reported for the occurrences of a source.
pub open spec fn semantic_tokens_spec(cs: Seq<char>, occurrences: Seq<SemanticTokenOccurrence>, range: Option<Range>, lexical: bool) -> Seq<SemanticToken> {
    encode_entries(cs, reported_entries(cs, occurrences, range, lexical), 0, 0, 0)
}

/// What the occurrences of analysis must satisfy: each non-empty span runs
/// between char boundaries.
pub open spec fn occurrences_on_boundaries(cs: Seq<char>, occurrences: Seq<SemanticTokenOccurrence>) -> bool {
    forall|i: int|
        0 <= i < occurrences.len() ==> (#[trigger] occurrences[i]).span.start < occurrences[i].span.end
            ==> is_boundary(cs, occurrences[i].span.start as int) && is_boundary(
            cs,
            occurrences[i].span.end as int,
        )
}

/// The semantic tokens of the editor protocol, with no result id.
#[derive(Debug, PartialEq, Eq)]
pub struct SemanticTokens {
    pub result_id: Option<String>,
    pub data: Vec<SemanticToken>,
}

fn filter_entries(entries: Vec<LspSemanticTokenOccurrence>, window: Option<(usize, usize)>, Ghost(w): Ghost<Option<(int, int)>>) -> (kept: Vec<LspSemanticTokenOccurrence>)
    requires
        w == match window {
            Some((a, b)) => Some((a as int, b as int)),
            None => None::<(int, int)>,
        },
    ensures
        kept@ == entries@.filter(in_window(w)).filter(non_empty_entry()),
{
    let ghost s = entries@;
    let mut windowed: Vec<LspSemanticTokenOccurrence> = Vec::new();
    let mut k: usize = 0;
    proof {
        assert(s.take(0).filter(in_window(w)) =~= Seq::<LspSemanticTokenOccurrence>::empty());
    }
    while k < entries.len()
        invariant
            s == entries@,
            k <= s.len(),
            w == match window {
                Some((a, b)) => Some((a as int, b as int)),
                None => None::<(int, int)>,
            },
            windowed@ == s.take(k as int).filter(in_window(w)),
        decreases s.len() - k,
    {
        let t = entries[k];
        proof {
            assert(s.take(k + 1) =~= s.take(k as int).push(t));
            s.take(k as int).lemma_filter_push(t, in_window(w));
        }
        let keep = match window {
            Some((a, b)) => t.span.start < b && t.span.end > a,
            None => true,
        };
        if keep {
            windowed.push(t);
        }
        k = k + 1;
    }
    proof {
        assert(s.take(s.len() as int) =~= s);
    }
    let ghost s2 = windowed@;
    let mut kept: Vec<LspSemanticTokenOccurrence> = Vec::new();
    let mut j: usize = 0;
    proof {
        assert(s2.take(0).filter(non_empty_entry()) =~= Seq::<LspSemanticTokenOccurrence>::empty());
    }
    while j < windowed.len()
        invariant
            s2 == windowed@,
            j <= s2.len(),
            kept@ == s2.take(j as int).filter(non_empty_entry()),
        decreases s2.len() - j,
    {
        let t = windowed[j];
        proof {
            assert(s2.take(j + 1) =~= s2.take(j as int).push(t));
            s2.take(j as int).lemma_filter_push(t, non_empty_entry());
        }
        if !t.span.is_empty() {
            kept.push(t);
        }
        j = j + 1;
    }
    proof {
        assert(s2.take(s2.len() as int) =~= s2);
    }
    kept
}

fn entry_leq(a: LspSemanticTokenOccurrence, b: LspSemanticTokenOccurrence) -> (le: bool)
    ensures
        le == entry_le(a, b),
{
    a.span.start < b.span.start || (a.span.start == b.span.start && (a.span.end < b.span.end || (
    a.span.end == b.span.end && a.token_type <= b.token_type)))
}

proof fn lemma_insert_sorted_at(s: Seq<LspSemanticTokenOccurrence>, x: LspSemanticTokenOccurrence, p: int)
    requires
        0 <= p <= s.len(),
        forall|i: int| p <= i < s.len() ==> !entry_le(#[trigger] s[i], x),
        p == 0 || entry_le(s[p - 1], x),
    ensures
        insert_sorted(s, x) == s.insert(p, x),
    decreases s.len() - p,
{
    if p == s.len() {
        if s.len() == 0 {
            assert(s.insert(0, x) =~= seq![x]);
        } else {
            assert(s.insert(p, x) =~= s.push(x));
        }
    } else {
        let q = s.drop_last();
        assert(!entry_le(s[s.len() - 1], x));
        assert forall|i: int| p <= i < q.len() implies !entry_le(#[trigger] q[i], x) by {
            assert(q[i] == s[i]);
        }
        if p > 0 {
            assert(q[p - 1] == s[p - 1]);
        }
        lemma_insert_sorted_at(q, x, p);
        assert(q.insert(p, x).push(s.last()) =~= s.insert(p, x));
    }
}

fn sort_entries(entries: Vec<LspSemanticTokenOccurrence>) -> (sorted: Vec<LspSemanticTokenOccurrence>)
    ensures
        sorted@ == stable_sort(entries@),
{
    let ghost s = entries@;
    let mut sorted: Vec<LspSemanticTokenOccurrence> = Vec::new();
    let mut k: usize = 0;
    while k < entries.len()
        invariant
            s == entries@,
            k <= s.len(),
            sorted@ == stable_sort(s.take(k as int)),
        decreases s.len() - k,
    {
        let x = entries[k];
        let mut p = sorted.len();
        while p > 0 && !entry_leq(sorted[p - 1], x)
            invariant
                p <= sorted@.len(),
                forall|i: int| p <= i < sorted@.len() ==> !entry_le(#[trigger] sorted@[i], x),
            decreases p,
        {
            p = p - 1;
        }
        proof {
            lemma_insert_sorted_at(sorted@, x, p as int);
            assert(s.take(k + 1).drop_last() =~= s.take(k as int));
            assert(s.take(k + 1).last() == x);
        }
        sorted.insert(p, x);
        k = k + 1;
    }
    proof {
        assert(s.take(s.len() as int) =~= s);
    }
    sorted
}

fn dedup_sorted_entries(entries: Vec<LspSemanticTokenOccurrence>) -> (kept: Vec<LspSemanticTokenOccurrence>)
    ensures
        kept@ == dedup_entries(entries@),
{
    let ghost s = entries@;
    let mut kept: Vec<LspSemanticTokenOccurrence> = Vec::new();
    let mut k: usize = 0;
    while k < entries.len()
        invariant
            s == entries@,
            k <= s.len(),
            kept@ == dedup_entries(s.take(k as int)),
        decreases s.len() - k,
    {
        let x = entries[k];
        proof {
            assert(s.take(k + 1).drop_last() =~= s.take(k as int));
            assert(s.take(k + 1).last() == x);
        }
        if !(kept.len() > 0 && kept[kept.len() - 1] == x) {
            kept.push(x);
        }
        k = k + 1;
    }
    proof {
        assert(s.take(s.len() as int) =~= s);
    }
    kept
}

/// Semantic tokens for the symbol occurrences of a source, optionally with
/// the lexical tokens that no symbol overlaps, optionally limited to a
/// range.
fn semantic_tokens_result_for_occurrences(
    source: &str,
    tokens: Vec<SemanticTokenOccurrence>,
    range: Option<Range>,
    include_lexical_tokens: bool,
) -> (result: SemanticTokens)
    requires
        occurrences_on_boundaries(source@, tokens@),
        byte_len(source@) <= u32::MAX,
    ensures
        result.result_id is None,
        result.data@ == semantic_tokens_spec(source@, tokens@, range, include_lexical_tokens),
{
    let ghost cs = source@;
    let ghost occ = tokens@;
    let window = match range {
        Some(r) => match position_to_offset(source, r.start) {
            Some(a) => match position_to_offset(source, r.end) {
                Some(b) => Some((a, b)),
                None => None,
            },
            None => None,
        },
        None => None,
    };
    let ghost w = range_window(cs, range);
    let mut entries: Vec<LspSemanticTokenOccurrence> = Vec::new();
    let mut symbol_spans: Vec<Span> = Vec::new();
    let mut k: usize = 0;
    while k < tokens.len()
        invariant
            occ == tokens@,
            k <= occ.len(),
            entries@ == occ.take(k as int).map_values(|o: SemanticTokenOccurrence| occurrence_entry(o)),
            symbol_spans@ == occ.take(k as int).map_values(|o: SemanticTokenOccurrence| o.span),
        decreases occ.len() - k,
    {
        let o = tokens[k];
        proof {
            assert(occ.take(k + 1) =~= occ.take(k as int).push(o));
        }
        entries.push(
            LspSemanticTokenOccurrence {
                span: o.span,
                token_type: semantic_token_kind_index(o.kind),
                token_modifiers_bitset: semantic_token_modifier_bitset(o.kind),
            },
        );
        symbol_spans.push(o.span);
        proof {
            assert(entries@ =~= occ.take(k + 1).map_values(|o: SemanticTokenOccurrence| occurrence_entry(o)));
            assert(symbol_spans@ =~= occ.take(k + 1).map_values(|o: SemanticTokenOccurrence| o.span));
        }
        k = k + 1;
    }
    proof {
        assert(occ.take(occ.len() as int) =~= occ);
    }
    let ghost symbols = entries@;
    let ghost spans = symbol_spans@;
    if include_lexical_tokens {
        let lexical = lexical_semantic_tokens(source);
        let ghost lv = lexical@;
        let ghost keep = |t: LspSemanticTokenOccurrence| !overlaps_any(spans, t.span);
        let mut j: usize = 0;
        proof {
            assert(lv.take(0).filter(keep) =~= Seq::<LspSemanticTokenOccurrence>::empty());
            assert(entries@ =~= symbols + lv.take(0).filter(keep));
        }
        while j < lexical.len()
            invariant
                lv == lexical@,
                spans == symbol_spans@,
                j <= lv.len(),
                keep == (|t: LspSemanticTokenOccurrence| !overlaps_any(spans, t.span)),
                entries@ == symbols + lv.take(j as int).filter(keep),
            decreases lv.len() - j,
        {
            let t = lexical[j];
            proof {
                assert(lv.take(j + 1) =~= lv.take(j as int).push(t));
                lv.take(j as int).lemma_filter_push(t, keep);
            }
            let mut overlapped = false;
            let mut i: usize = 0;
            while i < symbol_spans.len()
                invariant
                    spans == symbol_spans@,
                    i <= spans.len(),
                    overlapped == exists|m: int| 0 <= m < i && #[trigger] spans[m].start < t.span.end && t.span.start < spans[m].end,
                decreases spans.len() - i,
            {
                if spans_overlap(symbol_spans[i], t.span) {
                    overlapped = true;
                }
                i = i + 1;
            }
            if !overlapped {
                let ghost before = entries@;
                entries.push(t);
                proof {
                    assert(entries@ =~= symbols + lv.take(j + 1).filter(keep));
                }
            } else {
                proof {
                    assert(!keep(t));
                }
            }
            j = j + 1;
        }
        proof {
            assert(lv.take(lv.len() as int) =~= lv);
        }
    }
    proof {
        assert(entries@ == merged_entries(cs, occ, include_lexical_tokens));
    }
    let kept = filter_entries(entries, window, Ghost(w));
    let sorted = sort_entries(kept);
    let deduped = dedup_sorted_entries(sorted);
    proof {
        let merged = merged_entries(cs, occ, include_lexical_tokens);
        lemma_merged_on_boundaries(cs, occ, include_lexical_tokens);
        let filtered = merged.filter(in_window(w)).filter(non_empty_entry());
        lemma_filter_keeps(merged, in_window(w), entry_on_boundaries(cs));
        lemma_filter_keeps(merged.filter(in_window(w)), non_empty_entry(), entry_on_boundaries(cs));
        lemma_filter_selects(merged.filter(in_window(w)), non_empty_entry());
        lemma_stable_sort(filtered, entry_on_boundaries(cs));
        lemma_stable_sort(filtered, non_empty_entry());
        lemma_dedup_entries(stable_sort(filtered), entry_on_boundaries(cs));
        lemma_dedup_entries(stable_sort(filtered), non_empty_entry());
    }
    let data = semantic_tokens_result(source, deduped);
    SemanticTokens { result_id: None, data }
}

proof fn lemma_filter_keeps(s: Seq<LspSemanticTokenOccurrence>, f: spec_fn(LspSemanticTokenOccurrence) -> bool, ok: spec_fn(LspSemanticTokenOccurrence) -> bool)
    requires
        all_entries(s, ok),
    ensures
        all_entries(s.filter(f), ok),
{
    assert forall|i: int| 0 <= i < s.filter(f).len() implies #[trigger] ok(s.filter(f)[i]) by {
        let x = s.filter(f)[i];
        assert(s.filter(f).contains(x));
        s.lemma_filter_contains_rev(f, x);
        assert(s.contains(x));
        let k = choose|k: int| 0 <= k < s.len() && s[k] == x;
        assert(ok(s[k]));
    }
}

proof fn lemma_filter_selects(s: Seq<LspSemanticTokenOccurrence>, f: spec_fn(LspSemanticTokenOccurrence) -> bool)
    ensures
        all_entries(s.filter(f), f),
{
    assert forall|i: int| 0 <= i < s.filter(f).len() implies #[trigger] f(s.filter(f)[i]) by {
        s.lemma_filter_pred(f, i);
    }
}

proof fn lemma_merged_on_boundaries(cs: Seq<char>, occ: Seq<SemanticTokenOccurrence>, lexical: bool)
    requires
        occurrences_on_boundaries(cs, occ),
        byte_len(cs) <= u32::MAX,
    ensures
        all_entries(merged_entries(cs, occ, lexical), entry_on_boundaries(cs)),
{
    let ok = entry_on_boundaries(cs);
    let symbols = occ.map_values(|o: SemanticTokenOccurrence| occurrence_entry(o));
    assert forall|i: int| 0 <= i < symbols.len() implies #[trigger] ok(symbols[i]) by {
        assert(symbols[i].span == occ[i].span);
    }
    if lexical {
        let ts = lex_spec(cs).0;
        crate::features::lemma_lexed_spans_on_boundaries(cs);
        lemma_lexical_entries_on_boundaries(cs, ts);
        let lex = lexical_entries(ts).filter(
            |t: LspSemanticTokenOccurrence| !overlaps_any(occ.map_values(|o: SemanticTokenOccurrence| o.span), t.span),
        );
        lemma_filter_keeps(
            lexical_entries(ts),
            |t: LspSemanticTokenOccurrence| !overlaps_any(occ.map_values(|o: SemanticTokenOccurrence| o.span), t.span),
            ok,
        );
        let all = symbols + lex;
        assert forall|i: int| 0 <= i < all.len() implies #[trigger] ok(all[i]) by {
            if i < symbols.len() {
                assert(all[i] == symbols[i]);
            } else {
                assert(all[i] == lex[i - symbols.len()]);
            }
        }
    }
}

proof fn lemma_lexical_entries_on_boundaries(cs: Seq<char>, ts: Seq<TokenView>)
    requires
        crate::features::spans_on_boundaries(cs, ts),
    ensures
        all_entries(lexical_entries(ts), entry_on_boundaries(cs)),
    decreases ts.len(),
{
    if ts.len() > 0 {
        let p = ts.drop_last();
        assert(crate::features::spans_on_boundaries(cs, p)) by {
            assert forall|k: int| 0 <= k < p.len() implies {
                &&& is_boundary(cs, (#[trigger] p[k]).2.start as int)
                &&& is_boundary(cs, p[k].2.end as int)
                &&& p[k].2.start <= p[k].2.end <= byte_len(cs)
            } by {
                assert(p[k] == ts[k]);
            }
        }
        lemma_lexical_entries_on_boundaries(cs, p);
        assert(is_boundary(cs, ts[ts.len() - 1].2.start as int));
        let prev = lexical_entries(p);
        let cur = lexical_entries(ts);
        assert forall|i: int| 0 <= i < cur.len() implies #[trigger] (entry_on_boundaries(cs))(cur[i]) by {
            if i < prev.len() {
                assert(cur[i] == prev[i]);
            }
        }
    }
}

/// Semantic tokens for the symbol occurrences alone.
pub fn semantic_tokens_result_from_occurrences(source: &str, tokens: Vec<SemanticTokenOccurrence>) -> (result: SemanticTokens)
    requires
        occurrences_on_boundaries(source@, tokens@),
        byte_len(source@) <= u32::MAX,
    ensures
        result.result_id is None,
        result.data@ == semantic_tokens_spec(source@, tokens@, None, false),
{
    semantic_tokens_result_for_occurrences(source, tokens, None, false)
}

/// Semantic tokens for the symbol occurrences and the lexical tokens that no
/// symbol overlaps.
pub fn semantic_tokens_result_from_occurrences_with_lexical(source: &str, tokens: Vec<SemanticTokenOccurrence>) -> (result: SemanticTokens)
    requires
        occurrences_on_boundaries(source@, tokens@),
        byte_len(source@) <= u32::MAX,
    ensures
        result.result_id is None,
        result.data@ == semantic_tokens_spec(source@, tokens@, None, true),
{
    semantic_tokens_result_for_occurrences(source, tokens, None, true)
}

/// Like the lexical variant, limited to the tokens that meet a range.
pub fn semantic_tokens_result_from_occurrences_with_lexical_range(
    source: &str,
    tokens: Vec<SemanticTokenOccurrence>,
    range: Range,
) -> (result: SemanticTokens)
    requires
        occurrences_on_boundaries(source@, tokens@),
        byte_len(source@) <= u32::MAX,
    ensures
        result.result_id is None,
        result.data@ == semantic_tokens_spec(source@, tokens@, Some(range), true),
{
    semantic_tokens_result_for_occurrences(source, tokens, Some(range), true)
}

/// The rank of a symbol kind among occurrences that share a span: the same
/// order as the legend.
pub fn semantic_token_sort_index(kind: SymbolKind) -> (index: u32)
    ensures
        index == kind_index(kind),
{
    match kind {
        SymbolKind::Import => 0,
        SymbolKind::BuiltinType | SymbolKind::TypeAlias => 1,
        SymbolKind::Struct => 2,
        SymbolKind::Enum => 3,
        SymbolKind::Variant => 4,
        SymbolKind::Trait => 5,
        SymbolKind::Generic => 6,
        SymbolKind::Parameter => 7,
        SymbolKind::Local | SymbolKind::SelfParameter => 8,
        SymbolKind::Field => 9,
        SymbolKind::Function | SymbolKind::Const | SymbolKind::Static => 10,
        SymbolKind::Method => 11,
    }
}

/// A number for each symbol kind, one to one.
pub open spec fn kind_code(kind: SymbolKind) -> u32 {
    match kind {
        SymbolKind::Import => 0,
        SymbolKind::BuiltinType => 1,
        SymbolKind::TypeAlias => 2,
        SymbolKind::Struct => 3,
        SymbolKind::Enum => 4,
        SymbolKind::Variant => 5,
        SymbolKind::Trait => 6,
        SymbolKind::Generic => 7,
        SymbolKind::Parameter => 8,
        SymbolKind::Local => 9,
        SymbolKind::SelfParameter => 10,
        SymbolKind::Field => 11,
        SymbolKind::Function => 12,
        SymbolKind::Const => 13,
        SymbolKind::Static => 14,
        SymbolKind::Method => 15,
    }
}

pub open spec fn kind_of_code(code: u32) -> SymbolKind {
    if code == 0 {
        SymbolKind::Import
    } else if code == 1 {
        SymbolKind::BuiltinType
    } else if code == 2 {
        SymbolKind::TypeAlias
    } else if code == 3 {
        SymbolKind::Struct
    } else if code == 4 {
        SymbolKind::Enum
    } else if code == 5 {
        SymbolKind::Variant
    } else if code == 6 {
        SymbolKind::Trait
    } else if code == 7 {
        SymbolKind::Generic
    } else if code == 8 {
        SymbolKind::Parameter
    } else if code == 9 {
        SymbolKind::Local
    } else if code == 10 {
        SymbolKind::SelfParameter
    } else if code == 11 {
        SymbolKind::Field
    } else if code == 12 {
        SymbolKind::Function
    } else if code == 13 {
        SymbolKind::Const
    } else if code == 14 {
        SymbolKind::Static
    } else {
        SymbolKind::Method
    }
}

/// An occurrence as a sort entry: its span, the rank of its kind as the
/// key after the span, and its kind's code to tell kinds of one rank apart.
/// Entries sort by span start, span end and rank; equal entries are equal
/// occurrences.
pub open spec fn occurrence_sort_entry(o: SemanticTokenOccurrence) -> LspSemanticTokenOccurrence {
    LspSemanticTokenOccurrence { span: o.span, token_type: kind_index(o.kind), token_modifiers_bitset: kind_code(o.kind) }
}

pub open spec fn is_occurrence_entry() -> spec_fn(LspSemanticTokenOccurrence) -> bool {
    |e: LspSemanticTokenOccurrence| e == occurrence_sort_entry(
        SemanticTokenOccurrence { span: e.span, kind: kind_of_code(e.token_modifiers_bitset) },
    )
}

fn occurrence_sort_entry_of(o: SemanticTokenOccurrence) -> (entry: LspSemanticTokenOccurrence)
    ensures
        entry == occurrence_sort_entry(o),
        (is_occurrence_entry())(entry),
{
    let code: u32 = match o.kind {
        SymbolKind::Import => 0,
        SymbolKind::BuiltinType => 1,
        SymbolKind::TypeAlias => 2,
        SymbolKind::Struct => 3,
        SymbolKind::Enum => 4,
        SymbolKind::Variant => 5,
        SymbolKind::Trait => 6,
        SymbolKind::Generic => 7,
        SymbolKind::Parameter => 8,
        SymbolKind::Local => 9,
        SymbolKind::SelfParameter => 10,
        SymbolKind::Field => 11,
        SymbolKind::Function => 12,
        SymbolKind::Const => 13,
        SymbolKind::Static => 14,
        SymbolKind::Method => 15,
    };
    LspSemanticTokenOccurrence { span: o.span, token_type: semantic_token_sort_index(o.kind), token_modifiers_bitset: code }
}

fn occurrence_of_sort_entry(entry: LspSemanticTokenOccurrence) -> (o: SemanticTokenOccurrence)
    requires
        (is_occurrence_entry())(entry),
    ensures
        occurrence_sort_entry(o) == entry,
{
    let code = entry.token_modifiers_bitset;
    let kind = if code == 0 {
        SymbolKind::Import
    } else if code == 1 {
        SymbolKind::BuiltinType
    } else if code == 2 {
        SymbolKind::TypeAlias
    } else if code == 3 {
        SymbolKind::Struct
    } else if code == 4 {
        SymbolKind::Enum
    } else if code == 5 {
        SymbolKind::Variant
    } else if code == 6 {
        SymbolKind::Trait
    } else if code == 7 {
        SymbolKind::Generic
    } else if code == 8 {
        SymbolKind::Parameter
    } else if code == 9 {
        SymbolKind::Local
    } else if code == 10 {
        SymbolKind::SelfParameter
    } else if code == 11 {
        SymbolKind::Field
    } else if code == 12 {
        SymbolKind::Function
    } else if code == 13 {
        SymbolKind::Const
    } else if code == 14 {
        SymbolKind::Static
    } else {
        SymbolKind::Method
    };
    SemanticTokenOccurrence { span: entry.span, kind }
}

/// Sorts occurrences by span start, span end and kind rank, keeping the
/// order of occurrences that tie, then drops each occurrence equal to the
/// one kept before it.
pub fn sort_and_dedup_semantic_tokens(tokens: &mut Vec<SemanticTokenOccurrence>)
    ensures
        final(tokens)@.map_values(|o: SemanticTokenOccurrence| occurrence_sort_entry(o)) == dedup_entries(
            stable_sort(old(tokens)@.map_values(|o: SemanticTokenOccurrence| occurrence_sort_entry(o))),
        ),
        sorted_entries(final(tokens)@.map_values(|o: SemanticTokenOccurrence| occurrence_sort_entry(o))),
{
    let ghost f = |o: SemanticTokenOccurrence| occurrence_sort_entry(o);
    let ghost before = tokens@;
    let mut entries: Vec<LspSemanticTokenOccurrence> = Vec::new();
    let mut k: usize = 0;
    while k < tokens.len()
        invariant
            tokens@ == before,
            f == (|o: SemanticTokenOccurrence| occurrence_sort_entry(o)),
            k <= before.len(),
            entries@ == before.take(k as int).map_values(f),
            all_entries(entries@, is_occurrence_entry()),
        decreases before.len() - k,
    {
        let entry = occurrence_sort_entry_of(tokens[k]);
        entries.push(entry);
        assert(before.take(k + 1).map_values(f) =~= before.take(k as int).map_values(f).push(entry));
        k = k + 1;
    }
    assert(before.take(before.len() as int) =~= before);
    let ghost encoded = entries@;
    proof {
        lemma_stable_sort(encoded, is_occurrence_entry());
        lemma_dedup_entries(stable_sort(encoded), is_occurrence_entry());
    }
    let sorted = sort_entries(entries);
    let kept = dedup_sorted_entries(sorted);
    let ghost result = kept@;
    proof {
        assert forall|j: int| 0 <= j < result.len() implies #[trigger] (is_occurrence_entry())(result[j]) by {
            let i = choose|i: int| 0 <= i < stable_sort(encoded).len() && result[j] == stable_sort(encoded)[i];
            assert((is_occurrence_entry())(stable_sort(encoded)[i]));
        }
    }
    let mut decoded: Vec<SemanticTokenOccurrence> = Vec::new();
    let mut m: usize = 0;
    while m < kept.len()
        invariant
            kept@ == result,
            f == (|o: SemanticTokenOccurrence| occurrence_sort_entry(o)),
            m <= result.len(),
            forall|j: int| 0 <= j < result.len() ==> #[trigger] (is_occurrence_entry())(result[j]),
            decoded@.map_values(f) == result.take(m as int),
        decreases result.len() - m,
    {
        let o = occurrence_of_sort_entry(kept[m]);
        let ghost prev = decoded@;
        decoded.push(o);
        assert(decoded@.map_values(f) =~= prev.map_values(f).push(occurrence_sort_entry(o)));
        assert(result.take(m + 1) =~= result.take(m as int).push(result[m as int]));
        m = m + 1;
    }
    assert(result.take(result.len() as int) =~= result);
    *tokens = decoded;
}

// ---------------------------------------------------------------------------
// The legend of semantic token types.
// ---------------------------------------------------------------------------

/// The semantic token types, in legend order: a token's type is its index
/// in this list.
pub open spec fn semantic_token_type_names() -> Seq<Seq<char>> {
    seq![
        "namespace"@,
        "type"@,
        "class"@,
        "enum"@,
        "enumMember"@,
        "interface"@,
        "typeParameter"@,
        "parameter"@,
        "variable"@,
        "property"@,
        "function"@,
        "method"@,
        "keyword"@,
        "modifier"@,
        "string"@,
        "number"@,
        "operator"@,
    ]
}

/// The names of the semantic token types, in legend order.
pub fn semantic_token_types() -> (names: Vec<&'static str>)
    ensures
        names@.map_values(|n: &str| n@) == semantic_token_type_names(),
{
    let mut names: Vec<&'static str> = Vec::new();
    names.push("namespace");
    names.push("type");
    names.push("class");
    names.push("enum");
    names.push("enumMember");
    names.push("interface");
    names.push("typeParameter");
    names.push("parameter");
    names.push("variable");
    names.push("property");
    names.push("function");
    names.push("method");
    names.push("keyword");
    names.push("modifier");
    names.push("string");
    names.push("number");
    names.push("operator");
    assert(names@.map_values(|n: &str| n@) =~= semantic_token_type_names());
    names
}

/// Whether lexing alone gives tokens of this kind the legend type `name`.
pub open spec fn lexical_type_named(kind: TokenKind, name: Seq<char>) -> bool {
    match lexical_token_type(kind) {
        Some(i) => i < semantic_token_type_names().len() && semantic_token_type_names()[i as int] == name,
        None => false,
    }
}

/// The types that lexing alone assigns are legend entries of the right
/// name: string literals, both plain and format strings, and only they, are
/// strings; integer literals, and only they, are numbers; what is marked an
/// operator is a token with a fixed spelling that is not a keyword; what is marked a keyword or a modifier
/// is a keyword.
pub proof fn lemma_lexical_token_types_name_the_token(kind: TokenKind)
    ensures
        lexical_token_type(kind) matches Some(i) ==> i < semantic_token_type_names().len(),
        lexical_type_named(kind, "string"@) <==> (kind == TokenKind::String || kind == TokenKind::FormatString),
        lexical_type_named(kind, "number"@) <==> kind == TokenKind::Int,
        lexical_type_named(kind, "operator"@) ==> token_spelling(kind) is Some && !is_keyword_kind(kind),
        lexical_type_named(kind, "keyword"@) || lexical_type_named(kind, "modifier"@) ==> is_keyword_kind(kind),
{
    reveal_strlit("keyword");
    reveal_strlit("modifier");
    reveal_strlit("string");
    reveal_strlit("number");
    reveal_strlit("operator");
    let names = semantic_token_type_names();
    assert(names[12] == "keyword"@);
    assert(names[13] == "modifier"@);
    assert(names[14] == "string"@);
    assert(names[15] == "number"@);
    assert(names[16] == "operator"@);
    assert("keyword"@.len() != "modifier"@.len());
    assert("keyword"@.len() != "string"@.len());
    assert("keyword"@.len() != "number"@.len());
    assert("keyword"@.len() != "operator"@.len());
    assert("modifier"@.len() != "string"@.len());
    assert("modifier"@.len() != "number"@.len());
    assert("modifier"@[0] != "operator"@[0]);
    assert("string"@[0] != "number"@[0]);
    assert("string"@.len() != "operator"@.len());
    assert("number"@.len() != "operator"@.len());
}

} // verus!
