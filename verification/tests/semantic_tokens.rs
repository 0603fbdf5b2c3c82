use qlang::bridge::{Position, Range};
use qlang::semantic_tokens::{
    semantic_token_kind_index, semantic_token_modifier_bitset, semantic_tokens_result_from_occurrences,
    semantic_tokens_result_from_occurrences_with_lexical,
    semantic_tokens_result_from_occurrences_with_lexical_range, sort_and_dedup_semantic_tokens, SemanticToken,
    SemanticTokenOccurrence, SymbolKind,
};
use qlang::span::Span;

fn tok(delta_line: u32, delta_start: u32, length: u32, token_type: u32, token_modifiers_bitset: u32) -> SemanticToken {
    SemanticToken { delta_line, delta_start, length, token_type, token_modifiers_bitset }
}

fn occ(start: usize, end: usize, kind: SymbolKind) -> SemanticTokenOccurrence {
    SemanticTokenOccurrence { span: Span::new(start, end), kind }
}

#[test]
fn symbol_kinds_map_to_legend_indexes() {
    assert_eq!(semantic_token_kind_index(SymbolKind::Import), 0);
    assert_eq!(semantic_token_kind_index(SymbolKind::TypeAlias), 1);
    assert_eq!(semantic_token_kind_index(SymbolKind::SelfParameter), 8);
    assert_eq!(semantic_token_kind_index(SymbolKind::Static), 10);
    assert_eq!(semantic_token_kind_index(SymbolKind::Method), 11);
    assert_eq!(semantic_token_modifier_bitset(SymbolKind::Const), 4);
    assert_eq!(semantic_token_modifier_bitset(SymbolKind::Local), 0);
}

#[test]
fn lexical_tokens_are_delta_encoded() {
    let result = semantic_tokens_result_from_occurrences_with_lexical("let x = 1", Vec::new());
    assert!(result.result_id.is_none());
    assert_eq!(result.data, vec![tok(0, 0, 3, 12, 1), tok(0, 6, 1, 16, 0), tok(0, 2, 1, 15, 0)]);
}

#[test]
fn symbols_merge_with_lexical_tokens_in_source_order() {
    let result = semantic_tokens_result_from_occurrences_with_lexical("let x = 1", vec![occ(4, 5, SymbolKind::Local)]);
    assert_eq!(
        result.data,
        vec![tok(0, 0, 3, 12, 1), tok(0, 4, 1, 8, 0), tok(0, 2, 1, 16, 0), tok(0, 2, 1, 15, 0)]
    );
    let shadowed = semantic_tokens_result_from_occurrences_with_lexical("let x = 1", vec![occ(0, 3, SymbolKind::Function)]);
    assert_eq!(shadowed.data, vec![tok(0, 0, 3, 10, 0), tok(0, 6, 1, 16, 0), tok(0, 2, 1, 15, 0)]);
}

#[test]
fn new_lines_restart_columns() {
    let result = semantic_tokens_result_from_occurrences_with_lexical("fn a()\nfn b()", Vec::new());
    assert_eq!(result.data, vec![tok(0, 0, 2, 12, 1), tok(1, 0, 2, 12, 1)]);
}

#[test]
fn ranges_limit_the_tokens() {
    let range = Range::new(Position::new(0, 5), Position::new(0, 9));
    let result = semantic_tokens_result_from_occurrences_with_lexical_range("let x = 1", Vec::new(), range);
    assert_eq!(result.data, vec![tok(0, 6, 1, 16, 0), tok(0, 2, 1, 15, 0)]);
    let invalid = Range::new(Position::new(4, 0), Position::new(0, 9));
    let unfiltered = semantic_tokens_result_from_occurrences_with_lexical_range("let x = 1", Vec::new(), invalid);
    assert_eq!(unfiltered.data.len(), 3);
}

#[test]
fn occurrences_are_sorted_deduplicated_and_empty_ones_dropped() {
    let result = semantic_tokens_result_from_occurrences(
        "run x",
        vec![
            occ(4, 5, SymbolKind::Local),
            occ(0, 3, SymbolKind::Function),
            occ(4, 5, SymbolKind::Local),
            occ(2, 2, SymbolKind::Const),
        ],
    );
    assert_eq!(result.data, vec![tok(0, 0, 3, 10, 0), tok(0, 4, 1, 8, 0)]);
    let constant = semantic_tokens_result_from_occurrences("LIMIT", vec![occ(0, 5, SymbolKind::Const)]);
    assert_eq!(constant.data, vec![tok(0, 0, 5, 10, 4)]);
}

#[test]
fn lengths_and_columns_count_utf16_units() {
    let result = semantic_tokens_result_from_occurrences_with_lexical("let é = 1", vec![occ(4, 6, SymbolKind::Local)]);
    assert_eq!(
        result.data,
        vec![tok(0, 0, 3, 12, 1), tok(0, 4, 1, 8, 0), tok(0, 2, 1, 16, 0), tok(0, 2, 1, 15, 0)]
    );
    let emoji = semantic_tokens_result_from_occurrences("😀 x", vec![occ(5, 6, SymbolKind::Local), occ(0, 4, SymbolKind::Local)]);
    assert_eq!(emoji.data, vec![tok(0, 0, 2, 8, 0), tok(0, 3, 1, 8, 0)]);
}

#[test]
fn occurrences_sort_by_span_then_kind_rank_and_drop_repeats() {
    let occ = |start: usize, end: usize, kind: SymbolKind| SemanticTokenOccurrence { span: Span::new(start, end), kind };
    let mut tokens = vec![
        occ(5, 8, SymbolKind::Const),
        occ(0, 3, SymbolKind::Method),
        occ(5, 8, SymbolKind::Function),
        occ(0, 3, SymbolKind::Method),
        occ(0, 3, SymbolKind::Import),
    ];
    sort_and_dedup_semantic_tokens(&mut tokens);
    assert_eq!(
        tokens,
        vec![
            occ(0, 3, SymbolKind::Import),
            occ(0, 3, SymbolKind::Method),
            occ(5, 8, SymbolKind::Const),
            occ(5, 8, SymbolKind::Function),
        ]
    );
}
