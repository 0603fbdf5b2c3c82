use qlang::bridge::{Position, Range, TextEdit};
use qlang::features::{
    active_call_indexes, active_parameter_index, completion_for_keywords, containing_delimiter_range,
    folding_ranges_for_source, has_explicit_type_before_eq, hover_for_keyword,
    identifier_prefix_span, identifier_word_span_at_offset, is_escaped_identifier_word,
    is_method_call, keyword_target_at_offset, previous_identifier_index, range_contains_position,
    resolve_completion_item, selection_range_for_position, selection_ranges_for_source,
    token_at_offset, CompletionItem, FoldingRange, MarkupContent, MarkupKind, SelectionRange,
    COMPLETION_KIND_KEYWORD, COMPLETION_KIND_SNIPPET, INSERT_TEXT_FORMAT_SNIPPET,
};
use qlang::lexer::{lex, TokenKind};
use qlang::span::Span;

fn range(l1: u32, c1: u32, l2: u32, c2: u32) -> Range {
    Range::new(Position::new(l1, c1), Position::new(l2, c2))
}

fn chain(selection: &SelectionRange) -> Vec<Range> {
    let mut out = vec![selection.range];
    let mut current = &selection.parent;
    while let Some(parent) = current {
        out.push(parent.range);
        current = &parent.parent;
    }
    out
}

#[test]
fn explicit_types_are_seen_before_the_initializer() {
    assert!(has_explicit_type_before_eq(&lex(": Int = 1").0));
    assert!(!has_explicit_type_before_eq(&lex("= x: Int").0));
    assert!(!has_explicit_type_before_eq(&lex("; y: Int").0));
    assert!(!has_explicit_type_before_eq(&lex("value").0));
}

#[test]
fn range_containment_includes_both_ends() {
    let r = range(1, 4, 3, 2);
    assert!(range_contains_position(r, Position::new(1, 4)));
    assert!(range_contains_position(r, Position::new(2, 0)));
    assert!(range_contains_position(r, Position::new(3, 2)));
    assert!(!range_contains_position(r, Position::new(1, 3)));
    assert!(!range_contains_position(r, Position::new(3, 3)));
}

#[test]
fn active_call_and_parameter() {
    let (tokens, _) = lex("add(1, foo(2, 3), ");
    assert_eq!(active_call_indexes(&tokens, 18), Some((1, 0)));
    assert_eq!(active_parameter_index(&tokens, 1, 18), 2);
    assert_eq!(active_parameter_index(&tokens, 1, 12), 1);
    assert_eq!(active_call_indexes(&tokens, 11), Some((5, 4)));
    assert_eq!(active_call_indexes(&tokens, 0), None);
    let (method, _) = lex("obj.run(");
    assert_eq!(active_call_indexes(&method, 8), Some((3, 2)));
    assert!(is_method_call(&method, 2));
    assert!(!is_method_call(&method, 0));
    assert_eq!(previous_identifier_index(&method, 0), None);
    assert_eq!(previous_identifier_index(&method, 2), Some(0));
}

#[test]
fn token_at_an_offset_prefers_the_earlier_token() {
    let token = token_at_offset("let x", 3).expect("token");
    assert_eq!(token.kind, TokenKind::Let);
    assert_eq!(token_at_offset("let x", 4).expect("token").text, "x");
    assert!(token_at_offset("let  x", 4).is_none());
}

#[test]
fn folding_ranges_for_multiline_braces_and_brackets() {
    let source = "fn main() {\n    let a = [\n        1,\n    ]\n}\n";
    assert_eq!(
        folding_ranges_for_source(source),
        Some(vec![
            FoldingRange { start_line: 1, start_character: Some(12), end_line: 3, end_character: Some(5) },
            FoldingRange { start_line: 0, start_character: Some(10), end_line: 4, end_character: Some(1) },
        ])
    );
    assert_eq!(folding_ranges_for_source("fn main() { [1] }"), None);
    assert_eq!(folding_ranges_for_source("{\n]"), None);
}

#[test]
fn containing_delimiters_pick_the_narrowest() {
    let source = "f(a, [b, c])";
    assert_eq!(containing_delimiter_range(source, 11), Some(range(0, 5, 0, 11)));
    assert_eq!(containing_delimiter_range(source, 12), Some(range(0, 1, 0, 12)));
    assert_eq!(containing_delimiter_range(source, 6), None);
    assert_eq!(containing_delimiter_range(source, 0), None);
}

#[test]
fn selection_ranges_grow_outwards() {
    let source = "f(a, b)";
    let at_close = selection_range_for_position(source, Position::new(0, 7)).expect("selection");
    assert_eq!(chain(&at_close), vec![range(0, 6, 0, 7), range(0, 1, 0, 7), range(0, 0, 0, 7)]);
    let at_open = selection_range_for_position(source, Position::new(0, 2)).expect("selection");
    assert_eq!(chain(&at_open), vec![range(0, 1, 0, 2), range(0, 0, 0, 7)]);
    assert!(selection_range_for_position(source, Position::new(3, 0)).is_none());
    let all = selection_ranges_for_source(source, vec![Position::new(9, 9), Position::new(0, 2)])
        .expect("selections");
    assert_eq!(all.len(), 1);
    assert!(selection_ranges_for_source(source, vec![Position::new(9, 9)]).is_none());
}

#[test]
fn words_around_offsets() {
    let source = "let value_1 = 2";
    assert_eq!(identifier_word_span_at_offset(source, 6), Some(Span::new(4, 11)));
    assert_eq!(identifier_word_span_at_offset(source, 3), Some(Span::new(0, 3)));
    assert_eq!(identifier_word_span_at_offset(source, 100), Some(Span::new(14, 15)));
    assert_eq!(identifier_word_span_at_offset("a = b", 2), None);
    assert!(is_escaped_identifier_word("`type` x", Span::new(1, 5)));
    assert!(!is_escaped_identifier_word("`type` x", Span::new(7, 8)));
    assert_eq!(identifier_prefix_span("let wh", 6), Span::new(4, 6));
    assert_eq!(identifier_prefix_span("let ", 4), Span::new(4, 4));
}

#[test]
fn keyword_hover_shows_category_summary_and_example() {
    let target = keyword_target_at_offset("while x", 2).expect("keyword");
    assert_eq!(target.kind, TokenKind::While);
    assert_eq!(target.text, "while");
    assert_eq!(target.span, Span::new(0, 5));
    let hover = hover_for_keyword("while x", Position::new(0, 2)).expect("hover");
    assert_eq!(
        hover.contents,
        "**control keyword `while`**\n\nRepeats while a condition stays true.\n\n```ql\nwhile running { tick() }\n```"
    );
    assert_eq!(hover.range, Some(range(0, 0, 0, 5)));
    assert!(hover_for_keyword("while x", Position::new(0, 6)).is_none());
    assert!(hover_for_keyword("while x", Position::new(5, 0)).is_none());
}

#[test]
fn keyword_completion_filters_by_the_typed_prefix() {
    let items = completion_for_keywords("wh", Position::new(0, 2)).expect("items");
    let labels: Vec<&str> = items.iter().map(|item| item.label.as_str()).collect();
    assert_eq!(labels, vec!["while", "where"]);
    assert_eq!(items[0].kind, Some(COMPLETION_KIND_KEYWORD));
    assert_eq!(items[0].detail.as_deref(), Some("control keyword"));
    assert_eq!(items[1].detail.as_deref(), Some("constraint keyword"));
    assert_eq!(items[0].text_edit, Some(TextEdit::new(range(0, 0, 0, 2), "while".to_string())));
    assert_eq!(
        items[0].documentation,
        Some(MarkupContent {
            kind: MarkupKind::Markdown,
            value: "Repeats while a condition stays true.\n\n```ql\nwhile running { tick() }\n```".to_string(),
        })
    );
    let fn_items = completion_for_keywords("f", Position::new(0, 1)).expect("items");
    let snippet = fn_items.iter().find(|item| item.kind == Some(COMPLETION_KIND_SNIPPET)).expect("snippet");
    assert_eq!(snippet.label, "fn");
    assert_eq!(snippet.insert_text_format, Some(INSERT_TEXT_FORMAT_SNIPPET));
    assert_eq!(
        snippet.text_edit.as_ref().map(|edit| edit.new_text.as_str()),
        Some("fn ${1:name}(${2}) -> ${3:Void} {\n    $0\n}")
    );
    assert!(completion_for_keywords("zz", Position::new(0, 2)).is_none());
    assert!(completion_for_keywords("zz", Position::new(1, 0)).is_none());
}

#[test]
fn completion_resolution_fills_detail_and_documentation() {
    let keyword = resolve_completion_item(CompletionItem {
        label: "loop".to_string(),
        kind: None,
        detail: None,
        documentation: None,
        text_edit: None,
        insert_text_format: None,
    });
    assert_eq!(keyword.detail.as_deref(), Some("control keyword"));
    assert_eq!(
        keyword.documentation,
        Some(MarkupContent {
            kind: MarkupKind::Markdown,
            value: "Starts an unconditional loop.\n\n```ql\nloop { break }\n```".to_string(),
        })
    );
    let symbol = resolve_completion_item(CompletionItem {
        label: "foo".to_string(),
        kind: Some(3),
        detail: Some("fn foo() -> Int".to_string()),
        documentation: None,
        text_edit: None,
        insert_text_format: None,
    });
    assert_eq!(
        symbol.documentation,
        Some(MarkupContent { kind: MarkupKind::Markdown, value: "```ql\nfn foo() -> Int\n```".to_string() })
    );
    let blank = resolve_completion_item(CompletionItem {
        label: "foo".to_string(),
        kind: None,
        detail: Some("  ".to_string()),
        documentation: None,
        text_edit: None,
        insert_text_format: None,
    });
    assert_eq!(blank.documentation, None);
    let kept = resolve_completion_item(CompletionItem {
        label: "loop".to_string(),
        kind: None,
        detail: Some("custom".to_string()),
        documentation: Some(MarkupContent { kind: MarkupKind::PlainText, value: "mine".to_string() }),
        text_edit: None,
        insert_text_format: None,
    });
    assert_eq!(kept.detail.as_deref(), Some("custom"));
    assert_eq!(kept.documentation.map(|d| d.value), Some("mine".to_string()));
}
