use qlang::bridge::{Position, Range};
use qlang::code_lens::{collect_code_lens_targets_from_symbols, DocumentSymbol};
use qlang::completion::{
    completion_documentation_from_parts, completion_documentation_from_parts_with_note, completion_replace_span,
};
use qlang::features::MarkupKind;
use qlang::semantic_tokens::SymbolKind;
use qlang::span::Span;
use qlang::symbol_kinds::{
    completion_item_kind, document_symbol_kind, supports_auto_import_symbol_kind, symbol_kind_name, AutoImportKind,
    COMPLETION_KIND_CLASS, COMPLETION_KIND_MODULE, SYMBOL_KIND_CLASS, SYMBOL_KIND_CONSTANT, SYMBOL_KIND_FUNCTION,
    SYMBOL_KIND_NAMESPACE, SYMBOL_KIND_STRUCT, SYMBOL_KIND_VARIABLE,
};

#[test]
fn completion_replaces_the_identifier_around_the_cursor() {
    let source = "let `type_` = a.bc9";
    assert_eq!(completion_replace_span(source, 7), Span::new(4, 11));
    assert_eq!(completion_replace_span(source, 17), Span::new(16, 19));
    assert_eq!(completion_replace_span(source, 100), Span::new(16, 19));
    assert_eq!(completion_replace_span(source, 12), Span::new(12, 12));
    assert_eq!(completion_replace_span("é_x", 2), Span::new(2, 4));
}

#[test]
fn completion_documentation_sections() {
    let doc = completion_documentation_from_parts("fn add(a: Int) -> Int", Some("(Int) -> Int")).expect("doc");
    assert_eq!(doc.kind, MarkupKind::Markdown);
    assert_eq!(doc.value, "```ql\nfn add(a: Int) -> Int\n```\n\nType: `(Int) -> Int`");
    let only_type = completion_documentation_from_parts("   ", Some("Int")).expect("type only");
    assert_eq!(only_type.value, "Type: `Int`");
    assert!(completion_documentation_from_parts(" \n", None).is_none());
    let noted = completion_documentation_from_parts_with_note("x", None, Some("Prefer y.")).expect("note");
    assert_eq!(noted.value, "```ql\nx\n```\n\nPrefer y.");
}

#[test]
fn symbol_kinds_as_editors_see_them() {
    assert_eq!(symbol_kind_name(SymbolKind::TypeAlias), "type alias");
    assert_eq!(symbol_kind_name(SymbolKind::SelfParameter), "receiver");
    assert_eq!(symbol_kind_name(SymbolKind::BuiltinType), "builtin type");
    assert_eq!(completion_item_kind(SymbolKind::Import), COMPLETION_KIND_MODULE);
    assert_eq!(completion_item_kind(SymbolKind::BuiltinType), COMPLETION_KIND_CLASS);
    assert_eq!(completion_item_kind(SymbolKind::Function), 3);
    assert_eq!(completion_item_kind(SymbolKind::Static), 21);
    assert_eq!(document_symbol_kind(SymbolKind::Import), SYMBOL_KIND_NAMESPACE);
    assert_eq!(document_symbol_kind(SymbolKind::Const), SYMBOL_KIND_CONSTANT);
    assert_eq!(document_symbol_kind(SymbolKind::Struct), 23);
    assert_eq!(document_symbol_kind(SymbolKind::Generic), 26);
}

#[test]
fn auto_import_kinds_follow_the_use_of_the_name() {
    assert!(supports_auto_import_symbol_kind(SYMBOL_KIND_FUNCTION, AutoImportKind::Value));
    assert!(supports_auto_import_symbol_kind(SYMBOL_KIND_VARIABLE, AutoImportKind::Value));
    assert!(!supports_auto_import_symbol_kind(SYMBOL_KIND_STRUCT, AutoImportKind::Value));
    assert!(supports_auto_import_symbol_kind(SYMBOL_KIND_STRUCT, AutoImportKind::Type));
    assert!(supports_auto_import_symbol_kind(SYMBOL_KIND_CLASS, AutoImportKind::Type));
    assert!(!supports_auto_import_symbol_kind(SYMBOL_KIND_FUNCTION, AutoImportKind::Type));
}

#[test]
fn code_lens_targets_visit_parents_before_children() {
    let r = |l: u32| Range::new(Position::new(l, 0), Position::new(l, 9));
    let sel = |l: u32| Range::new(Position::new(l, 3), Position::new(l, 6));
    let leaf = |l: u32| DocumentSymbol { name: format!("s{l}"), kind: 12, range: r(l), selection_range: sel(l), children: None };
    let symbols = vec![
        DocumentSymbol { name: "outer".to_string(), kind: 23, range: r(0), selection_range: sel(0), children: Some(vec![leaf(1), leaf(2)]) },
        leaf(3),
    ];
    let mut targets = vec![(r(9), Position::new(9, 0))];
    collect_code_lens_targets_from_symbols(&symbols, &mut targets);
    let lines: Vec<u32> = targets.iter().map(|(range, _)| range.start.line).collect();
    assert_eq!(lines, vec![9, 0, 1, 2, 3]);
    assert_eq!(targets[1].1, Position::new(0, 3));
}
