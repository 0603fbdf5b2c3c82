use qlang::ast::{named_type_expr_last_segment, Path, TypeExpr};
use qlang::bridge::{Position, Range};
use qlang::broken::{broken_source_import_binding_matches_path, BrokenSourceImportBinding};
use qlang::imports::import_path_segments_in_tokens_at_offset;
use qlang::lexer::{lex, TokenKind};
use qlang::locations::{document_highlights_from_locations, Location};
use qlang::occurrences::{
    broken_source_import_occurrence_span_at, broken_source_method_call_name_at,
    dependency_identifier_token_at, map_location_after_repaired_method_call_insert,
    map_position_after_repaired_method_call_insert, offset_hits_span, repaired_method_call_source,
};
use qlang::semantic_tokens::{semantic_token_kind_index, semantic_token_sort_index, SymbolKind};
use qlang::span::Span;
use qlang::symbol_kinds::{
    supports_workspace_dependency_definition, supports_workspace_import_definition,
    supports_workspace_import_type_definition, supports_workspace_source_dependency_rename,
    supports_workspace_source_root_definition_references,
    supports_workspace_source_root_definition_rename, supports_workspace_source_root_member_rename,
};

fn names(parts: &[&str]) -> Vec<String> {
    parts.iter().map(|p| p.to_string()).collect()
}

#[test]
fn offsets_hit_spans_inside_and_at_their_end() {
    let span = Span::new(4, 8);
    assert!(!offset_hits_span(3, span));
    assert!(offset_hits_span(4, span));
    assert!(offset_hits_span(7, span));
    assert!(offset_hits_span(8, span));
    assert!(!offset_hits_span(9, span));
}

#[test]
fn identifier_token_under_the_cursor() {
    let source = "let value = other.len()\n";
    let token = dependency_identifier_token_at(source, Position::new(0, 6)).expect("value");
    assert_eq!(token.text, "value");
    assert_eq!(token.kind, TokenKind::Ident);
    assert_eq!(token.span, Span::new(4, 9));
    let at_end = dependency_identifier_token_at(source, Position::new(0, 9)).expect("end of value");
    assert_eq!(at_end.text, "value");
    assert!(dependency_identifier_token_at(source, Position::new(0, 1)).is_none());
    assert!(dependency_identifier_token_at(source, Position::new(5, 0)).is_none());
}

#[test]
fn method_call_name_needs_a_dot_before_and_a_paren_after() {
    let source = "value.len(\nvalue.len\nlen(";
    assert_eq!(broken_source_method_call_name_at(source, Position::new(0, 7)).as_deref(), Some("len"));
    assert_eq!(broken_source_method_call_name_at(source, Position::new(1, 7)), None);
    assert_eq!(broken_source_method_call_name_at(source, Position::new(2, 1)), None);
    assert_eq!(broken_source_method_call_name_at(source, Position::new(0, 2)), None);
}

#[test]
fn repaired_method_call_closes_the_paren() {
    let source = "fn main() {\n    value.len(\n}\n";
    let (repaired, at) = repaired_method_call_source(source, Position::new(1, 11)).expect("repair");
    assert_eq!(repaired, "fn main() {\n    value.len()\n}\n");
    assert_eq!(at, Position::new(1, 14));
    assert!(repaired_method_call_source(source, Position::new(0, 3)).is_none());
}

#[test]
fn positions_after_the_inserted_paren_move_back() {
    let inserted = Position::new(1, 14);
    assert_eq!(map_position_after_repaired_method_call_insert(Position::new(1, 20), inserted), Position::new(1, 19));
    assert_eq!(map_position_after_repaired_method_call_insert(Position::new(1, 14), inserted), Position::new(1, 14));
    assert_eq!(map_position_after_repaired_method_call_insert(Position::new(2, 20), inserted), Position::new(2, 20));

    let range = Range::new(Position::new(1, 15), Position::new(1, 18));
    let here = map_location_after_repaired_method_call_insert(
        "file:///a.ql",
        Location::new("file:///a.ql".to_string(), range),
        inserted,
    );
    assert_eq!(here.range, Range::new(Position::new(1, 14), Position::new(1, 17)));
    let elsewhere = map_location_after_repaired_method_call_insert(
        "file:///a.ql",
        Location::new("file:///b.ql".to_string(), range),
        inserted,
    );
    assert_eq!(elsewhere.range, range);
    assert_eq!(elsewhere.uri, "file:///b.ql");
}

#[test]
fn import_occurrence_span_matches_the_local_name() {
    let source = "use a.b as c\nlet x = c.d\n";
    assert_eq!(broken_source_import_occurrence_span_at(source, Position::new(1, 8), "c"), Some(Span::new(21, 22)));
    assert_eq!(broken_source_import_occurrence_span_at(source, Position::new(1, 8), "d"), None);
    assert_eq!(broken_source_import_occurrence_span_at(source, Position::new(1, 9), "c"), None);
}

#[test]
fn import_path_under_the_cursor() {
    let (tokens, _) = lex("package demo.app\nuse std.io.{print, read as r}\nuse core.fmt\nfn main() {}\n");
    assert_eq!(import_path_segments_in_tokens_at_offset(&tokens, 30), Some(names(&["std", "io", "print"])));
    assert_eq!(import_path_segments_in_tokens_at_offset(&tokens, 38), Some(names(&["std", "io", "read"])));
    assert_eq!(import_path_segments_in_tokens_at_offset(&tokens, 57), Some(names(&["core", "fmt"])));
    assert_eq!(import_path_segments_in_tokens_at_offset(&tokens, 10), None);
    assert_eq!(import_path_segments_in_tokens_at_offset(&tokens, 65), None);
}

#[test]
fn binding_matches_its_full_path() {
    let binding = BrokenSourceImportBinding {
        imported_name: "print".to_string(),
        import_prefix: names(&["std", "io"]),
        local_name: "p".to_string(),
        imported_span: Span::new(0, 1),
        definition_span: Span::new(0, 1),
    };
    assert!(broken_source_import_binding_matches_path(&binding, &names(&["std", "io", "print"])));
    assert!(!broken_source_import_binding_matches_path(&binding, &names(&["std", "fs", "print"])));
    assert!(!broken_source_import_binding_matches_path(&binding, &names(&["io", "print"])));
    assert!(!broken_source_import_binding_matches_path(&binding, &names(&["std", "io", "read"])));
    assert!(!broken_source_import_binding_matches_path(&binding, &[]));
}

#[test]
fn highlights_keep_the_current_document_only() {
    let r1 = Range::new(Position::new(0, 0), Position::new(0, 3));
    let r2 = Range::new(Position::new(2, 1), Position::new(2, 4));
    let highlights = document_highlights_from_locations(
        "file:///a.ql",
        vec![
            Location::new("file:///a.ql".to_string(), r1),
            Location::new("file:///b.ql".to_string(), r1),
            Location::new("file:///a.ql".to_string(), r2),
        ],
    )
    .expect("highlights");
    assert_eq!(highlights.len(), 2);
    assert_eq!(highlights[0].range, r1);
    assert_eq!(highlights[1].range, r2);
    assert!(highlights.iter().all(|h| h.kind.is_none()));
    assert!(document_highlights_from_locations("file:///c.ql", vec![Location::new("file:///a.ql".to_string(), r1)]).is_none());
}

#[test]
fn last_segment_of_named_types() {
    let named = TypeExpr::Named { path: Path { segments: names(&["std", "Map"]) }, args: vec![] };
    assert_eq!(named_type_expr_last_segment(&named), Some("Map"));
    let empty = TypeExpr::Named { path: Path { segments: vec![] }, args: vec![] };
    assert_eq!(named_type_expr_last_segment(&empty), None);
    assert_eq!(named_type_expr_last_segment(&TypeExpr::Tuple(vec![])), None);
}

#[test]
fn symbol_kind_support_tables() {
    let all = [
        SymbolKind::Import, SymbolKind::BuiltinType, SymbolKind::TypeAlias, SymbolKind::Struct,
        SymbolKind::Enum, SymbolKind::Variant, SymbolKind::Trait, SymbolKind::Generic,
        SymbolKind::Parameter, SymbolKind::Local, SymbolKind::SelfParameter, SymbolKind::Field,
        SymbolKind::Function, SymbolKind::Const, SymbolKind::Static, SymbolKind::Method,
    ];
    let count = |f: fn(SymbolKind) -> bool| all.iter().filter(|k| f(**k)).count();
    assert_eq!(count(supports_workspace_import_definition), 8);
    assert_eq!(count(supports_workspace_source_root_definition_references), 10);
    assert_eq!(count(supports_workspace_source_root_definition_rename), 7);
    assert_eq!(count(supports_workspace_source_root_member_rename), 3);
    assert_eq!(count(supports_workspace_import_type_definition), 4);
    assert_eq!(count(supports_workspace_dependency_definition), 10);
    assert_eq!(count(supports_workspace_source_dependency_rename), 3);
    assert!(supports_workspace_import_definition(SymbolKind::Variant));
    assert!(!supports_workspace_source_root_definition_rename(SymbolKind::Variant));
    assert!(!supports_workspace_import_type_definition(SymbolKind::Function));
    for kind in all {
        assert_eq!(semantic_token_sort_index(kind), semantic_token_kind_index(kind));
    }
    assert_eq!(semantic_token_sort_index(SymbolKind::Method), 11);
    assert_eq!(semantic_token_sort_index(SymbolKind::Static), 10);
}
