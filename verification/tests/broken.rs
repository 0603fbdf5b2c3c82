use qlang::bridge::{Position, Range};
use qlang::broken::{
    broken_source_impl_block_sites_in_source, broken_source_impl_method_name_spans_in_tokens,
    broken_source_import_alias_in_tokens, broken_source_import_binding_at,
    broken_source_import_bindings_in_tokens, broken_source_import_token_matches_reference_context,
    broken_source_path_last_ident_token, broken_source_root_definition_sites_in_source,
    broken_source_trait_decl_sites_in_source, token_index_after_balanced_braces_in_tokens,
    BrokenSourceImportBinding, BrokenSourceRootDefinitionSite,
};
use qlang::lexer::lex;
use qlang::locations::Location;
use qlang::semantic_tokens::SymbolKind;
use qlang::span::Span;

fn names(parts: &[&str]) -> Vec<String> {
    parts.iter().map(|p| p.to_string()).collect()
}

#[test]
fn balanced_braces_and_paths() {
    let (tokens, _) = lex("{ a { b } } c");
    assert_eq!(token_index_after_balanced_braces_in_tokens(&tokens, 0), Some(6));
    assert_eq!(token_index_after_balanced_braces_in_tokens(&tokens, 1), None);
    let (open, _) = lex("{ {");
    assert_eq!(token_index_after_balanced_braces_in_tokens(&open, 0), None);
    let (path, _) = lex("core.math.Add {");
    let (last, next) = broken_source_path_last_ident_token(&path, 0).expect("path");
    assert_eq!(last.text, "Add");
    assert_eq!(next, 5);
    assert!(broken_source_path_last_ident_token(&path, 1).is_none());
}

#[test]
fn method_names_at_depth_zero() {
    let (tokens, _) = lex("fn a() { fn inner() {} } fn b() fn");
    let spans = broken_source_impl_method_name_spans_in_tokens(&tokens, 0, tokens.len());
    assert_eq!(spans, vec![("a".to_string(), Span::new(3, 4)), ("b".to_string(), Span::new(28, 29))]);
}

#[test]
fn root_definitions_at_the_top_level() {
    let sites = broken_source_root_definition_sites_in_source(
        "pub struct Point {\n    struct Inner\n}\nenum State {\ntrait Show",
    );
    assert_eq!(
        sites,
        vec![
            BrokenSourceRootDefinitionSite { kind: SymbolKind::Struct, name: "Point".to_string(), span: Span::new(11, 16) },
            BrokenSourceRootDefinitionSite { kind: SymbolKind::Enum, name: "State".to_string(), span: Span::new(43, 48) },
        ]
    );
}

#[test]
fn trait_declarations_with_their_methods() {
    let sites = broken_source_trait_decl_sites_in_source("pub trait Show {\n    fn show(self) -> String\n    fn debug()\n}\ntrait Open {\n    fn x(");
    assert_eq!(sites.len(), 2);
    assert_eq!(sites[0].trait_name, "Show");
    assert_eq!(sites[0].trait_span, Span::new(10, 14));
    assert_eq!(
        sites[0].method_spans,
        vec![("show".to_string(), Span::new(24, 28)), ("debug".to_string(), Span::new(52, 57))]
    );
    assert_eq!(sites[1].trait_name, "Open");
    assert_eq!(sites[1].method_spans.len(), 1);
}

#[test]
fn impl_blocks_with_trait_target_and_methods() {
    let source = "impl core.Show for app.Point {\n    fn show(self) {}\n}\nextend Point {\n    fn reset()\n";
    let sites = broken_source_impl_block_sites_in_source("file:///a.ql", source);
    assert_eq!(sites.len(), 2);
    assert_eq!(sites[0].trait_name.as_deref(), Some("Show"));
    assert_eq!(sites[0].target_name, "Point");
    assert_eq!(
        sites[0].location,
        Location::new(
            "file:///a.ql".to_string(),
            Range::new(Position::new(0, 0), Position::new(2, 1))
        )
    );
    assert_eq!(sites[0].method_spans, vec![("show".to_string(), Span::new(38, 42))]);
    assert_eq!(sites[1].trait_name, None);
    assert_eq!(sites[1].target_name, "Point");
    assert_eq!(
        sites[1].location,
        Location::new("file:///a.ql".to_string(), Range::new(Position::new(3, 0), Position::new(5, 0)))
    );
    assert_eq!(sites[1].method_spans, vec![("reset".to_string(), Span::new(76, 81))]);
}

#[test]
fn import_bindings_with_aliases_and_groups() {
    let (tokens, _) = lex("use core.math.add as plus\nfn x( {\nuse core.text.{trim, split as cut}\nuse broken.");
    let bindings = broken_source_import_bindings_in_tokens(&tokens);
    assert_eq!(
        bindings,
        vec![
            BrokenSourceImportBinding {
                imported_name: "add".to_string(),
                import_prefix: names(&["core", "math"]),
                local_name: "plus".to_string(),
                imported_span: Span::new(14, 17),
                definition_span: Span::new(21, 25),
            },
            BrokenSourceImportBinding {
                imported_name: "trim".to_string(),
                import_prefix: names(&["core", "text"]),
                local_name: "trim".to_string(),
                imported_span: Span::new(49, 53),
                definition_span: Span::new(49, 53),
            },
            BrokenSourceImportBinding {
                imported_name: "split".to_string(),
                import_prefix: names(&["core", "text"]),
                local_name: "cut".to_string(),
                imported_span: Span::new(55, 60),
                definition_span: Span::new(64, 67),
            },
            BrokenSourceImportBinding {
                imported_name: "broken".to_string(),
                import_prefix: Vec::new(),
                local_name: "broken".to_string(),
                imported_span: Span::new(73, 79),
                definition_span: Span::new(73, 79),
            },
        ]
    );
    let (alias, _) = lex("as name");
    assert_eq!(broken_source_import_alias_in_tokens(&alias, 0), Some((Some("name".to_string()), Some(Span::new(3, 7)), 2)));
    assert_eq!(broken_source_import_alias_in_tokens(&alias, 1), Some((None, None, 1)));
}

#[test]
fn reference_contexts() {
    let (tokens, _) = lex("a.b(c) x: T -> U as V");
    assert!(!broken_source_import_token_matches_reference_context(&tokens, 2));
    assert!(broken_source_import_token_matches_reference_context(&tokens, 0));
    assert!(!broken_source_import_token_matches_reference_context(&tokens, 4));
    assert!(broken_source_import_token_matches_reference_context(&tokens, 8));
    assert!(broken_source_import_token_matches_reference_context(&tokens, 10));
    assert!(!broken_source_import_token_matches_reference_context(&tokens, 12));
}

#[test]
fn binding_at_a_position_needs_a_unique_local_name() {
    let source = "use core.math.add\nfn main() {\n    add(1)\n    add\n";
    let at_use = broken_source_import_binding_at(source, Position::new(0, 15)).expect("binding");
    assert_eq!(at_use.local_name, "add");
    let at_call = broken_source_import_binding_at(source, Position::new(2, 5)).expect("binding");
    assert_eq!(at_call.imported_span, Span::new(14, 17));
    assert!(broken_source_import_binding_at(source, Position::new(3, 5)).is_none());
    let twice = "use a.add\nuse b.add\nadd(1)";
    assert!(broken_source_import_binding_at(twice, Position::new(2, 1)).is_none());
}
