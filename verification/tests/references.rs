use qlang::bridge::{Position, Range};
use qlang::references::{
    broken_source_definition_locations_in_source, broken_source_import_reference_locations_in_source,
    broken_source_method_definition_locations_in_source,
};
use qlang::document_links::use_path_for_document_link;
use qlang::semantic_tokens::SymbolKind;
use qlang::span::Span;

fn range(line: u32, from: u32, to: u32) -> Range {
    Range::new(Position::new(line, from), Position::new(line, to))
}

fn path(parts: &[&str]) -> Vec<String> {
    parts.iter().map(|p| p.to_string()).collect()
}

const SOURCE: &str = "use std.io.print as p\nfn main() {\n    p(1)\n    x.p()\n    p(2)\n}\n";

#[test]
fn import_references_with_and_without_the_declaration() {
    let with = broken_source_import_reference_locations_in_source("file:///a.ql", SOURCE, &path(&["std", "io", "print"]), true);
    let ranges: Vec<Range> = with.iter().map(|l| l.range).collect();
    assert_eq!(ranges, vec![range(0, 20, 21), range(2, 4, 5), range(4, 4, 5)]);
    assert!(with.iter().all(|l| l.uri == "file:///a.ql"));
    let without = broken_source_import_reference_locations_in_source("file:///a.ql", SOURCE, &path(&["std", "io", "print"]), false);
    let ranges: Vec<Range> = without.iter().map(|l| l.range).collect();
    assert_eq!(ranges, vec![range(2, 4, 5), range(4, 4, 5)]);
    assert!(broken_source_import_reference_locations_in_source("file:///a.ql", SOURCE, &path(&["std", "print"]), true).is_empty());
}

#[test]
fn import_references_skip_a_local_name_brought_in_twice() {
    let source = "use a.b\nuse c.b\nlet x = b()\n";
    let locations = broken_source_import_reference_locations_in_source("file:///a.ql", source, &path(&["a", "b"]), true);
    let ranges: Vec<Range> = locations.iter().map(|l| l.range).collect();
    assert_eq!(ranges, vec![range(0, 6, 7)]);
}

#[test]
fn method_definitions_in_impl_and_extend_blocks() {
    let source = "impl Show for Point {\n    fn show(self) {}\n    fn hide(self) {}\n}\nextend Int {\n    fn show(self) {}\n}\nfn show() {}\n";
    let locations = broken_source_method_definition_locations_in_source("file:///a.ql", source, "show");
    let ranges: Vec<Range> = locations.iter().map(|l| l.range).collect();
    assert_eq!(ranges, vec![range(1, 7, 11), range(5, 7, 11)]);
    assert!(broken_source_method_definition_locations_in_source("file:///a.ql", source, "missing").is_empty());
}

#[test]
fn root_definitions_by_kind_and_name() {
    let source = "pub struct Point {\n}\nenum Point {}\ntrait Show {}\n";
    let structs = broken_source_definition_locations_in_source("file:///a.ql", source, SymbolKind::Struct, "Point");
    assert_eq!(structs.iter().map(|l| l.range).collect::<Vec<_>>(), vec![range(0, 11, 16)]);
    let enums = broken_source_definition_locations_in_source("file:///a.ql", source, SymbolKind::Enum, "Point");
    assert_eq!(enums.iter().map(|l| l.range).collect::<Vec<_>>(), vec![range(2, 5, 10)]);
    assert!(broken_source_definition_locations_in_source("file:///a.ql", source, SymbolKind::Function, "Point").is_empty());
    assert!(broken_source_definition_locations_in_source("file:///a.ql", source, SymbolKind::Trait, "Point").is_empty());
}

#[test]
fn document_link_path_of_a_use() {
    let source = "use std.io.print as p\nuse a.b\nuse .x\nuse c\nd\n";
    let (tokens, _) = qlang::lexer::lex(source);
    let (span, names) = use_path_for_document_link(source, &tokens, 0).expect("first use");
    assert_eq!(span, Span::new(4, 16));
    assert_eq!(names, path(&["std", "io", "print"]));
    let (span, names) = use_path_for_document_link(source, &tokens, 8).expect("second use");
    assert_eq!(span, Span::new(26, 29));
    assert_eq!(names, path(&["a", "b"]));
    assert!(use_path_for_document_link(source, &tokens, 12).is_none());
    let (span, names) = use_path_for_document_link(source, &tokens, 15).expect("fourth use");
    assert_eq!(span, Span::new(41, 42));
    assert_eq!(names, path(&["c"]));
    assert!(use_path_for_document_link(source, &tokens, 1000).is_none());
}
