use qlang::bridge::{Position, Range};
use qlang::broken::broken_source_import_bindings_in_tokens;
use qlang::lexer::lex;
use qlang::rename::{
    broken_source_root_symbol_rename_edits_for_import_binding,
    broken_source_root_symbol_rename_edits_for_import_path_in_source, validate_rename_text, RenameError,
};

fn range(line: u32, from: u32, to: u32) -> Range {
    Range::new(Position::new(line, from), Position::new(line, to))
}

fn path(parts: &[&str]) -> Vec<String> {
    parts.iter().map(|p| p.to_string()).collect()
}

const SOURCE: &str = "use std.io.print\nfn main() {\n    print(1)\n    x.print()\n    print(2)\n}\n";

#[test]
fn rename_text_must_be_an_identifier_and_no_bare_keyword() {
    assert_eq!(validate_rename_text("value"), Ok(()));
    assert_eq!(validate_rename_text("_tmp2"), Ok(()));
    assert_eq!(validate_rename_text("type"), Err(RenameError::Keyword("type".to_string())));
    assert_eq!(validate_rename_text("`type`"), Ok(()));
    assert_eq!(validate_rename_text("9lives"), Err(RenameError::InvalidIdentifier("9lives".to_string())));
    assert_eq!(validate_rename_text("a-b"), Err(RenameError::InvalidIdentifier("a-b".to_string())));
    assert_eq!(validate_rename_text(""), Err(RenameError::InvalidIdentifier(String::new())));
    assert_eq!(validate_rename_text("`"), Err(RenameError::InvalidIdentifier("`".to_string())));
    assert_eq!(validate_rename_text("``"), Err(RenameError::InvalidIdentifier("``".to_string())));
    assert_eq!(validate_rename_text("`a b`"), Err(RenameError::InvalidIdentifier("`a b`".to_string())));
}

#[test]
fn binding_rename_rewrites_the_import_and_its_references() {
    let (tokens, _) = lex(SOURCE);
    let bindings = broken_source_import_bindings_in_tokens(&tokens);
    assert_eq!(bindings.len(), 1);
    let edits = broken_source_root_symbol_rename_edits_for_import_binding(SOURCE, &bindings[0], "write");
    let ranges: Vec<Range> = edits.iter().map(|e| e.range).collect();
    assert_eq!(ranges, vec![range(0, 11, 16), range(2, 4, 9), range(4, 4, 9)]);
    assert!(edits.iter().all(|e| e.new_text == "write"));
}

#[test]
fn aliased_binding_rename_rewrites_only_the_import() {
    let source = "use std.io.print as p\nfn main() {\n    p(1)\n    print(2)\n}\n";
    let (tokens, _) = lex(source);
    let bindings = broken_source_import_bindings_in_tokens(&tokens);
    let edits = broken_source_root_symbol_rename_edits_for_import_binding(source, &bindings[0], "write");
    let ranges: Vec<Range> = edits.iter().map(|e| e.range).collect();
    assert_eq!(ranges, vec![range(0, 11, 16)]);
}

#[test]
fn path_rename_follows_the_bindings_of_that_path() {
    let edits = broken_source_root_symbol_rename_edits_for_import_path_in_source(SOURCE, &path(&["std", "io", "print"]), "write");
    let ranges: Vec<Range> = edits.iter().map(|e| e.range).collect();
    assert_eq!(ranges, vec![range(0, 11, 16), range(2, 4, 9), range(4, 4, 9)]);
    assert!(broken_source_root_symbol_rename_edits_for_import_path_in_source(SOURCE, &path(&["std", "print"]), "write").is_empty());
}

#[test]
fn path_rename_skips_references_of_a_local_name_brought_in_twice() {
    let source = "use std.io.print\nuse fmt.print\nfn main() {\n    print(1)\n}\n";
    let edits = broken_source_root_symbol_rename_edits_for_import_path_in_source(source, &path(&["std", "io", "print"]), "write");
    let ranges: Vec<Range> = edits.iter().map(|e| e.range).collect();
    assert_eq!(ranges, vec![range(0, 11, 16)]);
}
