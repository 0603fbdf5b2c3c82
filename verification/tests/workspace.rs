use qlang::diagnostics::{normalize_line_endings, source_matches_disk_text};
use qlang::imports::{auto_import_insert_offset, auto_import_insertion_edit, source_already_imports_path};
use qlang::bridge::{Position, Range, TextEdit};
use qlang::workspace::{
    auto_import_insert_text, leading_comment_or_blank_insert_offset, line_break_end_offset,
    normalize_path, normalized_dependency_source_path, normalized_relative_source_path,
    package_path_segments, relative_path_from,
};

fn path(parts: &[&str]) -> Vec<String> {
    parts.iter().map(|p| p.to_string()).collect()
}

#[test]
fn paths_use_forward_slashes() {
    assert_eq!(normalize_path("a\\b\\c.ql"), "a/b/c.ql");
    assert_eq!(normalized_relative_source_path("src\\lib.ql"), "src/lib.ql");
    assert_eq!(normalized_dependency_source_path(".\\src\\lib.ql"), "src/lib.ql");
    assert_eq!(normalized_dependency_source_path("././src/lib.ql"), "src/lib.ql");
}

#[test]
fn relative_paths_between_directories() {
    assert_eq!(relative_path_from("/work/app", "/work/core"), "../core");
    assert_eq!(relative_path_from("/work/app", "/work/app"), ".");
    assert_eq!(relative_path_from("/work/app", "/work/app/sub/x"), "sub/x");
    assert_eq!(relative_path_from("a/b", "c/d"), "c/d");
    assert_eq!(relative_path_from("./a/./b", "a\\c"), "../c");
}

#[test]
fn package_segments_come_from_the_first_significant_line() {
    assert_eq!(
        package_path_segments("// header\n\npackage demo . core\nuse x\n"),
        Some(path(&["demo", "core"]))
    );
    assert_eq!(package_path_segments("use x\npackage demo\n"), None);
    assert_eq!(package_path_segments("package ..\n"), None);
    assert_eq!(package_path_segments(""), None);
}

#[test]
fn insertion_offsets() {
    assert_eq!(line_break_end_offset("ab\ncd", 1), 3);
    assert_eq!(line_break_end_offset("ab\ncd", 3), 5);
    assert_eq!(leading_comment_or_blank_insert_offset("// a\n\n  // b\nfn main() {}\n"), 13);
    assert_eq!(leading_comment_or_blank_insert_offset("// only"), 7);
    assert_eq!(auto_import_insert_text("", 0, "use a"), "use a\n");
    assert_eq!(auto_import_insert_text("fn x() {}", 0, "use a"), "use a\n\n");
    assert_eq!(auto_import_insert_text("use b\n\nfn x() {}", 6, "use a"), "use a\n");
    assert_eq!(auto_import_insert_text("use b\nfn x() {}", 6, "use a"), "use a\n\n");
    assert_eq!(auto_import_insert_text("use b\n", 6, "use a"), "use a\n");
}

#[test]
fn already_imported_paths_are_found_in_the_header() {
    let source = "package demo.app\n\nuse core.math.add\nuse core.text.{trim as t, split}\n\nfn main() {}\n";
    assert!(source_already_imports_path(source, &path(&["core", "math", "add"])));
    assert!(source_already_imports_path(source, &path(&["core", "text", "trim"])));
    assert!(source_already_imports_path(source, &path(&["core", "text", "split"])));
    assert!(!source_already_imports_path(source, &path(&["core", "text"])));
    assert!(!source_already_imports_path(source, &path(&["demo", "app"])));
    let after_body = "fn main() {}\nuse core.math.add\n";
    assert!(!source_already_imports_path(after_body, &path(&["core", "math", "add"])));
}

#[test]
fn automatic_imports_go_after_the_header() {
    let source = "package demo.app\n\nuse core.math.add\n\nfn main() {}\n";
    assert_eq!(auto_import_insert_offset(source), 36);
    assert_eq!(
        auto_import_insertion_edit(source, &path(&["core", "io", "print"])),
        TextEdit::new(
            Range::new(Position::new(3, 0), Position::new(3, 0)),
            "use core.io.print\n".to_string()
        )
    );
    let only_package = "package demo.app\nfn main() {}\n";
    assert_eq!(auto_import_insert_offset(only_package), 17);
    assert_eq!(
        auto_import_insertion_edit(only_package, &path(&["x"])),
        TextEdit::new(Range::new(Position::new(1, 0), Position::new(1, 0)), "use x\n\n".to_string())
    );
    let no_header = "// comment\nfn main() {}\n";
    assert_eq!(auto_import_insert_offset(no_header), 11);
    let broken_header = "use core.{\nfn main() {}\n";
    assert_eq!(auto_import_insert_offset(broken_header), 0);
    assert_eq!(
        auto_import_insertion_edit("", &path(&["a", "b"])),
        TextEdit::new(Range::new(Position::new(0, 0), Position::new(0, 0)), "use a.b\n".to_string())
    );
}

#[test]
fn line_ending_normalization() {
    assert_eq!(normalize_line_endings("a\r\nb\r\r\nc\n"), "a\nb\r\nc\n");
    assert!(source_matches_disk_text(Some("x\r\ny\r\n"), "x\ny\n"));
    assert!(!source_matches_disk_text(Some("x\ny"), "x\ny\n"));
    assert!(!source_matches_disk_text(None, ""));
}
