use qlang::bridge::{Position, Range, TextEdit};
use qlang::locations::sort_and_dedup_document_edits;
use qlang::locations::Location;
use qlang::symbol_search::{
    ascii_lowercase_string, sort_and_dedup_workspace_symbols, workspace_symbol_matches, workspace_symbol_query,
    WorkspaceSymbol,
};
use qlang::workspace::{source_preferred_manifest_paths_for_package, visible_manifest_paths_for_package};

fn edit(line: u32, start: u32, end: u32, text: &str) -> TextEdit {
    TextEdit::new(Range::new(Position::new(line, start), Position::new(line, end)), text.to_string())
}

fn entry(path: &str, canonical: &str) -> (String, String) {
    (path.to_string(), canonical.to_string())
}

#[test]
fn document_edits_are_sorted_by_range_and_deduplicated() {
    let mut edits = vec![
        edit(3, 0, 4, "next"),
        edit(1, 5, 9, "next"),
        edit(3, 0, 4, "next"),
        edit(1, 2, 4, "next"),
        edit(1, 5, 9, "other"),
    ];
    sort_and_dedup_document_edits(&mut edits);
    assert_eq!(
        edits,
        vec![
            edit(1, 2, 4, "next"),
            edit(1, 5, 9, "next"),
            edit(1, 5, 9, "other"),
            edit(3, 0, 4, "next"),
        ]
    );
}

#[test]
fn document_edits_with_one_range_keep_their_order() {
    let mut edits = vec![edit(0, 0, 1, "b"), edit(0, 0, 1, "a"), edit(0, 0, 1, "b")];
    sort_and_dedup_document_edits(&mut edits);
    assert_eq!(edits, vec![edit(0, 0, 1, "b"), edit(0, 0, 1, "a"), edit(0, 0, 1, "b")]);
    let mut empty: Vec<TextEdit> = Vec::new();
    sort_and_dedup_document_edits(&mut empty);
    assert!(empty.is_empty());
}

#[test]
fn workspace_symbol_query_is_trimmed_and_lowered() {
    assert_eq!(workspace_symbol_query("  PointXY \n"), "pointxy");
    assert_eq!(workspace_symbol_query(""), "");
    assert_eq!(ascii_lowercase_string("ÉtatOK"), "Étatok");
}

#[test]
fn workspace_symbols_match_by_lowercase_substring() {
    let query = workspace_symbol_query(" Point ");
    assert!(workspace_symbol_matches("MyPointer", &query));
    assert!(workspace_symbol_matches("point", &query));
    assert!(!workspace_symbol_matches("Poin", &query));
    assert!(!workspace_symbol_matches("", &query));
    assert!(workspace_symbol_matches("anything", &workspace_symbol_query("   ")));
}

#[test]
fn preferred_manifests_leave_out_the_package_and_repeat_none() {
    let paths = source_preferred_manifest_paths_for_package(
        "/ws/app/qlang.toml",
        vec![
            entry("../lib/qlang.toml", "/ws/lib/qlang.toml"),
            entry("./qlang.toml", "/ws/app/qlang.toml"),
            entry("../core/qlang.toml", "/ws/core/qlang.toml"),
            entry("/ws/lib/./qlang.toml", "/ws/lib/qlang.toml"),
        ],
    );
    assert_eq!(paths, vec!["../core/qlang.toml".to_string(), "../lib/qlang.toml".to_string()]);
}

#[test]
fn visible_manifests_include_the_package_in_canonical_order() {
    let paths = visible_manifest_paths_for_package(
        entry("app/qlang.toml", "/ws/app/qlang.toml"),
        vec![
            entry("../lib/qlang.toml", "/ws/lib/qlang.toml"),
            entry("../a/qlang.toml", "/ws/a/qlang.toml"),
            entry("./qlang.toml", "/ws/app/qlang.toml"),
        ],
    );
    assert_eq!(
        paths,
        vec!["../a/qlang.toml".to_string(), "app/qlang.toml".to_string(), "../lib/qlang.toml".to_string()]
    );
}

fn symbol(name: &str, uri: &str, line: u32, character: u32) -> WorkspaceSymbol {
    WorkspaceSymbol {
        name: name.to_string(),
        kind: 12,
        location: Location::new(uri.to_string(), Range::new(Position::new(line, character), Position::new(line, character + 3))),
        container_name: None,
    }
}

#[test]
fn workspace_symbols_are_ordered_by_lowercase_name_then_location() {
    let mut symbols = vec![
        symbol("beta", "file:///a.ql", 0, 0),
        symbol("Alpha", "file:///b.ql", 2, 0),
        symbol("alpha", "file:///a.ql", 5, 1),
        symbol("Alpha", "file:///b.ql", 2, 0),
        symbol("alpha", "file:///a.ql", 1, 4),
    ];
    sort_and_dedup_workspace_symbols(&mut symbols);
    assert_eq!(
        symbols,
        vec![
            symbol("alpha", "file:///a.ql", 1, 4),
            symbol("alpha", "file:///a.ql", 5, 1),
            symbol("Alpha", "file:///b.ql", 2, 0),
            symbol("beta", "file:///a.ql", 0, 0),
        ]
    );
}
