use qlang::bridge::{Position, Range, TextEdit};
use qlang::formatting::{
    common_prefix_len, common_suffix_starts, document_formatting_edits, format_source_for_lsp,
    line_content_spans, line_formatting_edit, line_formatting_edits, on_type_formatting_edits,
    range_formatting_edits, range_offsets, FormatParseError, FormattingEdit,
};
use qlang::span::Span;

fn formatted(text: &str) -> Result<String, Vec<FormatParseError>> {
    Ok(text.to_string())
}

#[test]
fn document_formatting_edits_replace_entire_document_when_qfmt_changes_source() {
    let source = "fn main()->Int{return 1}\n";
    let edits = document_formatting_edits(source, formatted("fn main() -> Int {\n    return 1\n}\n"))
        .expect("formatting should succeed");

    assert_eq!(
        edits,
        vec![TextEdit::new(
            Range::new(Position::new(0, 0), Position::new(1, 0)),
            "fn main() -> Int {\n    return 1\n}\n".to_owned(),
        )]
    );
}

#[test]
fn document_formatting_edits_return_empty_when_source_is_already_formatted() {
    let source = "fn main() -> Int {\n    return 1\n}\n";

    assert!(document_formatting_edits(source, formatted(source))
        .expect("formatting should succeed")
        .is_empty());
}

#[test]
fn document_formatting_edits_report_parse_errors_without_returning_edits() {
    let source = "fn main( {\n";
    let errors = vec![FormatParseError {
        message: "expected parameter name".to_string(),
        span: Span::new(9, 10),
    }];
    let error = document_formatting_edits(source, Err(errors)).expect_err("formatting should fail");

    assert!(
        error.contains("document formatting skipped because the document has parse errors"),
        "unexpected formatting error: {error}"
    );
    assert!(
        error.contains("expected parameter name"),
        "unexpected formatting parse detail: {error}"
    );
}

#[test]
fn parse_error_message_names_one_based_line_and_column() {
    let source = "let a = 1\nfn main( {\n";
    let errors = vec![
        FormatParseError { message: "expected parameter name".to_string(), span: Span::new(19, 20) },
        FormatParseError { message: "second".to_string(), span: Span::new(0, 1) },
    ];
    assert_eq!(
        format_source_for_lsp(source, Err(errors)),
        Err("qlang: document formatting skipped because the document has parse errors at 2:10: expected parameter name".to_string())
    );
    assert_eq!(
        format_source_for_lsp(source, Err(Vec::new())),
        Err("qlang: document formatting skipped because the document has parse errors".to_string())
    );
    assert_eq!(format_source_for_lsp(source, formatted("x")), Ok("x".to_string()));
}

#[test]
fn common_prefix_and_suffix_of_lines() {
    assert_eq!(common_prefix_len("abcd", "abxd"), 2);
    assert_eq!(common_prefix_len("abc", "abc"), 3);
    assert_eq!(common_prefix_len("ab", "abc"), 2);
    assert_eq!(common_prefix_len("é1", "é2"), 2);
    assert_eq!(common_suffix_starts("abcd", "abxd", 2), (3, 3));
    assert_eq!(common_suffix_starts("aaa", "aa", 2), (3, 2));
    assert_eq!(common_suffix_starts("let x=1", "let x = 1", 5), (6, 8));
}

#[test]
fn line_content_spans_drop_line_breaks() {
    let lines = line_content_spans("ab\r\ncd\n\nef");
    let expected: Vec<(Span, String)> = vec![
        (Span::new(0, 2), "ab".to_string()),
        (Span::new(4, 6), "cd".to_string()),
        (Span::new(7, 7), String::new()),
        (Span::new(8, 10), "ef".to_string()),
    ];
    assert_eq!(lines, expected);
    let trailing = line_content_spans("x\n");
    assert_eq!(
        trailing,
        vec![(Span::new(0, 1), "x".to_string()), (Span::new(2, 2), String::new())]
    );
    assert!(line_content_spans("").is_empty());
}

#[test]
fn line_edit_replaces_only_the_changed_middle() {
    assert_eq!(line_formatting_edit(Span::new(10, 17), "let x=1", "let x=1"), None);
    assert_eq!(
        line_formatting_edit(Span::new(10, 17), "let x=1", "let x = 1"),
        Some(FormattingEdit { span: Span::new(15, 16), replacement: " = ".to_string() })
    );
}

#[test]
fn line_edits_need_matching_line_counts() {
    assert!(line_formatting_edits("a\nb\n", "a\n").is_empty());
    assert_eq!(
        line_formatting_edits("let x=1\nfoo\n", "let x = 1\nfoo\n"),
        vec![FormattingEdit { span: Span::new(5, 6), replacement: " = ".to_string() }]
    );
}

#[test]
fn range_offsets_order_the_ends() {
    let source = "abc\ndef\n";
    let range = Range::new(Position::new(1, 2), Position::new(0, 1));
    assert_eq!(range_offsets(source, range), Ok(Span::new(1, 6)));
    let bad_start = Range::new(Position::new(9, 0), Position::new(0, 1));
    assert_eq!(
        range_offsets(source, bad_start),
        Err("qlang: formatting skipped because the range start is invalid".to_string())
    );
    let bad_end = Range::new(Position::new(0, 0), Position::new(0, 7));
    assert_eq!(
        range_offsets(source, bad_end),
        Err("qlang: formatting skipped because the range end is invalid".to_string())
    );
}

#[test]
fn range_formatting_keeps_edits_inside_the_range() {
    let source = "let a=1\nlet b=2\n";
    let target = "let a = 1\nlet b = 2\n";
    let range = Range::new(Position::new(1, 0), Position::new(1, 7));
    let edits = range_formatting_edits(source, range, formatted(target)).expect("edits");
    assert_eq!(
        edits,
        vec![TextEdit::new(
            Range::new(Position::new(1, 5), Position::new(1, 6)),
            " = ".to_string()
        )]
    );
    let error = range_formatting_edits(source, Range::new(Position::new(5, 0), Position::new(5, 0)), formatted(target));
    assert_eq!(error, Err("qlang: formatting skipped because the range start is invalid".to_string()));
}

#[test]
fn on_type_formatting_only_for_trigger_characters_on_the_line() {
    let source = "let a=1\nlet b=2\n";
    let target = "let a = 1\nlet b = 2\n";
    assert_eq!(
        on_type_formatting_edits(source, Position::new(0, 7), "x", formatted(target)),
        Ok(Vec::new())
    );
    assert_eq!(
        on_type_formatting_edits(source, Position::new(7, 0), ";", formatted(target)),
        Err("qlang: formatting skipped because the trigger position is invalid".to_string())
    );
    assert_eq!(
        on_type_formatting_edits(source, Position::new(0, 7), ";", formatted(target)),
        Ok(vec![TextEdit::new(
            Range::new(Position::new(0, 5), Position::new(0, 6)),
            " = ".to_string()
        )])
    );
}
