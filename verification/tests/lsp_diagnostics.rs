use qlang::bridge::{Position, Range};
use qlang::hover::{render_hover_markdown, HoverInfo};
use qlang::lsp_diagnostics::{
    diagnostics_to_lsp, primary_label, related_information, severity, CompilerDiagnostic, CompilerSeverity, Label,
    SEVERITY_ERROR, SEVERITY_INFORMATION, SEVERITY_WARNING,
};
use qlang::semantic_tokens::SymbolKind;
use qlang::span::Span;

fn label(start: usize, end: usize, is_primary: bool, message: Option<&str>) -> Label {
    Label { span: Span::new(start, end), is_primary, message: message.map(|m| m.to_string()) }
}

#[test]
fn primary_label_is_the_first_primary_or_the_first() {
    assert_eq!(primary_label(&[label(0, 1, false, None), label(2, 3, true, None), label(4, 5, true, None)]), Some(1));
    assert_eq!(primary_label(&[label(0, 1, false, None), label(2, 3, false, None)]), Some(0));
    assert_eq!(primary_label(&[]), None);
}

#[test]
fn severities_map_to_editor_levels() {
    assert_eq!(severity(CompilerSeverity::Error), SEVERITY_ERROR);
    assert_eq!(severity(CompilerSeverity::Warning), SEVERITY_WARNING);
    assert_eq!(severity(CompilerSeverity::Note), SEVERITY_INFORMATION);
}

#[test]
fn diagnostics_carry_range_notes_and_related_labels() {
    let source = "let x = 1\nlet y = x\n";
    let diagnostic = CompilerDiagnostic {
        severity: CompilerSeverity::Warning,
        code: Some("W0001".to_string()),
        message: "unused".to_string(),
        notes: vec!["first".to_string(), "second".to_string()],
        labels: vec![label(4, 5, false, Some("declared here")), label(14, 15, true, None), label(18, 19, false, None)],
    };
    let lsp = diagnostics_to_lsp("file:///a.ql", source, &[diagnostic]);
    assert_eq!(lsp.len(), 1);
    let d = &lsp[0];
    assert_eq!(d.range, Range::new(Position::new(1, 4), Position::new(1, 5)));
    assert_eq!(d.code.as_deref(), Some("W0001"));
    assert_eq!(d.severity, Some(SEVERITY_WARNING));
    assert_eq!(d.source.as_deref(), Some("ql"));
    assert_eq!(d.message, "unused\nnote: first\nnote: second");
    let related = d.related_information.as_ref().expect("related");
    assert_eq!(related.len(), 2);
    assert_eq!(related[0].message, "declared here");
    assert_eq!(related[0].location.range, Range::new(Position::new(0, 4), Position::new(0, 5)));
    assert_eq!(related[1].message, "related span");
    assert_eq!(related[1].location.uri, "file:///a.ql");
}

#[test]
fn diagnostic_without_labels_sits_at_the_start() {
    let diagnostic = CompilerDiagnostic {
        severity: CompilerSeverity::Error,
        code: None,
        message: "broken".to_string(),
        notes: vec![],
        labels: vec![],
    };
    let lsp = diagnostics_to_lsp("file:///a.ql", "x", &[diagnostic]);
    assert_eq!(lsp[0].range, Range::new(Position::new(0, 0), Position::new(0, 0)));
    assert_eq!(lsp[0].code, None);
    assert!(lsp[0].related_information.is_none());
    assert!(related_information("file:///a.ql", "x", &[label(0, 1, true, None)]).is_none());
}

#[test]
fn hover_text_names_kind_name_declaration_and_type() {
    let info = HoverInfo {
        kind: SymbolKind::Function,
        name: "add".to_string(),
        detail: "fn add(a: Int) -> Int".to_string(),
        ty: Some("(Int) -> Int".to_string()),
    };
    assert_eq!(render_hover_markdown(&info), "**function** `add`\n\n```ql\nfn add(a: Int) -> Int\n```\n\nType: `(Int) -> Int`");
    let local = HoverInfo { kind: SymbolKind::Local, name: "x".to_string(), detail: "let x".to_string(), ty: None };
    assert_eq!(render_hover_markdown(&local), "**local** `x`\n\n```ql\nlet x\n```");
}
