use vstd::prelude::*;
use vstd::string::StringExecFns;

use crate::bridge::{clamp_offset, span_range, span_to_range, Position, Range};
use crate::locations::Location;
use crate::span::Span;
use crate::strings::strings_view;

verus! {

// ---------------------------------------------------------------------------
// Compiler diagnostics, as the compiler reports them.
// ---------------------------------------------------------------------------

/// How serious a compiler diagnostic is.
#[derive(Clone, Copy, Debug, PartialEq, Eq, Structural, Hash)]
pub enum CompilerSeverity {
    Error,
    Warning,
    Note,
}

/// A span that a diagnostic points at, with an optional message; the
/// primary label marks where the problem is.
#[derive(Clone, Debug, PartialEq, Eq)]
pub struct Label {
    pub span: Span,
    pub is_primary: bool,
    pub message: Option<String>,
}

/// A diagnostic of the compiler.
#[derive(Clone, Debug, PartialEq, Eq)]
pub struct CompilerDiagnostic {
    pub severity: CompilerSeverity,
    pub code: Option<String>,
    pub message: String,
    pub notes: Vec<String>,
    pub labels: Vec<Label>,
}

// ---------------------------------------------------------------------------
// Diagnostics, as the editor receives them.
// ---------------------------------------------------------------------------

/// The editor's numbers for diagnostic severities.
pub const SEVERITY_ERROR: i32 = 1;
pub const SEVERITY_WARNING: i32 = 2;
pub const SEVERITY_INFORMATION: i32 = 3;

/// A place related to a diagnostic, with what it says about it.
#[derive(Debug, PartialEq, Eq)]
pub struct RelatedInformation {
    pub location: Location,
    pub message: String,
}

/// A diagnostic for the editor.
#[derive(Debug, PartialEq, Eq)]
pub struct LspDiagnostic {
    pub range: Range,
    pub code: Option<String>,
    pub severity: Option<i32>,
    pub source: Option<String>,
    pub message: String,
    pub related_information: Option<Vec<RelatedInformation>>,
}

pub open spec fn severity_number(severity: CompilerSeverity) -> i32 {
    match severity {
        CompilerSeverity::Error => SEVERITY_ERROR,
        CompilerSeverity::Warning => SEVERITY_WARNING,
        CompilerSeverity::Note => SEVERITY_INFORMATION,
    }
}

/// Errors are errors, warnings warnings, and notes information.
pub fn severity(level: CompilerSeverity) -> (number: i32)
    ensures
        number == severity_number(level),
{
    match level {
        CompilerSeverity::Error => SEVERITY_ERROR,
        CompilerSeverity::Warning => SEVERITY_WARNING,
        CompilerSeverity::Note => SEVERITY_INFORMATION,
    }
}

/// The first primary label from index `k` on.
pub open spec fn first_primary(labels: Seq<Label>, k: int) -> Option<int>
    decreases labels.len() - k,
{
    if k < 0 || k >= labels.len() {
        None
    } else if labels[k].is_primary {
        Some(k)
    } else {
        first_primary(labels, k + 1)
    }
}

/// The first primary label, or else the first label.
pub open spec fn primary_label_index(labels: Seq<Label>) -> Option<int> {
    match first_primary(labels, 0) {
        Some(i) => Some(i),
        None => if labels.len() > 0 {
            Some(0)
        } else {
            None
        },
    }
}

proof fn lemma_first_primary_bounds(labels: Seq<Label>, k: int)
    ensures
        first_primary(labels, k) matches Some(i) ==> k <= i < labels.len(),
    decreases labels.len() - k,
{
    if 0 <= k < labels.len() && !labels[k].is_primary {
        lemma_first_primary_bounds(labels, k + 1);
    }
}

/// The label a diagnostic is shown at: the first primary label, or else the
/// first label.
pub fn primary_label(labels: &[Label]) -> (label: Option<usize>)
    ensures
        match label {
            Some(i) => primary_label_index(labels@) == Some(i as int) && i < labels@.len(),
            None => primary_label_index(labels@) is None,
        },
{
    let mut k: usize = 0;
    while k < labels.len()
        invariant
            k <= labels@.len(),
            first_primary(labels@, 0) == first_primary(labels@, k as int),
        decreases labels@.len() - k,
    {
        if labels[k].is_primary {
            return Some(k);
        }
        k = k + 1;
    }
    if labels.len() > 0 {
        Some(0)
    } else {
        None
    }
}

/// Both ends of every label span, clamped to the text, are char boundaries.
pub open spec fn labels_on_boundaries(cs: Seq<char>, labels: Seq<Label>) -> bool {
    forall|i: int|
        0 <= i < labels.len() ==> {
            &&& crate::text::is_boundary(cs, clamp_offset(cs, (#[trigger] labels[i]).span.start as int))
            &&& crate::text::is_boundary(cs, clamp_offset(cs, labels[i].span.end as int))
        }
}

/// What the editor is told of a non-primary label: where it is and its
/// message, or `related span`.
pub open spec fn related_view(uri: Seq<char>, cs: Seq<char>, label: Label) -> ((Seq<char>, Range), Seq<char>) {
    (
        (uri, span_range(cs, label.span)),
        match label.message {
            Some(m) => m@,
            None => "related span"@,
        },
    )
}

/// The related information of the non-primary labels, in order.
pub open spec fn related_views(uri: Seq<char>, cs: Seq<char>, labels: Seq<Label>) -> Seq<((Seq<char>, Range), Seq<char>)>
    decreases labels.len(),
{
    if labels.len() == 0 {
        seq![]
    } else {
        let rest = related_views(uri, cs, labels.drop_last());
        if labels.last().is_primary {
            rest
        } else {
            rest.push(related_view(uri, cs, labels.last()))
        }
    }
}

pub open spec fn related_information_view(infos: Seq<RelatedInformation>) -> Seq<((Seq<char>, Range), Seq<char>)> {
    infos.map_values(|info: RelatedInformation| (info.location@, info.message@))
}

/// The non-primary labels as related information; none when there is none.
pub fn related_information(uri: &str, source: &str, labels: &[Label]) -> (infos: Option<Vec<RelatedInformation>>)
    requires
        labels_on_boundaries(source@, labels@),
    ensures
        match infos {
            Some(v) => related_views(uri@, source@, labels@).len() > 0 && related_information_view(v@)
                == related_views(uri@, source@, labels@),
            None => related_views(uri@, source@, labels@).len() == 0,
        },
{
    let mut infos: Vec<RelatedInformation> = Vec::new();
    let mut k: usize = 0;
    while k < labels.len()
        invariant
            k <= labels@.len(),
            labels_on_boundaries(source@, labels@),
            related_information_view(infos@) == related_views(uri@, source@, labels@.take(k as int)),
        decreases labels@.len() - k,
    {
        let label = &labels[k];
        assert(labels@.take(k + 1).drop_last() =~= labels@.take(k as int));
        assert(labels@.take(k + 1).last() == *label);
        if !label.is_primary {
            let range = span_to_range(source, label.span);
            let message = match &label.message {
                Some(m) => m.clone(),
                None => String::from_str("related span"),
            };
            let ghost before = infos@;
            infos.push(RelatedInformation { location: Location::new(uri.to_string(), range), message });
            assert(related_information_view(infos@) =~= related_information_view(before).push(
                related_view(uri@, source@, *label),
            ));
        }
        k = k + 1;
    }
    assert(labels@.take(labels@.len() as int) =~= labels@);
    if infos.len() == 0 {
        None
    } else {
        Some(infos)
    }
}

/// The message of a diagnostic followed by its notes, each on a new line
/// after `note: `.
pub open spec fn message_with_notes(message: Seq<char>, notes: Seq<Seq<char>>) -> Seq<char>
    decreases notes.len(),
{
    if notes.len() == 0 {
        message
    } else {
        message_with_notes(message, notes.drop_last()) + "\nnote: "@ + notes.last()
    }
}

/// Where a diagnostic is shown: its primary label, or the start of the text.
pub open spec fn diagnostic_range(cs: Seq<char>, labels: Seq<Label>) -> Range {
    match primary_label_index(labels) {
        Some(i) => span_range(cs, labels[i].span),
        None => Range { start: Position { line: 0, character: 0 }, end: Position { line: 0, character: 0 } },
    }
}

pub open spec fn opt_string(s: Option<String>) -> Option<Seq<char>> {
    match s {
        Some(s) => Some(s@),
        None => None,
    }
}

/// A compiler diagnostic as the editor receives it: at its primary label,
/// with its code, its severity, `ql` as its source, its message and notes,
/// and its other labels as related information.
pub open spec fn diagnostic_matches(uri: Seq<char>, cs: Seq<char>, d: CompilerDiagnostic, l: LspDiagnostic) -> bool {
    &&& l.range == diagnostic_range(cs, d.labels@)
    &&& opt_string(l.code) == opt_string(d.code)
    &&& l.severity == Some(severity_number(d.severity))
    &&& opt_string(l.source) == Some("ql"@)
    &&& l.message@ == message_with_notes(d.message@, strings_view(d.notes@))
    &&& match l.related_information {
        Some(v) => related_views(uri, cs, d.labels@).len() > 0 && related_information_view(v@) == related_views(
            uri,
            cs,
            d.labels@,
        ),
        None => related_views(uri, cs, d.labels@).len() == 0,
    }
}

fn diagnostic_lsp_range(source: &str, labels: &[Label]) -> (range: Range)
    requires
        labels_on_boundaries(source@, labels@),
    ensures
        range == diagnostic_range(source@, labels@),
{
    match primary_label(labels) {
        Some(i) => span_to_range(source, labels[i].span),
        None => Range::new(Position::new(0, 0), Position::new(0, 0)),
    }
}

fn diagnostic_message(message: &String, notes: &Vec<String>) -> (text: String)
    ensures
        text@ == message_with_notes(message@, strings_view(notes@)),
{
    let mut text = message.clone();
    let ghost ns = strings_view(notes@);
    let mut k: usize = 0;
    while k < notes.len()
        invariant
            k <= notes@.len(),
            ns == strings_view(notes@),
            text@ == message_with_notes(message@, ns.take(k as int)),
        decreases notes@.len() - k,
    {
        assert(ns.take(k + 1).drop_last() =~= ns.take(k as int));
        text.append("\nnote: ");
        text.append(notes[k].as_str());
        k = k + 1;
    }
    assert(ns.take(ns.len() as int) =~= ns);
    text
}

fn diagnostic_to_lsp(uri: &str, source: &str, diagnostic: &CompilerDiagnostic) -> (lsp: LspDiagnostic)
    requires
        labels_on_boundaries(source@, diagnostic.labels@),
    ensures
        diagnostic_matches(uri@, source@, *diagnostic, lsp),
{
    let range = diagnostic_lsp_range(source, diagnostic.labels.as_slice());
    let message = diagnostic_message(&diagnostic.message, &diagnostic.notes);
    let code = match &diagnostic.code {
        Some(code) => Some(code.clone()),
        None => None,
    };
    let related_information = related_information(uri, source, diagnostic.labels.as_slice());
    LspDiagnostic {
        range,
        code,
        severity: Some(severity(diagnostic.severity)),
        source: Some(String::from_str("ql")),
        message,
        related_information,
    }
}

/// The compiler diagnostics of a document as the editor receives them, in
/// order.
pub fn diagnostics_to_lsp(uri: &str, source: &str, diagnostics: &[CompilerDiagnostic]) -> (lsp: Vec<LspDiagnostic>)
    requires
        forall|i: int| 0 <= i < diagnostics@.len() ==> labels_on_boundaries(source@, (#[trigger] diagnostics@[i]).labels@),
    ensures
        lsp@.len() == diagnostics@.len(),
        forall|i: int| 0 <= i < diagnostics@.len() ==> diagnostic_matches(uri@, source@, #[trigger] diagnostics@[i], lsp@[i]),
{
    let mut lsp: Vec<LspDiagnostic> = Vec::new();
    let mut k: usize = 0;
    while k < diagnostics.len()
        invariant
            k <= diagnostics@.len(),
            lsp@.len() == k,
            forall|i: int| 0 <= i < diagnostics@.len() ==> labels_on_boundaries(source@, (#[trigger] diagnostics@[i]).labels@),
            forall|i: int| 0 <= i < k ==> diagnostic_matches(uri@, source@, #[trigger] diagnostics@[i], lsp@[i]),
        decreases diagnostics@.len() - k,
    {
        assert(labels_on_boundaries(source@, diagnostics@[k as int].labels@));
        let d = diagnostic_to_lsp(uri, source, &diagnostics[k]);
        lsp.push(d);
        k = k + 1;
    }
    lsp
}

} // verus!
