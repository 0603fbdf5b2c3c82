use vstd::prelude::*;

use vstd::string::StringExecFns;

use crate::bridge::clamp_offset;
use crate::features::{offset_at_index, MarkupContent, MarkupKind};
use crate::span::Span;
use crate::strings::{ends_with, is_prefix_of, is_suffix_of, join, join_spec, starts_with, strings_view, trim, trim_spec};
use crate::text::{
    byte_offset, char_index_at, char_indices, char_is_ascii_alphanumeric, index_of_offset, is_ascii_alnum_char,
    is_boundary, lemma_byte_offset_bound, source_chars, str_byte_len, str_equal, string_from_chars,
};

verus! {

/// Chars that may belong to a completion prefix.
pub fn is_completion_identifier_char(ch: char) -> (r: bool)
    ensures
        r == (ch == '_' || ch == '`' || is_ascii_alnum_char(ch)),
{
    ch == '_' || ch == '`' || char_is_ascii_alphanumeric(ch)
}

/// A completion matches an empty prefix, or one that its label or its
/// inserted text starts with.
pub fn completion_matches_prefix(label: &str, insert_text: &str, prefix: &str) -> (r: bool)
    ensures
        r == (prefix@.len() == 0 || is_prefix_of(prefix@, label@) || is_prefix_of(prefix@, insert_text@)),
{
    prefix.is_empty() || starts_with(label, prefix) || starts_with(insert_text, prefix)
}

/// Fixed-type `std.option` helpers kept for compatibility.
pub open spec fn std_option_compat_label(label: Seq<char>) -> bool {
    ||| label == "IntOption"@
    ||| label == "BoolOption"@
    ||| label == "some_int"@
    ||| label == "none_int"@
    ||| label == "is_some_int"@
    ||| label == "is_none_int"@
    ||| label == "unwrap_or_int"@
    ||| label == "or_int"@
    ||| label == "or_option_int"@
    ||| label == "value_or_zero_int"@
    ||| label == "some_bool"@
    ||| label == "none_bool"@
    ||| label == "is_some_bool"@
    ||| label == "is_none_bool"@
    ||| label == "unwrap_or_bool"@
    ||| label == "or_option_bool"@
    ||| label == "value_or_false_bool"@
    ||| label == "value_or_true_bool"@
}

pub fn is_std_option_compat_completion(label: &str) -> (r: bool)
    ensures
        r == std_option_compat_label(label@),
{
    str_equal(label, "IntOption")
        || str_equal(label, "BoolOption")
        || str_equal(label, "some_int")
        || str_equal(label, "none_int")
        || str_equal(label, "is_some_int")
        || str_equal(label, "is_none_int")
        || str_equal(label, "unwrap_or_int")
        || str_equal(label, "or_int")
        || str_equal(label, "or_option_int")
        || str_equal(label, "value_or_zero_int")
        || str_equal(label, "some_bool")
        || str_equal(label, "none_bool")
        || str_equal(label, "is_some_bool")
        || str_equal(label, "is_none_bool")
        || str_equal(label, "unwrap_or_bool")
        || str_equal(label, "or_option_bool")
        || str_equal(label, "value_or_false_bool")
        || str_equal(label, "value_or_true_bool")
}

/// Fixed-type `std.result` helpers kept for compatibility.
pub open spec fn std_result_compat_label(label: Seq<char>) -> bool {
    ||| label == "IntResult"@
    ||| label == "BoolResult"@
    ||| label == "ok_int"@
    ||| label == "err_int"@
    ||| label == "is_ok_int"@
    ||| label == "is_err_int"@
    ||| label == "unwrap_result_or_int"@
    ||| label == "or_result_int"@
    ||| label == "error_or_zero_int"@
    ||| label == "error_to_option_int"@
    ||| label == "ok_bool"@
    ||| label == "err_bool"@
    ||| label == "is_ok_bool"@
    ||| label == "is_err_bool"@
    ||| label == "unwrap_result_or_bool"@
    ||| label == "or_result_bool"@
    ||| label == "error_or_zero_bool"@
    ||| label == "error_to_option_bool"@
    ||| label == "ok_or_int"@
    ||| label == "ok_or_bool"@
    ||| label == "to_option_int"@
    ||| label == "to_option_bool"@
}

pub fn is_std_result_compat_completion(label: &str) -> (r: bool)
    ensures
        r == std_result_compat_label(label@),
{
    str_equal(label, "IntResult")
        || str_equal(label, "BoolResult")
        || str_equal(label, "ok_int")
        || str_equal(label, "err_int")
        || str_equal(label, "is_ok_int")
        || str_equal(label, "is_err_int")
        || str_equal(label, "unwrap_result_or_int")
        || str_equal(label, "or_result_int")
        || str_equal(label, "error_or_zero_int")
        || str_equal(label, "error_to_option_int")
        || str_equal(label, "ok_bool")
        || str_equal(label, "err_bool")
        || str_equal(label, "is_ok_bool")
        || str_equal(label, "is_err_bool")
        || str_equal(label, "unwrap_result_or_bool")
        || str_equal(label, "or_result_bool")
        || str_equal(label, "error_or_zero_bool")
        || str_equal(label, "error_to_option_bool")
        || str_equal(label, "ok_or_int")
        || str_equal(label, "ok_or_bool")
        || str_equal(label, "to_option_int")
        || str_equal(label, "to_option_bool")
}

/// Fixed-arity `std.array` helpers kept for compatibility: names ending in
/// `_array` whose stem ends in an arity 3, 4 or 5, optionally followed by
/// `_int` or `_bool`.
pub open spec fn std_array_fixed_arity_label(label: Seq<char>) -> bool {
    is_suffix_of("_array"@, label) && {
        let stem = label.take(label.len() - "_array"@.len());
        ||| is_suffix_of("3"@, stem)
        ||| is_suffix_of("3_int"@, stem)
        ||| is_suffix_of("3_bool"@, stem)
        ||| is_suffix_of("4"@, stem)
        ||| is_suffix_of("4_int"@, stem)
        ||| is_suffix_of("4_bool"@, stem)
        ||| is_suffix_of("5"@, stem)
        ||| is_suffix_of("5_int"@, stem)
        ||| is_suffix_of("5_bool"@, stem)
    }
}

pub fn is_std_array_fixed_arity_completion(label: &str) -> (r: bool)
    ensures
        r == std_array_fixed_arity_label(label@),
{
    if !ends_with(label, "_array") {
        return false;
    }
    let cs = source_chars(label);
    let suffix_len = "_array".unicode_len();
    let stem = string_from_chars(&cs, 0, cs.len() - suffix_len);
    assert(stem@ =~= label@.take(label@.len() - "_array"@.len()));
    let s = stem.as_str();
    ends_with(s, "3") || ends_with(s, "3_int") || ends_with(s, "3_bool") || ends_with(s, "4")
        || ends_with(s, "4_int") || ends_with(s, "4_bool") || ends_with(s, "5") || ends_with(
        s,
        "5_int",
    ) || ends_with(s, "5_bool")
}

// ---------------------------------------------------------------------------
// The text a completion replaces.
// ---------------------------------------------------------------------------

pub open spec fn completion_char(c: char) -> bool {
    c == '_' || c == '`' || is_ascii_alnum_char(c)
}

/// The char index where the run of completion chars ending at `m` starts.
pub open spec fn completion_run_start(cs: Seq<char>, m: int) -> int
    decreases m,
{
    if 0 < m <= cs.len() && completion_char(cs[m - 1]) {
        completion_run_start(cs, m - 1)
    } else {
        m
    }
}

/// The char index where the run of completion chars starting at `m` ends.
pub open spec fn completion_run_end(cs: Seq<char>, m: int) -> int
    decreases cs.len() - m,
{
    if 0 <= m < cs.len() && completion_char(cs[m]) {
        completion_run_end(cs, m + 1)
    } else {
        m
    }
}

/// The completion chars around a byte offset (clamped to the end of the
/// text), as a byte span; empty when there are none.
pub open spec fn completion_span(cs: Seq<char>, offset: int) -> Span {
    let m = index_of_offset(cs, clamp_offset(cs, offset));
    Span {
        start: byte_offset(cs, completion_run_start(cs, m)) as usize,
        end: byte_offset(cs, completion_run_end(cs, m)) as usize,
    }
}

proof fn lemma_completion_run_start_bounds(cs: Seq<char>, m: int)
    requires
        0 <= m <= cs.len(),
    ensures
        0 <= completion_run_start(cs, m) <= m,
    decreases m,
{
    if 0 < m && completion_char(cs[m - 1]) {
        lemma_completion_run_start_bounds(cs, m - 1);
    }
}

proof fn lemma_completion_run_end_bounds(cs: Seq<char>, m: int)
    requires
        0 <= m <= cs.len(),
    ensures
        m <= completion_run_end(cs, m) <= cs.len(),
    decreases cs.len() - m,
{
    if m < cs.len() && completion_char(cs[m]) {
        lemma_completion_run_end_bounds(cs, m + 1);
    }
}

/// The span a completion at `offset` replaces: the identifier chars (and
/// backticks) around it.
pub fn completion_replace_span(source: &str, offset: usize) -> (span: Span)
    requires
        is_boundary(source@, clamp_offset(source@, offset as int)),
    ensures
        span == completion_span(source@, offset as int),
{
    let ghost cs = source@;
    let len = str_byte_len(source);
    let cis = char_indices(source);
    let chars = source_chars(source);
    let clamped = if offset < len {
        offset
    } else {
        len
    };
    let m = char_index_at(&cis, len, clamped, Ghost(cs));
    let mut a = m;
    while a > 0 && is_completion_identifier_char(chars[a - 1])
        invariant
            a <= m <= chars@.len(),
            chars@ == cs,
            completion_run_start(cs, m as int) == completion_run_start(cs, a as int),
        decreases a,
    {
        a = a - 1;
    }
    let mut b = m;
    while b < chars.len() && is_completion_identifier_char(chars[b])
        invariant
            m <= b <= chars@.len(),
            chars@ == cs,
            completion_run_end(cs, m as int) == completion_run_end(cs, b as int),
        decreases chars@.len() - b,
    {
        b = b + 1;
    }
    proof {
        lemma_completion_run_start_bounds(cs, m as int);
        lemma_completion_run_end_bounds(cs, m as int);
        lemma_byte_offset_bound(cs, a as int);
        lemma_byte_offset_bound(cs, b as int);
    }
    Span::new(offset_at_index(&cis, len, a, Ghost(cs)), offset_at_index(&cis, len, b, Ghost(cs)))
}

// ---------------------------------------------------------------------------
// Completion documentation.
// ---------------------------------------------------------------------------

/// The sections of a completion's documentation: the declaration in a
/// code block (when it is not blank), its type, and a note.
pub open spec fn documentation_sections(detail: Seq<char>, ty: Option<Seq<char>>, note: Option<Seq<char>>) -> Seq<Seq<char>> {
    (if trim_spec(detail).len() > 0 {
        seq!["```ql\n"@ + detail + "\n```"@]
    } else {
        seq![]
    }) + (match ty {
        Some(ty) => seq!["Type: `"@ + ty + "`"@],
        None => seq![],
    }) + match note {
        Some(note) => seq![note],
        None => seq![],
    }
}

/// Markdown documentation of the sections separated by blank lines; none
/// when there is no section.
pub fn completion_documentation_from_parts_with_note(detail: &str, ty: Option<&str>, note: Option<&str>) -> (doc: Option<MarkupContent>)
    ensures
        match doc {
            Some(doc) => {
                &&& documentation_sections(detail@, opt_str(ty), opt_str(note)).len() > 0
                &&& doc.kind == MarkupKind::Markdown
                &&& doc.value@ == join_spec(documentation_sections(detail@, opt_str(ty), opt_str(note)), "\n\n"@)
            },
            None => documentation_sections(detail@, opt_str(ty), opt_str(note)).len() == 0,
        },
{
    let mut sections: Vec<String> = Vec::new();
    let trimmed = trim(detail);
    if !trimmed.as_str().is_empty() {
        let mut section = String::from_str("```ql\n");
        section.append(detail);
        section.append("\n```");
        sections.push(section);
    }
    let ghost after_detail = strings_view(sections@);
    match ty {
        Some(ty) => {
            let mut section = String::from_str("Type: `");
            section.append(ty);
            section.append("`");
            sections.push(section);
        },
        None => {},
    }
    let ghost after_ty = strings_view(sections@);
    match note {
        Some(note) => {
            sections.push(note.to_string());
        },
        None => {},
    }
    proof {
        assert(strings_view(sections@) =~= documentation_sections(detail@, opt_str(ty), opt_str(note)));
    }
    if sections.len() == 0 {
        return None;
    }
    Some(MarkupContent { kind: MarkupKind::Markdown, value: join(sections.as_slice(), "\n\n") })
}

/// Documentation from a declaration and its type, with no note.
pub fn completion_documentation_from_parts(detail: &str, ty: Option<&str>) -> (doc: Option<MarkupContent>)
    ensures
        match doc {
            Some(doc) => {
                &&& documentation_sections(detail@, opt_str(ty), None).len() > 0
                &&& doc.kind == MarkupKind::Markdown
                &&& doc.value@ == join_spec(documentation_sections(detail@, opt_str(ty), None), "\n\n"@)
            },
            None => documentation_sections(detail@, opt_str(ty), None).len() == 0,
        },
{
    completion_documentation_from_parts_with_note(detail, ty, None)
}

pub open spec fn opt_str(s: Option<&str>) -> Option<Seq<char>> {
    match s {
        Some(s) => Some(s@),
        None => None,
    }
}

} // verus!
