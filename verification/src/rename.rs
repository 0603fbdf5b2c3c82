use vstd::prelude::*;
use vstd::string::StringExecFns;

use crate::bridge::{span_range, span_to_range, Range, TextEdit};
use crate::broken::{
    binding_view, bindings_from, bindings_ok, bindings_view, broken_source_import_binding_matches_path,
    broken_source_import_bindings_in_tokens, broken_source_import_token_matches_reference_context,
    binding_segments_ok, imported_segment, lemma_bindings_from_ok, lemma_clamp_on_boundary, reference_context,
    BindingView, BrokenSourceImportBinding,
};
use crate::features::{lemma_lexed_spans_on_boundaries, spans_on_boundaries};
use crate::imports::{segment_at, tokens_segments_ok, Segment, TokenView};
use crate::lexer::{
    ident_continue_char, ident_start_char, is_ident_continue, is_ident_start, is_keyword, keyword_kind,
    lex, lex_spec, tokens_view, Token, TokenKind,
};
use crate::locations::range_key_le;
use crate::span::Span;
use crate::strings::strings_view;
use crate::text::{is_boundary, source_chars, str_byte_len, str_equal};

verus! {

// ---------------------------------------------------------------------------
// Checking a new name.
// ---------------------------------------------------------------------------

/// Why a rename was refused; each carries the refused text.
#[derive(Debug, PartialEq, Eq)]
pub enum RenameError {
    InvalidIdentifier(String),
    Keyword(String),
}

/// An identifier: an identifier-start char followed by identifier chars.
pub open spec fn is_identifier(name: Seq<char>) -> bool {
    &&& name.len() > 0
    &&& ident_start_char(name[0])
    &&& forall|k: int| 1 <= k < name.len() ==> ident_continue_char(#[trigger] name[k])
}

/// The name between backticks, when the text is one written that way.
pub open spec fn backtick_inner(text: Seq<char>) -> Option<Seq<char>> {
    if text.len() >= 2 && text[0] == '`' && text[text.len() - 1] == '`' {
        Some(text.subrange(1, text.len() - 1))
    } else {
        None
    }
}

/// What checking a new name gives: a name between backticks must be an
/// identifier (keywords included); a bare name must be an identifier and no
/// keyword.
pub open spec fn rename_text_check(text: Seq<char>) -> Result<(), (bool, Seq<char>)> {
    match backtick_inner(text) {
        Some(inner) => if is_identifier(inner) {
            Ok(())
        } else {
            Err((false, text))
        },
        None => if !is_identifier(text) {
            Err((false, text))
        } else if keyword_kind(text) is Some {
            Err((true, text))
        } else {
            Ok(())
        },
    }
}

fn chars_are_identifier(cs: &Vec<char>, from: usize, to: usize) -> (identifier: bool)
    requires
        from <= to <= cs@.len(),
    ensures
        identifier == is_identifier(cs@.subrange(from as int, to as int)),
{
    let ghost name = cs@.subrange(from as int, to as int);
    if from == to || !is_ident_start(cs[from]) {
        return false;
    }
    let mut k: usize = from + 1;
    while k < to
        invariant
            from < k <= to <= cs@.len(),
            name == cs@.subrange(from as int, to as int),
            forall|j: int| 1 <= j < k - from ==> ident_continue_char(#[trigger] name[j]),
        decreases to - k,
    {
        if !is_ident_continue(cs[k]) {
            assert(name[k - from] == cs@[k as int]);
            return false;
        }
        k = k + 1;
    }
    true
}

/// Checks a new name for a rename.
pub fn validate_rename_text(text: &str) -> (checked: Result<(), RenameError>)
    ensures
        match checked {
            Ok(()) => rename_text_check(text@) is Ok,
            Err(RenameError::InvalidIdentifier(t)) => rename_text_check(text@) == Err::<(), _>((false, t@)),
            Err(RenameError::Keyword(t)) => rename_text_check(text@) == Err::<(), _>((true, t@)),
        },
{
    let cs = source_chars(text);
    let n = cs.len();
    assert(cs@.subrange(0, n as int) =~= text@);
    if n >= 2 && cs[0] == '`' && cs[n - 1] == '`' {
        if chars_are_identifier(&cs, 1, n - 1) {
            return Ok(());
        }
        return Err(RenameError::InvalidIdentifier(text.to_string()));
    }
    if !chars_are_identifier(&cs, 0, n) {
        return Err(RenameError::InvalidIdentifier(text.to_string()));
    }
    if is_keyword(text) {
        return Err(RenameError::Keyword(text.to_string()));
    }
    Ok(())
}

// ---------------------------------------------------------------------------
// Rename edits in a source that may not parse.
// ---------------------------------------------------------------------------

/// Strict range order: start line, start column, end line, end column.
pub open spec fn range_key_lt(a: Range, b: Range) -> bool {
    range_key_le(a, b) && a != b
}

/// Edits that all write `new_name`, in strictly increasing range order (so
/// no range comes twice).
pub open spec fn sorted_rename_edits(edits: Seq<TextEdit>, new_name: Seq<char>) -> bool {
    &&& forall|i: int| 0 <= i < edits.len() ==> (#[trigger] edits[i]).new_text@ == new_name
    &&& forall|i: int, j: int|
        0 <= i < j < edits.len() ==> range_key_lt(#[trigger] edits[i].range, #[trigger] edits[j].range)
}

/// The ranges the edits replace.
pub open spec fn edit_ranges(edits: Seq<TextEdit>) -> Set<Range> {
    Set::new(|r: Range| exists|i: int| 0 <= i < edits.len() && (#[trigger] edits[i]).range == r)
}

/// The editor ranges of the spans.
pub open spec fn span_ranges(cs: Seq<char>, spans: Seq<Span>) -> Set<Range> {
    Set::new(|r: Range| exists|i: int| 0 <= i < spans.len() && span_range(cs, #[trigger] spans[i]) == r)
}

/// The spans, among the first `n` tokens, of the references to an import
/// by its local `name`: identifiers with that text, other than the one that
/// defines it, in a reference context.
pub open spec fn reference_spans(ts: Seq<TokenView>, name: Seq<char>, definition: Span, n: int) -> Seq<Span>
    decreases n,
{
    if n <= 0 {
        seq![]
    } else {
        let rest = reference_spans(ts, name, definition, n - 1);
        let k = n - 1;
        if ts[k].0 == TokenKind::Ident && ts[k].1 == name && ts[k].2 != definition && reference_context(
            ts,
            k,
        ) {
            rest.push(ts[k].2)
        } else {
            rest
        }
    }
}

/// What renaming through one binding rewrites: its imported name and, when
/// `with_references`, each reference to it.
pub open spec fn binding_edit_spans(ts: Seq<TokenView>, b: BindingView, with_references: bool) -> Seq<Span> {
    seq![b.3] + if with_references {
        reference_spans(ts, b.2, b.4, ts.len() as int)
    } else {
        seq![]
    }
}

fn range_key_less(a: Range, b: Range) -> (lt: bool)
    ensures
        lt == range_key_lt(a, b),
{
    if a.start.line != b.start.line {
        a.start.line < b.start.line
    } else if a.start.character != b.start.character {
        a.start.character < b.start.character
    } else if a.end.line != b.end.line {
        a.end.line < b.end.line
    } else {
        a.end.character < b.end.character
    }
}

/// Adds an edit of `range` in its place in the order, unless that range is
/// there already.
fn insert_rename_edit(edits: &mut Vec<TextEdit>, range: Range, new_name: &str)
    requires
        sorted_rename_edits(old(edits)@, new_name@),
    ensures
        sorted_rename_edits(final(edits)@, new_name@),
        edit_ranges(final(edits)@) == edit_ranges(old(edits)@).insert(range),
{
    let ghost old_edits = edits@;
    let mut k: usize = 0;
    while k < edits.len()
        invariant
            edits@ == old_edits,
            k <= edits@.len(),
            forall|i: int| 0 <= i < k ==> range_key_lt(#[trigger] edits@[i].range, range),
        ensures
            edits@ == old_edits,
            k <= edits@.len(),
            forall|i: int| 0 <= i < k ==> range_key_lt(#[trigger] edits@[i].range, range),
            k < edits@.len() ==> !range_key_lt(edits@[k as int].range, range),
        decreases edits@.len() - k,
    {
        if !range_key_less(edits[k].range, range) {
            break;
        }
        k = k + 1;
    }
    if k < edits.len() && edits[k].range == range {
        assert(edit_ranges(edits@) =~= edit_ranges(old_edits).insert(range)) by {
            assert(edits@[k as int].range == range);
        }
        return;
    }
    proof {
        if k < edits@.len() {
            assert(!range_key_lt(edits@[k as int].range, range));
            assert(range_key_lt(range, edits@[k as int].range));
        }
    }
    edits.insert(k, TextEdit::new(range, new_name.to_string()));
    proof {
        let s = edits@;
        assert forall|i: int| 0 <= i < s.len() implies (#[trigger] s[i]).new_text@ == new_name@ by {
            if i < k {
                assert(s[i] == old_edits[i]);
            } else if i > k {
                assert(s[i] == old_edits[i - 1]);
            }
        }
        assert forall|i: int, j: int| 0 <= i < j < s.len() implies range_key_lt(
            #[trigger] s[i].range,
            #[trigger] s[j].range,
        ) by {
            if j < k {
                assert(s[i] == old_edits[i] && s[j] == old_edits[j]);
            } else if j == k {
                assert(s[i] == old_edits[i]);
            } else if i < k {
                assert(s[i] == old_edits[i] && s[j] == old_edits[j - 1]);
                assert(range_key_lt(old_edits[i].range, range));
                assert(range_key_lt(range, old_edits[k as int].range));
                if j - 1 > k {
                    assert(range_key_lt(old_edits[k as int].range, old_edits[j - 1].range));
                }
            } else if i == k {
                assert(s[j] == old_edits[j - 1]);
                if j - 1 > k {
                    assert(range_key_lt(old_edits[k as int].range, old_edits[j - 1].range));
                }
            } else {
                assert(s[i] == old_edits[i - 1] && s[j] == old_edits[j - 1]);
            }
        }
        assert forall|r: Range| edit_ranges(s).contains(r) == edit_ranges(old_edits).insert(range).contains(r) by {
            if edit_ranges(s).contains(r) {
                let i = choose|i: int| 0 <= i < s.len() && (#[trigger] s[i]).range == r;
                if i < k {
                    assert(s[i] == old_edits[i]);
                } else if i > k {
                    assert(s[i] == old_edits[i - 1]);
                }
            }
            if edit_ranges(old_edits).contains(r) {
                let i = choose|i: int| 0 <= i < old_edits.len() && (#[trigger] old_edits[i]).range == r;
                if i < k {
                    assert(s[i] == old_edits[i]);
                } else {
                    assert(s[i + 1] == old_edits[i]);
                }
            }
            if r == range {
                assert(s[k as int].range == range);
            }
        }
        assert(edit_ranges(s) =~= edit_ranges(old_edits).insert(range));
    }
}

/// Both ends of every token span are char boundaries, so the spans can be
/// turned into editor ranges.
pub open spec fn span_on_boundaries(cs: Seq<char>) -> spec_fn(Segment) -> bool {
    |s: Segment| is_boundary(cs, s.1.start as int) && is_boundary(cs, s.1.end as int)
}

/// Adds the edits for the references, among all the tokens, to an import by
/// its local name.
fn add_reference_edits(
    source: &str,
    tokens: &Vec<Token>,
    local_name: &str,
    definition_span: Span,
    new_name: &str,
    edits: &mut Vec<TextEdit>,
)
    requires
        tokens_view(tokens@) == lex_spec(source@).0,
        spans_on_boundaries(source@, tokens_view(tokens@)),
        sorted_rename_edits(old(edits)@, new_name@),
    ensures
        sorted_rename_edits(final(edits)@, new_name@),
        edit_ranges(final(edits)@) == edit_ranges(old(edits)@) + span_ranges(
            source@,
            reference_spans(tokens_view(tokens@), local_name@, definition_span, tokens@.len() as int),
        ),
{
    let ghost ts = tokens_view(tokens@);
    let ghost start = edits@;
    let mut k: usize = 0;
    assert(span_ranges(source@, reference_spans(ts, local_name@, definition_span, 0)) =~= Set::empty());
    assert(edit_ranges(start) + Set::empty() =~= edit_ranges(start));
    while k < tokens.len()
        invariant
            ts == tokens_view(tokens@),
            ts == lex_spec(source@).0,
            spans_on_boundaries(source@, ts),
            k <= tokens@.len(),
            sorted_rename_edits(edits@, new_name@),
            edit_ranges(edits@) == edit_ranges(start) + span_ranges(
                source@,
                reference_spans(ts, local_name@, definition_span, k as int),
            ),
        decreases tokens@.len() - k,
    {
        let token = &tokens[k];
        let ghost before = reference_spans(ts, local_name@, definition_span, k as int);
        if token.kind == TokenKind::Ident && str_equal(token.text.as_str(), local_name) && token.span
            != definition_span && broken_source_import_token_matches_reference_context(tokens.as_slice(), k) {
            proof {
                assert(ts[k as int] == (token.kind, token.text@, token.span));
                lemma_clamp_on_boundary(source@, token.span.start as int);
                lemma_clamp_on_boundary(source@, token.span.end as int);
            }
            let range = span_to_range(source, token.span);
            insert_rename_edit(edits, range, new_name);
            proof {
                let after = before.push(token.span);
                assert(reference_spans(ts, local_name@, definition_span, k + 1) == after);
                assert(span_ranges(source@, after) =~= span_ranges(source@, before).insert(range)) by {
                    assert forall|r: Range| #[trigger] span_ranges(source@, after).contains(r) implies span_ranges(
                        source@,
                        before,
                    ).insert(range).contains(r) by {
                        let i = choose|i: int| 0 <= i < after.len() && span_range(source@, #[trigger] after[i]) == r;
                        if i < before.len() {
                            assert(after[i] == before[i]);
                        }
                    }
                    assert forall|r: Range| #[trigger] span_ranges(source@, before).insert(range).contains(r) implies span_ranges(
                        source@,
                        after,
                    ).contains(r) by {
                        if r == range {
                            assert(span_range(source@, after[before.len() as int]) == r);
                        } else {
                            let i = choose|i: int| 0 <= i < before.len() && span_range(source@, #[trigger] before[i]) == r;
                            assert(after[i] == before[i]);
                        }
                    }
                }
                assert(edit_ranges(edits@) =~= edit_ranges(start) + span_ranges(source@, after));
            }
        } else {
            proof {
                assert(ts[k as int] == (token.kind, token.text@, token.span));
                assert(reference_spans(ts, local_name@, definition_span, k + 1) == before);
            }
        }
        k = k + 1;
    }
}

proof fn lemma_span_ranges_concat(cs: Seq<char>, a: Seq<Span>, b: Seq<Span>)
    ensures
        span_ranges(cs, a + b) == span_ranges(cs, a) + span_ranges(cs, b),
{
    let ab = a + b;
    assert forall|r: Range| #[trigger] span_ranges(cs, ab).contains(r) == (span_ranges(cs, a) + span_ranges(cs, b)).contains(r) by {
        if span_ranges(cs, ab).contains(r) {
            let i = choose|i: int| 0 <= i < ab.len() && span_range(cs, #[trigger] ab[i]) == r;
            if i < a.len() {
                assert(ab[i] == a[i]);
            } else {
                assert(ab[i] == b[i - a.len()]);
            }
        }
        if span_ranges(cs, a).contains(r) {
            let i = choose|i: int| 0 <= i < a.len() && span_range(cs, #[trigger] a[i]) == r;
            assert(ab[i] == a[i]);
        }
        if span_ranges(cs, b).contains(r) {
            let i = choose|i: int| 0 <= i < b.len() && span_range(cs, #[trigger] b[i]) == r;
            assert(ab[a.len() + i] == b[i]);
        }
    }
    assert(span_ranges(cs, ab) =~= span_ranges(cs, a) + span_ranges(cs, b));
}

proof fn lemma_span_ranges_single(cs: Seq<char>, s: Span)
    ensures
        span_ranges(cs, seq![s]) == Set::<Range>::empty().insert(span_range(cs, s)),
{
    assert(span_range(cs, seq![s][0]) == span_range(cs, s));
    assert(span_ranges(cs, seq![s]) =~= Set::<Range>::empty().insert(span_range(cs, s)));
}

pub(crate) proof fn lemma_tokens_on_boundaries(cs: Seq<char>, ts: Seq<TokenView>)
    requires
        spans_on_boundaries(cs, ts),
    ensures
        tokens_segments_ok(ts, span_on_boundaries(cs)),
{
    assert forall|k: int| 0 <= k < ts.len() implies #[trigger] (span_on_boundaries(cs))(segment_at(ts, k)) by {
        assert(segment_at(ts, k).1 == ts[k].2);
    }
}

fn empty_rename_edits(new_name: &str) -> (edits: Vec<TextEdit>)
    ensures
        sorted_rename_edits(edits@, new_name@),
        edit_ranges(edits@) == Set::<Range>::empty(),
{
    let edits: Vec<TextEdit> = Vec::new();
    assert(edit_ranges(edits@) =~= Set::<Range>::empty());
    edits
}

/// The edits that rename what one import binding brings in: its imported
/// name, and every reference to it when it is not renamed by an alias; in
/// range order, each range once.
pub fn broken_source_root_symbol_rename_edits_for_import_binding(
    source: &str,
    binding: &BrokenSourceImportBinding,
    new_name: &str,
) -> (edits: Vec<TextEdit>)
    requires
        is_boundary(source@, binding.imported_span.start as int),
        is_boundary(source@, binding.imported_span.end as int),
    ensures
        sorted_rename_edits(edits@, new_name@),
        edit_ranges(edits@) == span_ranges(
            source@,
            binding_edit_spans(
                lex_spec(source@).0,
                binding_view(*binding),
                binding.local_name@ == binding.imported_name@,
            ),
        ),
{
    let ghost cs = source@;
    let ghost ts = lex_spec(cs).0;
    let _len = str_byte_len(source);
    let mut edits = empty_rename_edits(new_name);
    proof {
        lemma_clamp_on_boundary(cs, binding.imported_span.start as int);
        lemma_clamp_on_boundary(cs, binding.imported_span.end as int);
    }
    let range = span_to_range(source, binding.imported_span);
    insert_rename_edit(&mut edits, range, new_name);
    let ghost first = edit_ranges(edits@);
    let with_references = str_equal(binding.local_name.as_str(), binding.imported_name.as_str());
    proof {
        lemma_span_ranges_single(cs, binding.imported_span);
        assert(first =~= Set::<Range>::empty().insert(range));
    }
    if with_references {
        let (tokens, _) = lex(source);
        proof {
            lemma_lexed_spans_on_boundaries(cs);
        }
        add_reference_edits(source, &tokens, binding.local_name.as_str(), binding.definition_span, new_name, &mut edits);
        proof {
            let refs = reference_spans(ts, binding.local_name@, binding.definition_span, ts.len() as int);
            lemma_span_ranges_concat(cs, seq![binding.imported_span], refs);
        }
    } else {
        proof {
            assert(seq![binding.imported_span] + Seq::<Span>::empty() =~= seq![binding.imported_span]);
        }
    }
    edits
}

/// How many bindings bring in a name under `name`.
pub open spec fn local_name_count(bs: Seq<BindingView>, name: Seq<char>) -> nat
    decreases bs.len(),
{
    if bs.len() == 0 {
        0
    } else {
        local_name_count(bs.drop_last(), name) + if bs.last().2 == name {
            1nat
        } else {
            0nat
        }
    }
}

/// What renaming the item at `path` rewrites, over the first `n` bindings:
/// for each binding of exactly that path, its imported name, and the
/// references to it when it is not renamed by an alias and no other binding
/// brings in the same local name.
pub open spec fn path_rename_spans(ts: Seq<TokenView>, bs: Seq<BindingView>, path: Seq<Seq<char>>, n: int) -> Seq<Span>
    decreases n,
{
    if n <= 0 {
        seq![]
    } else {
        let b = bs[n - 1];
        path_rename_spans(ts, bs, path, n - 1) + if path == b.1.push(b.0) {
            binding_edit_spans(ts, b, b.2 == b.0 && local_name_count(bs, b.2) == 1)
        } else {
            seq![]
        }
    }
}

fn count_local_name(bindings: &Vec<BrokenSourceImportBinding>, name: &str) -> (count: usize)
    ensures
        count == local_name_count(bindings_view(bindings@), name@),
{
    let ghost bs = bindings_view(bindings@);
    let mut count: usize = 0;
    let mut k: usize = 0;
    while k < bindings.len()
        invariant
            bs == bindings_view(bindings@),
            k <= bindings@.len(),
            count == local_name_count(bs.take(k as int), name@),
            count <= k,
        decreases bindings@.len() - k,
    {
        assert(bs.take(k + 1).drop_last() =~= bs.take(k as int));
        if str_equal(bindings[k].local_name.as_str(), name) {
            count = count + 1;
        }
        k = k + 1;
    }
    assert(bs.take(bindings@.len() as int) =~= bs);
    count
}

/// The edits that rename the item at `import_path` where a source, which
/// may not parse, imports it: each binding of exactly that path gets its
/// imported name rewritten, and its references too when it is not renamed
/// by an alias and its local name is brought in once; in range order, each
/// range once.
pub fn broken_source_root_symbol_rename_edits_for_import_path_in_source(
    source: &str,
    import_path: &[String],
    new_name: &str,
) -> (edits: Vec<TextEdit>)
    ensures
        sorted_rename_edits(edits@, new_name@),
        edit_ranges(edits@) == span_ranges(
            source@,
            path_rename_spans(
                lex_spec(source@).0,
                bindings_from(lex_spec(source@).0, 0),
                strings_view(import_path@),
                bindings_from(lex_spec(source@).0, 0).len() as int,
            ),
        ),
{
    let ghost cs = source@;
    let _len = str_byte_len(source);
    let (tokens, _) = lex(source);
    let ghost ts = tokens_view(tokens@);
    let bindings = broken_source_import_bindings_in_tokens(tokens.as_slice());
    let ghost bs = bindings_view(bindings@);
    let ghost path = strings_view(import_path@);
    proof {
        lemma_lexed_spans_on_boundaries(cs);
        lemma_tokens_on_boundaries(cs, ts);
        lemma_bindings_from_ok(ts, span_on_boundaries(cs), 0);
    }
    let mut edits = empty_rename_edits(new_name);
    let mut k: usize = 0;
    assert(span_ranges(cs, path_rename_spans(ts, bs, path, 0)) =~= Set::empty());
    while k < bindings.len()
        invariant
            ts == tokens_view(tokens@),
            ts == lex_spec(cs).0,
            cs == source@,
            spans_on_boundaries(cs, ts),
            bs == bindings_view(bindings@),
            bs == bindings_from(ts, 0),
            bindings_ok(bs, span_on_boundaries(cs)),
            path == strings_view(import_path@),
            k <= bindings@.len(),
            sorted_rename_edits(edits@, new_name@),
            edit_ranges(edits@) == span_ranges(cs, path_rename_spans(ts, bs, path, k as int)),
        decreases bindings@.len() - k,
    {
        let binding = &bindings[k];
        let ghost b = bs[k as int];
        let ghost before = path_rename_spans(ts, bs, path, k as int);
        assert(b == binding_view(*binding));
        if broken_source_import_binding_matches_path(binding, import_path) {
            proof {
                assert(binding_segments_ok(bs[k as int], span_on_boundaries(cs)));
                assert((span_on_boundaries(cs))(imported_segment(bs[k as int])));
                lemma_clamp_on_boundary(cs, binding.imported_span.start as int);
                lemma_clamp_on_boundary(cs, binding.imported_span.end as int);
            }
            let range = span_to_range(source, binding.imported_span);
            insert_rename_edit(&mut edits, range, new_name);
            proof {
                lemma_span_ranges_single(cs, binding.imported_span);
                lemma_span_ranges_concat(cs, before, seq![binding.imported_span]);
            }
            let with_references = str_equal(binding.local_name.as_str(), binding.imported_name.as_str())
                && count_local_name(&bindings, binding.local_name.as_str()) == 1;
            if with_references {
                add_reference_edits(source, &tokens, binding.local_name.as_str(), binding.definition_span, new_name, &mut edits);
                proof {
                    let refs = reference_spans(ts, b.2, b.4, ts.len() as int);
                    lemma_span_ranges_concat(cs, seq![binding.imported_span], refs);
                    lemma_span_ranges_concat(cs, before, seq![binding.imported_span] + refs);
                    assert(edit_ranges(edits@) =~= span_ranges(cs, before + binding_edit_spans(ts, b, true)));
                }
            } else {
                proof {
                    assert(binding_edit_spans(ts, b, false) =~= seq![binding.imported_span]);
                }
            }
            assert(edit_ranges(edits@) == span_ranges(cs, path_rename_spans(ts, bs, path, k + 1)));
        } else {
            proof {
                assert(before + Seq::<Span>::empty() =~= before);
            }
        }
        k = k + 1;
    }
    edits
}

} // verus!
