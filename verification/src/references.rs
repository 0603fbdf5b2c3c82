use vstd::prelude::*;

use crate::bridge::{span_range, span_to_range, Range};
use crate::broken::{
    broken_source_impl_block_sites_in_source, broken_source_root_definition_sites_in_source,
    impl_site_view, impl_sites_from, impl_sites_ok, lemma_impl_sites_ok, lemma_root_sites_ok,
    root_site_view, root_sites_from, root_sites_ok, segments_ok, ImplSiteView, BrokenSourceImplBlockSite,
    BrokenSourceRootDefinitionSite, binding_segments_ok, binding_view, bindings_from, bindings_ok, bindings_view,
    broken_source_import_binding_matches_path, broken_source_import_bindings_in_tokens,
    broken_source_import_token_matches_reference_context, definition_segment, lemma_bindings_from_ok,
    lemma_clamp_on_boundary, BindingView,
};
use crate::features::{lemma_lexed_spans_on_boundaries, spans_on_boundaries};
use crate::imports::{segments_view, Segment, TokenView};
use crate::semantic_tokens::SymbolKind;
use crate::lexer::{lex, lex_spec, tokens_view, Token, TokenKind};
use crate::locations::{locations_view, normalize_locations_in_source_order, normalized_locations, Location};
use crate::rename::{lemma_tokens_on_boundaries, local_name_count, reference_spans, span_on_boundaries};
use crate::span::Span;
use crate::strings::strings_view;
use crate::text::{str_byte_len, str_equal};

verus! {

/// The spans, over the first `n` bindings, of the references to the item at
/// `path` in a source that may not parse: for each binding of exactly that
/// path, its definition when `include_declaration`, and the references to
/// its local name when no other binding brings in the same name.
pub open spec fn import_reference_spans(
    ts: Seq<TokenView>,
    bs: Seq<BindingView>,
    path: Seq<Seq<char>>,
    include_declaration: bool,
    n: int,
) -> Seq<Span>
    decreases n,
{
    if n <= 0 {
        seq![]
    } else {
        let b = bs[n - 1];
        import_reference_spans(ts, bs, path, include_declaration, n - 1) + if path == b.1.push(b.0) {
            (if include_declaration {
                seq![b.4]
            } else {
                seq![]
            }) + if local_name_count(bs, b.2) == 1 {
                reference_spans(ts, b.2, b.4, ts.len() as int)
            } else {
                seq![]
            }
        } else {
            seq![]
        }
    }
}

/// The spans as locations of the document `uri`.
pub open spec fn located(uri: Seq<char>, cs: Seq<char>, spans: Seq<Span>) -> Seq<(Seq<char>, Range)> {
    spans.map_values(|s: Span| (uri, span_range(cs, s)))
}

fn push_location(locations: &mut Vec<Location>, uri: &str, source: &str, span: Span, Ghost(spans): Ghost<Seq<Span>>)
    requires
        crate::text::is_boundary(source@, span.start as int),
        crate::text::is_boundary(source@, span.end as int),
        locations_view(old(locations)@) == located(uri@, source@, spans),
    ensures
        locations_view(final(locations)@) == located(uri@, source@, spans.push(span)),
{
    proof {
        lemma_clamp_on_boundary(source@, span.start as int);
        lemma_clamp_on_boundary(source@, span.end as int);
    }
    let range = span_to_range(source, span);
    let ghost before = locations@;
    locations.push(Location::new(uri.to_string(), range));
    assert(range == span_range(source@, span));
    assert(locations_view(locations@) =~= locations_view(before).push((uri@, range)));
    assert(located(uri@, source@, spans.push(span)) =~= located(uri@, source@, spans).push((uri@, range)));
}

fn push_reference_locations(
    locations: &mut Vec<Location>,
    uri: &str,
    source: &str,
    tokens: &Vec<Token>,
    local_name: &str,
    definition_span: Span,
    Ghost(spans): Ghost<Seq<Span>>,
)
    requires
        tokens_view(tokens@) == lex_spec(source@).0,
        spans_on_boundaries(source@, tokens_view(tokens@)),
        locations_view(old(locations)@) == located(uri@, source@, spans),
    ensures
        locations_view(final(locations)@) == located(
            uri@,
            source@,
            spans + reference_spans(tokens_view(tokens@), local_name@, definition_span, tokens@.len() as int),
        ),
{
    let ghost ts = tokens_view(tokens@);
    let mut k: usize = 0;
    assert(spans + reference_spans(ts, local_name@, definition_span, 0) =~= spans);
    while k < tokens.len()
        invariant
            ts == tokens_view(tokens@),
            ts == lex_spec(source@).0,
            spans_on_boundaries(source@, ts),
            k <= tokens@.len(),
            locations_view(locations@) == located(
                uri@,
                source@,
                spans + reference_spans(ts, local_name@, definition_span, k as int),
            ),
        decreases tokens@.len() - k,
    {
        let token = &tokens[k];
        let ghost before = spans + reference_spans(ts, local_name@, definition_span, k as int);
        assert(ts[k as int] == (token.kind, token.text@, token.span));
        if token.kind == TokenKind::Ident && str_equal(token.text.as_str(), local_name) && token.span
            != definition_span && broken_source_import_token_matches_reference_context(tokens.as_slice(), k) {
            push_location(locations, uri, source, token.span, Ghost(before));
            assert(before.push(token.span) =~= spans + reference_spans(ts, local_name@, definition_span, k + 1));
        } else {
            assert(reference_spans(ts, local_name@, definition_span, k + 1) == reference_spans(
                ts,
                local_name@,
                definition_span,
                k as int,
            ));
        }
        k = k + 1;
    }
}

fn count_bindings_with_local_name(bindings: &Vec<crate::broken::BrokenSourceImportBinding>, name: &str) -> (count: usize)
    ensures
        count == local_name_count(bindings_view(bindings@), name@),
{
    let ghost bs = bindings_view(bindings@);
    let mut count: usize = 0;
    let mut k: usize = 0;
    while k < bindings.len()
        invariant
            bs == bindings_view(bindings@),
            k <= bindings@.len(),
            count == local_name_count(bs.take(k as int), name@),
            count <= k,
        decreases bindings@.len() - k,
    {
        assert(bs.take(k + 1).drop_last() =~= bs.take(k as int));
        if str_equal(bindings[k].local_name.as_str(), name) {
            count = count + 1;
        }
        k = k + 1;
    }
    assert(bs.take(bindings@.len() as int) =~= bs);
    count
}

/// The references to the item at `import_path` in the document `uri`, whose
/// source may not parse, read from its `use` bindings: in source order,
/// each run of overlapping locations reduced to its first.
pub fn broken_source_import_reference_locations_in_source(
    uri: &str,
    source: &str,
    import_path: &[String],
    include_declaration: bool,
) -> (locations: Vec<Location>)
    ensures
        locations_view(locations@) == normalized_locations(
            located(
                uri@,
                source@,
                import_reference_spans(
                    lex_spec(source@).0,
                    bindings_from(lex_spec(source@).0, 0),
                    strings_view(import_path@),
                    include_declaration,
                    bindings_from(lex_spec(source@).0, 0).len() as int,
                ),
            ),
        ),
{
    let ghost cs = source@;
    let _len = str_byte_len(source);
    let (tokens, _) = lex(source);
    let ghost ts = tokens_view(tokens@);
    let bindings = broken_source_import_bindings_in_tokens(tokens.as_slice());
    let ghost bs = bindings_view(bindings@);
    let ghost path = strings_view(import_path@);
    proof {
        lemma_lexed_spans_on_boundaries(cs);
        lemma_tokens_on_boundaries(cs, ts);
        lemma_bindings_from_ok(ts, span_on_boundaries(cs), 0);
    }
    let mut locations: Vec<Location> = Vec::new();
    let mut k: usize = 0;
    assert(locations_view(locations@) =~= located(uri@, cs, import_reference_spans(ts, bs, path, include_declaration, 0)));
    while k < bindings.len()
        invariant
            ts == tokens_view(tokens@),
            ts == lex_spec(cs).0,
            cs == source@,
            spans_on_boundaries(cs, ts),
            bs == bindings_view(bindings@),
            bs == bindings_from(ts, 0),
            bindings_ok(bs, span_on_boundaries(cs)),
            path == strings_view(import_path@),
            k <= bindings@.len(),
            locations_view(locations@) == located(uri@, cs, import_reference_spans(ts, bs, path, include_declaration, k as int)),
        decreases bindings@.len() - k,
    {
        let binding = &bindings[k];
        let ghost b = bs[k as int];
        let ghost before = import_reference_spans(ts, bs, path, include_declaration, k as int);
        assert(b == binding_view(*binding));
        if broken_source_import_binding_matches_path(binding, import_path) {
            let ghost with_declaration = before + if include_declaration {
                seq![b.4]
            } else {
                Seq::<Span>::empty()
            };
            if include_declaration {
                proof {
                    assert(binding_segments_ok(bs[k as int], span_on_boundaries(cs)));
                    assert((span_on_boundaries(cs))(definition_segment(bs[k as int])));
                }
                push_location(&mut locations, uri, source, binding.definition_span, Ghost(before));
                assert(before.push(binding.definition_span) =~= with_declaration);
            } else {
                assert(before + Seq::<Span>::empty() =~= before);
            }
            if count_bindings_with_local_name(&bindings, binding.local_name.as_str()) == 1 {
                push_reference_locations(
                    &mut locations,
                    uri,
                    source,
                    &tokens,
                    binding.local_name.as_str(),
                    binding.definition_span,
                    Ghost(with_declaration),
                );
                assert(with_declaration + reference_spans(ts, b.2, b.4, ts.len() as int) =~= import_reference_spans(
                    ts,
                    bs,
                    path,
                    include_declaration,
                    k + 1,
                ));
            } else {
                assert(with_declaration =~= import_reference_spans(ts, bs, path, include_declaration, k + 1));
            }
        } else {
            assert(before + Seq::<Span>::empty() =~= before);
        }
        k = k + 1;
    }
    normalize_locations_in_source_order(&mut locations);
    locations
}

// ---------------------------------------------------------------------------
// Definitions read from the blocks of a source that may not parse.
// ---------------------------------------------------------------------------

/// The spans of the segments named `name`, in order.
pub open spec fn named_spans(segments: Seq<Segment>, name: Seq<char>) -> Seq<Span>
    decreases segments.len(),
{
    if segments.len() == 0 {
        seq![]
    } else {
        named_spans(segments.drop_last(), name) + if segments.last().0 == name {
            seq![segments.last().1]
        } else {
            seq![]
        }
    }
}

/// The spans of the methods named `name` in the blocks, block by block.
pub open spec fn method_definition_spans(sites: Seq<ImplSiteView>, name: Seq<char>) -> Seq<Span>
    decreases sites.len(),
{
    if sites.len() == 0 {
        seq![]
    } else {
        method_definition_spans(sites.drop_last(), name) + named_spans(sites.last().3, name)
    }
}

/// Where the methods named `method_name` are defined in the `impl` and
/// `extend` blocks at the top level of the document `uri`.
pub fn broken_source_method_definition_locations_in_source(uri: &str, source: &str, method_name: &str) -> (locations: Vec<Location>)
    ensures
        locations_view(locations@) == located(
            uri@,
            source@,
            method_definition_spans(impl_sites_from(uri@, source@, lex_spec(source@).0, 0, 0), method_name@),
        ),
{
    let ghost cs = source@;
    let ghost ts = lex_spec(cs).0;
    let _len = str_byte_len(source);
    let sites = broken_source_impl_block_sites_in_source(uri, source);
    let ghost views = sites@.map_values(|s: BrokenSourceImplBlockSite| impl_site_view(s));
    proof {
        lemma_lexed_spans_on_boundaries(cs);
        lemma_tokens_on_boundaries(cs, ts);
        lemma_impl_sites_ok(uri@, cs, ts, span_on_boundaries(cs), 0, 0);
    }
    let mut locations: Vec<Location> = Vec::new();
    let mut k: usize = 0;
    assert(views.take(0) =~= Seq::<ImplSiteView>::empty());
    assert(locations_view(locations@) =~= located(uri@, cs, method_definition_spans(views.take(0), method_name@)));
    while k < sites.len()
        invariant
            cs == source@,
            views == sites@.map_values(|s: BrokenSourceImplBlockSite| impl_site_view(s)),
            impl_sites_ok(views, span_on_boundaries(cs)),
            k <= sites@.len(),
            locations_view(locations@) == located(uri@, cs, method_definition_spans(views.take(k as int), method_name@)),
        decreases sites@.len() - k,
    {
        let methods = &sites[k].method_spans;
        let ghost segs = segments_view(methods@);
        let ghost before = method_definition_spans(views.take(k as int), method_name@);
        assert(views[k as int].3 == segs);
        assert(segments_ok(segs, span_on_boundaries(cs)));
        let mut m: usize = 0;
        assert(segs.take(0) =~= Seq::<Segment>::empty());
        assert(before + named_spans(segs.take(0), method_name@) =~= before);
        while m < methods.len()
            invariant
                cs == source@,
                segs == segments_view(methods@),
                segments_ok(segs, span_on_boundaries(cs)),
                m <= methods@.len(),
                locations_view(locations@) == located(uri@, cs, before + named_spans(segs.take(m as int), method_name@)),
            decreases methods@.len() - m,
        {
            assert(segs.take(m + 1).drop_last() =~= segs.take(m as int));
            assert(segs[m as int] == (methods@[m as int].0@, methods@[m as int].1));
            let ghost so_far = before + named_spans(segs.take(m as int), method_name@);
            if str_equal(methods[m].0.as_str(), method_name) {
                assert((span_on_boundaries(cs))(segs[m as int]));
                push_location(&mut locations, uri, source, methods[m].1, Ghost(so_far));
                assert(so_far.push(methods@[m as int].1) =~= before + named_spans(segs.take(m + 1), method_name@));
            } else {
                assert(so_far =~= before + named_spans(segs.take(m + 1), method_name@));
            }
            m = m + 1;
        }
        assert(segs.take(methods@.len() as int) =~= segs);
        assert(views.take(k + 1).drop_last() =~= views.take(k as int));
        k = k + 1;
    }
    assert(views.take(sites@.len() as int) =~= views);
    locations
}

/// The spans of the declarations of kind `kind` named `name`, in order.
pub open spec fn definition_spans(sites: Seq<(SymbolKind, Seq<char>, Span)>, kind: SymbolKind, name: Seq<char>) -> Seq<Span>
    decreases sites.len(),
{
    if sites.len() == 0 {
        seq![]
    } else {
        definition_spans(sites.drop_last(), kind, name) + if sites.last().0 == kind && sites.last().1 == name {
            seq![sites.last().2]
        } else {
            seq![]
        }
    }
}

/// Where the struct, enum or trait of kind `kind` named `name` is declared
/// at the top level of the document `uri`; nothing for other kinds.
pub fn broken_source_definition_locations_in_source(uri: &str, source: &str, kind: SymbolKind, name: &str) -> (locations: Vec<Location>)
    ensures
        locations_view(locations@) == if kind is Struct || kind is Enum || kind is Trait {
            located(uri@, source@, definition_spans(root_sites_from(lex_spec(source@).0, 0, 0), kind, name@))
        } else {
            Seq::empty()
        },
{
    let mut locations: Vec<Location> = Vec::new();
    if !matches!(kind, SymbolKind::Struct | SymbolKind::Enum | SymbolKind::Trait) {
        assert(locations_view(locations@) =~= Seq::<(Seq<char>, Range)>::empty());
        return locations;
    }
    let ghost cs = source@;
    let ghost ts = lex_spec(cs).0;
    let _len = str_byte_len(source);
    let sites = broken_source_root_definition_sites_in_source(source);
    let ghost views = sites@.map_values(|s: BrokenSourceRootDefinitionSite| root_site_view(s));
    proof {
        lemma_lexed_spans_on_boundaries(cs);
        lemma_tokens_on_boundaries(cs, ts);
        lemma_root_sites_ok(ts, span_on_boundaries(cs), 0, 0);
    }
    let mut k: usize = 0;
    assert(views.take(0) =~= Seq::<(SymbolKind, Seq<char>, Span)>::empty());
    assert(locations_view(locations@) =~= located(uri@, cs, definition_spans(views.take(0), kind, name@)));
    while k < sites.len()
        invariant
            cs == source@,
            views == sites@.map_values(|s: BrokenSourceRootDefinitionSite| root_site_view(s)),
            root_sites_ok(views, span_on_boundaries(cs)),
            k <= sites@.len(),
            locations_view(locations@) == located(uri@, cs, definition_spans(views.take(k as int), kind, name@)),
        decreases sites@.len() - k,
    {
        let site = &sites[k];
        let ghost before = definition_spans(views.take(k as int), kind, name@);
        assert(views.take(k + 1).drop_last() =~= views.take(k as int));
        assert(views[k as int] == (site.kind, site.name@, site.span));
        if site.kind == kind && str_equal(site.name.as_str(), name) {
            assert((span_on_boundaries(cs))((views[k as int].1, views[k as int].2)));
            push_location(&mut locations, uri, source, site.span, Ghost(before));
        } else {
            assert(before =~= definition_spans(views.take(k + 1), kind, name@));
        }
        k = k + 1;
    }
    assert(views.take(sites@.len() as int) =~= views);
    locations
}

} // verus!
