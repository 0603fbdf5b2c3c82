use vstd::prelude::*;
use vstd::relations::sorted_by;

use crate::bridge::Range;
use crate::locations::{chars_le, lemma_chars_le_total, lemma_chars_le_transitive, str_chars_le, Location};
use crate::sorting::{dedup_by_key, lemma_dedup_by_key, lemma_insert_stable_at, lemma_stable_sort, stable_sort, total_preorder};
use crate::strings::{trim, trim_spec};
use crate::text::{source_chars, str_equal, string_push};

verus! {

// ---------------------------------------------------------------------------
// Matching workspace symbols against a query.
// ---------------------------------------------------------------------------

/// `c` with an ASCII upper-case letter turned into its lower-case letter.
pub open spec fn ascii_lower(c: char) -> char {
    if 'A' <= c && c <= 'Z' {
        ((c as u32) + 32) as char
    } else {
        c
    }
}

/// The text with each ASCII upper-case letter lowered (what
/// `str::to_ascii_lowercase` gives).
pub open spec fn ascii_lowercase(s: Seq<char>) -> Seq<char> {
    s.map_values(|c: char| ascii_lower(c))
}

/// Whether `needle` occurs in `haystack` as a run of consecutive chars; the
/// empty text occurs in every text.
pub open spec fn occurs_in(needle: Seq<char>, haystack: Seq<char>) -> bool {
    exists|i: int| 0 <= i && i + needle.len() <= haystack.len() && #[trigger] haystack.subrange(i, i + needle.len()) == needle
}

/// The form of a query that symbols are matched against: trimmed and in
/// ASCII lower case.
pub open spec fn symbol_query_spec(query: Seq<char>) -> Seq<char> {
    ascii_lowercase(trim_spec(query))
}

/// Whether a symbol of this name answers the normalized query: every symbol
/// answers the empty query, and otherwise the query occurs in the name
/// taken in ASCII lower case.
pub open spec fn symbol_matches_spec(name: Seq<char>, query: Seq<char>) -> bool {
    query.len() == 0 || occurs_in(query, ascii_lowercase(name))
}

fn to_ascii_lower(c: char) -> (lower: char)
    ensures
        lower == ascii_lower(c),
{
    if 'A' <= c && c <= 'Z' {
        let b: u8 = (c as u8) + 32;
        proof {
            assert(b as u32 == (c as u32) + 32);
        }
        b as char
    } else {
        c
    }
}

/// `str::to_ascii_lowercase`.
pub fn ascii_lowercase_string(s: &str) -> (lower: String)
    ensures
        lower@ == ascii_lowercase(s@),
{
    let cs = source_chars(s);
    let mut lower = String::new();
    let mut i: usize = 0;
    while i < cs.len()
        invariant
            cs@ == s@,
            i <= cs@.len(),
            lower@ == ascii_lowercase(cs@.take(i as int)),
        decreases cs@.len() - i,
    {
        let c = to_ascii_lower(cs[i]);
        string_push(&mut lower, c);
        assert(ascii_lowercase(cs@.take(i + 1)) =~= ascii_lowercase(cs@.take(i as int)).push(c));
        i = i + 1;
    }
    assert(cs@.take(cs@.len() as int) =~= cs@);
    lower
}

/// The query as workspace symbols are matched against it: trimmed and in
/// ASCII lower case.
pub fn workspace_symbol_query(query: &str) -> (normalized: String)
    ensures
        normalized@ == symbol_query_spec(query@),
{
    let trimmed = trim(query);
    ascii_lowercase_string(trimmed.as_str())
}

/// Whether `needle` occurs at char index `i` of `haystack`.
fn occurs_at(needle: &Vec<char>, haystack: &Vec<char>, i: usize) -> (found: bool)
    requires
        i + needle@.len() <= haystack@.len(),
        haystack@.len() <= usize::MAX,
    ensures
        found == (haystack@.subrange(i as int, i + needle@.len()) == needle@),
{
    let mut k: usize = 0;
    while k < needle.len()
        invariant
            i + needle@.len() <= haystack@.len(),
            haystack@.len() <= usize::MAX,
            k <= needle@.len(),
            forall|j: int| 0 <= j < k ==> haystack@[i + j] == needle@[j],
        decreases needle@.len() - k,
    {
        if haystack[i + k] != needle[k] {
            proof {
                assert(haystack@.subrange(i as int, i + needle@.len())[k as int] != needle@[k as int]);
            }
            return false;
        }
        k = k + 1;
    }
    assert(haystack@.subrange(i as int, i + needle@.len()) =~= needle@);
    true
}

/// Whether a symbol named `name` answers a query already normalized by
/// `workspace_symbol_query`: the empty query takes every symbol, another
/// query the symbols whose name, in ASCII lower case, contains it.
pub fn workspace_symbol_matches(name: &str, normalized_query: &str) -> (matches: bool)
    ensures
        matches == symbol_matches_spec(name@, normalized_query@),
{
    let needle = source_chars(normalized_query);
    if needle.len() == 0 {
        return true;
    }
    let lower = ascii_lowercase_string(name);
    let hay = source_chars(lower.as_str());
    if needle.len() > hay.len() {
        proof {
            assert forall|i: int| 0 <= i && i + needle@.len() <= hay@.len() implies #[trigger] hay@.subrange(i, i + needle@.len()) != needle@ by {}
        }
        return false;
    }
    let hay_len = hay.len();
    let last = hay_len - needle.len();
    let mut i: usize = 0;
    while i <= last
        invariant
            needle@ == normalized_query@,
            hay@ == ascii_lowercase(name@),
            last + needle@.len() == hay@.len(),
            hay@.len() == hay_len,
            needle@.len() >= 1,
            i <= last + 1,
            forall|j: int| 0 <= j < i ==> #[trigger] hay@.subrange(j, j + needle@.len()) != needle@,
        decreases last + 1 - i,
    {
        if occurs_at(&needle, &hay, i) {
            return true;
        }
        i = i + 1;
    }
    false
}

// ---------------------------------------------------------------------------
// Workspace symbols in answer order.
// ---------------------------------------------------------------------------

/// A symbol found in the workspace: its name, its editor symbol kind, where
/// it is declared and the name of what contains it.
#[derive(Debug, PartialEq, Eq)]
pub struct WorkspaceSymbol {
    pub name: String,
    pub kind: i32,
    pub location: Location,
    pub container_name: Option<String>,
}

pub type WorkspaceSymbolView = (Seq<char>, i32, (Seq<char>, Range), Option<Seq<char>>);

impl View for WorkspaceSymbol {
    type V = WorkspaceSymbolView;

    open spec fn view(&self) -> WorkspaceSymbolView {
        (
            self.name@,
            self.kind,
            self.location@,
            match self.container_name {
                Some(c) => Some(c@),
                None => None,
            },
        )
    }
}

pub open spec fn workspace_symbols_view(symbols: Seq<WorkspaceSymbol>) -> Seq<WorkspaceSymbolView> {
    symbols.map_values(|s: WorkspaceSymbol| s@)
}

/// Answer order of workspace symbols: by name in ASCII lower case, then by
/// URI, then by the line and column where the symbol starts.
pub open spec fn symbol_key_le(a: WorkspaceSymbolView, b: WorkspaceSymbolView) -> bool {
    let an = ascii_lowercase(a.0);
    let bn = ascii_lowercase(b.0);
    if an != bn {
        chars_le(an, bn)
    } else if a.2.0 != b.2.0 {
        chars_le(a.2.0, b.2.0)
    } else if a.2.1.start.line != b.2.1.start.line {
        a.2.1.start.line < b.2.1.start.line
    } else {
        a.2.1.start.character <= b.2.1.start.character
    }
}

/// Answer order as a relation.
pub open spec fn symbol_order() -> spec_fn(WorkspaceSymbolView, WorkspaceSymbolView) -> bool {
    |a: WorkspaceSymbolView, b: WorkspaceSymbolView| symbol_key_le(a, b)
}

/// The symbols in answer order; symbols with the same key keep their order.
pub open spec fn symbols_in_order(s: Seq<WorkspaceSymbolView>) -> Seq<WorkspaceSymbolView> {
    stable_sort(s, symbol_order())
}

/// Drops each symbol equal to the symbol kept just before it.
pub open spec fn dedup_symbols(s: Seq<WorkspaceSymbolView>) -> Seq<WorkspaceSymbolView> {
    dedup_by_key(s, |x: WorkspaceSymbolView| x)
}

/// Answer order ranks any two symbols and is transitive.
proof fn lemma_symbol_order_total_preorder()
    ensures
        total_preorder(symbol_order()),
{
    let le = symbol_order();
    assert forall|x: WorkspaceSymbolView, y: WorkspaceSymbolView| #[trigger] le(x, y) || #[trigger] le(y, x) by {
        lemma_chars_le_total(ascii_lowercase(x.0), ascii_lowercase(y.0));
        lemma_chars_le_total(x.2.0, y.2.0);
    }
    assert forall|x: WorkspaceSymbolView, y: WorkspaceSymbolView, z: WorkspaceSymbolView|
        #[trigger] le(x, y) && #[trigger] le(y, z) implies le(x, z) by {
        let (xn, yn, zn) = (ascii_lowercase(x.0), ascii_lowercase(y.0), ascii_lowercase(z.0));
        lemma_chars_le_total(xn, yn);
        lemma_chars_le_total(yn, zn);
        lemma_chars_le_total(xn, zn);
        if xn != yn && yn != zn {
            lemma_chars_le_transitive(xn, yn, zn);
        }
        lemma_chars_le_total(x.2.0, y.2.0);
        lemma_chars_le_total(y.2.0, z.2.0);
        lemma_chars_le_total(x.2.0, z.2.0);
        if xn == yn && yn == zn && x.2.0 != y.2.0 && y.2.0 != z.2.0 {
            lemma_chars_le_transitive(x.2.0, y.2.0, z.2.0);
        }
    }
}

/// The answer to a workspace-symbol request is in answer order, no symbol
/// is followed by an equal one, and it holds exactly the symbols found.
pub proof fn lemma_workspace_symbols_answer_order(s: Seq<WorkspaceSymbolView>)
    ensures
        sorted_by(dedup_symbols(symbols_in_order(s)), symbol_order()),
        forall|i: int|
            0 <= i < dedup_symbols(symbols_in_order(s)).len() - 1 ==> #[trigger] dedup_symbols(
                symbols_in_order(s),
            )[i] != dedup_symbols(symbols_in_order(s))[i + 1],
        forall|y: WorkspaceSymbolView| #[trigger] dedup_symbols(symbols_in_order(s)).contains(y) <==> s.contains(y),
{
    broadcast use vstd::seq_lib::group_to_multiset_ensures;

    let id = |x: WorkspaceSymbolView| x;
    let sorted = symbols_in_order(s);
    let r = dedup_symbols(sorted);
    lemma_symbol_order_total_preorder();
    lemma_stable_sort(s, symbol_order());
    lemma_dedup_by_key(sorted, id, symbol_order());
    assert forall|y: WorkspaceSymbolView| r.contains(y) <==> s.contains(y) by {
        assert(sorted.contains(y) <==> s.contains(y)) by {
            assert(sorted.to_multiset().count(y) == s.to_multiset().count(y));
        }
        if sorted.contains(y) {
            let i = choose|i: int| 0 <= i < r.len() && id(#[trigger] r[i]) == id(y);
            assert(r[i] == y);
        }
    }
}

fn symbol_key_leq(a: &WorkspaceSymbol, b: &WorkspaceSymbol) -> (le: bool)
    ensures
        le == symbol_key_le(a@, b@),
{
    let an = ascii_lowercase_string(a.name.as_str());
    let bn = ascii_lowercase_string(b.name.as_str());
    if !str_equal(an.as_str(), bn.as_str()) {
        str_chars_le(an.as_str(), bn.as_str())
    } else if !str_equal(a.location.uri.as_str(), b.location.uri.as_str()) {
        str_chars_le(a.location.uri.as_str(), b.location.uri.as_str())
    } else if a.location.range.start.line != b.location.range.start.line {
        a.location.range.start.line < b.location.range.start.line
    } else {
        a.location.range.start.character <= b.location.range.start.character
    }
}

fn same_symbol(a: &WorkspaceSymbol, b: &WorkspaceSymbol) -> (same: bool)
    ensures
        same == (a@ == b@),
{
    let containers_equal = match (&a.container_name, &b.container_name) {
        (Some(x), Some(y)) => str_equal(x.as_str(), y.as_str()),
        (None, None) => true,
        _ => false,
    };
    str_equal(a.name.as_str(), b.name.as_str()) && a.kind == b.kind && str_equal(
        a.location.uri.as_str(),
        b.location.uri.as_str(),
    ) && a.location.range == b.location.range && containers_equal
}

/// Puts workspace symbols in answer order (by lower-case name, URI, line and
/// column; symbols with the same key keep their order) and keeps each run
/// of equal symbols once.
pub fn sort_and_dedup_workspace_symbols(symbols: &mut Vec<WorkspaceSymbol>)
    ensures
        workspace_symbols_view(final(symbols)@) == dedup_symbols(
            symbols_in_order(workspace_symbols_view(old(symbols)@)),
        ),
{
    let mut input: Vec<WorkspaceSymbol> = Vec::new();
    std::mem::swap(&mut input, symbols);
    let ghost original = workspace_symbols_view(input@);
    let ghost n = input@.len();
    let _total = input.len();
    let mut sorted: Vec<WorkspaceSymbol> = Vec::new();
    let mut taken: usize = 0;
    assert(original.take(0) =~= Seq::<WorkspaceSymbolView>::empty());
    while input.len() > 0
        invariant
            taken + input@.len() == n,
            n == original.len(),
            n <= usize::MAX,
            workspace_symbols_view(input@) == original.skip(taken as int),
            workspace_symbols_view(sorted@) == symbols_in_order(original.take(taken as int)),
        decreases input@.len(),
    {
        let ghost rest = input@;
        let x = input.remove(0);
        proof {
            assert(workspace_symbols_view(rest)[0] == x@);
            assert(original.take(taken + 1).drop_last() =~= original.take(taken as int));
            assert(original.take(taken + 1).last() == x@);
            assert(input@ =~= rest.drop_first());
            assert(workspace_symbols_view(input@) =~= workspace_symbols_view(rest).drop_first());
            assert(original.skip(taken as int).drop_first() =~= original.skip(taken + 1));
        }
        let ghost before = workspace_symbols_view(sorted@);
        let mut j = sorted.len();
        while j > 0 && !symbol_key_leq(&sorted[j - 1], &x)
            invariant
                j <= sorted@.len(),
                workspace_symbols_view(sorted@) == before,
                forall|k: int| j <= k < before.len() ==> !symbol_key_le(#[trigger] before[k], x@),
            decreases j,
        {
            j = j - 1;
        }
        proof {
            lemma_insert_stable_at(before, x@, symbol_order(), j as int);
        }
        let ghost xv = x@;
        sorted.insert(j, x);
        assert(workspace_symbols_view(sorted@) =~= before.insert(j as int, xv));
        taken = taken + 1;
    }
    assert(original.take(n as int) =~= original);
    let ghost ordered = workspace_symbols_view(sorted@);
    let mut kept: Vec<WorkspaceSymbol> = Vec::new();
    let mut done: usize = 0;
    let _count = sorted.len();
    assert(ordered.take(0) =~= Seq::<WorkspaceSymbolView>::empty());
    while sorted.len() > 0
        invariant
            done + sorted@.len() == ordered.len(),
            ordered.len() <= usize::MAX,
            workspace_symbols_view(sorted@) == ordered.skip(done as int),
            workspace_symbols_view(kept@) == dedup_symbols(ordered.take(done as int)),
        decreases sorted@.len(),
    {
        let ghost rest = sorted@;
        let x = sorted.remove(0);
        proof {
            assert(workspace_symbols_view(rest)[0] == x@);
            assert(ordered.take(done + 1).drop_last() =~= ordered.take(done as int));
            assert(ordered.take(done + 1).last() == x@);
            assert(sorted@ =~= rest.drop_first());
            assert(workspace_symbols_view(sorted@) =~= workspace_symbols_view(rest).drop_first());
            assert(ordered.skip(done as int).drop_first() =~= ordered.skip(done + 1));
        }
        let keep = if kept.len() > 0 {
            !same_symbol(&kept[kept.len() - 1], &x)
        } else {
            true
        };
        if keep {
            let ghost kv = workspace_symbols_view(kept@);
            let ghost xv = x@;
            kept.push(x);
            assert(workspace_symbols_view(kept@) =~= kv.push(xv));
        }
        done = done + 1;
    }
    assert(ordered.take(done as int) =~= ordered);
    *symbols = kept;
}

} // verus!
