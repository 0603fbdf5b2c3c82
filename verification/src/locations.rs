use vstd::prelude::*;
use vstd::multiset::Multiset;
use vstd::relations::{sorted_by, total_ordering};

use crate::bridge::{position_le, ranges_overlap, text_edit_view, text_edits_view, Range, TextEdit};
use crate::sorting::{
    dedup_by_key, insert_stable, lemma_dedup_by_key, lemma_insert_stable_at, lemma_stable_sort, stable_sort, total_preorder,
};
use crate::strings::{concat_str, decimal, decimal_string};
use crate::text::{source_chars, str_equal};
use vstd::string::StringExecFns;

verus! {

/// A range inside the document named by `uri`.
#[derive(Debug, PartialEq, Eq)]
pub struct Location {
    pub uri: String,
    pub range: Range,
}

impl View for Location {
    type V = (Seq<char>, Range);

    open spec fn view(&self) -> (Seq<char>, Range) {
        (self.uri@, self.range)
    }
}

impl Location {
    pub fn new(uri: String, range: Range) -> (location: Location)
        ensures
            location@ == (uri@, range),
    {
        Location { uri, range }
    }

    /// A copy of the location.
    pub fn duplicate(&self) -> (copy: Location)
        ensures
            copy@ == self@,
    {
        Location { uri: self.uri.clone(), range: self.range }
    }
}

pub open spec fn locations_view(locations: Seq<Location>) -> Seq<(Seq<char>, Range)> {
    locations.map_values(|l: Location| l@)
}

// ---------------------------------------------------------------------------
// Source order.
// ---------------------------------------------------------------------------

/// Lexicographic order on strings, char by char (the order `String`
/// comparison gives, since UTF-8 preserves code point order).
pub open spec fn chars_le(a: Seq<char>, b: Seq<char>) -> bool
    decreases a.len(),
{
    if a.len() == 0 {
        true
    } else if b.len() == 0 {
        false
    } else if a[0] != b[0] {
        a[0] < b[0]
    } else {
        chars_le(a.drop_first(), b.drop_first())
    }
}

/// Order of ranges by start line, start column, end line, end column.
pub open spec fn range_key_le(a: Range, b: Range) -> bool {
    if a.start.line != b.start.line {
        a.start.line < b.start.line
    } else if a.start.character != b.start.character {
        a.start.character < b.start.character
    } else if a.end.line != b.end.line {
        a.end.line < b.end.line
    } else {
        a.end.character <= b.end.character
    }
}

/// Source order of locations: by URI, then by range.
pub open spec fn location_le(a: (Seq<char>, Range), b: (Seq<char>, Range)) -> bool {
    if a.0 != b.0 {
        chars_le(a.0, b.0)
    } else {
        range_key_le(a.1, b.1)
    }
}

/// Two locations in the same document whose ranges touch.
pub open spec fn same_anchor(a: (Seq<char>, Range), b: (Seq<char>, Range)) -> bool {
    a.0 == b.0 && position_le(a.1.start, b.1.end) && position_le(b.1.start, a.1.end)
}

/// Drops each location that shares an anchor with the last location kept
/// before it.
pub open spec fn dedup_anchors(s: Seq<(Seq<char>, Range)>) -> Seq<(Seq<char>, Range)>
    decreases s.len(),
{
    if s.len() == 0 {
        s
    } else {
        let kept = dedup_anchors(s.drop_last());
        if kept.len() > 0 && same_anchor(s.last(), kept.last()) {
            kept
        } else {
            kept.push(s.last())
        }
    }
}

/// Locations in source order, each run of overlapping ones reduced to its first.
pub open spec fn normalized_locations(s: Seq<(Seq<char>, Range)>) -> Seq<(Seq<char>, Range)> {
    dedup_anchors(s.sort_by(|a: (Seq<char>, Range), b: (Seq<char>, Range)| location_le(a, b)))
}

pub open spec fn location_order() -> spec_fn((Seq<char>, Range), (Seq<char>, Range)) -> bool {
    |a: (Seq<char>, Range), b: (Seq<char>, Range)| location_le(a, b)
}

pub(crate) proof fn lemma_chars_le_total(a: Seq<char>, b: Seq<char>)
    ensures
        chars_le(a, b) || chars_le(b, a),
        chars_le(a, b) && chars_le(b, a) ==> a == b,
        chars_le(a, a),
    decreases a.len(),
{
    if a.len() > 0 && b.len() > 0 {
        lemma_chars_le_total(a.drop_first(), b.drop_first());
        if a[0] == b[0] && chars_le(a, b) && chars_le(b, a) {
            assert(a =~= seq![a[0]] + a.drop_first());
            assert(b =~= seq![b[0]] + b.drop_first());
        }
    }
    if a.len() > 0 {
        lemma_chars_le_total(a.drop_first(), a.drop_first());
    }
    if a.len() == 0 && b.len() == 0 {
        assert(a =~= b);
    }
}

pub(crate) proof fn lemma_chars_le_transitive(a: Seq<char>, b: Seq<char>, c: Seq<char>)
    requires
        chars_le(a, b),
        chars_le(b, c),
    ensures
        chars_le(a, c),
    decreases a.len(),
{
    if a.len() > 0 && b.len() > 0 && c.len() > 0 {
        if a[0] == b[0] && b[0] == c[0] {
            lemma_chars_le_transitive(a.drop_first(), b.drop_first(), c.drop_first());
        }
    }
}

/// Source order is a total order.
pub proof fn lemma_location_order_total()
    ensures
        total_ordering(location_order()),
{
    let le = location_order();
    assert forall|x: (Seq<char>, Range)| #[trigger] le(x, x) by {
        lemma_chars_le_total(x.0, x.0);
    }
    assert forall|x: (Seq<char>, Range), y: (Seq<char>, Range)|
        #[trigger] le(x, y) && #[trigger] le(y, x) implies x == y by {
        lemma_chars_le_total(x.0, y.0);
    }
    assert forall|x: (Seq<char>, Range), y: (Seq<char>, Range), z: (Seq<char>, Range)|
        #[trigger] le(x, y) && #[trigger] le(y, z) implies le(x, z) by {
        lemma_chars_le_total(x.0, y.0);
        lemma_chars_le_total(y.0, z.0);
        lemma_chars_le_total(x.0, z.0);
        if x.0 != y.0 && y.0 != z.0 {
            lemma_chars_le_transitive(x.0, y.0, z.0);
        }
    }
    assert forall|x: (Seq<char>, Range), y: (Seq<char>, Range)| #[trigger] le(x, y) || le(y, x) by {
        lemma_chars_le_total(x.0, y.0);
    }
}

proof fn lemma_dedup_members(s: Seq<(Seq<char>, Range)>)
    ensures
        forall|j: int|
            0 <= j < dedup_anchors(s).len() ==> exists|i: int|
                0 <= i < s.len() && #[trigger] dedup_anchors(s)[j] == s[i],
        dedup_anchors(s).len() > 0 ==> dedup_anchors(s).last() == s.last() || (s.len() > 0
            && exists|i: int| 0 <= i < s.len() && dedup_anchors(s).last() == s[i]),
        s.len() > 0 ==> dedup_anchors(s).len() > 0,
    decreases s.len(),
{
    if s.len() > 0 {
        let p = s.drop_last();
        lemma_dedup_members(p);
        let d = dedup_anchors(s);
        let dp = dedup_anchors(p);
        assert forall|j: int| 0 <= j < d.len() implies exists|i: int|
            0 <= i < s.len() && #[trigger] d[j] == s[i] by {
            if j < dp.len() {
                assert(d[j] == dp[j]);
                let i = choose|i: int| 0 <= i < p.len() && dp[j] == p[i];
                assert(s[i] == p[i]);
            } else {
                assert(d[j] == s[s.len() - 1]);
            }
        }
        if d.len() > 0 {
            assert(d.last() == d[d.len() - 1]);
        }
    }
}

/// The deduplicated locations keep the order, and no kept location shares an
/// anchor with the one kept just before it.
proof fn lemma_dedup_shape(s: Seq<(Seq<char>, Range)>)
    requires
        sorted_by(s, location_order()),
    ensures
        sorted_by(dedup_anchors(s), location_order()),
        forall|k: int|
            0 <= k < dedup_anchors(s).len() - 1 ==> !same_anchor(
                dedup_anchors(s)[k + 1],
                #[trigger] dedup_anchors(s)[k],
            ),
    decreases s.len(),
{
    if s.len() > 0 {
        let p = s.drop_last();
        let le = location_order();
        assert(sorted_by(p, le)) by {
            assert forall|a: int, b: int| 0 <= a < b < p.len() implies #[trigger] le(p[a], p[b]) by {
                assert(le(s[a], s[b]));
            }
        }
        lemma_dedup_shape(p);
        lemma_dedup_members(p);
        let d = dedup_anchors(s);
        let dp = dedup_anchors(p);
        if !(dp.len() > 0 && same_anchor(s.last(), dp.last())) {
            assert(d == dp.push(s.last()));
            assert forall|a: int, b: int| 0 <= a < b < d.len() implies #[trigger] le(d[a], d[b]) by {
                if b < dp.len() {
                    assert(le(dp[a], dp[b]));
                } else {
                    let i = choose|i: int| 0 <= i < p.len() && #[trigger] dp[a] == p[i];
                    assert(le(s[i], s[s.len() - 1]));
                }
            }
            assert forall|k: int| 0 <= k < d.len() - 1 implies !same_anchor(
                d[k + 1],
                #[trigger] d[k],
            ) by {
                if k + 1 < dp.len() {
                    assert(d[k] == dp[k]);
                    assert(d[k + 1] == dp[k + 1]);
                } else {
                    assert(d[k] == dp.last());
                }
            }
        }
    }
}

/// Deduplication leaves alone a sequence in which no location shares an
/// anchor with the one before it.
proof fn lemma_dedup_fixed(s: Seq<(Seq<char>, Range)>)
    requires
        forall|k: int| 0 <= k < s.len() - 1 ==> !same_anchor(s[k + 1], #[trigger] s[k]),
    ensures
        dedup_anchors(s) == s,
    decreases s.len(),
{
    if s.len() > 0 {
        let p = s.drop_last();
        assert forall|k: int| 0 <= k < p.len() - 1 implies !same_anchor(p[k + 1], #[trigger] p[k]) by {
            assert(p[k] == s[k]);
            assert(p[k + 1] == s[k + 1]);
        }
        lemma_dedup_fixed(p);
        if p.len() > 0 {
            assert(!same_anchor(s[p.len() as int], s[p.len() - 1]));
        }
        assert(p.push(s.last()) =~= s);
    }
}

/// Normalized locations are in source order, and no location shares an
/// anchor with the one before it.
pub proof fn lemma_normalized_shape(s: Seq<(Seq<char>, Range)>)
    ensures
        sorted_by(normalized_locations(s), location_order()),
        forall|k: int|
            0 <= k < normalized_locations(s).len() - 1 ==> !same_anchor(
                normalized_locations(s)[k + 1],
                #[trigger] normalized_locations(s)[k],
            ),
{
    lemma_location_order_total();
    s.lemma_sort_by_ensures(location_order());
    lemma_dedup_shape(s.sort_by(location_order()));
}

/// Normalizing locations a second time changes nothing.
pub proof fn lemma_normalize_idempotent(s: Seq<(Seq<char>, Range)>)
    ensures
        normalized_locations(normalized_locations(s)) == normalized_locations(s),
{
    let d = normalized_locations(s);
    lemma_normalized_shape(s);
    lemma_location_order_total();
    d.lemma_sort_by_ensures(location_order());
    vstd::seq_lib::lemma_sorted_unique(d, d.sort_by(location_order()), location_order());
    assert(d.sort_by(location_order()) == d);
    lemma_dedup_fixed(d);
}

// ---------------------------------------------------------------------------
// Executable operations.
// ---------------------------------------------------------------------------

/// Whether two locations are in the same document with touching ranges.
pub fn same_location_anchor(lhs: &Location, rhs: &Location) -> (same: bool)
    ensures
        same == same_anchor(lhs@, rhs@),
{
    lhs.uri == rhs.uri && ranges_overlap(lhs.range, rhs.range)
}

fn range_key_leq(a: Range, b: Range) -> (le: bool)
    ensures
        le == range_key_le(a, b),
{
    if a.start.line != b.start.line {
        a.start.line < b.start.line
    } else if a.start.character != b.start.character {
        a.start.character < b.start.character
    } else if a.end.line != b.end.line {
        a.end.line < b.end.line
    } else {
        a.end.character <= b.end.character
    }
}

pub(crate) fn str_chars_le(a: &str, b: &str) -> (le: bool)
    ensures
        le == chars_le(a@, b@),
{
    let ac = source_chars(a);
    let bc = source_chars(b);
    let mut k: usize = 0;
    assert(a@.skip(0) =~= a@);
    assert(b@.skip(0) =~= b@);
    while k < ac.len() && k < bc.len() && ac[k] == bc[k]
        invariant
            ac@ == a@,
            bc@ == b@,
            k <= ac@.len(),
            k <= bc@.len(),
            chars_le(a@, b@) == chars_le(a@.skip(k as int), b@.skip(k as int)),
        decreases ac@.len() - k,
    {
        proof {
            assert(a@.skip(k as int).drop_first() =~= a@.skip(k + 1));
            assert(b@.skip(k as int).drop_first() =~= b@.skip(k + 1));
        }
        k = k + 1;
    }
    if k == ac.len() {
        true
    } else if k == bc.len() {
        false
    } else {
        ac[k] < bc[k]
    }
}

/// Whether `a` comes no later than `b` in source order.
pub fn location_leq(a: &Location, b: &Location) -> (le: bool)
    ensures
        le == location_le(a@, b@),
{
    if a.uri == b.uri {
        range_key_leq(a.range, b.range)
    } else {
        str_chars_le(a.uri.as_str(), b.uri.as_str())
    }
}

proof fn lemma_map_push_loc(s: Seq<Location>, x: Location)
    ensures
        locations_view(s.push(x)) =~= locations_view(s).push(x@),
{
}

/// Sorts locations into source order.
fn sort_locations(locations: Vec<Location>) -> (sorted: Vec<Location>)
    ensures
        locations_view(sorted@) == locations_view(locations@).sort_by(location_order()),
{
    let mut input = locations;
    let mut sorted: Vec<Location> = Vec::new();
    let ghost original = locations_view(input@);
    proof {
        lemma_location_order_total();
        assert(locations_view(input@) =~= original);
        assert(locations_view(sorted@) =~= Seq::<(Seq<char>, Range)>::empty());
        broadcast use vstd::seq_lib::group_to_multiset_ensures;
        assert(locations_view(sorted@).to_multiset() =~= Multiset::empty());
    }
    while input.len() > 0
        invariant
            sorted_by(locations_view(sorted@), location_order()),
            locations_view(sorted@).to_multiset().add(locations_view(input@).to_multiset())
                == original.to_multiset(),
            total_ordering(location_order()),
        decreases input@.len(),
    {
        let ghost before_input = input@;
        let ghost before_sorted = locations_view(sorted@);
        let x = input.pop().unwrap();
        proof {
            assert(before_input =~= input@.push(x));
            lemma_map_push_loc(input@, x);
            vstd::seq_lib::to_multiset_build(locations_view(input@), x@);
        }
        // first position whose element comes after x
        let mut j: usize = 0;
        while j < sorted.len() && location_leq(&sorted[j], &x)
            invariant
                j <= sorted@.len(),
                locations_view(sorted@) == before_sorted,
                forall|k: int| 0 <= k < j ==> location_le(#[trigger] before_sorted[k], x@),
            decreases sorted@.len() - j,
        {
            j = j + 1;
        }
        let ghost vj = j;
        sorted.insert(j, x);
        proof {
            let now = locations_view(sorted@);
            assert(now =~= before_sorted.insert(vj as int, x@));
            vstd::seq_lib::to_multiset_insert(before_sorted, vj as int, x@);
            let le = location_order();
            assert(vj < before_sorted.len() ==> !location_le(before_sorted[vj as int], x@));
            assert forall|a: int, b: int| 0 <= a < b < now.len() implies #[trigger] le(now[a], now[b]) by {
                if b < vj {
                    assert(le(before_sorted[a], before_sorted[b]));
                } else if b == vj {
                    assert(location_le(before_sorted[a], x@));
                } else if a < vj {
                    assert(le(before_sorted[a], before_sorted[b - 1]));
                } else if a == vj {
                    assert(!location_le(before_sorted[vj as int], x@));
                    assert(le(x@, before_sorted[vj as int]) || le(before_sorted[vj as int], x@));
                    assert(le(x@, before_sorted[vj as int]));
                    if b - 1 > vj {
                        assert(le(before_sorted[vj as int], before_sorted[b - 1]));
                    }
                } else {
                    assert(le(before_sorted[a - 1], before_sorted[b - 1]));
                }
            }
            assert(locations_view(sorted@).to_multiset().add(locations_view(input@).to_multiset())
                =~= original.to_multiset());
        }
    }
    proof {
        assert(locations_view(input@) =~= Seq::<(Seq<char>, Range)>::empty());
        broadcast use vstd::seq_lib::group_to_multiset_ensures;
        assert(locations_view(input@).to_multiset() =~= Multiset::empty());
        assert(locations_view(sorted@).to_multiset() =~= original.to_multiset());
        original.lemma_sort_by_ensures(location_order());
        vstd::seq_lib::lemma_sorted_unique(
            locations_view(sorted@),
            original.sort_by(location_order()),
            location_order(),
        );
    }
    sorted
}

/// Keeps the first of each run of locations that share an anchor with the
/// location kept before them.
fn dedup_locations(locations: Vec<Location>) -> (kept: Vec<Location>)
    ensures
        locations_view(kept@) == dedup_anchors(locations_view(locations@)),
{
    let mut input = locations;
    let ghost original = locations_view(input@);
    let mut kept: Vec<Location> = Vec::new();
    let mut taken: usize = 0;
    let total = input.len();
    let ghost n = input@.len();
    assert(original.take(0) =~= Seq::<(Seq<char>, Range)>::empty());
    while input.len() > 0
        invariant
            taken + input@.len() == n,
            n == original.len(),
            n <= usize::MAX,
            locations_view(input@) == original.skip(taken as int),
            locations_view(kept@) == dedup_anchors(original.take(taken as int)),
        decreases input@.len(),
    {
        let ghost before = input@;
        let x = input.remove(0);
        proof {
            assert(locations_view(before)[0] == x@);
            assert(original.skip(taken as int)[0] == original[taken as int]);
            assert(original.take(taken + 1).drop_last() =~= original.take(taken as int));
            assert(original.take(taken + 1).last() == x@);
            assert(input@ =~= before.drop_first());
            assert(locations_view(input@) =~= locations_view(before).drop_first());
            assert(original.skip(taken as int).drop_first() =~= original.skip(taken + 1));
        }
        let keep = if kept.len() > 0 {
            !same_location_anchor(&x, &kept[kept.len() - 1])
        } else {
            true
        };
        if keep {
            proof {
                lemma_map_push_loc(kept@, x);
            }
            kept.push(x);
        }
        taken = taken + 1;
    }
    assert(original.take(n as int) =~= original);
    kept
}

/// Puts locations in source order and drops each that overlaps the previous
/// one kept in the same document.
pub fn normalize_locations_in_source_order(locations: &mut Vec<Location>)
    ensures
        locations_view(final(locations)@) == normalized_locations(locations_view(old(locations)@)),
{
    let mut taken: Vec<Location> = Vec::new();
    std::mem::swap(&mut taken, locations);
    let sorted = sort_locations(taken);
    let deduped = dedup_locations(sorted);
    *locations = deduped;
}

/// A link to a target range, optionally with the range it was reached from.
#[derive(Debug, PartialEq, Eq)]
pub struct LocationLink {
    pub origin_selection_range: Option<Range>,
    pub target_uri: String,
    pub target_range: Range,
    pub target_selection_range: Range,
}

/// The answer to an implementation request: one location, several, or links.
#[derive(Debug, PartialEq, Eq)]
pub enum ImplementationResponse {
    Scalar(Location),
    Array(Vec<Location>),
    Link(Vec<LocationLink>),
}

/// The locations an implementation answer holds: a link stands for its
/// target.
pub open spec fn response_locations(response: ImplementationResponse) -> Seq<(Seq<char>, Range)> {
    match response {
        ImplementationResponse::Scalar(l) => seq![l@],
        ImplementationResponse::Array(v) => locations_view(v@),
        ImplementationResponse::Link(links) => links@.map_values(
            |k: LocationLink| (k.target_uri@, k.target_range),
        ),
    }
}

/// The locations of an implementation answer, in the answer's order.
pub fn locations_from_goto_response(response: ImplementationResponse) -> (locations: Vec<Location>)
    ensures
        locations_view(locations@) == response_locations(response),
{
    match response {
        ImplementationResponse::Scalar(location) => {
            let ghost l = location@;
            let mut v: Vec<Location> = Vec::new();
            v.push(location);
            proof {
                assert(locations_view(v@) =~= seq![l]);
            }
            v
        },
        ImplementationResponse::Array(locations) => locations,
        ImplementationResponse::Link(links) => {
            let ghost target = links@.map_values(|k: LocationLink| (k.target_uri@, k.target_range));
            let mut v: Vec<Location> = Vec::new();
            let mut k: usize = 0;
            while k < links.len()
                invariant
                    k <= links@.len(),
                    target == links@.map_values(|k: LocationLink| (k.target_uri@, k.target_range)),
                    locations_view(v@) == target.take(k as int),
                decreases links@.len() - k,
            {
                let link = &links[k];
                let ghost before = locations_view(v@);
                v.push(Location::new(link.target_uri.clone(), link.target_range));
                proof {
                    assert(locations_view(v@) =~= before.push(target[k as int]));
                    assert(target.take(k + 1) =~= target.take(k as int).push(target[k as int]));
                }
                k = k + 1;
            }
            proof {
                assert(target.take(links@.len() as int) =~= target);
            }
            v
        },
    }
}

/// The title of a code lens that counts locations: `1 <singular>` or
/// `<count> <plural>`.
pub open spec fn location_count_title_spec(count: nat, singular: Seq<char>, plural: Seq<char>) -> Seq<char> {
    if count == 1 {
        "1 "@ + singular
    } else {
        decimal(count) + " "@ + plural
    }
}

pub fn location_count_title(count: usize, singular: &str, plural: &str) -> (title: String)
    ensures
        title@ == location_count_title_spec(count as nat, singular@, plural@),
{
    if count == 1 {
        concat_str("1 ", singular)
    } else {
        let mut title = decimal_string(count as u64);
        title.append(" ");
        title.append(plural);
        title
    }
}

/// Normalizes the locations into an answer: none when there is no location,
/// a single location when one remains, an array otherwise.
pub fn implementation_response_from_locations(locations: Vec<Location>) -> (response: Option<
    ImplementationResponse,
>)
    ensures
        locations@.len() == 0 ==> response is None,
        locations@.len() > 0 ==> {
            let d = normalized_locations(locations_view(locations@));
            match response {
                Some(ImplementationResponse::Scalar(l)) => d.len() == 1 && d[0] == l@,
                Some(ImplementationResponse::Array(v)) => d.len() != 1 && locations_view(v@) == d,
                Some(ImplementationResponse::Link(_)) => false,
                None => false,
            }
        },
{
    if locations.len() == 0 {
        return None;
    }
    let mut locations = locations;
    normalize_locations_in_source_order(&mut locations);
    if locations.len() == 1 {
        let l = locations.pop().unwrap();
        proof {
            assert(locations_view(locations@.push(l))[0] == l@);
        }
        Some(ImplementationResponse::Scalar(l))
    } else {
        Some(ImplementationResponse::Array(locations))
    }
}

/// Merges `additional` into `locations`, one by one, skipping each that
/// shares an anchor with a location already present.
pub open spec fn merge_unique(s: Seq<(Seq<char>, Range)>, add: Seq<(Seq<char>, Range)>) -> Seq<
    (Seq<char>, Range),
>
    decreases add.len(),
{
    if add.len() == 0 {
        s
    } else {
        let x = add[0];
        let next = if exists|i: int| 0 <= i < s.len() && same_anchor(#[trigger] s[i], x) {
            s
        } else {
            s.push(x)
        };
        merge_unique(next, add.drop_first())
    }
}

pub fn merge_unique_reference_locations(locations: &mut Vec<Location>, additional: Vec<Location>)
    ensures
        locations_view(final(locations)@) == merge_unique(
            locations_view(old(locations)@),
            locations_view(additional@),
        ),
{
    let mut additional = additional;
    let ghost add0 = locations_view(additional@);
    let total = additional.len();
    let ghost n = add0.len();
    let mut taken: usize = 0;
    let ghost goal = merge_unique(locations_view(locations@), add0);
    assert(add0.skip(0) =~= add0);
    while additional.len() > 0
        invariant
            taken + additional@.len() == n,
            n == add0.len(),
            n <= usize::MAX,
            locations_view(additional@) == add0.skip(taken as int),
            merge_unique(locations_view(locations@), add0.skip(taken as int)) == goal,
        decreases additional@.len(),
    {
        let ghost before = additional@;
        let x = additional.remove(0);
        let ghost s = locations_view(locations@);
        proof {
            assert(locations_view(before)[0] == x@);
            assert(add0.skip(taken as int)[0] == x@);
            assert(add0.skip(taken as int).drop_first() =~= add0.skip(taken + 1));
            assert(additional@ =~= before.drop_first());
            assert(locations_view(additional@) =~= locations_view(before).drop_first());
            assert(locations_view(additional@) =~= add0.skip(taken + 1));
        }
        let mut found = false;
        let mut i: usize = 0;
        while i < locations.len()
            invariant
                i <= locations@.len(),
                locations_view(locations@) == s,
                found == exists|k: int| 0 <= k < i && same_anchor(#[trigger] s[k], x@),
            decreases locations@.len() - i,
        {
            assert(s[i as int] == locations@[i as int]@);
            if same_location_anchor(&locations[i], &x) {
                found = true;
            }
            i = i + 1;
        }
        if !found {
            proof {
                lemma_map_push_loc(locations@, x);
            }
            locations.push(x);
        }
        taken = taken + 1;
    }
    proof {
        assert(add0.skip(n as int) =~= Seq::<(Seq<char>, Range)>::empty());
    }
}

/// The references with the definition first: the definition replaces the
/// first reference sharing its anchor (moved to the front), or is prepended.
pub open spec fn with_definition_first(
    s: Seq<(Seq<char>, Range)>,
    definition: (Seq<char>, Range),
) -> Seq<(Seq<char>, Range)> {
    if exists|i: int| 0 <= i < s.len() && same_anchor(#[trigger] s[i], definition) {
        let i = choose|i: int|
            0 <= i < s.len() && same_anchor(#[trigger] s[i], definition) && forall|k: int|
                0 <= k < i ==> !same_anchor(#[trigger] s[k], definition);
        s.update(i, s[0]).update(0, definition)
    } else {
        seq![definition] + s
    }
}

pub fn normalize_reference_locations_with_definition(
    locations: &mut Vec<Location>,
    source_definition: &Location,
)
    ensures
        locations_view(final(locations)@) == with_definition_first(
            locations_view(old(locations)@),
            source_definition@,
        ),
{
    let ghost s = locations_view(locations@);
    let mut i: usize = 0;
    while i < locations.len() && !same_location_anchor(&locations[i], source_definition)
        invariant
            i <= locations@.len(),
            locations_view(locations@) == s,
            forall|k: int| 0 <= k < i ==> !same_anchor(#[trigger] s[k], source_definition@),
        decreases locations@.len() - i,
    {
        i = i + 1;
    }
    if i < locations.len() {
        proof {
            let j = choose|j: int|
                0 <= j < s.len() && same_anchor(#[trigger] s[j], source_definition@) && forall|k: int|
                    0 <= k < j ==> !same_anchor(#[trigger] s[k], source_definition@);
            assert(same_anchor(s[i as int], source_definition@));
            if j < i {
                assert(!same_anchor(s[j], source_definition@));
            } else if i < j {
                assert(!same_anchor(s[i as int], source_definition@));
            }
        }
        let first = locations.remove(0);
        if i == 0 {
            locations.insert(0, source_definition.duplicate());
        } else {
            let other = locations.remove(i - 1);
            locations.insert(i - 1, first);
            locations.insert(0, source_definition.duplicate());
            proof {
                assert(other@ == s[i as int]);
            }
        }
        proof {
            assert(locations_view(locations@) =~= s.update(i as int, s[0]).update(
                0,
                source_definition@,
            ));
        }
    } else {
        proof {
            assert(!exists|k: int| 0 <= k < s.len() && same_anchor(#[trigger] s[k], source_definition@));
        }
        locations.insert(0, source_definition.duplicate());
        proof {
            assert(locations_view(locations@) =~= seq![source_definition@] + s);
        }
    }
}

// ---------------------------------------------------------------------------
// Document highlights.
// ---------------------------------------------------------------------------

/// How a highlighted occurrence is used.
#[derive(Clone, Copy, Debug, PartialEq, Eq, Structural, Hash)]
pub enum DocumentHighlightKind {
    Text,
    Read,
    Write,
}

/// A range of the current document to highlight.
#[derive(Clone, Copy, Debug, PartialEq, Eq, Structural, Hash)]
pub struct DocumentHighlight {
    pub range: Range,
    pub kind: Option<DocumentHighlightKind>,
}

/// The ranges of the locations in the document named `uri`, in order.
pub open spec fn ranges_in_document(locations: Seq<(Seq<char>, Range)>, uri: Seq<char>) -> Seq<Range>
    decreases locations.len(),
{
    if locations.len() == 0 {
        Seq::empty()
    } else {
        let rest = ranges_in_document(locations.drop_last(), uri);
        if locations.last().0 == uri {
            rest.push(locations.last().1)
        } else {
            rest
        }
    }
}

/// Highlights, without a kind, for the locations in the document named
/// `uri`; none when no location is there.
pub fn document_highlights_from_locations(uri: &str, locations: Vec<Location>) -> (highlights: Option<Vec<DocumentHighlight>>)
    ensures
        match highlights {
            Some(hs) => {
                &&& hs@.len() > 0
                &&& hs@.map_values(|h: DocumentHighlight| h.range) == ranges_in_document(locations_view(locations@), uri@)
                &&& forall|i: int| 0 <= i < hs@.len() ==> (#[trigger] hs@[i]).kind is None
            },
            None => ranges_in_document(locations_view(locations@), uri@).len() == 0,
        },
{
    let ghost lv = locations_view(locations@);
    let mut highlights: Vec<DocumentHighlight> = Vec::new();
    let mut k: usize = 0;
    while k < locations.len()
        invariant
            lv == locations_view(locations@),
            k <= locations@.len(),
            highlights@.map_values(|h: DocumentHighlight| h.range) == ranges_in_document(lv.take(k as int), uri@),
            forall|i: int| 0 <= i < highlights@.len() ==> (#[trigger] highlights@[i]).kind is None,
        decreases locations@.len() - k,
    {
        assert(lv.take(k + 1).drop_last() =~= lv.take(k as int));
        let ghost before = highlights@;
        if str_equal(locations[k].uri.as_str(), uri) {
            highlights.push(DocumentHighlight { range: locations[k].range, kind: None });
            assert(highlights@.map_values(|h: DocumentHighlight| h.range) =~= before.map_values(
                |h: DocumentHighlight| h.range,
            ).push(locations@[k as int].range));
        }
        k = k + 1;
    }
    assert(lv.take(locations@.len() as int) =~= lv);
    if highlights.len() == 0 {
        None
    } else {
        Some(highlights)
    }
}

// ---------------------------------------------------------------------------
// Edits of one document in range order.
// ---------------------------------------------------------------------------

/// Order of edits by range (start line, start column, end line, end column).
pub open spec fn edit_order() -> spec_fn((Range, Seq<char>), (Range, Seq<char>)) -> bool {
    |a: (Range, Seq<char>), b: (Range, Seq<char>)| range_key_le(a.0, b.0)
}

/// The edits sorted by range; edits with the same range keep their order.
pub open spec fn edits_by_range(s: Seq<(Range, Seq<char>)>) -> Seq<(Range, Seq<char>)> {
    stable_sort(s, edit_order())
}

/// Drops each edit equal (same range, same text) to the edit kept just
/// before it.
pub open spec fn dedup_edits(s: Seq<(Range, Seq<char>)>) -> Seq<(Range, Seq<char>)> {
    dedup_by_key(s, |e: (Range, Seq<char>)| e)
}

/// The edits of one document in range order, each run of equal edits kept once.
pub open spec fn normalized_document_edits(s: Seq<(Range, Seq<char>)>) -> Seq<(Range, Seq<char>)> {
    dedup_edits(edits_by_range(s))
}

/// Normalized edits are in range order, no edit is followed by an equal one,
/// and they are exactly the edits given.
pub proof fn lemma_normalized_document_edits(s: Seq<(Range, Seq<char>)>)
    ensures
        sorted_by(normalized_document_edits(s), edit_order()),
        forall|i: int|
            0 <= i < normalized_document_edits(s).len() - 1 ==> #[trigger] normalized_document_edits(s)[i]
                != normalized_document_edits(s)[i + 1],
        forall|e: (Range, Seq<char>)| #[trigger] normalized_document_edits(s).contains(e) <==> s.contains(e),
{
    broadcast use vstd::seq_lib::group_to_multiset_ensures;

    let id = |e: (Range, Seq<char>)| e;
    let sorted = edits_by_range(s);
    let r = normalized_document_edits(s);
    assert(total_preorder(edit_order()));
    lemma_stable_sort(s, edit_order());
    lemma_dedup_by_key(sorted, id, edit_order());
    assert forall|e: (Range, Seq<char>)| r.contains(e) <==> s.contains(e) by {
        assert(sorted.to_multiset().count(e) == s.to_multiset().count(e));
        if sorted.contains(e) {
            let i = choose|i: int| 0 <= i < r.len() && id(#[trigger] r[i]) == id(e);
            assert(r[i] == e);
        }
    }
}

fn insert_edit(sorted: &mut Vec<TextEdit>, x: TextEdit)
    ensures
        text_edits_view(final(sorted)@) == insert_stable(text_edits_view(old(sorted)@), text_edit_view(x), edit_order()),
{
    let ghost before = text_edits_view(sorted@);
    let mut j = sorted.len();
    while j > 0 && !range_key_leq(sorted[j - 1].range, x.range)
        invariant
            j <= sorted@.len(),
            text_edits_view(sorted@) == before,
            forall|k: int| j <= k < before.len() ==> !range_key_le(#[trigger] before[k].0, x.range),
        decreases j,
    {
        j = j - 1;
    }
    proof {
        lemma_insert_stable_at(before, text_edit_view(x), edit_order(), j as int);
    }
    let ghost xv = text_edit_view(x);
    sorted.insert(j, x);
    assert(text_edits_view(sorted@) =~= before.insert(j as int, xv));
}

/// Sorts the edits of one document by range, keeping edits with the same
/// range in their order, and keeps each run of equal edits once.
pub fn sort_and_dedup_document_edits(edits: &mut Vec<TextEdit>)
    ensures
        text_edits_view(final(edits)@) == normalized_document_edits(text_edits_view(old(edits)@)),
{
    let mut input: Vec<TextEdit> = Vec::new();
    std::mem::swap(&mut input, edits);
    let ghost original = text_edits_view(input@);
    let ghost n = input@.len();
    let _total = input.len();
    let mut sorted: Vec<TextEdit> = Vec::new();
    let mut taken: usize = 0;
    assert(original.take(0) =~= Seq::<(Range, Seq<char>)>::empty());
    while input.len() > 0
        invariant
            taken + input@.len() == n,
            n == original.len(),
            n <= usize::MAX,
            text_edits_view(input@) == original.skip(taken as int),
            text_edits_view(sorted@) == edits_by_range(original.take(taken as int)),
        decreases input@.len(),
    {
        let ghost rest = input@;
        let x = input.remove(0);
        proof {
            assert(text_edits_view(rest)[0] == text_edit_view(x));
            assert(original.take(taken + 1).drop_last() =~= original.take(taken as int));
            assert(original.take(taken + 1).last() == text_edit_view(x));
            assert(input@ =~= rest.drop_first());
            assert(text_edits_view(input@) =~= text_edits_view(rest).drop_first());
            assert(original.skip(taken as int).drop_first() =~= original.skip(taken + 1));
        }
        insert_edit(&mut sorted, x);
        taken = taken + 1;
    }
    assert(original.take(n as int) =~= original);
    let ghost ordered = text_edits_view(sorted@);
    let mut kept: Vec<TextEdit> = Vec::new();
    let mut done: usize = 0;
    let _count = sorted.len();
    assert(ordered.take(0) =~= Seq::<(Range, Seq<char>)>::empty());
    while sorted.len() > 0
        invariant
            done + sorted@.len() == ordered.len(),
            ordered.len() <= usize::MAX,
            text_edits_view(sorted@) == ordered.skip(done as int),
            text_edits_view(kept@) == dedup_edits(ordered.take(done as int)),
        decreases sorted@.len(),
    {
        let ghost rest = sorted@;
        let x = sorted.remove(0);
        proof {
            assert(text_edits_view(rest)[0] == text_edit_view(x));
            assert(ordered.take(done + 1).drop_last() =~= ordered.take(done as int));
            assert(ordered.take(done + 1).last() == text_edit_view(x));
            assert(sorted@ =~= rest.drop_first());
            assert(text_edits_view(sorted@) =~= text_edits_view(rest).drop_first());
            assert(ordered.skip(done as int).drop_first() =~= ordered.skip(done + 1));
        }
        let keep = if kept.len() > 0 {
            let last = kept.len() - 1;
            !(kept[last].range == x.range && str_equal(kept[last].new_text.as_str(), x.new_text.as_str()))
        } else {
            true
        };
        if keep {
            let ghost kv = text_edits_view(kept@);
            let ghost xv = text_edit_view(x);
            kept.push(x);
            assert(text_edits_view(kept@) =~= kv.push(xv));
        }
        done = done + 1;
    }
    assert(ordered.take(done as int) =~= ordered);
    *edits = kept;
}

} // verus!
