use vstd::prelude::*;
use vstd::relations::{sorted_by, strongly_connected, transitive};

verus! {

// ---------------------------------------------------------------------------
// Stable sorting by a total preorder, and removal of adjacent repeats.
// ---------------------------------------------------------------------------

/// `x` put into `sorted` just after the last element that comes no later
/// than `x` under `le`.
pub open spec fn insert_stable<A>(sorted: Seq<A>, x: A, le: spec_fn(A, A) -> bool) -> Seq<A>
    decreases sorted.len(),
{
    if sorted.len() == 0 {
        seq![x]
    } else if le(sorted.last(), x) {
        sorted.push(x)
    } else {
        insert_stable(sorted.drop_last(), x, le).push(sorted.last())
    }
}

/// `s` sorted by `le`, elements that `le` ranks alike keeping their order:
/// each element in turn is inserted after those already placed that come no
/// later than it.
pub open spec fn stable_sort<A>(s: Seq<A>, le: spec_fn(A, A) -> bool) -> Seq<A>
    decreases s.len(),
{
    if s.len() == 0 {
        s
    } else {
        insert_stable(stable_sort(s.drop_last(), le), s.last(), le)
    }
}

/// `s` without each element whose key is that of the element kept just
/// before it.
pub open spec fn dedup_by_key<A, K>(s: Seq<A>, key: spec_fn(A) -> K) -> Seq<A>
    decreases s.len(),
{
    if s.len() == 0 {
        s
    } else {
        let kept = dedup_by_key(s.drop_last(), key);
        if kept.len() > 0 && key(kept.last()) == key(s.last()) {
            kept
        } else {
            kept.push(s.last())
        }
    }
}

/// A relation that ranks any two values and is transitive.
pub open spec fn total_preorder<A>(le: spec_fn(A, A) -> bool) -> bool {
    strongly_connected(le) && transitive(le)
}

/// Inserting after the elements that come no later is inserting at the
/// first position, counted from the end, whose element comes no later.
pub proof fn lemma_insert_stable_at<A>(sorted: Seq<A>, x: A, le: spec_fn(A, A) -> bool, j: int)
    requires
        0 <= j <= sorted.len(),
        j > 0 ==> le(sorted[j - 1], x),
        forall|k: int| j <= k < sorted.len() ==> !le(#[trigger] sorted[k], x),
    ensures
        insert_stable(sorted, x, le) == sorted.insert(j, x),
    decreases sorted.len(),
{
    if sorted.len() == 0 {
        assert(sorted.insert(j, x) =~= seq![x]);
    } else if j == sorted.len() {
        assert(sorted.insert(j, x) =~= sorted.push(x));
    } else {
        let rest = sorted.drop_last();
        assert(!le(sorted[sorted.len() - 1], x));
        lemma_insert_stable_at(rest, x, le, j);
        assert(rest.insert(j, x).push(sorted.last()) =~= sorted.insert(j, x));
    }
}

proof fn lemma_insert_stable<A>(sorted: Seq<A>, x: A, le: spec_fn(A, A) -> bool)
    requires
        total_preorder(le),
        sorted_by(sorted, le),
    ensures
        sorted_by(insert_stable(sorted, x, le), le),
        insert_stable(sorted, x, le).to_multiset() == sorted.to_multiset().insert(x),
    decreases sorted.len(),
{
    broadcast use vstd::seq_lib::group_to_multiset_ensures;
    broadcast use vstd::multiset::group_multiset_axioms;

    let r = insert_stable(sorted, x, le);
    if sorted.len() == 0 {
        assert(r =~= Seq::<A>::empty().push(x));
    } else if le(sorted.last(), x) {
        assert forall|a: int, b: int| 0 <= a < b < r.len() implies #[trigger] le(r[a], r[b]) by {
            if b == sorted.len() {
                if a < sorted.len() - 1 {
                    assert(le(sorted[a], sorted[sorted.len() - 1]));
                }
            } else {
                assert(le(sorted[a], sorted[b]));
            }
        }
    } else {
        let p = sorted.drop_last();
        let last = sorted.last();
        assert(sorted_by(p, le)) by {
            assert forall|a: int, b: int| 0 <= a < b < p.len() implies #[trigger] le(p[a], p[b]) by {
                assert(le(sorted[a], sorted[b]));
            }
        }
        lemma_insert_stable(p, x, le);
        let q = insert_stable(p, x, le);
        assert(le(x, last));
        assert(sorted =~= p.push(last));
        assert forall|a: int, b: int| 0 <= a < b < r.len() implies #[trigger] le(r[a], r[b]) by {
            if b < q.len() {
                assert(le(q[a], q[b]));
            } else {
                let y = q[a];
                assert(q.to_multiset().count(y) > 0);
                if y != x {
                    assert(p.to_multiset().count(y) > 0);
                    assert(p.contains(y));
                    let i = choose|i: int| 0 <= i < p.len() && p[i] == y;
                    assert(le(sorted[i], sorted[sorted.len() - 1]));
                }
            }
        }
    }
}

/// Stable sorting by a total preorder gives a sorted rearrangement.
pub proof fn lemma_stable_sort<A>(s: Seq<A>, le: spec_fn(A, A) -> bool)
    requires
        total_preorder(le),
    ensures
        sorted_by(stable_sort(s, le), le),
        stable_sort(s, le).to_multiset() == s.to_multiset(),
    decreases s.len(),
{
    broadcast use vstd::seq_lib::group_to_multiset_ensures;

    if s.len() > 0 {
        lemma_stable_sort(s.drop_last(), le);
        lemma_insert_stable(stable_sort(s.drop_last(), le), s.last(), le);
        assert(s =~= s.drop_last().push(s.last()));
    }
}

/// Removing adjacent repeats: neighbours then differ in key, every element
/// kept comes from the input, every key of the input is kept, the last kept
/// element has the key of the last input element, and a sorted input stays
/// sorted.
pub proof fn lemma_dedup_by_key<A, K>(s: Seq<A>, key: spec_fn(A) -> K, le: spec_fn(A, A) -> bool)
    ensures
        forall|i: int| 0 <= i < dedup_by_key(s, key).len() - 1 ==> key(#[trigger] dedup_by_key(s, key)[i])
            != key(dedup_by_key(s, key)[i + 1]),
        forall|y: A| #[trigger] dedup_by_key(s, key).contains(y) ==> s.contains(y),
        forall|y: A| #[trigger] s.contains(y) ==> exists|i: int|
            0 <= i < dedup_by_key(s, key).len() && key(#[trigger] dedup_by_key(s, key)[i]) == key(y),
        s.len() > 0 ==> dedup_by_key(s, key).len() > 0 && key(dedup_by_key(s, key).last()) == key(s.last()),
        sorted_by(s, le) ==> sorted_by(dedup_by_key(s, key), le),
    decreases s.len(),
{
    if s.len() > 0 {
        let p = s.drop_last();
        let x = s.last();
        lemma_dedup_by_key(p, key, le);
        let kp = dedup_by_key(p, key);
        let r = dedup_by_key(s, key);
        assert(s =~= p.push(x));
        assert forall|y: A| r.contains(y) implies s.contains(y) by {
            let i = choose|i: int| 0 <= i < r.len() && r[i] == y;
            if i < kp.len() {
                assert(kp[i] == y);
                assert(kp.contains(y));
                let j = choose|j: int| 0 <= j < p.len() && p[j] == y;
                assert(s[j] == y);
            } else {
                assert(s[s.len() - 1] == y);
            }
        }
        assert forall|y: A| #[trigger] s.contains(y) implies exists|i: int|
            0 <= i < r.len() && key(#[trigger] r[i]) == key(y) by {
            let j = choose|j: int| 0 <= j < s.len() && s[j] == y;
            if j < p.len() {
                assert(p[j] == y);
                assert(p.contains(y));
                let i = choose|i: int| 0 <= i < kp.len() && key(#[trigger] kp[i]) == key(y);
                assert(r[i] == kp[i]);
            } else {
                assert(key(r[r.len() - 1]) == key(y));
            }
        }
        if kp.len() > 0 && key(kp.last()) == key(x) {
            assert(r == kp);
        } else {
            assert(r == kp.push(x));
            assert forall|i: int| 0 <= i < r.len() - 1 implies key(#[trigger] r[i]) != key(r[i + 1]) by {
                assert(r[i] == kp[i]);
                if i + 1 < kp.len() {
                    assert(r[i + 1] == kp[i + 1]);
                }
            }
            if sorted_by(s, le) {
                assert(sorted_by(p, le)) by {
                    assert forall|a: int, b: int| 0 <= a < b < p.len() implies #[trigger] le(p[a], p[b]) by {
                        assert(le(s[a], s[b]));
                    }
                }
                assert forall|a: int, b: int| 0 <= a < b < r.len() implies #[trigger] le(r[a], r[b]) by {
                    if b < kp.len() {
                        assert(le(kp[a], kp[b]));
                    } else {
                        let y = kp[a];
                        assert(kp.contains(y));
                        let j = choose|j: int| 0 <= j < p.len() && p[j] == y;
                        assert(le(s[j], s[s.len() - 1]));
                    }
                }
            }
        }
    }
}

} // verus!
