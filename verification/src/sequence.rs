//! Mathematical vocabulary for integer sequences: order, rearrangement, and
//! the two elementary edits that a sorting algorithm performs in place.

use vstd::prelude::*;

verus! {

/// The elements of `s` never decrease from left to right.
pub open spec fn sorted(s: Seq<i32>) -> bool {
    forall|i: int, j: int| 0 <= i <= j < s.len() ==> s[i] <= s[j]
}

/// The elements of `s` at the positions `lo..hi` never decrease from left to right.
pub open spec fn sorted_between(s: Seq<i32>, lo: int, hi: int) -> bool {
    forall|i: int, j: int| lo <= i <= j < hi ==> s[i] <= s[j]
}

/// `a` holds exactly the elements of `b`, each as often as `b` does.
pub open spec fn permutes(a: Seq<i32>, b: Seq<i32>) -> bool {
    a.to_multiset() == b.to_multiset()
}

/// `s` with the elements at `i` and `j` exchanged.
pub open spec fn swapped(s: Seq<i32>, i: int, j: int) -> Seq<i32> {
    s.update(i, s[j]).update(j, s[i])
}

/// `s` with the element at `from` taken out and put back at `to`; the elements
/// in between move one place to the right.
pub open spec fn moved(s: Seq<i32>, from: int, to: int) -> Seq<i32> {
    s.remove(from).insert(to, s[from])
}

/// Exchanging two elements rearranges a sequence and keeps its length.
pub proof fn lemma_swapped_permutes(s: Seq<i32>, i: int, j: int)
    requires
        0 <= i < s.len(),
        0 <= j < s.len(),
    ensures
        swapped(s, i, j).len() == s.len(),
        permutes(swapped(s, i, j), s),
{
    broadcast use vstd::multiset::group_multiset_axioms;

    let t = s.update(i, s[j]);
    vstd::seq_lib::to_multiset_update(s, i, s[j]);
    vstd::seq_lib::to_multiset_update(t, j, s[i]);
    s.to_multiset_ensures();
    assert(s.contains(s[i]) && s.contains(s[j]));
    assert(swapped(s, i, j).to_multiset() =~= s.to_multiset());
}

/// Moving an element to an earlier place rearranges a sequence, keeps its
/// length, and shifts exactly the elements between the two places.
pub proof fn lemma_moved(s: Seq<i32>, from: int, to: int)
    requires
        0 <= to <= from < s.len(),
    ensures
        moved(s, from, to).len() == s.len(),
        permutes(moved(s, from, to), s),
        forall|k: int|
            0 <= k < s.len() ==> #[trigger] moved(s, from, to)[k] == if k < to {
                s[k]
            } else if k == to {
                s[from]
            } else if k <= from {
                s[k - 1]
            } else {
                s[k]
            },
{
    broadcast use vstd::multiset::group_multiset_axioms;

    let t = s.remove(from);
    vstd::seq_lib::to_multiset_remove(s, from);
    vstd::seq_lib::to_multiset_insert(t, to, s[from]);
    s.to_multiset_ensures();
    assert(s.to_multiset().count(s[from]) > 0);
    assert(moved(s, from, to).to_multiset() =~= s.to_multiset());
}

/// There is one sorted arrangement of given elements.
pub proof fn lemma_sorted_unique(a: Seq<i32>, b: Seq<i32>)
    requires
        sorted(a),
        sorted(b),
        permutes(a, b),
    ensures
        a == b,
{
    let leq = |x: i32, y: i32| x <= y;
    assert(vstd::relations::total_ordering(leq));
    assert(vstd::relations::sorted_by(a, leq));
    assert(vstd::relations::sorted_by(b, leq));
    vstd::seq_lib::lemma_sorted_unique(a, b, leq);
}

/// A sequence whose neighbours are in order is sorted.
pub proof fn lemma_neighbours_sorted(s: Seq<i32>)
    requires
        forall|i: int| 0 <= i && i + 1 < s.len() ==> s[i] <= #[trigger] s[i + 1],
    ensures
        sorted(s),
{
    assert forall|i: int, j: int| 0 <= i <= j < s.len() implies s[i] <= s[j] by {
        lemma_neighbours_chain(s, i, j);
    }
}

proof fn lemma_neighbours_chain(s: Seq<i32>, i: int, j: int)
    requires
        forall|k: int| 0 <= k && k + 1 < s.len() ==> s[k] <= #[trigger] s[k + 1],
        0 <= i <= j < s.len(),
    ensures
        s[i] <= s[j],
    decreases j - i,
{
    if i < j {
        lemma_neighbours_chain(s, i, j - 1);
        assert(s[j - 1] <= s[(j - 1) + 1]);
    }
}

} // verus!
