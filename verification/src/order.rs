//! The min-heap ordering discipline over a one-indexed backing sequence,
//! together with the laws that follow from it.

use vstd::prelude::*;
use vstd::relations::{sorted_by, total_ordering};
use vstd::seq_lib::group_to_multiset_ensures;
use vstd::seq_lib::lemma_sorted_unique;

verus! {

/// The live elements of a one-indexed backing sequence: slots `1..=n`.
/// Slot `0` is a sentinel and slots beyond `n` are slack capacity.
pub open spec fn live_of(s: Seq<i32>, n: int) -> Seq<i32> {
    s.subrange(1, n + 1)
}

/// Min-heap order on every edge whose parent index is at least `lo`:
/// for live indices `2..=n`, a node holds a value no smaller than its parent.
pub open spec fn heap_below(s: Seq<i32>, n: int, lo: int) -> bool {
    forall|i: int| 2 <= i <= n && i / 2 >= lo ==> s[i / 2] <= #[trigger] s[i]
}

/// The min-heap property over all live slots `1..=n`.
pub open spec fn is_heap(s: Seq<i32>, n: int) -> bool {
    heap_below(s, n, 1)
}

/// The child of slot `i` that percolation descends into: the right child
/// exactly when it exists as a live slot distinct from the last one and
/// holds a strictly smaller value than the left child; otherwise the left
/// child, even when a smaller leftover value sits in the slack slot
/// beyond the live range.
pub open spec fn lesser_child_index(s: Seq<i32>, n: int, i: int) -> int {
    if 2 * i != n && s[2 * i] > s[2 * i + 1] {
        2 * i + 1
    } else {
        2 * i
    }
}

/// Non-decreasing order.
pub open spec fn sorted(s: Seq<i32>) -> bool {
    forall|i: int, j: int| 0 <= i <= j < s.len() ==> s[i] <= s[j]
}

/// In a heap-ordered sequence the root dominates every live slot,
/// because order is preserved along the chain of parents.
proof fn lemma_root_dominates(s: Seq<i32>, n: int, j: int)
    requires
        is_heap(s, n),
        1 <= j <= n,
    ensures
        s[1] <= s[j],
    decreases j,
{
    if j > 1 {
        assert(s[j / 2] <= s[j]);
        lemma_root_dominates(s, n, j / 2);
    }
}

/// Law: the minimum stays retrievable at the root. In a heap-ordered
/// sequence the root is a live value and a lower bound for the whole
/// multiset of live values, so extraction from the root yields the
/// minimum of everything stored so far.
pub proof fn lemma_root_is_min(s: Seq<i32>, n: int)
    requires
        is_heap(s, n),
        1 <= n < s.len(),
    ensures
        live_of(s, n).to_multiset().count(s[1]) > 0,
        forall|x: i32| live_of(s, n).to_multiset().count(x) > 0 ==> s[1] <= x,
        forall|j: int| 0 <= j < live_of(s, n).len() ==> s[1] <= live_of(s, n)[j],
{
    broadcast use group_to_multiset_ensures;

    let live = live_of(s, n);
    assert forall|j: int| 0 <= j < live.len() implies s[1] <= live[j] by {
        lemma_root_dominates(s, n, j + 1);
    }
    assert(live[0] == s[1]);
    assert(live.contains(s[1]));
    assert forall|x: i32| live.to_multiset().count(x) > 0 implies s[1] <= x by {
        assert(live.contains(x));
        let j = choose|j: int| 0 <= j < live.len() && live[j] == x;
        assert(s[1] <= live[j]);
    }
}

/// Law: a non-decreasing arrangement of a multiset is unique, so any
/// two sorted sequences holding the same elements are equal. This is
/// what makes "the" sorted permutation returned by `Heap::sort`
/// well defined.
pub proof fn lemma_sorted_permutation_unique(a: Seq<i32>, b: Seq<i32>)
    requires
        sorted(a),
        sorted(b),
        a.to_multiset() == b.to_multiset(),
    ensures
        a == b,
{
    let leq = |x: i32, y: i32| x <= y;
    assert(total_ordering(leq));
    assert(sorted_by(a, leq));
    assert(sorted_by(b, leq));
    lemma_sorted_unique(a, b, leq);
    assert(a =~= b);
}

/// Swapping the values of two slots of a sequence leaves its multiset
/// of elements unchanged.
pub proof fn lemma_seq_swap_mset(s: Seq<i32>, i: int, j: int)
    requires
        0 <= i < s.len(),
        0 <= j < s.len(),
    ensures
        s.update(i, s[j]).update(j, s[i]).to_multiset() == s.to_multiset(),
{
    broadcast use group_to_multiset_ensures;
    broadcast use vstd::multiset::group_multiset_axioms;

    if i == j {
        assert(s.update(i, s[j]).update(j, s[i]) =~= s);
    } else {
        let s1 = s.update(i, s[j]);
        assert(s1[j] == s[j]);
        assert(s.contains(s[i]));
        assert(s.contains(s[j]));
        assert(s.update(i, s[j]).update(j, s[i]).to_multiset() =~= s.to_multiset());
    }
}

/// Swapping the values of two live slots leaves the live multiset unchanged.
pub proof fn lemma_live_swap_mset(s: Seq<i32>, n: int, a: int, b: int)
    requires
        1 <= a <= n < s.len(),
        1 <= b <= n,
    ensures
        live_of(s.update(a, s[b]).update(b, s[a]), n).to_multiset() == live_of(s, n).to_multiset(),
{
    let l = live_of(s, n);
    assert(live_of(s.update(a, s[b]).update(b, s[a]), n) =~= l.update(a - 1, l[b - 1]).update(
        b - 1,
        l[a - 1],
    ));
    lemma_seq_swap_mset(l, a - 1, b - 1);
}

/// Overwriting the root with the last live value and shrinking the live
/// range by one slot removes exactly one occurrence of the old root from
/// the live multiset.
pub proof fn lemma_live_extract_mset(s: Seq<i32>, n: int)
    requires
        1 <= n < s.len(),
    ensures
        live_of(s.update(1, s[n]), n - 1).to_multiset() == live_of(s, n).to_multiset().remove(
            s[1],
        ),
{
    broadcast use group_to_multiset_ensures;
    broadcast use vstd::multiset::group_multiset_axioms;

    let l = live_of(s, n);
    let x = l.update(0, l[n - 1]);
    assert(live_of(s.update(1, s[n]), n - 1) =~= x.remove(n - 1));
    assert(x[n - 1] == l[n - 1]);
    assert(l.contains(l[0]));
    assert(l.contains(l[n - 1]));
    assert(x.remove(n - 1).to_multiset() =~= l.to_multiset().remove(l[0]));
    assert(l[0] == s[1]);
}

/// A lower bound for every element of a sequence is a lower bound for
/// every element of any sequence drawn from (a part of) its multiset.
pub proof fn lemma_lower_bound_transfer(b: i32, s: Seq<i32>, t: Seq<i32>)
    requires
        forall|p: int| 0 <= p < s.len() ==> b <= s[p],
        forall|x: i32| t.to_multiset().count(x) > 0 ==> s.to_multiset().count(x) > 0,
    ensures
        forall|j: int| 0 <= j < t.len() ==> b <= t[j],
{
    broadcast use group_to_multiset_ensures;

    assert forall|j: int| 0 <= j < t.len() implies b <= t[j] by {
        assert(t.contains(t[j]));
        assert(s.to_multiset().count(t[j]) > 0);
        assert(s.contains(t[j]));
        let p = choose|p: int| 0 <= p < s.len() && s[p] == t[j];
        assert(b <= s[p]);
    }
}

} // verus!
