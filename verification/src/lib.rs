//! An array-backed binary min-heap over signed integers, stored in a flat
//! one-indexed vector: the parent of slot `i` is slot `i / 2` and its
//! children are slots `2 * i` and `2 * i + 1`. Slot `0` is an unused
//! sentinel and slots past the live count are slack capacity. The heap
//! supports insertion, extraction of the minimum, heap construction from
//! an arbitrary sequence, and a non-destructive full sort by repeated
//! extraction.

use vstd::prelude::*;
use vstd::string::StringExecFns;

pub mod order;
pub mod render;

use crate::order::{heap_below, is_heap, lesser_child_index, live_of, sorted};
use crate::render::{i32_decimal, rendered, LEGACY_SENTINEL};
use crate::order::{
    lemma_live_extract_mset, lemma_live_swap_mset, lemma_lower_bound_transfer, lemma_root_is_min,
};

verus! {

/// An array-backed one-indexed binary min-heap of `i32` values.
pub struct Heap {
    /// The count of live elements, stored in slots `1..=size`.
    pub size: usize,
    /// The backing vector: slot `0` is a sentinel, slots past `size`
    /// hold stale or sentinel values and are never read as priorities.
    pub heap: Vec<i32>,
}

/// An element-for-element copy of a vector of integers.
fn copy_elements(v: &Vec<i32>) -> (r: Vec<i32>)
    ensures
        r@ == v@,
{
    let mut r: Vec<i32> = Vec::new();
    let mut idx: usize = 0;
    while idx < v.len()
        invariant
            idx <= v@.len(),
            r@ == v@.take(idx as int),
        decreases v@.len() - idx,
    {
        r.push(v[idx]);
        proof {
            assert(v@.take(idx as int).push(v@[idx as int]) =~= v@.take(idx as int + 1));
        }
        idx = idx + 1;
    }
    proof {
        assert(v@.take(v@.len() as int) =~= v@);
    }
    r
}

impl Heap {
    /// The backing vector always has room for the sentinel slot plus
    /// all live elements.
    pub open spec fn wf(self) -> bool {
        self.size < self.heap@.len()
    }

    /// The live elements, in slot order.
    pub open spec fn live(self) -> Seq<i32> {
        live_of(self.heap@, self.size as int)
    }

    /// The min-heap invariant over the live slots.
    pub open spec fn heap_ordered(self) -> bool {
        is_heap(self.heap@, self.size as int)
    }

    /// Builds a heap from an arbitrary vector of values: a sentinel slot
    /// occupies index zero, the values follow in their given order, and a
    /// heapify pass establishes the min-heap order. The live elements are
    /// exactly the given values, rearranged.
    pub fn new(values: Vec<i32>) -> (h: Heap)
        ensures
            h.wf(),
            h.heap_ordered(),
            h.size == values@.len(),
            h.heap@.len() == values@.len() + 1,
            h.live().to_multiset() == values@.to_multiset(),
    {
        let mut base: Vec<i32> = Vec::new();
        base.push(0);
        let mut idx: usize = 0;
        while idx < values.len()
            invariant
                idx <= values@.len(),
                base@.len() == idx + 1,
                base@.subrange(1, idx as int + 1) == values@.take(idx as int),
            decreases values@.len() - idx,
        {
            base.push(values[idx]);
            proof {
                assert(base@.subrange(1, idx as int + 2) =~= values@.take(idx as int + 1));
            }
            idx = idx + 1;
        }
        let mut init = Heap { size: values.len(), heap: base };
        proof {
            assert(init.live() =~= values@);
        }
        init.build_heap();
        init
    }

    /// The value stored at the parent of slot `i`.
    pub fn node_parent(&self, i: usize) -> (r: i32)
        requires
            self.wf(),
            2 <= i <= self.size,
        ensures
            r == self.heap@[i as int / 2],
    {
        self.heap[i / 2]
    }

    /// The value stored at the right child of slot `i`.
    pub fn node_right(&self, i: usize) -> (r: i32)
        requires
            self.wf(),
            1 <= i,
            2 * i + 1 <= self.size,
        ensures
            r == self.heap@[2 * i as int + 1],
    {
        self.heap[i * 2 + 1]
    }

    /// The value stored at the left child of slot `i`.
    pub fn node_left(&self, i: usize) -> (r: i32)
        requires
            self.wf(),
            1 <= i,
            2 * i <= self.size,
        ensures
            r == self.heap@[2 * i as int],
    {
        self.heap[i * 2]
    }

    /// The index and value of the child of slot `i` that a downward
    /// percolation descends into. When slot `i` has no right child within
    /// the live range, the left child is selected unconditionally, even if
    /// the slot past the live range holds a smaller leftover value.
    pub fn lesser_child(&self, i: usize) -> (r: (usize, i32))
        requires
            self.wf(),
            1 <= i,
            2 * i <= self.size,
        ensures
            r.0 as int == lesser_child_index(self.heap@, self.size as int, i as int),
            r.1 == self.heap@[r.0 as int],
            i < r.0 <= self.size,
            r.1 <= self.heap@[2 * i as int],
            2 * i < self.size ==> r.1 <= self.heap@[2 * i as int + 1],
    {
        if 2 * i != self.size && self.node_left(i) > self.node_right(i) {
            (2 * i + 1, self.node_right(i))
        } else {
            (2 * i, self.node_left(i))
        }
    }

    /// Restores the min-heap order for the subtree rooted at slot `k`,
    /// assuming every deeper subtree already respects it: the value at `k`
    /// is sifted down along the chain of lesser children until it is no
    /// greater than its children, leaving the live multiset unchanged. On
    /// a sequence already heap-ordered below `k` this is a no-op.
    pub fn percolate_down(&mut self, k: usize)
        requires
            old(self).wf(),
            1 <= k < old(self).heap@.len(),
            heap_below(old(self).heap@, old(self).size as int, k as int + 1),
        ensures
            final(self).wf(),
            final(self).size == old(self).size,
            final(self).heap@.len() == old(self).heap@.len(),
            heap_below(final(self).heap@, final(self).size as int, k as int),
            final(self).live().to_multiset() == old(self).live().to_multiset(),
            heap_below(old(self).heap@, old(self).size as int, k as int) ==> final(self).heap@
                == old(self).heap@,
    {
        let ghost s0 = self.heap@;
        let ghost n = self.size as int;
        let ghost len0 = self.heap@.len();
        let ghost k0 = k as int;
        if self.heap.len() > 1 {
            let tmp = self.heap[k];
            let mut cur = k;
            proof {
                assert(s0.update(k0, tmp) =~= s0);
            }
            while cur <= self.size / 2
                invariant_except_break
                    self.size as int == n,
                    self.heap@.len() == len0,
                    n < len0,
                    1 <= cur < len0,
                    k0 <= cur,
                    cur != k0 ==> cur <= n,
                    tmp == s0[k0],
                    forall|j: int|
                        2 <= j <= n && j / 2 >= k0 && j / 2 != cur ==> self.heap@[j / 2]
                            <= #[trigger] self.heap@[j],
                    cur != k0 ==> self.heap@[cur as int / 2] <= tmp,
                    forall|j: int|
                        2 <= j <= n && j / 2 == cur && cur != k0 ==> self.heap@[cur as int / 2]
                            <= #[trigger] self.heap@[j],
                    live_of(self.heap@.update(cur as int, tmp), n).to_multiset() == live_of(
                        s0,
                        n,
                    ).to_multiset(),
                    heap_below(s0, n, k0) ==> (self.heap@ == s0 && cur == k0),
                ensures
                    self.size as int == n,
                    self.heap@.len() == len0,
                    1 <= cur < len0,
                    tmp == s0[k0],
                    heap_below(self.heap@.update(cur as int, tmp), n, k0),
                    live_of(self.heap@.update(cur as int, tmp), n).to_multiset() == live_of(
                        s0,
                        n,
                    ).to_multiset(),
                    heap_below(s0, n, k0) ==> (self.heap@ == s0 && cur == k0),
                decreases n - cur,
            {
                let (next_idx, child) = self.lesser_child(cur);
                if tmp > child {
                    let ghost h = self.heap@;
                    let ghost ci = next_idx as int;
                    self.heap[cur] = child;
                    proof {
                        let u = h.update(cur as int, tmp);
                        assert(self.heap@.update(ci, tmp) =~= u.update(cur as int, u[ci]).update(
                            ci,
                            u[cur as int],
                        ));
                        lemma_live_swap_mset(u, n, cur as int, ci);
                    }
                } else {
                    proof {
                        if heap_below(s0, n, k0) {
                            assert(self.heap@ == s0 && cur == k0);
                        }
                        assert forall|j: int|
                            2 <= j <= n && j / 2 >= k0 implies self.heap@.update(cur as int, tmp)[j
                            / 2] <= #[trigger] self.heap@.update(cur as int, tmp)[j] by {
                            if j / 2 == cur {
                                assert(j == 2 * cur || j == 2 * (cur as int) + 1);
                            } else if j == cur {
                                assert(self.heap@[cur as int / 2] <= tmp);
                            }
                        }
                    }
                    break ;
                }
                cur = next_idx;
            }
            self.heap[cur] = tmp;
            proof {
                if heap_below(s0, n, k0) {
                    assert(self.heap@ =~= s0);
                }
            }
        }
    }

    /// Establishes the min-heap order over an arbitrary live sequence by
    /// percolating every internal node down, deepest first, so each subtree
    /// is repaired before its parent relies on it. The live multiset is
    /// unchanged, and a sequence that is already heap-ordered is left
    /// exactly as it was: running this twice in a row yields the same
    /// elements as running it once.
    pub fn build_heap(&mut self)
        requires
            old(self).wf(),
        ensures
            final(self).wf(),
            final(self).size == old(self).size,
            final(self).heap@.len() == old(self).heap@.len(),
            final(self).heap_ordered(),
            final(self).live().to_multiset() == old(self).live().to_multiset(),
            old(self).heap_ordered() ==> final(self).heap@ == old(self).heap@,
    {
        let ghost s0 = self.heap@;
        let ghost n = self.size as int;
        let mut x = self.size / 2;
        proof {
            assert forall|j: int| 2 <= j <= n && j / 2 >= x as int + 1 implies self.heap@[j / 2]
                <= #[trigger] self.heap@[j] by {
                assert(j / 2 <= n / 2);
            }
        }
        while x >= 1
            invariant
                self.size as int == n,
                self.heap@.len() == s0.len(),
                n < s0.len(),
                x as int <= n / 2,
                heap_below(self.heap@, n, x as int + 1),
                live_of(self.heap@, n).to_multiset() == live_of(s0, n).to_multiset(),
                is_heap(s0, n) ==> self.heap@ == s0,
            decreases x,
        {
            self.percolate_down(x);
            x = x - 1;
        }
    }

    /// Removes and returns the minimum, which sits at the root: the last
    /// live element replaces the root, the live count shrinks by one, and
    /// the replacement percolates down to restore heap order. The returned
    /// value is a live element no greater than any value stored so far.
    pub fn delete_min(&mut self) -> (r: i32)
        requires
            old(self).wf(),
            old(self).heap_ordered(),
            old(self).size >= 1,
        ensures
            final(self).wf(),
            final(self).heap_ordered(),
            final(self).size == old(self).size - 1,
            final(self).heap@.len() == old(self).heap@.len(),
            r == old(self).live()[0],
            old(self).live().to_multiset().count(r) > 0,
            forall|j: int| 0 <= j < old(self).live().len() ==> r <= old(self).live()[j],
            final(self).live().to_multiset() == old(self).live().to_multiset().remove(r),
    {
        let ghost s0 = self.heap@;
        let ghost n = self.size as int;
        let out = self.heap[1];
        let last = self.heap[self.size];
        self.heap[1] = last;
        self.size = self.size - 1;
        proof {
            lemma_root_is_min(s0, n);
            lemma_live_extract_mset(s0, n);
        }
        self.percolate_down(1);
        out
    }

    /// Appends a new live element and restores heap order by percolating
    /// up: ancestors greater than the new value shift down one level and
    /// the value settles in the freed slot. The backing vector doubles
    /// when it is exactly full, so insertion never fails; afterwards the
    /// live multiset has gained exactly one occurrence of `value`.
    pub fn insert(&mut self, value: i32)
        requires
            old(self).wf(),
            old(self).heap_ordered(),
            old(self).size < usize::MAX / 2,
        ensures
            final(self).wf(),
            final(self).heap_ordered(),
            final(self).size == old(self).size + 1,
            final(self).live().to_multiset() == old(self).live().to_multiset().insert(value),
    {
        let ghost n0 = self.size as int;
        let ghost live0 = self.live();
        if self.size == self.heap.len() - 1 {
            let len = self.heap.len();
            self.heap.resize(len * 2, 0x99999);
            proof {
                assert forall|j: int| 0 <= j < len implies self.heap@[j] == old(self).heap@[j] by {
                    assert(self.heap@.subrange(0, len as int)[j] == self.heap@[j]);
                }
                assert(live_of(self.heap@, n0) =~= live0);
            }
        }
        self.size = self.size + 1;
        let ghost n = self.size as int;
        let ghost s1 = self.heap@;
        let mut pos = self.size;
        proof {
            assert(live_of(s1.update(n, value), n) =~= live0.push(value));
            assert(live0.push(value).to_multiset() == live0.to_multiset().insert(value)) by {
                broadcast use vstd::seq_lib::group_to_multiset_ensures;

            }
        }
        while pos > 1 && value < self.node_parent(pos)
            invariant
                self.size as int == n,
                self.heap@.len() == s1.len(),
                n < s1.len(),
                1 <= pos <= n,
                forall|j: int|
                    2 <= j <= n && j != pos ==> self.heap@[j / 2] <= #[trigger] self.heap@[j],
                forall|j: int|
                    2 <= j <= n && j / 2 == pos as int && 1 < pos ==> self.heap@[pos as int / 2]
                        <= #[trigger] self.heap@[j],
                forall|j: int|
                    2 <= j <= n && j / 2 == pos as int ==> value <= #[trigger] self.heap@[j],
                live_of(self.heap@.update(pos as int, value), n).to_multiset()
                    == live0.to_multiset().insert(value),
            decreases pos,
        {
            let p = self.node_parent(pos);
            let ghost h = self.heap@;
            let ghost q = pos as int;
            self.heap[pos] = p;
            proof {
                let u = h.update(q, value);
                assert(self.heap@.update(q / 2, value) =~= u.update(q, u[q / 2]).update(
                    q / 2,
                    u[q],
                ));
                lemma_live_swap_mset(u, n, q, q / 2);
            }
            pos = pos / 2;
        }
        let ghost hx = self.heap@;
        let ghost q = pos as int;
        self.heap[pos] = value;
        proof {
            assert forall|j: int| 2 <= j <= n implies self.heap@[j / 2]
                <= #[trigger] self.heap@[j] by {
                if j == q {
                    assert(hx[q / 2] <= value);
                } else if j / 2 == q {
                    assert(value <= hx[j]);
                }
            }
        }
    }

    /// Produces the non-decreasing rearrangement of the live elements
    /// without touching the receiver: a private full copy of the heap is
    /// drained by repeated extraction of the minimum, re-running the
    /// heapify pass after each extraction. The result holds exactly the
    /// live multiset of elements, in non-decreasing order.
    pub fn sort(&mut self) -> (r: Vec<i32>)
        requires
            old(self).wf(),
            old(self).heap_ordered(),
        ensures
            *final(self) == *old(self),
            r@.len() == old(self).size,
            sorted(r@),
            r@.to_multiset() == old(self).live().to_multiset(),
    {
        let ghost orig = self.live();
        let copied = copy_elements(&self.heap);
        let mut dest = Heap { size: self.size, heap: copied };
        let mut arr: Vec<i32> = Vec::new();
        let mut remaining = dest.size;
        proof {
            broadcast use vstd::seq_lib::group_to_multiset_ensures;
            broadcast use vstd::multiset::group_multiset_axioms;

            assert(dest.live() =~= orig);
            assert forall|x: i32|
                arr@.to_multiset().add(dest.live().to_multiset()).count(x) == dest.live()
                .to_multiset().count(x) by {
                if arr@.to_multiset().count(x) > 0 {
                    assert(arr@.contains(x));
                }
            }
            assert(arr@.to_multiset().add(dest.live().to_multiset()) =~= orig.to_multiset());
        }
        while remaining >= 1
            invariant
                dest.wf(),
                dest.heap_ordered(),
                dest.size == remaining,
                arr@.len() + remaining == orig.len(),
                arr@.to_multiset().add(dest.live().to_multiset()) == orig.to_multiset(),
                sorted(arr@),
                forall|i: int, j: int|
                    #![trigger arr@[i], dest.live()[j]]
                    0 <= i < arr@.len() && 0 <= j < dest.live().len() ==> arr@[i]
                        <= dest.live()[j],
            decreases remaining,
        {
            let ghost prev_live = dest.live();
            let ghost prev_arr = arr@;
            let m = dest.delete_min();
            arr.push(m);
            dest.build_heap();
            remaining = remaining - 1;
            proof {
                broadcast use vstd::seq_lib::group_to_multiset_ensures;
                broadcast use vstd::multiset::group_multiset_axioms;

                assert(m == prev_live[0]);
                assert forall|i: int, j: int| 0 <= i <= j < arr@.len() implies arr@[i]
                    <= arr@[j] by {
                    if j == arr@.len() - 1 && i < j {
                        assert(prev_arr[i] <= prev_live[0]);
                    }
                }
                assert(arr@.to_multiset().add(dest.live().to_multiset()) =~= prev_arr.to_multiset()
                    .add(prev_live.to_multiset()));
                assert forall|x: i32|
                    dest.live().to_multiset().count(x) > 0 implies prev_live.to_multiset().count(x)
                    > 0 by {
                    assert(dest.live().to_multiset() == prev_live.to_multiset().remove(m));
                }
                assert forall|i: int, j: int|
                    #![trigger arr@[i], dest.live()[j]]
                    0 <= i < arr@.len() && 0 <= j < dest.live().len() implies arr@[i]
                    <= dest.live()[j] by {
                    if i < prev_arr.len() {
                        assert(forall|p: int|
                            0 <= p < prev_live.len() ==> prev_arr[i] <= #[trigger] prev_live[p]);
                        lemma_lower_bound_transfer(prev_arr[i], prev_live, dest.live());
                    } else {
                        assert(arr@[i] == m);
                        lemma_lower_bound_transfer(m, prev_live, dest.live());
                    }
                }
            }
        }
        proof {
            broadcast use vstd::seq_lib::group_to_multiset_ensures;
            broadcast use vstd::multiset::group_multiset_axioms;

            assert(dest.live() =~= Seq::<i32>::empty());
            assert forall|x: i32|
                arr@.to_multiset().add(dest.live().to_multiset()).count(x) == arr@.to_multiset()
                .count(x) by {
                if dest.live().to_multiset().count(x) > 0 {
                    assert(dest.live().contains(x));
                }
            }
            assert(arr@.to_multiset() =~= orig.to_multiset());
        }
        arr
    }

    /// Renders the live elements in slot order, each preceded by a single
    /// space, skipping any slot holding the legacy sentinel value. A
    /// debugging aid rather than part of the core contract.
    pub fn to_string(&self) -> (r: String)
        requires
            self.wf(),
        ensures
            r@ == rendered(self.live()),
    {
        let mut s = String::new();
        let mut idx: usize = 1;
        proof {
            assert(self.heap@.len() == vstd::std_specs::vec::spec_vec_len(&self.heap));
        }
        while idx <= self.size
            invariant
                self.wf(),
                self.heap@.len() <= usize::MAX,
                1 <= idx <= self.size + 1,
                s@ == rendered(self.live().take(idx as int - 1)),
            decreases self.size + 1 - idx,
        {
            let x = self.heap[idx];
            let ghost pre = s@;
            if x != LEGACY_SENTINEL {
                s.append(" ");
                let d = i32_decimal(x);
                s.append(d.as_str());
                proof {
                    reveal_strlit(" ");
                    assert(" "@ =~= seq![' ']);
                }
            }
            proof {
                let l = self.live();
                assert(l.take(idx as int).drop_last() =~= l.take(idx as int - 1));
                assert(l.take(idx as int).last() == self.heap@[idx as int]);
            }
            idx = idx + 1;
        }
        proof {
            assert(self.live().take(self.size as int) =~= self.live());
        }
        s
    }
}

} // verus!
