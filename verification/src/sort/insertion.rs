//! Insertion sort.

use crate::order::{le_rel, lemma_le_transitive, lemma_order_pair, sorted, total_order};
use crate::slices::{lemma_swapped_permutes, swapped};
use vstd::prelude::*;

verus! {

/// The first `n` elements of `s` without the one at `hole` are in order,
/// and the element at `hole` is no greater than those after it.
spec fn sorted_around<T: PartialOrd>(s: Seq<T>, n: int, hole: int) -> bool {
    &&& forall|a: int, b: int|
        0 <= a < b < n && a != hole && b != hole ==> #[trigger] le_rel::<T>()(s[a], s[b])
    &&& forall|b: int| hole < b < n ==> #[trigger] le_rel::<T>()(s[hole], s[b])
}

/// The first `n` elements of `s` are in order.
spec fn sorted_upto<T: PartialOrd>(s: Seq<T>, n: int) -> bool {
    forall|a: int, b: int| 0 <= a < b < n && b < s.len() ==> #[trigger] le_rel::<T>()(s[a], s[b])
}

/// Sorts `xs` in place: each element in turn moves down past the greater
/// elements before it. The result holds the same elements, and under a
/// total order they are in non-decreasing order.
pub fn insertion_sort<T: PartialOrd + Copy>(xs: &mut [T])
    ensures
        final(xs)@.len() == old(xs)@.len(),
        final(xs)@.to_multiset() == old(xs)@.to_multiset(),
        total_order::<T>() ==> sorted(final(xs)@),
{
    let n: usize = xs.len();
    let mut not_sorted: usize = 1;
    while not_sorted < n
        invariant
            1 <= not_sorted,
            xs@.len() == n,
            xs@.to_multiset() == old(xs)@.to_multiset(),
            total_order::<T>() ==> sorted_upto(xs@, not_sorted as int),
        decreases n - not_sorted,
    {
        let mut i: usize = not_sorted;
        proof {
            if total_order::<T>() {
                assert forall|a: int, b: int|
                    0 <= a < b < not_sorted + 1 && a != i && b != i implies #[trigger] le_rel::<
                    T,
                >()(xs@[a], xs@[b]) by {}
            }
        }
        while i > 0 && xs[i - 1] > xs[i]
            invariant
                i <= not_sorted < n,
                xs@.len() == n,
                xs@.to_multiset() == old(xs)@.to_multiset(),
                total_order::<T>() ==> sorted_around(xs@, not_sorted + 1, i as int),
            decreases i,
        {
            let ghost before = xs@;
            xs.swap(i - 1, i);
            proof {
                assert(xs@ =~= swapped(before, i - 1, i as int));
                lemma_swapped_permutes(before, i - 1, i as int);
                if total_order::<T>() {
                    crate::order::lemma_total_order_comparable::<T>();
                    lemma_order_pair(before[i - 1], before[i as int]);
                    assert forall|a: int, b: int|
                        0 <= a < b < not_sorted + 1 && a != i - 1 && b != i - 1
                        implies #[trigger] le_rel::<T>()(xs@[a], xs@[b]) by {
                        let a0 = if a == i { i - 1 } else { a };
                        let b0 = if b == i { i - 1 } else { b };
                        assert(le_rel::<T>()(before[a0], before[b0]));
                    }
                    assert forall|b: int|
                        i - 1 < b < not_sorted + 1 implies #[trigger] le_rel::<T>()(
                        xs@[i - 1],
                        xs@[b],
                    ) by {
                        if b > i {
                            assert(le_rel::<T>()(before[i as int], before[b]));
                        }
                    }
                }
            }
            i = i - 1;
        }
        proof {
            if total_order::<T>() {
                crate::order::lemma_total_order_comparable::<T>();
                assert forall|a: int, b: int|
                    0 <= a < b < not_sorted + 1 && b < xs@.len() implies #[trigger] le_rel::<T>()(
                    xs@[a],
                    xs@[b],
                ) by {
                    if a == i {
                        assert(le_rel::<T>()(xs@[i as int], xs@[b]));
                    } else if b == i {
                        lemma_order_pair(xs@[i - 1], xs@[i as int]);
                        if a < i - 1 {
                            assert(le_rel::<T>()(xs@[a], xs@[i - 1]));
                            lemma_le_transitive(xs@[a], xs@[i - 1], xs@[i as int]);
                        }
                    } else {
                        assert(le_rel::<T>()(xs@[a], xs@[b]));
                    }
                }
            }
        }
        not_sorted = not_sorted + 1;
    }
}

} // verus!
