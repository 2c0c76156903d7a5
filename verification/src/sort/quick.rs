//! Quicksort, in the classic form and in the three-way form of Dijkstra.
//!
//! Both shuffle the slice first and hand subarrays of `CUTOFF` elements
//! or fewer to insertion sort.

use crate::order::{
    comparable, gt, le_rel, lemma_order_pair, lemma_total_order_comparable, lt, sorted,
    total_order,
};
use crate::slices::{lemma_swapped_in_window, lemma_swapped_permutes, swapped};
use crate::sort::insertion::insertion_sort;
use vstd::prelude::*;

verus! {

/// Cutoff to insertion sort: for the bounds `low` and `high` of a
/// subarray with `high <= low + CUTOFF` quicksort gives way to insertion
/// sort, which does better on tiny arrays.
pub const CUTOFF: usize = 10;

/// Sorts `xs` in place by quicksort. The result holds the same elements
/// in non-decreasing order.
pub fn quick_sort<T: PartialOrd + Copy>(xs: &mut [T])
    requires
        total_order::<T>(),
    ensures
        final(xs)@.len() == old(xs)@.len(),
        final(xs)@.to_multiset() == old(xs)@.to_multiset(),
        sorted(final(xs)@),
{
    fastrand::shuffle(xs);
    let high: usize = xs.len().saturating_sub(1);
    quick_sort_rec(xs, 0, high);
}

/// The number of steps between two bounds, or 0 where they are not in
/// order.
spec fn span(low: usize, high: usize) -> nat {
    if high > low {
        (high - low) as nat
    } else {
        0
    }
}

/// Quicksort on `xs[low..=high]`: the subarray is partitioned around a
/// pivot and the two sides are sorted in turn. A subarray within the
/// cutoff ends the descent with an insertion sort, which goes over the
/// whole of `xs`; that is why all of `xs` is sorted in the end.
fn quick_sort_rec<T: PartialOrd + Copy>(xs: &mut [T], low: usize, high: usize)
    requires
        total_order::<T>(),
        high > low + CUTOFF ==> high < old(xs)@.len(),
    ensures
        final(xs)@.len() == old(xs)@.len(),
        final(xs)@.to_multiset() == old(xs)@.to_multiset(),
        sorted(final(xs)@),
    decreases span(low, high),
{
    if high <= low || high - low <= CUTOFF {
        insertion_sort(xs);
        return ;
    }
    let pivot_idx: usize = quick_sort_partition(xs, low, high);
    assert(pivot_idx < xs.len());
    quick_sort_rec(xs, low, pivot_idx.saturating_sub(1));
    quick_sort_rec(xs, pivot_idx + 1, high);
}

/// Partitions `xs[low..=high]` around its first element, the pivot, and
/// returns the place where the pivot comes to rest: no element before it
/// in the subarray is greater, and none after it is smaller. The rest of
/// `xs` stays as it is.
fn quick_sort_partition<T: PartialOrd + Copy>(xs: &mut [T], low: usize, high: usize) -> (r: usize)
    requires
        total_order::<T>(),
        low < high < old(xs)@.len(),
    ensures
        low <= r <= high,
        final(xs)@.len() == old(xs)@.len(),
        final(xs)@.to_multiset() == old(xs)@.to_multiset(),
        final(xs)@.take(low as int) == old(xs)@.take(low as int),
        final(xs)@.skip(high + 1) == old(xs)@.skip(high + 1),
        final(xs)@[r as int] == old(xs)@[low as int],
        forall|k: int|
            low <= k < r ==> #[trigger] le_rel::<T>()(final(xs)@[k], final(xs)@[r as int]),
        forall|k: int|
            r < k <= high ==> #[trigger] le_rel::<T>()(final(xs)@[r as int], final(xs)@[k]),
{
    proof {
        lemma_total_order_comparable::<T>();
    }
    let ghost s0 = xs@;
    let pivot: T = xs[low];
    let mut lscan: usize = low + 1;
    let mut rscan: usize = high;
    let ghost mut fresh = true;
    loop
        invariant_except_break
            lscan <= rscan,
            !fresh ==> lscan < rscan && lt(xs@[lscan as int], pivot),
        invariant
            comparable::<T>(),
            total_order::<T>(),
            xs@.len() == s0.len(),
            low < high < xs.len(),
            low < lscan <= high,
            low <= rscan <= high,
            xs@[low as int] == pivot,
            pivot == s0[low as int],
            xs@.to_multiset() == s0.to_multiset(),
            xs@.take(low as int) == s0.take(low as int),
            xs@.skip(high + 1) == s0.skip(high + 1),
            forall|k: int| low < k < lscan ==> #[trigger] le_rel::<T>()(xs@[k], pivot),
            forall|k: int| rscan < k <= high ==> #[trigger] le_rel::<T>()(pivot, xs@[k]),
        ensures
            rscan <= lscan,
            rscan == low || lt(xs@[rscan as int], pivot),
        decreases 2 * (rscan - lscan) + (if fresh { 1int } else { 0int }),
    {
        let ghost lstart = lscan;
        loop
            invariant
                comparable::<T>(),
                total_order::<T>(),
                low < lstart <= lscan <= high < xs.len(),
                forall|k: int| low < k < lscan ==> #[trigger] le_rel::<T>()(xs@[k], pivot),
                !fresh && lscan == lstart ==> lscan < rscan && lt(xs@[lscan as int], pivot),
                rscan <= high,
            ensures
                lscan == high || gt(xs@[lscan as int], pivot),
                lscan >= lstart,
                !fresh ==> lscan > lstart,
            decreases high - lscan,
        {
            proof {
                lemma_order_pair(xs@[lscan as int], pivot);
            }
            if !(xs[lscan] <= pivot) {
                break ;
            }
            if lscan == high {
                break ;
            }
            lscan = lscan + 1;
        }
        let ghost rstart = rscan;
        loop
            invariant
                comparable::<T>(),
                total_order::<T>(),
                low <= rscan <= rstart <= high < xs.len(),
                forall|k: int| rscan < k <= high ==> #[trigger] le_rel::<T>()(pivot, xs@[k]),
            ensures
                rscan == low || lt(xs@[rscan as int], pivot),
                rscan <= rstart,
            decreases rscan - low,
        {
            proof {
                lemma_order_pair(pivot, xs@[rscan as int]);
                lemma_order_pair(xs@[rscan as int], pivot);
            }
            if !(pivot <= xs[rscan]) {
                break ;
            }
            if rscan == low {
                break ;
            }
            rscan = rscan - 1;
        }
        if rscan <= lscan {
            break ;
        }
        let ghost before = xs@;
        xs.swap(lscan, rscan);
        proof {
            assert(xs@ =~= swapped(before, lscan as int, rscan as int));
            lemma_swapped_permutes(before, lscan as int, rscan as int);
            lemma_swapped_in_window(before, low + 1, high + 1, lscan as int, rscan as int);
            assert(xs@.take(low as int) =~= before.take(low as int));
            lemma_order_pair(before[lscan as int], pivot);
            lemma_order_pair(pivot, before[lscan as int]);
            assert forall|k: int| low < k < lscan implies #[trigger] le_rel::<T>()(
                xs@[k],
                pivot,
            ) by {
                assert(le_rel::<T>()(before[k], pivot));
            }
            assert forall|k: int| rscan < k <= high implies #[trigger] le_rel::<T>()(
                pivot,
                xs@[k],
            ) by {
                assert(le_rel::<T>()(pivot, before[k]));
            }
            fresh = false;
        }
    }
    let ghost before = xs@;
    xs.swap(low, rscan);
    proof {
        assert(xs@ =~= swapped(before, low as int, rscan as int));
        lemma_swapped_permutes(before, low as int, rscan as int);
        lemma_swapped_in_window(before, low as int, high + 1, low as int, rscan as int);
        lemma_order_pair(before[rscan as int], pivot);
        lemma_order_pair(pivot, pivot);
        assert forall|k: int| low <= k < rscan implies #[trigger] le_rel::<T>()(
            xs@[k],
            xs@[rscan as int],
        ) by {
            if k > low {
                assert(le_rel::<T>()(before[k], pivot));
            }
        }
        assert forall|k: int| rscan < k <= high implies #[trigger] le_rel::<T>()(
            xs@[rscan as int],
            xs@[k],
        ) by {
            assert(le_rel::<T>()(pivot, before[k]));
        }
    }
    rscan
}

/// Sorts `xs` in place by three-way quicksort: a single pass splits a
/// subarray into the elements less than, equal to and greater than one of
/// its elements. The result holds the same elements in non-decreasing
/// order.
pub fn quick_three_way_sort<T: PartialOrd + Copy>(xs: &mut [T])
    requires
        total_order::<T>(),
    ensures
        final(xs)@.len() == old(xs)@.len(),
        final(xs)@.to_multiset() == old(xs)@.to_multiset(),
        sorted(final(xs)@),
{
    fastrand::shuffle(xs);
    let high: usize = xs.len().saturating_sub(1);
    quick_three_way_sort_rec(xs, 0, high);
}

/// Three-way quicksort on `xs[low..=high]`: a pass over the subarray
/// moves the elements that compare less than the one at `low` to the front
/// and those that compare greater to the back, and the two outer parts are
/// sorted in turn. A subarray within the cutoff ends the descent with an
/// insertion sort, which goes over the whole of `xs`; that is why all of
/// `xs` is sorted in the end.
fn quick_three_way_sort_rec<T: PartialOrd + Copy>(xs: &mut [T], low: usize, high: usize)
    requires
        total_order::<T>(),
        high > low + CUTOFF ==> high < old(xs)@.len(),
    ensures
        final(xs)@.len() == old(xs)@.len(),
        final(xs)@.to_multiset() == old(xs)@.to_multiset(),
        sorted(final(xs)@),
    decreases span(low, high),
{
    if high <= low || high - low <= CUTOFF {
        insertion_sort(xs);
        return ;
    }
    let mut lt: usize = low;
    let mut gt: usize = high;
    let mut scan: usize = low + 1;
    while scan <= gt
        invariant
            xs@.len() == old(xs)@.len(),
            xs@.to_multiset() == old(xs)@.to_multiset(),
            low <= lt < scan <= gt + 1,
            gt <= high < xs.len(),
        decreases gt + 1 - scan,
    {
        let ghost before = xs@;
        if xs[scan] < xs[low] {
            xs.swap(lt, scan);
            proof {
                assert(xs@ =~= swapped(before, lt as int, scan as int));
                lemma_swapped_permutes(before, lt as int, scan as int);
            }
            lt = lt + 1;
            scan = scan + 1;
        } else if xs[scan] > xs[low] {
            xs.swap(scan, gt);
            proof {
                assert(xs@ =~= swapped(before, scan as int, gt as int));
                lemma_swapped_permutes(before, scan as int, gt as int);
            }
            gt = gt.saturating_sub(1);
        } else {
            scan = scan + 1;
        }
    }
    quick_three_way_sort_rec(xs, low, lt.saturating_sub(1));
    quick_three_way_sort_rec(xs, gt + 1, high);
}

} // verus!
