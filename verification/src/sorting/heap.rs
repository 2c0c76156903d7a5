//! Heapsort as a sorter of its own.

use crate::ds::heap_model::heapsorted;
use crate::ds::MaxHeap;
use crate::order::{comparable, sorted, total_order};
use vstd::prelude::*;

verus! {

/// Heapsort.
pub struct HeapSort;

impl HeapSort {
    /// Sorts the elements of `xs` by heapsort. The result holds the same
    /// elements, and under a total order they are in non-decreasing
    /// order; what was sorted comes back as it was.
    pub fn sort<T: PartialOrd + Copy>(xs: Vec<T>) -> (out: Vec<T>)
        ensures
            out@.len() == xs@.len(),
            out@.to_multiset() == xs@.to_multiset(),
            comparable::<T>() ==> out@ == heapsorted(xs@),
            total_order::<T>() ==> sorted(out@),
            total_order::<T>() && sorted(xs@) ==> out@ == xs@,
    {
        MaxHeap::heapsort(xs)
    }
}

} // verus!
