//! Binary search.

use crate::order::{
    equatable, le_rel, lemma_order_pair, lemma_total_order_comparable, same, sorted, total_order,
};
use crate::search::Searcher;
use vstd::prelude::*;

verus! {

/// Binary search as a searcher.
pub struct BinarySearch;

impl Searcher for BinarySearch {
    /// Searches the sorted slice `x` for `item` as `binary_search` does.
    fn search<T: PartialEq + PartialOrd>(x: &[T], item: T) -> (r: Option<usize>)
        ensures
            r matches Some(i) ==> i < x@.len(),
            equatable::<T>() ==> (r matches Some(i) ==> same(x@[i as int], item)),
            total_order::<T>() ==> (r matches Some(i) ==> x@[i as int] == item),
            total_order::<T>() && sorted(x@) ==> (r is None <==> !x@.contains(item)),
    {
        binary_search(x, &item)
    }
}

/// Searches the sorted slice `xs` for `search`. An index that comes
/// back holds an element equal to `search`; where `xs` is sorted,
/// `None` says that there is none.
pub fn binary_search<T: PartialOrd>(xs: &[T], search: &T) -> (r: Option<usize>)
    ensures
        r matches Some(i) ==> i < xs@.len(),
        equatable::<T>() ==> (r matches Some(i) ==> same(xs@[i as int], *search)),
        total_order::<T>() ==> (r matches Some(i) ==> xs@[i as int] == *search),
        total_order::<T>() && sorted(xs@) ==> (r is None <==> !xs@.contains(*search)),
{
    if xs.len() == 0 {
        return None;
    }
    let r = _binary_search(xs, 0, xs.len() - 1, search);
    proof {
        if total_order::<T>() {
            lemma_total_order_comparable::<T>();
            if let Some(i) = r {
                assert(same(xs@[i as int], *search) <==> xs@[i as int] == *search);
            }
        }
    }
    r
}

/// Searches `xs[low..=top]` for `search`.
fn _binary_search<T: PartialOrd>(xs: &[T], low: usize, top: usize, search: &T) -> (r: Option<usize>)
    requires
        low <= top ==> top < xs@.len(),
    ensures
        r matches Some(i) ==> low <= i <= top,
        equatable::<T>() ==> (r matches Some(i) ==> same(xs@[i as int], *search)),
        total_order::<T>() && sorted(xs@) && r is None ==> forall|k: int|
            low <= k <= top ==> #[trigger] xs@[k] != *search,
    decreases top + 1 - low,
{
    if top < low {
        return None;
    }
    let mid: usize = low + (top - low) / 2;
    let x = &xs[mid];
    proof {
        if total_order::<T>() {
            lemma_total_order_comparable::<T>();
            lemma_order_pair(*x, *search);
            lemma_order_pair(*search, *x);
            assert(same(*x, *search) <==> *x == *search);
        }
    }
    if *x == *search {
        return Some(mid);
    } else if *x < *search {
        let r = _binary_search(xs, mid + 1, top, search);
        proof {
            if total_order::<T>() && sorted(xs@) && r is None {
                assert forall|k: int| low <= k <= top implies #[trigger] xs@[k] != *search by {
                    if k < mid {
                        assert(le_rel::<T>()(xs@[k], xs@[mid as int]));
                    }
                }
            }
        }
        return r;
    }
    if mid == low {
        proof {
            if total_order::<T>() && sorted(xs@) {
                assert forall|k: int| low <= k <= top implies #[trigger] xs@[k] != *search by {
                    if k > mid {
                        assert(le_rel::<T>()(xs@[mid as int], xs@[k]));
                    }
                }
            }
        }
        return None;
    }
    let r = _binary_search(xs, low, mid - 1, search);
    proof {
        if total_order::<T>() && sorted(xs@) && r is None {
            assert forall|k: int| low <= k <= top implies #[trigger] xs@[k] != *search by {
                if k > mid {
                    assert(le_rel::<T>()(xs@[mid as int], xs@[k]));
                }
            }
        }
    }
    r
}

} // verus!
