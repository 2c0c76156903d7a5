//! Comparison sorts for slices, and the means to try them out.

pub mod heap;
pub mod insertion;
pub mod merge;
pub mod quick;

pub use heap::heap_sort;
pub use insertion::insertion_sort;
pub use merge::{merge, merge_sort};
pub use quick::{quick_sort, quick_three_way_sort};

use crate::order::{
    comparable, gt, lemma_i64_total_order, lemma_sorted_stepwise, lemma_total_order_comparable,
    sorted, stepwise_sorted, total_order,
};
use vstd::prelude::*;

verus! {

/// Whether no element of `xs` is greater than its successor. Under a total
/// order this says that `xs` is in non-decreasing order.
pub fn is_sorted<T: PartialOrd>(xs: &[T]) -> (r: bool)
    ensures
        comparable::<T>() ==> r == stepwise_sorted(xs@),
        total_order::<T>() ==> r == sorted(xs@),
{
    proof {
        if total_order::<T>() {
            lemma_total_order_comparable::<T>();
            lemma_sorted_stepwise(xs@);
        }
    }
    let mut i: usize = 1;
    while i < xs.len()
        invariant
            1 <= i,
            total_order::<T>() ==> comparable::<T>() && (sorted(xs@) <==> stepwise_sorted(xs@)),
            comparable::<T>() ==> forall|k: int|
                0 <= k < i - 1 ==> !gt(#[trigger] xs@[k], xs@[k + 1]),
        decreases xs.len() - i,
    {
        if xs[i - 1] > xs[i] {
            assert(comparable::<T>() ==> gt(xs@[i - 1], xs@[i - 1 + 1]));
            return false;
        }
        i = i + 1;
    }
    true
}

/// A random number from the generator of the current thread. Any value
/// may come back.
#[verifier::external_body]
fn random_i64() -> i64 {
    fastrand::i64(..)
}

/// A vector of `vec_size` random numbers.
pub fn rand_vec(vec_size: usize) -> (v: Vec<i64>)
    ensures
        v@.len() == vec_size,
{
    let mut v: Vec<i64> = Vec::new();
    while v.len() < vec_size
        invariant
            v@.len() <= vec_size,
        decreases vec_size - v@.len(),
    {
        v.push(random_i64());
    }
    v
}

/// How many random vectors a sort is tried on.
pub const TRIALS: usize = 50;

/// The length of each of these vectors.
pub const TRIAL_SIZE: usize = 100;

/// A sorting procedure for slices. What an implementer promises of its
/// `sort` is for it to state.
pub trait Sorter {
    /// Sorts `xs` in place.
    fn sort<T: PartialOrd + Copy>(xs: &mut [T]);
}

/// Applies a sorter to `xs` and says whether it left `xs` sorted.
pub fn sorter_sorts<S: Sorter>(xs: &mut [i64]) -> (ok: bool)
    ensures
        exists|v: &mut [i64]|
            #[trigger] call_ensures(S::sort::<i64>, (v,), ()) && v@ == old(xs)@ && final(v)@
                == final(xs)@,
        ok == sorted(final(xs)@),
{
    proof {
        lemma_i64_total_order();
    }
    S::sort(xs);
    is_sorted(xs)
}

/// Tries a sorter on random vectors of `TRIAL_SIZE` numbers, one after
/// the other, and says whether each came out sorted. The trials end with
/// the first vector that does not, or after `TRIALS` of them. So a sorter
/// that always leaves its argument sorted passes whatever the random
/// numbers are; a pass says that the sorter left `TRIALS` vectors sorted,
/// and a failure that the vector of the last trial was not left sorted.
pub fn check_sorter<S: Sorter>(_sorter: S) -> (ok: bool)
    ensures
        (forall|xs: &mut [i64]| #[trigger]
            call_ensures(S::sort::<i64>, (xs,), ()) ==> sorted(final(xs)@)) ==> ok,
        exists|inputs: Seq<Seq<i64>>|
            {
                &&& 1 <= inputs.len() <= TRIALS
                &&& ok ==> inputs.len() == TRIALS
                &&& forall|t: int|
                    0 <= t < inputs.len() ==> (#[trigger] inputs[t]).len() == TRIAL_SIZE
                &&& forall|t: int|
                    0 <= t < inputs.len() - 1 ==> {
                        let input = #[trigger] inputs[t];
                        exists|v: &mut [i64]|
                            #[trigger] call_ensures(S::sort::<i64>, (v,), ()) && v@ == input
                                && sorted(final(v)@)
                    }
                &&& exists|v: &mut [i64]|
                    #[trigger] call_ensures(S::sort::<i64>, (v,), ()) && v@ == inputs.last()
                        && ok == sorted(final(v)@)
            },
{
    let ghost mut inputs: Seq<Seq<i64>> = Seq::empty();
    let mut trial: usize = 0;
    while trial < TRIALS
        invariant
            trial <= TRIALS,
            inputs.len() == trial,
            trial > 0 ==> exists|v: &mut [i64]|
                #[trigger] call_ensures(S::sort::<i64>, (v,), ()) && v@ == inputs.last()
                    && sorted(final(v)@),
            forall|t: int| 0 <= t < inputs.len() ==> (#[trigger] inputs[t]).len() == TRIAL_SIZE,
            forall|t: int|
                0 <= t < inputs.len() ==> {
                    let input = #[trigger] inputs[t];
                    exists|v: &mut [i64]|
                        #[trigger] call_ensures(S::sort::<i64>, (v,), ()) && v@ == input
                            && sorted(final(v)@)
                },
        decreases TRIALS - trial,
    {
        let mut xs = rand_vec(TRIAL_SIZE);
        let ghost earlier = inputs;
        proof {
            inputs = earlier.push(xs@);
        }
        let sorted_now = sorter_sorts::<S>(&mut xs);
        proof {
            assert forall|t: int| 0 <= t < inputs.len() - 1 implies {
                let input = #[trigger] inputs[t];
                exists|v: &mut [i64]|
                    #[trigger] call_ensures(S::sort::<i64>, (v,), ()) && v@ == input && sorted(
                        final(v)@,
                    )
            } by {
                assert(inputs[t] == earlier[t]);
            }
            assert(exists|v: &mut [i64]|
                #[trigger] call_ensures(S::sort::<i64>, (v,), ()) && v@ == inputs.last()
                    && sorted_now == sorted(final(v)@));
        }
        if !sorted_now {
            return false;
        }
        trial = trial + 1;
    }
    true
}

/// Applies a sort function to `xs` and says whether it left `xs` sorted.
pub fn sorts<F: Fn(&mut [i64])>(sort_fn: &F, xs: &mut [i64]) -> (ok: bool)
    requires
        forall|v: &mut [i64]| v@ == old(xs)@ ==> call_requires(*sort_fn, (v,)),
    ensures
        exists|v: &mut [i64]|
            #[trigger] call_ensures(*sort_fn, (v,), ()) && v@ == old(xs)@ && final(v)@
                == final(xs)@,
        ok == sorted(final(xs)@),
{
    proof {
        lemma_i64_total_order();
    }
    sort_fn(xs);
    is_sorted(xs)
}

/// Tries a sort function on random vectors of `TRIAL_SIZE` numbers, one
/// after the other, and says whether each came out sorted. The trials end
/// with the first vector that does not, or after `TRIALS` of them. The
/// function must accept every slice. One that always leaves its argument
/// sorted passes whatever the random numbers are; a pass says that the
/// function left `TRIALS` vectors sorted, and a failure that the vector of
/// the last trial was not left sorted.
pub fn check_sort_fn<F: Fn(&mut [i64])>(sort_fn: F) -> (ok: bool)
    requires
        forall|xs: &mut [i64]| call_requires(sort_fn, (xs,)),
    ensures
        (forall|xs: &mut [i64]| #[trigger]
            call_ensures(sort_fn, (xs,), ()) ==> sorted(final(xs)@)) ==> ok,
        exists|inputs: Seq<Seq<i64>>|
            {
                &&& 1 <= inputs.len() <= TRIALS
                &&& ok ==> inputs.len() == TRIALS
                &&& forall|t: int|
                    0 <= t < inputs.len() ==> (#[trigger] inputs[t]).len() == TRIAL_SIZE
                &&& forall|t: int|
                    0 <= t < inputs.len() - 1 ==> {
                        let input = #[trigger] inputs[t];
                        exists|v: &mut [i64]|
                            #[trigger] call_ensures(sort_fn, (v,), ()) && v@ == input && sorted(
                                final(v)@,
                            )
                    }
                &&& exists|v: &mut [i64]|
                    #[trigger] call_ensures(sort_fn, (v,), ()) && v@ == inputs.last() && ok
                        == sorted(final(v)@)
            },
{
    let ghost mut inputs: Seq<Seq<i64>> = Seq::empty();
    let mut trial: usize = 0;
    while trial < TRIALS
        invariant
            forall|xs: &mut [i64]| call_requires(sort_fn, (xs,)),
            trial <= TRIALS,
            inputs.len() == trial,
            trial > 0 ==> exists|v: &mut [i64]|
                #[trigger] call_ensures(sort_fn, (v,), ()) && v@ == inputs.last() && sorted(
                    final(v)@,
                ),
            forall|t: int| 0 <= t < inputs.len() ==> (#[trigger] inputs[t]).len() == TRIAL_SIZE,
            forall|t: int|
                0 <= t < inputs.len() ==> {
                    let input = #[trigger] inputs[t];
                    exists|v: &mut [i64]|
                        #[trigger] call_ensures(sort_fn, (v,), ()) && v@ == input && sorted(
                            final(v)@,
                        )
                },
        decreases TRIALS - trial,
    {
        let mut xs = rand_vec(TRIAL_SIZE);
        let ghost earlier = inputs;
        proof {
            inputs = earlier.push(xs@);
        }
        let sorted_now = sorts(&sort_fn, &mut xs);
        proof {
            assert forall|t: int| 0 <= t < inputs.len() - 1 implies {
                let input = #[trigger] inputs[t];
                exists|v: &mut [i64]|
                    #[trigger] call_ensures(sort_fn, (v,), ()) && v@ == input && sorted(final(v)@)
            } by {
                assert(inputs[t] == earlier[t]);
            }
            assert(exists|v: &mut [i64]|
                #[trigger] call_ensures(sort_fn, (v,), ()) && v@ == inputs.last() && sorted_now
                    == sorted(final(v)@));
        }
        if !sorted_now {
            return false;
        }
        trial = trial + 1;
    }
    true
}

} // verus!
