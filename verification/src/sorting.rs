//! Sorting with a heap, tried out on random numbers of a small range.

pub mod heap;

pub use crate::sort::is_sorted;
pub use heap::HeapSort;

use vstd::prelude::*;

verus! {

/// The least number that `rand_vec` produces.
pub const RAND_LOW: i64 = -1000;

/// The bound below which the numbers that `rand_vec` produces stay.
pub const RAND_HIGH: i64 = 1000;

/// A number drawn with `rand::Rng::sample` from `Uniform::new(low, high)`
/// by `rand::thread_rng()`, the generator of the current thread. The
/// distribution yields numbers from `low` up to, but not including,
/// `high`, and `Uniform::new` panics unless `low < high`.
#[verifier::external_body]
fn uniform_i64(low: i64, high: i64) -> (r: i64)
    requires
        low < high,
    ensures
        low <= r < high,
{
    rand::Rng::sample(&mut rand::thread_rng(), rand::distributions::Uniform::new(low, high))
}

/// A vector of `vec_size` random numbers from `RAND_LOW` up to, but not
/// including, `RAND_HIGH`.
pub fn rand_vec(vec_size: usize) -> (v: Vec<i64>)
    ensures
        v@.len() == vec_size,
        forall|i: int| 0 <= i < v@.len() ==> RAND_LOW <= #[trigger] v@[i] < RAND_HIGH,
{
    let mut v: Vec<i64> = Vec::new();
    while v.len() < vec_size
        invariant
            v@.len() <= vec_size,
            forall|i: int| 0 <= i < v@.len() ==> RAND_LOW <= #[trigger] v@[i] < RAND_HIGH,
        decreases vec_size - v@.len(),
    {
        v.push(uniform_i64(RAND_LOW, RAND_HIGH));
    }
    v
}

} // verus!
