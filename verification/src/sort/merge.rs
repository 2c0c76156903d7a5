//! Merge sort.

use crate::order::{
    comparable, le, le_rel, lemma_le_transitive, lemma_order_pair, lemma_total_order_comparable,
    sorted, total_order,
};
use crate::slices::{lemma_empty_to_multiset, lemma_window_permuted};
use vstd::prelude::*;
use vstd::slice::{slice_subrange, slice_to_vec};

verus! {

/// The merge of two sequences: the smaller of the two first elements
/// comes first, the one of `a` where they are equal, and the rest is
/// merged in the same way.
pub open spec fn merged<T: PartialOrd>(a: Seq<T>, b: Seq<T>) -> Seq<T>
    decreases a.len() + b.len(),
{
    if a.len() == 0 {
        b
    } else if b.len() == 0 {
        a
    } else if le(a[0], b[0]) {
        seq![a[0]] + merged(a.skip(1), b)
    } else {
        seq![b[0]] + merged(a, b.skip(1))
    }
}

/// A merge holds the elements of both sequences.
pub proof fn lemma_merged_permutes<T: PartialOrd>(a: Seq<T>, b: Seq<T>)
    ensures
        merged(a, b).len() == a.len() + b.len(),
        merged(a, b).to_multiset() == a.to_multiset().add(b.to_multiset()),
    decreases a.len() + b.len(),
{
    broadcast use vstd::multiset::group_multiset_axioms;

    if a.len() == 0 {
        lemma_empty_to_multiset(a);
        assert(merged(a, b).to_multiset() =~= a.to_multiset().add(b.to_multiset()));
    } else if b.len() == 0 {
        lemma_empty_to_multiset(b);
        assert(merged(a, b).to_multiset() =~= a.to_multiset().add(b.to_multiset()));
    } else if le(a[0], b[0]) {
        lemma_merged_permutes(a.skip(1), b);
        vstd::seq_lib::lemma_multiset_commutative(seq![a[0]], merged(a.skip(1), b));
        vstd::seq_lib::lemma_multiset_commutative(seq![a[0]], a.skip(1));
        assert(a =~= seq![a[0]] + a.skip(1));
        assert(merged(a, b).to_multiset() =~= a.to_multiset().add(b.to_multiset()));
    } else {
        lemma_merged_permutes(a, b.skip(1));
        vstd::seq_lib::lemma_multiset_commutative(seq![b[0]], merged(a, b.skip(1)));
        vstd::seq_lib::lemma_multiset_commutative(seq![b[0]], b.skip(1));
        assert(b =~= seq![b[0]] + b.skip(1));
        assert(merged(a, b).to_multiset() =~= a.to_multiset().add(b.to_multiset()));
    }
}

/// Every element of a merge comes from one of the two sequences.
proof fn lemma_merged_origin<T: PartialOrd>(a: Seq<T>, b: Seq<T>, k: int)
    requires
        0 <= k < merged(a, b).len(),
    ensures
        a.contains(merged(a, b)[k]) || b.contains(merged(a, b)[k]),
{
    broadcast use vstd::multiset::group_multiset_axioms;

    let m = merged(a, b);
    lemma_merged_permutes(a, b);
    assert(m.contains(m[k]));
    vstd::seq_lib::to_multiset_contains(m, m[k]);
    vstd::seq_lib::to_multiset_contains(a, m[k]);
    vstd::seq_lib::to_multiset_contains(b, m[k]);
}

/// The merge of two sorted sequences is sorted.
pub proof fn lemma_merged_sorted<T: PartialOrd>(a: Seq<T>, b: Seq<T>)
    requires
        total_order::<T>(),
        sorted(a),
        sorted(b),
    ensures
        sorted(merged(a, b)),
    decreases a.len() + b.len(),
{
    if a.len() > 0 && b.len() > 0 {
        lemma_order_pair(a[0], b[0]);
        let (x, ra, rb) = if le(a[0], b[0]) {
            (a[0], a.skip(1), b)
        } else {
            (b[0], a, b.skip(1))
        };
        assert(sorted(ra)) by {
            assert forall|i: int, j: int| 0 <= i < j < ra.len() implies #[trigger] le_rel::<T>()(
                ra[i],
                ra[j],
            ) by {
                if le(a[0], b[0]) {
                    assert(le_rel::<T>()(a[i + 1], a[j + 1]));
                } else {
                    assert(le_rel::<T>()(a[i], a[j]));
                }
            }
        }
        assert(sorted(rb)) by {
            assert forall|i: int, j: int| 0 <= i < j < rb.len() implies #[trigger] le_rel::<T>()(
                rb[i],
                rb[j],
            ) by {
                if le(a[0], b[0]) {
                    assert(le_rel::<T>()(b[i], b[j]));
                } else {
                    assert(le_rel::<T>()(b[i + 1], b[j + 1]));
                }
            }
        }
        lemma_merged_sorted(ra, rb);
        let rest = merged(ra, rb);
        let m = merged(a, b);
        assert(m =~= seq![x] + rest);
        assert forall|i: int, j: int| 0 <= i < j < m.len() implies #[trigger] le_rel::<T>()(
            m[i],
            m[j],
        ) by {
            if i == 0 {
                let y = rest[j - 1];
                lemma_merged_origin(ra, rb, j - 1);
                if ra.contains(y) {
                    let p = choose|p: int| 0 <= p < ra.len() && ra[p] == y;
                    if le(a[0], b[0]) {
                        assert(le_rel::<T>()(a[0], a[p + 1]));
                    } else {
                        lemma_order_pair(a[0], a[0]);
                        if p > 0 {
                            assert(le_rel::<T>()(a[0], a[p]));
                        }
                        lemma_le_transitive(b[0], a[0], a[p]);
                    }
                } else {
                    let p = choose|p: int| 0 <= p < rb.len() && rb[p] == y;
                    if le(a[0], b[0]) {
                        lemma_order_pair(b[0], b[0]);
                        if p > 0 {
                            assert(le_rel::<T>()(b[0], b[p]));
                        }
                        lemma_le_transitive(a[0], b[0], b[p]);
                    } else {
                        assert(le_rel::<T>()(b[0], b[p + 1]));
                    }
                }
            } else {
                assert(le_rel::<T>()(rest[i - 1], rest[j - 1]));
            }
        }
    }
}

/// Merges the two adjacent runs `xs[low..=mid]` and `xs[mid + 1..=top]`
/// into `xs[low..=top]`. The rest of `xs` stays as it is. Where both runs
/// are sorted, so is their merge.
pub fn merge<T: PartialOrd + Copy>(xs: &mut [T], low: usize, mid: usize, top: usize)
    requires
        low <= mid + 1,
        mid <= top,
        top < old(xs)@.len(),
    ensures
        final(xs)@.len() == old(xs)@.len(),
        final(xs)@.take(low as int) == old(xs)@.take(low as int),
        final(xs)@.skip(top + 1) == old(xs)@.skip(top + 1),
        final(xs)@.subrange(low as int, top + 1).to_multiset() == old(xs)@.subrange(
            low as int,
            top + 1,
        ).to_multiset(),
        final(xs)@.to_multiset() == old(xs)@.to_multiset(),
        comparable::<T>() ==> final(xs)@.subrange(low as int, top + 1) == merged(
            old(xs)@.subrange(low as int, mid + 1),
            old(xs)@.subrange(mid + 1, top + 1),
        ),
        total_order::<T>() && sorted(old(xs)@.subrange(low as int, mid + 1)) && sorted(
            old(xs)@.subrange(mid + 1, top + 1),
        ) ==> sorted(final(xs)@.subrange(low as int, top + 1)),
{
    assert(top < xs.len());
    let left = slice_to_vec(slice_subrange(xs, low, mid + 1));
    let right = slice_to_vec(slice_subrange(xs, mid + 1, top + 1));
    let ghost a = left@;
    let ghost b = right@;
    let ghost s0 = xs@;
    let mut i: usize = 0;
    let mut j: usize = 0;
    let mut k: usize = low;
    proof {
        assert(s0.subrange(low as int, top + 1) =~= a + b);
        assert(xs@.subrange(low as int, k as int) =~= Seq::<T>::empty());
        assert(a.take(0) =~= Seq::<T>::empty());
        assert(b.take(0) =~= Seq::<T>::empty());
        assert(a.skip(0) =~= a);
        assert(b.skip(0) =~= b);
        broadcast use vstd::multiset::group_multiset_axioms;
        lemma_empty_to_multiset(Seq::<T>::empty());
    }
    while k <= top
        invariant
            left@ == a,
            right@ == b,
            a.len() == mid + 1 - low,
            b.len() == top - mid,
            xs@.len() == s0.len(),
            top < s0.len(),
            low <= k <= top + 1,
            i <= a.len(),
            j <= b.len(),
            i + j == k - low,
            xs@.take(low as int) == s0.take(low as int),
            xs@.skip(top + 1) == s0.skip(top + 1),
            xs@.subrange(low as int, k as int).to_multiset() == a.take(i as int).to_multiset().add(
                b.take(j as int).to_multiset(),
            ),
            comparable::<T>() ==> xs@.subrange(low as int, k as int) + merged(
                a.skip(i as int),
                b.skip(j as int),
            ) == merged(a, b),
        decreases top + 1 - k,
    {
        let ghost before = xs@;
        let from_left: bool = if i < left.len() && j < right.len() {
            left[i] <= right[j]
        } else {
            i < left.len()
        };
        let ghost ra = a.skip(i as int);
        let ghost rb = b.skip(j as int);
        if from_left {
            xs[k] = left[i];
            proof {
                assert(a.take(i + 1) =~= a.take(i as int).push(a[i as int]));
                assert(ra.skip(1) =~= a.skip(i + 1));
                if comparable::<T>() {
                    if rb.len() == 0 {
                        assert(merged(ra, rb) == ra);
                        assert(ra =~= seq![a[i as int]] + ra.skip(1));
                        assert(merged(ra.skip(1), rb) == ra.skip(1));
                    } else {
                        assert(le(ra[0], rb[0]));
                    }
                    assert(merged(ra, rb) =~= seq![a[i as int]] + merged(ra.skip(1), rb));
                }
            }
            i = i + 1;
        } else {
            xs[k] = right[j];
            proof {
                assert(b.take(j + 1) =~= b.take(j as int).push(b[j as int]));
                assert(rb.skip(1) =~= b.skip(j + 1));
                if comparable::<T>() {
                    if ra.len() == 0 {
                        assert(merged(ra, rb) == rb);
                        assert(rb =~= seq![b[j as int]] + rb.skip(1));
                        assert(merged(ra, rb.skip(1)) == rb.skip(1));
                    } else {
                        assert(!le(ra[0], rb[0]));
                    }
                    assert(merged(ra, rb) =~= seq![b[j as int]] + merged(ra, rb.skip(1)));
                }
            }
            j = j + 1;
        }
        proof {
            broadcast use vstd::multiset::group_multiset_axioms;
            let v = xs@[k as int];
            assert(xs@.subrange(low as int, k + 1) =~= before.subrange(low as int, k as int).push(
                v,
            ));
            vstd::seq_lib::to_multiset_build(before.subrange(low as int, k as int), v);
            if from_left {
                vstd::seq_lib::to_multiset_build(a.take(i - 1), v);
            } else {
                vstd::seq_lib::to_multiset_build(b.take(j - 1), v);
            }
            assert(xs@.subrange(low as int, k + 1).to_multiset() =~= a.take(
                i as int,
            ).to_multiset().add(b.take(j as int).to_multiset()));
            assert(xs@.take(low as int) =~= before.take(low as int));
            assert(xs@.skip(top + 1) =~= before.skip(top + 1));
        }
        k = k + 1;
    }
    proof {
        assert(a.take(i as int) =~= a);
        assert(b.take(j as int) =~= b);
        vstd::seq_lib::lemma_multiset_commutative(a, b);
        lemma_window_permuted(xs@, s0, low as int, top + 1);
        if comparable::<T>() {
            assert(merged(a.skip(i as int), b.skip(j as int)) =~= Seq::<T>::empty());
            assert(xs@.subrange(low as int, top + 1) =~= merged(a, b));
        }
        if total_order::<T>() && sorted(a) && sorted(b) {
            lemma_total_order_comparable::<T>();
            lemma_merged_sorted(a, b);
        }
    }
}

/// Sorts `xs[low..=top]` and leaves the rest of `xs` as it is.
fn merge_sort_rec<T: PartialOrd + Copy>(xs: &mut [T], low: usize, top: usize)
    requires
        low < top ==> top < old(xs)@.len(),
    ensures
        final(xs)@.len() == old(xs)@.len(),
        final(xs)@.to_multiset() == old(xs)@.to_multiset(),
        low >= top ==> final(xs)@ == old(xs)@,
        low < top ==> {
            &&& final(xs)@.take(low as int) == old(xs)@.take(low as int)
            &&& final(xs)@.skip(top + 1) == old(xs)@.skip(top + 1)
            &&& final(xs)@.subrange(low as int, top + 1).to_multiset() == old(xs)@.subrange(
                low as int,
                top + 1,
            ).to_multiset()
            &&& total_order::<T>() ==> sorted(final(xs)@.subrange(low as int, top + 1))
        },
    decreases top - low,
{
    if low < top {
        let mid: usize = low + (top - low) / 2;
        let ghost s0 = xs@;
        merge_sort_rec(xs, low, mid);
        let ghost s1 = xs@;
        merge_sort_rec(xs, mid + 1, top);
        let ghost s2 = xs@;
        proof {
            // The left run is permuted by the first call and kept by the second.
            assert(s1.subrange(low as int, mid + 1).to_multiset() == s0.subrange(
                low as int,
                mid + 1,
            ).to_multiset()) by {
                if low >= mid {
                    assert(s1 == s0);
                }
            }
            assert(s1.subrange(mid + 1, top + 1) =~= s0.subrange(mid + 1, top + 1)) by {
                if low < mid {
                    assert forall|p: int| mid + 1 <= p < top + 1 implies s1[p] == s0[p] by {
                        assert(s1[p] == s1.skip(mid + 1)[p - (mid + 1)]);
                        assert(s0[p] == s0.skip(mid + 1)[p - (mid + 1)]);
                    }
                }
            }
            assert(s2.subrange(low as int, mid + 1) =~= s1.subrange(low as int, mid + 1)) by {
                if mid + 1 < top {
                    assert forall|p: int| low <= p < mid + 1 implies s2[p] == s1[p] by {
                        assert(s2[p] == s2.take(mid + 1)[p]);
                        assert(s1[p] == s1.take(mid + 1)[p]);
                    }
                }
            }
            assert(s2.subrange(mid + 1, top + 1).to_multiset() == s1.subrange(
                mid + 1,
                top + 1,
            ).to_multiset()) by {
                if mid + 1 >= top {
                    assert(s2 == s1);
                }
            }
            assert(s2.take(low as int) =~= s0.take(low as int)) by {
                assert forall|p: int| 0 <= p < low implies s2[p] == s0[p] by {
                    if mid + 1 < top {
                        assert(s2[p] == s2.take(mid + 1)[p]);
                        assert(s1[p] == s1.take(mid + 1)[p]);
                    }
                    if low < mid {
                        assert(s1[p] == s1.take(low as int)[p]);
                        assert(s0[p] == s0.take(low as int)[p]);
                    }
                }
            }
            assert(s2.skip(top + 1) =~= s0.skip(top + 1)) by {
                assert forall|p: int| top + 1 <= p < s0.len() implies s2[p] == s0[p] by {
                    if mid + 1 < top {
                        assert(s2[p] == s2.skip(top + 1)[p - (top + 1)]);
                        assert(s1[p] == s1.skip(top + 1)[p - (top + 1)]);
                    }
                    if low < mid {
                        assert(s1[p] == s1.skip(mid + 1)[p - (mid + 1)]);
                        assert(s0[p] == s0.skip(mid + 1)[p - (mid + 1)]);
                    }
                }
            }
            assert(s0.subrange(low as int, top + 1) =~= s0.subrange(low as int, mid + 1)
                + s0.subrange(mid + 1, top + 1));
            assert(s2.subrange(low as int, top + 1) =~= s2.subrange(low as int, mid + 1)
                + s2.subrange(mid + 1, top + 1));
            vstd::seq_lib::lemma_multiset_commutative(
                s0.subrange(low as int, mid + 1),
                s0.subrange(mid + 1, top + 1),
            );
            vstd::seq_lib::lemma_multiset_commutative(
                s2.subrange(low as int, mid + 1),
                s2.subrange(mid + 1, top + 1),
            );
            if total_order::<T>() {
                // A run of one element is sorted.
                assert(sorted(s2.subrange(low as int, mid + 1)));
                assert(sorted(s2.subrange(mid + 1, top + 1)));
            }
        }
        merge(xs, low, mid, top);
    }
}

/// Sorts `xs` in place by merging sorted halves. The result holds the same
/// elements, and under a total order they are in non-decreasing order.
pub fn merge_sort<T: PartialOrd + Copy>(xs: &mut [T])
    ensures
        final(xs)@.len() == old(xs)@.len(),
        final(xs)@.to_multiset() == old(xs)@.to_multiset(),
        total_order::<T>() ==> sorted(final(xs)@),
{
    let n: usize = xs.len();
    if n > 0 {
        merge_sort_rec(xs, 0, n - 1);
        proof {
            assert(xs@.subrange(0, n as int) =~= xs@);
        }
    }
}

} // verus!
