//! Rearranging slices and sequences.
//!
//! The heap and the sorts change slices by exchanging two elements at a
//! time. This module holds what the crate takes on trust about the two
//! outside functions that do so, `<[T]>::swap` of the standard library and
//! `fastrand::shuffle`, and the lemmas on what an exchange does to the
//! elements of a sequence.

use vstd::prelude::*;

verus! {

/// `<[_]>::swap` exchanges the elements at the two indices and leaves the
/// others as they are. It panics when an index is out of bounds, which the
/// precondition rules out.
pub assume_specification<Elem>[ <[Elem]>::swap ](slice: &mut [Elem], a: usize, b: usize)
    requires
        a < old(slice)@.len(),
        b < old(slice)@.len(),
    ensures
        final(slice)@ == old(slice)@.update(a as int, old(slice)@[b as int]).update(
            b as int,
            old(slice)@[a as int],
        ),
;

/// `fastrand::shuffle` rearranges the slice by a sequence of exchanges
/// at random indices inside it: the slice keeps its length and its
/// elements. Nothing is said of their order.
pub assume_specification<Elem>[ fastrand::shuffle::<Elem> ](slice: &mut [Elem])
    ensures
        final(slice)@.len() == old(slice)@.len(),
        final(slice)@.to_multiset() == old(slice)@.to_multiset(),
;

/// `s` with the elements at `i` and `j` exchanged.
pub open spec fn swapped<T>(s: Seq<T>, i: int, j: int) -> Seq<T> {
    s.update(i, s[j]).update(j, s[i])
}

/// Exchanging two elements keeps the length and the elements.
pub proof fn lemma_swapped_permutes<T>(s: Seq<T>, i: int, j: int)
    requires
        0 <= i < s.len(),
        0 <= j < s.len(),
    ensures
        swapped(s, i, j).len() == s.len(),
        swapped(s, i, j).to_multiset() == s.to_multiset(),
{
    broadcast use vstd::multiset::group_multiset_axioms;

    let t = s.update(i, s[j]);
    vstd::seq_lib::to_multiset_update(s, i, s[j]);
    vstd::seq_lib::to_multiset_update(t, j, s[i]);
    s.to_multiset_ensures();
    assert(swapped(s, i, j).to_multiset() =~= s.to_multiset());
}

/// Exchanging two of the first `n` elements permutes the first `n` and
/// leaves the others alone.
pub proof fn lemma_swapped_in_prefix<T>(s: Seq<T>, n: int, i: int, j: int)
    requires
        0 <= i < n <= s.len(),
        0 <= j < n,
    ensures
        swapped(s, i, j).take(n).to_multiset() == s.take(n).to_multiset(),
        swapped(s, i, j).skip(n) == s.skip(n),
{
    assert(swapped(s, i, j).take(n) =~= swapped(s.take(n), i, j));
    assert(swapped(s, i, j).skip(n) =~= s.skip(n));
    lemma_swapped_permutes(s.take(n), i, j);
}

/// A sequence has the elements of its first `n` together with the rest.
pub proof fn lemma_prefix_and_rest<T>(s: Seq<T>, t: Seq<T>, n: int)
    requires
        0 <= n <= s.len(),
        s.len() == t.len(),
        s.take(n).to_multiset() == t.take(n).to_multiset(),
        s.skip(n) == t.skip(n),
    ensures
        s.to_multiset() == t.to_multiset(),
{
    assert(s =~= s.take(n) + s.skip(n));
    assert(t =~= t.take(n) + t.skip(n));
    vstd::seq_lib::lemma_multiset_commutative(s.take(n), s.skip(n));
    vstd::seq_lib::lemma_multiset_commutative(t.take(n), t.skip(n));
}

/// A sequence keeps its elements when only the window from `lo` to `hi`
/// changes and the window keeps its own.
pub proof fn lemma_window_permuted<T>(s: Seq<T>, t: Seq<T>, lo: int, hi: int)
    requires
        0 <= lo <= hi <= s.len(),
        s.len() == t.len(),
        s.take(lo) == t.take(lo),
        s.skip(hi) == t.skip(hi),
        s.subrange(lo, hi).to_multiset() == t.subrange(lo, hi).to_multiset(),
    ensures
        s.to_multiset() == t.to_multiset(),
{
    assert(s =~= s.take(lo) + s.subrange(lo, hi) + s.skip(hi));
    assert(t =~= t.take(lo) + t.subrange(lo, hi) + t.skip(hi));
    vstd::seq_lib::lemma_multiset_commutative(s.take(lo), s.subrange(lo, hi));
    vstd::seq_lib::lemma_multiset_commutative(t.take(lo), t.subrange(lo, hi));
    vstd::seq_lib::lemma_multiset_commutative(s.take(lo) + s.subrange(lo, hi), s.skip(hi));
    vstd::seq_lib::lemma_multiset_commutative(t.take(lo) + t.subrange(lo, hi), t.skip(hi));
}

/// Exchanging two elements of the window from `lo` to `hi` leaves what is
/// before and after the window alone.
pub proof fn lemma_swapped_in_window<T>(s: Seq<T>, lo: int, hi: int, i: int, j: int)
    requires
        0 <= lo <= i < hi <= s.len(),
        lo <= j < hi,
    ensures
        swapped(s, i, j).take(lo) == s.take(lo),
        swapped(s, i, j).skip(hi) == s.skip(hi),
{
    assert(swapped(s, i, j).take(lo) =~= s.take(lo));
    assert(swapped(s, i, j).skip(hi) =~= s.skip(hi));
}

/// The empty sequence has no elements.
pub proof fn lemma_empty_to_multiset<T>(s: Seq<T>)
    requires
        s.len() == 0,
    ensures
        s.to_multiset() == vstd::multiset::Multiset::<T>::empty(),
{
    broadcast use vstd::multiset::group_multiset_axioms;

    assert forall|x: T| s.to_multiset().count(x) == 0 by {
        vstd::seq_lib::to_multiset_contains(s, x);
    }
    assert(s.to_multiset() =~= vstd::multiset::Multiset::<T>::empty());
}

} // verus!
