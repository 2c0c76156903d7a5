//! The ordering vocabulary shared by the heap, the sorts and the search.
//!
//! Executable code compares elements with `<`, `<=`, `>` and `==` of
//! `PartialOrd`. The predicates here say what those operators mean in
//! contracts, and `total_order` collects the laws under which the
//! ordering-dependent guarantees of this crate hold.

use core::cmp::Ordering;
use vstd::prelude::*;
use vstd::relations::{sorted_by, total_ordering};
use vstd::std_specs::cmp::{PartialEqSpec, PartialOrdSpec};

verus! {

/// The comparison operators of `T` are deterministic and agree with
/// `partial_cmp_spec`.
pub open spec fn comparable<T: PartialOrd>() -> bool {
    T::obeys_partial_cmp_spec()
}

/// The `==` of `T` is deterministic and agrees with `eq_spec`.
pub open spec fn equatable<T: PartialEq>() -> bool {
    T::obeys_eq_spec()
}

/// `a == b`, as the `==` of `T` has it.
pub open spec fn same<T: PartialEq>(a: T, b: T) -> bool {
    a.eq_spec(&b)
}

/// `a < b`.
pub open spec fn lt<T: PartialOrd>(a: T, b: T) -> bool {
    a.partial_cmp_spec(&b) == Some(Ordering::Less)
}

/// `a > b`.
pub open spec fn gt<T: PartialOrd>(a: T, b: T) -> bool {
    a.partial_cmp_spec(&b) == Some(Ordering::Greater)
}

/// `a <= b`.
pub open spec fn le<T: PartialOrd>(a: T, b: T) -> bool {
    a.partial_cmp_spec(&b) == Some(Ordering::Less) || a.partial_cmp_spec(&b) == Some(
        Ordering::Equal,
    )
}

/// `a >= b`.
pub open spec fn ge<T: PartialOrd>(a: T, b: T) -> bool {
    a.partial_cmp_spec(&b) == Some(Ordering::Greater) || a.partial_cmp_spec(&b) == Some(
        Ordering::Equal,
    )
}

/// `<=` as a relation, in the form the sequence library expects.
pub open spec fn le_rel<T: PartialOrd>() -> spec_fn(T, T) -> bool {
    |a: T, b: T| le(a, b)
}

/// The comparison of `T` is a total order whose equality is identity:
/// every two values compare, `a == b` exactly when they are the same value,
/// `a < b` exactly when `b > a`, and `<=` is transitive.
#[verifier::opaque]
pub open spec fn total_order<T: PartialOrd>() -> bool {
    &&& T::obeys_partial_cmp_spec()
    &&& T::obeys_eq_spec()
    &&& forall|a: T, b: T| #[trigger] a.eq_spec(&b) <==> a == b
    &&& forall|a: T, b: T| #[trigger] a.partial_cmp_spec(&b) is Some
    &&& forall|a: T, b: T| #[trigger] a.partial_cmp_spec(&b) == Some(Ordering::Equal) <==> a == b
    &&& forall|a: T, b: T| #[trigger]
        a.partial_cmp_spec(&b) == Some(Ordering::Less) <==> b.partial_cmp_spec(&a) == Some(
            Ordering::Greater,
        )
    &&& forall|a: T, b: T, c: T| #[trigger] le(a, b) && #[trigger] le(b, c) ==> le(a, c)
}

/// `s` is in non-decreasing order.
pub open spec fn sorted<T: PartialOrd>(s: Seq<T>) -> bool {
    sorted_by(s, le_rel::<T>())
}

/// No element of `s` is greater than its successor.
pub open spec fn stepwise_sorted<T: PartialOrd>(s: Seq<T>) -> bool {
    forall|i: int| 0 <= i < s.len() - 1 ==> !gt(#[trigger] s[i], s[i + 1])
}

/// Under a total order the four operators are tied together as usual.
pub proof fn lemma_order_pair<T: PartialOrd>(a: T, b: T)
    requires
        total_order::<T>(),
    ensures
        le(a, a),
        le(a, b) || le(b, a),
        le(a, b) && le(b, a) ==> a == b,
        le(a, b) <==> ge(b, a),
        lt(a, b) <==> gt(b, a),
        lt(a, b) <==> !ge(a, b),
        gt(a, b) <==> !le(a, b),
        lt(a, b) <==> le(a, b) && a != b,
{
    reveal(total_order);
    match a.partial_cmp_spec(&b) {
        Some(Ordering::Less) => {},
        Some(Ordering::Equal) => {},
        Some(Ordering::Greater) => {},
        None => {},
    }
    match b.partial_cmp_spec(&a) {
        Some(Ordering::Less) => {},
        Some(Ordering::Equal) => {},
        Some(Ordering::Greater) => {},
        None => {},
    }
}

/// A total order is comparable, and its `==` is identity.
pub proof fn lemma_total_order_comparable<T: PartialOrd>()
    requires
        total_order::<T>(),
    ensures
        comparable::<T>(),
        equatable::<T>(),
        forall|a: T, b: T| #[trigger] same(a, b) <==> a == b,
{
    reveal(total_order);
}

/// `<=` is transitive under a total order.
pub proof fn lemma_le_transitive<T: PartialOrd>(a: T, b: T, c: T)
    requires
        total_order::<T>(),
        le(a, b),
        le(b, c),
    ensures
        le(a, c),
{
    reveal(total_order);
}

/// `>=` is transitive under a total order.
pub proof fn lemma_ge_transitive<T: PartialOrd>(a: T, b: T, c: T)
    requires
        total_order::<T>(),
        ge(a, b),
        ge(b, c),
    ensures
        ge(a, c),
{
    lemma_order_pair(a, b);
    lemma_order_pair(b, c);
    lemma_order_pair(a, c);
    lemma_le_transitive(c, b, a);
}

/// Under a total order `<=` is a total ordering in the sense of the
/// sequence library.
pub proof fn lemma_le_rel_total_ordering<T: PartialOrd>()
    requires
        total_order::<T>(),
    ensures
        total_ordering(le_rel::<T>()),
{
    let r = le_rel::<T>();
    assert forall|x: T| #[trigger] r(x, x) by {
        lemma_order_pair(x, x);
    }
    assert forall|x: T, y: T| #[trigger] r(x, y) && #[trigger] r(y, x) implies x == y by {
        lemma_order_pair(x, y);
    }
    assert forall|x: T, y: T, z: T| #[trigger] r(x, y) && #[trigger] r(y, z) implies r(x, z) by {
        lemma_le_transitive(x, y, z);
    }
    assert forall|x: T, y: T| #[trigger] r(x, y) || #[trigger] r(y, x) by {
        lemma_order_pair(x, y);
    }
}

/// Under a total order, a sequence is sorted exactly when no element is
/// greater than its successor.
pub proof fn lemma_sorted_stepwise<T: PartialOrd>(s: Seq<T>)
    requires
        total_order::<T>(),
    ensures
        sorted(s) <==> stepwise_sorted(s),
{
    if sorted(s) {
        assert forall|i: int| 0 <= i < s.len() - 1 implies !gt(#[trigger] s[i], s[i + 1]) by {
            assert(le_rel::<T>()(s[i], s[i + 1]));
            lemma_order_pair(s[i], s[i + 1]);
        }
    }
    if stepwise_sorted(s) {
        assert forall|i: int, j: int| 0 <= i < j < s.len() implies #[trigger] le_rel::<T>()(
            s[i],
            s[j],
        ) by {
            lemma_stepwise_chain(s, i, j);
        }
    }
}

proof fn lemma_stepwise_chain<T: PartialOrd>(s: Seq<T>, i: int, j: int)
    requires
        total_order::<T>(),
        stepwise_sorted(s),
        0 <= i <= j < s.len(),
    ensures
        le(s[i], s[j]),
    decreases j - i,
{
    if i == j {
        lemma_order_pair(s[i], s[i]);
    } else {
        lemma_stepwise_chain(s, i, j - 1);
        assert(!gt(s[j - 1], s[j - 1 + 1]));
        lemma_order_pair(s[j - 1], s[j]);
        lemma_le_transitive(s[i], s[j - 1], s[j]);
    }
}

/// Two sorted sequences with the same elements are the same sequence.
pub proof fn lemma_sorted_permutation_unique<T: PartialOrd>(a: Seq<T>, b: Seq<T>)
    requires
        total_order::<T>(),
        sorted(a),
        sorted(b),
        a.to_multiset() == b.to_multiset(),
    ensures
        a == b,
{
    lemma_le_rel_total_ordering::<T>();
    vstd::seq_lib::lemma_sorted_unique(a, b, le_rel::<T>());
}

/// The built-in comparison of `u8` is a total order.
pub proof fn lemma_u8_total_order()
    ensures
        total_order::<u8>(),
{
    reveal(total_order);
}

/// The built-in comparison of `u16` is a total order.
pub proof fn lemma_u16_total_order()
    ensures
        total_order::<u16>(),
{
    reveal(total_order);
}

/// The built-in comparison of `u32` is a total order.
pub proof fn lemma_u32_total_order()
    ensures
        total_order::<u32>(),
{
    reveal(total_order);
}

/// The built-in comparison of `u64` is a total order.
pub proof fn lemma_u64_total_order()
    ensures
        total_order::<u64>(),
{
    reveal(total_order);
}

/// The built-in comparison of `u128` is a total order.
pub proof fn lemma_u128_total_order()
    ensures
        total_order::<u128>(),
{
    reveal(total_order);
}

/// The built-in comparison of `usize` is a total order.
pub proof fn lemma_usize_total_order()
    ensures
        total_order::<usize>(),
{
    reveal(total_order);
}

/// The built-in comparison of `i8` is a total order.
pub proof fn lemma_i8_total_order()
    ensures
        total_order::<i8>(),
{
    reveal(total_order);
}

/// The built-in comparison of `i16` is a total order.
pub proof fn lemma_i16_total_order()
    ensures
        total_order::<i16>(),
{
    reveal(total_order);
}

/// The built-in comparison of `i32` is a total order.
pub proof fn lemma_i32_total_order()
    ensures
        total_order::<i32>(),
{
    reveal(total_order);
}

/// The built-in comparison of `i64` is a total order.
pub proof fn lemma_i64_total_order()
    ensures
        total_order::<i64>(),
{
    reveal(total_order);
}

/// The built-in comparison of `i128` is a total order.
pub proof fn lemma_i128_total_order()
    ensures
        total_order::<i128>(),
{
    reveal(total_order);
}

/// The built-in comparison of `isize` is a total order.
pub proof fn lemma_isize_total_order()
    ensures
        total_order::<isize>(),
{
    reveal(total_order);
}

} // verus!
