//! The mathematical model of the array-backed binary heap.
//!
//! A heap is a sequence `s` together with a logical size `size <= s.len()`.
//! The node at index `i` has its parent at `(i - 1) / 2` and its children at
//! `2i + 1` and `2i + 2`. Everything here is ghost code: definitions of the
//! heap property and of the two repair procedures as functions on
//! sequences, and the theorems about them that the executable heap relies
//! on.

use crate::order::{
    ge, gt, le_rel, lemma_ge_transitive, lemma_order_pair, lemma_sorted_permutation_unique, lt,
    sorted, total_order,
};
use crate::slices::{lemma_swapped_in_prefix, lemma_swapped_permutes, swapped};
use vstd::arithmetic::div_mod::{
    lemma_div_denominator, lemma_div_is_ordered, lemma_div_multiples_vanish,
    lemma_fundamental_div_mod,
};
use vstd::arithmetic::power2::{lemma2_to64, lemma_pow2_unfold, pow2};
use vstd::prelude::*;

verus! {

/// Index of the parent of node `i`.
pub open spec fn parent_of(i: int) -> int {
    (i - 1) / 2
}

/// Index of the left child of node `i`.
pub open spec fn left_of(i: int) -> int {
    2 * i + 1
}

/// Index of the right child of node `i`.
pub open spec fn right_of(i: int) -> int {
    2 * i + 2
}

/// Node `p` is `root` or one of its descendants.
pub open spec fn in_subtree(root: int, p: int) -> bool
    decreases p,
{
    p == root || (0 <= root < p && in_subtree(root, parent_of(p)))
}

/// The nodes of the subtree rooted at `root`.
pub open spec fn subtree(root: int) -> spec_fn(int) -> bool {
    |p: int| in_subtree(root, p)
}

/// The nodes with index `lo` or more.
pub open spec fn from_index(lo: int) -> spec_fn(int) -> bool {
    |p: int| p >= lo
}

/// A set of nodes that contains the children of each of its members.
#[verifier::opaque]
pub open spec fn closed_under_children(region: spec_fn(int) -> bool) -> bool {
    forall|p: int| 0 <= p && #[trigger] region(p) ==> region(left_of(p)) && region(right_of(p))
}

/// Number of edges on the path from node `i` that follows left children
/// as long as there is one inside the heap.
pub open spec fn left_depth(size: int, i: int) -> nat
    decreases size - i,
{
    if 0 <= i && left_of(i) < size {
        1 + left_depth(size, left_of(i))
    } else {
        0
    }
}

/// `floor(log2(n))` for `n >= 1`, and 0 for `n == 0`.
pub open spec fn log2_floor(n: int) -> nat
    decreases n,
{
    if n <= 1 {
        0
    } else {
        1 + log2_floor(n / 2)
    }
}

/// Number of edges on the path from node `j` up to its ancestor `i`.
pub open spec fn depth_below(i: int, j: int) -> nat
    decreases j,
{
    if 0 <= i < j {
        1 + depth_below(i, parent_of(j))
    } else {
        0
    }
}

/// The parent of node `j` holds a value at least as large as node `j`.
pub open spec fn edge_ok<T: PartialOrd>(s: Seq<T>, j: int) -> bool {
    ge(s[parent_of(j)], s[j])
}

/// The heap property: every node of the first `size` but the root is
/// dominated by its parent.
pub open spec fn is_heap<T: PartialOrd>(s: Seq<T>, size: int) -> bool {
    forall|j: int| 1 <= j < size ==> #[trigger] edge_ok(s, j)
}

/// The heap property restricted to the edges whose parent lies in `region`.
pub open spec fn heap_within<T: PartialOrd>(
    s: Seq<T>,
    size: int,
    region: spec_fn(int) -> bool,
) -> bool {
    forall|j: int| 1 <= j < size && region(parent_of(j)) ==> #[trigger] edge_ok(s, j)
}

/// The subtree rooted at `root` satisfies the heap property.
pub open spec fn subtree_is_heap<T: PartialOrd>(s: Seq<T>, size: int, root: int) -> bool {
    heap_within(s, size, subtree(root))
}

/// Among node `i` and its children inside the heap, the index of the one
/// that should sit on top: a child replaces the current choice only when
/// it is strictly greater, and the left child is examined first.
pub open spec fn largest_of<T: PartialOrd>(s: Seq<T>, size: int, i: int) -> int {
    let first = if left_of(i) < size && gt(s[left_of(i)], s[i]) {
        left_of(i)
    } else {
        i
    };
    if right_of(i) < size && gt(s[right_of(i)], s[first]) {
        right_of(i)
    } else {
        first
    }
}

/// Top-down repair from node `i`: while a child is greater than the node,
/// the largest child moves up and the repair goes on from its old place.
pub open spec fn sift_down<T: PartialOrd>(s: Seq<T>, size: int, i: int) -> Seq<T>
    decreases size - i,
{
    let top = largest_of(s, size, i);
    if 0 <= i < size && top != i {
        sift_down(swapped(s, i, top), size, top)
    } else {
        s
    }
}

/// Bottom-up repair from node `i`: while the node is greater than its
/// parent, the two are exchanged and the repair goes on from the parent.
pub open spec fn sift_up<T: PartialOrd>(s: Seq<T>, size: int, i: int) -> Seq<T>
    decreases i,
{
    if 0 < i < size && lt(s[parent_of(i)], s[i]) {
        sift_up(swapped(s, parent_of(i), i), size, parent_of(i))
    } else {
        s
    }
}

/// Top-down repair of the nodes `k - 1`, `k - 2`, ..., `0`, in this order.
pub open spec fn build_from<T: PartialOrd>(s: Seq<T>, size: int, k: int) -> Seq<T>
    decreases k,
{
    if k <= 0 {
        s
    } else {
        build_from(sift_down(s, size, k - 1), size, k - 1)
    }
}

/// The heap that bulk construction makes of `s`: every internal node is
/// repaired top-down, the last one first.
pub open spec fn build_heap<T: PartialOrd>(s: Seq<T>) -> Seq<T> {
    build_from(s, s.len() as int, s.len() as int / 2)
}

/// The heap that results from appending `x` to a heap of `size` elements
/// stored at the front of `s`.
pub open spec fn pushed<T: PartialOrd>(s: Seq<T>, size: int, x: T) -> Seq<T> {
    sift_up(s.insert(size, x), size + 1, size)
}

/// The rounds of heapsort on a heap of `k` members: the root changes
/// places with the last member, which leaves the heap, and the root of the
/// remaining heap is repaired top-down, until one member is left.
pub open spec fn sort_down<T: PartialOrd>(s: Seq<T>, k: int) -> Seq<T>
    decreases k,
{
    if k <= 1 {
        s
    } else {
        sort_down(sift_down(swapped(s, 0, k - 1), k - 1, 0), k - 1)
    }
}

/// What heapsort makes of `s`: a heap is built of all of `s` and then
/// taken apart from its root.
pub open spec fn heapsorted<T: PartialOrd>(s: Seq<T>) -> Seq<T> {
    sort_down(build_heap(s), s.len() as int)
}

/// What top-down repair from node `i` needs in order to establish the
/// heap property on `region`: node `i` is the only parent in the region
/// that may be smaller than a child, and the children of `i` do not exceed
/// the parent of `i` where that parent is in the region.
pub open spec fn sift_down_ready<T: PartialOrd>(
    s: Seq<T>,
    size: int,
    region: spec_fn(int) -> bool,
    i: int,
) -> bool {
    &&& 0 <= i
    &&& size <= s.len()
    &&& region(i)
    &&& forall|j: int|
        1 <= j < size && region(parent_of(j)) && parent_of(j) != i ==> #[trigger] edge_ok(s, j)
    &&& i >= 1 && region(parent_of(i)) ==> {
        &&& left_of(i) < size ==> ge(s[parent_of(i)], s[left_of(i)])
        &&& right_of(i) < size ==> ge(s[parent_of(i)], s[right_of(i)])
    }
}

/// What bottom-up repair from node `i` needs in order to establish the
/// heap property: the edge into node `i` is the only one that may be
/// violated, and the children of `i` do not exceed the parent of `i`.
pub open spec fn sift_up_ready<T: PartialOrd>(s: Seq<T>, size: int, i: int) -> bool {
    &&& 0 <= i
    &&& size <= s.len()
    &&& forall|j: int| 1 <= j < size && j != i ==> #[trigger] edge_ok(s, j)
    &&& i >= 1 ==> {
        &&& left_of(i) < size ==> ge(s[parent_of(i)], s[left_of(i)])
        &&& right_of(i) < size ==> ge(s[parent_of(i)], s[right_of(i)])
    }
}

/// The elements from index `k` on are in their final place: each is at
/// least as large as every element before it.
pub open spec fn settled<T: PartialOrd>(s: Seq<T>, k: int) -> bool {
    forall|a: int, b: int| 0 <= a < b < s.len() && k <= b ==> #[trigger] le_rel::<T>()(s[a], s[b])
}

/// The children of a member of a closed region are members.
pub proof fn lemma_children_in_region(region: spec_fn(int) -> bool, p: int)
    requires
        closed_under_children(region),
        0 <= p,
        region(p),
    ensures
        region(left_of(p)),
        region(right_of(p)),
{
    reveal(closed_under_children);
}

/// The nodes from an index on are closed under children.
pub proof fn lemma_from_index_closed(lo: int)
    ensures
        closed_under_children(from_index(lo)),
{
    reveal(closed_under_children);
}

/// A member of a subtree is not above its root.
pub proof fn lemma_subtree_below_root(root: int, p: int)
    requires
        in_subtree(root, p),
    ensures
        p >= root,
{
}

/// The children of a member of a subtree are members.
pub proof fn lemma_subtree_children(root: int, p: int)
    requires
        0 <= root,
        in_subtree(root, p),
    ensures
        in_subtree(root, left_of(p)),
        in_subtree(root, right_of(p)),
{
    assert(parent_of(left_of(p)) == p);
    assert(parent_of(right_of(p)) == p);
}

/// A subtree is closed under children.
pub proof fn lemma_subtree_closed(root: int)
    requires
        0 <= root,
    ensures
        closed_under_children(subtree(root)),
{
    reveal(closed_under_children);
    assert forall|p: int| 0 <= p && #[trigger] subtree(root)(p) implies subtree(root)(left_of(p))
        && subtree(root)(right_of(p)) by {
        lemma_subtree_children(root, p);
    }
}

/// A member of a subtree other than its root lies in the subtree of one
/// of the root's children.
pub proof fn lemma_subtree_splits(root: int, p: int)
    requires
        in_subtree(root, p),
        p != root,
    ensures
        in_subtree(left_of(root), p) || in_subtree(right_of(root), p),
    decreases p,
{
    if parent_of(p) != root {
        lemma_subtree_splits(root, parent_of(p));
        if in_subtree(left_of(root), parent_of(p)) {
            lemma_subtree_below_root(left_of(root), parent_of(p));
        } else {
            lemma_subtree_below_root(right_of(root), parent_of(p));
        }
    }
}

/// The subtree of a child is part of the subtree of its parent.
pub proof fn lemma_subtree_of_child(child: int, p: int)
    requires
        1 <= child,
        in_subtree(child, p),
    ensures
        in_subtree(parent_of(child), p),
    decreases p,
{
    if p == child {
        assert(in_subtree(parent_of(child), parent_of(child)));
    } else {
        lemma_subtree_of_child(child, parent_of(p));
    }
}

/// Every node is in the subtree of the root.
pub proof fn lemma_all_in_root_subtree(p: int)
    requires
        0 <= p,
    ensures
        in_subtree(0, p),
    decreases p,
{
    if p > 0 {
        lemma_all_in_root_subtree(parent_of(p));
    }
}

/// `log2_floor(n)` is the exponent of the greatest power of 2 that does
/// not exceed `n`.
pub proof fn lemma_log2_floor_bounds(n: int)
    requires
        n >= 1,
    ensures
        pow2(log2_floor(n)) <= n < 2 * pow2(log2_floor(n)),
    decreases n,
{
    if n <= 1 {
        lemma2_to64();
    } else {
        lemma_log2_floor_bounds(n / 2);
        lemma_pow2_unfold(log2_floor(n));
    }
}

/// The path down the left children of node `i` has `floor(log2(size / (i + 1)))`
/// edges. For the root this is the height of the heap.
pub proof fn lemma_left_depth_closed_form(size: int, i: int)
    requires
        0 <= i <= size,
    ensures
        left_depth(size, i) == log2_floor(size / (i + 1)),
    decreases size - i,
{
    let m = i + 1;
    if left_of(i) < size {
        assert(2 * m <= size);
        lemma_left_depth_closed_form(size, left_of(i));
        lemma_div_denominator(size, m, 2);
        assert(m * 2 == left_of(i) + 1);
        assert(size / m >= 2) by {
            lemma_div_is_ordered(2 * m, size, m);
            lemma_div_multiples_vanish(2, m);
        }
    } else {
        assert(size < 2 * m);
        assert(size / m <= 1) by {
            if size / m >= 2 {
                lemma_fundamental_div_mod(size, m);
                assert(m * (size / m) >= 2 * m) by (nonlinear_arith)
                    requires
                        size / m >= 2,
                        m >= 1,
                ;
            }
        }
    }
}

/// The path down the left children gets no longer from a node to a node
/// with a greater index.
pub proof fn lemma_left_depth_monotone(size: int, a: int, b: int)
    requires
        0 <= a <= b,
    ensures
        left_depth(size, a) >= left_depth(size, b),
    decreases size - a,
{
    if left_of(b) < size {
        lemma_left_depth_monotone(size, left_of(a), left_of(b));
    }
}

/// No path from a node down to a member of the heap is longer than the
/// path down its left children, even when continued down the left
/// children of that member: the height of a node, the number of edges on
/// the longest path down from it, is the length of its leftmost path.
pub proof fn lemma_left_path_is_longest(size: int, i: int, j: int)
    requires
        0 <= i,
        in_subtree(i, j),
        j < size,
    ensures
        depth_below(i, j) + left_depth(size, j) <= left_depth(size, i),
    decreases j,
{
    if j != i {
        let p = parent_of(j);
        lemma_left_path_is_longest(size, i, p);
        lemma_subtree_below_root(i, p);
        assert(left_of(p) <= j);
        lemma_left_depth_monotone(size, left_of(p), j);
    }
}

/// No member of a heap lies deeper below the root than the height of the
/// heap says.
pub proof fn lemma_height_bounds_depth(size: int, j: int)
    requires
        0 <= j < size,
    ensures
        depth_below(0, j) <= log2_floor(size),
{
    lemma_all_in_root_subtree(j);
    lemma_left_path_is_longest(size, 0, j);
    lemma_left_depth_closed_form(size, 0);
}

/// The heap property is the heap property on all nodes.
pub proof fn lemma_is_heap_from_zero<T: PartialOrd>(s: Seq<T>, size: int)
    ensures
        is_heap(s, size) <==> heap_within(s, size, from_index(0)),
{
    if is_heap(s, size) {
        assert forall|j: int|
            1 <= j < size && from_index(0)(parent_of(j)) implies #[trigger] edge_ok(s, j) by {}
    }
    if heap_within(s, size, from_index(0)) {
        assert forall|j: int| 1 <= j < size implies #[trigger] edge_ok(s, j) by {
            assert(from_index(0)(parent_of(j)));
        }
    }
}

/// The heap property is the heap property of the subtree of the root.
pub proof fn lemma_is_heap_root_subtree<T: PartialOrd>(s: Seq<T>, size: int)
    ensures
        is_heap(s, size) <==> subtree_is_heap(s, size, 0),
{
    if is_heap(s, size) {
        assert forall|j: int|
            1 <= j < size && subtree(0)(parent_of(j)) implies #[trigger] edge_ok(s, j) by {}
    }
    if subtree_is_heap(s, size, 0) {
        assert forall|j: int| 1 <= j < size implies #[trigger] edge_ok(s, j) by {
            lemma_all_in_root_subtree(parent_of(j));
            assert(subtree(0)(parent_of(j)));
        }
    }
}

/// No node in the second half of a heap has a child, so the heap property
/// holds there of any sequence.
pub proof fn lemma_leaves_are_heaps<T: PartialOrd>(s: Seq<T>, size: int)
    requires
        0 <= size,
    ensures
        heap_within(s, size, from_index(size / 2)),
{
    assert forall|j: int|
        1 <= j < size && from_index(size / 2)(parent_of(j)) implies #[trigger] edge_ok(s, j) by {
        assert(parent_of(j) >= size / 2);
    }
}

/// The root of a heap is at least as large as every member.
pub proof fn lemma_heap_root_is_max<T: PartialOrd>(s: Seq<T>, size: int, j: int)
    requires
        total_order::<T>(),
        is_heap(s, size),
        0 <= j < size,
    ensures
        ge(s[0], s[j]),
    decreases j,
{
    if j == 0 {
        lemma_order_pair(s[0], s[0]);
    } else {
        assert(edge_ok(s, j));
        lemma_heap_root_is_max(s, size, parent_of(j));
        lemma_ge_transitive(s[0], s[parent_of(j)], s[j]);
    }
}

/// Top-down repair establishes the heap property on a region that is
/// closed under children when only the start node may violate it.
pub proof fn lemma_sift_down_repairs<T: PartialOrd>(
    s: Seq<T>,
    size: int,
    region: spec_fn(int) -> bool,
    i: int,
)
    requires
        total_order::<T>(),
        closed_under_children(region),
        sift_down_ready(s, size, region, i),
    ensures
        heap_within(sift_down(s, size, i), size, region),
    decreases size - i,
{
    let top = largest_of(s, size, i);
    let l = left_of(i);
    let r = right_of(i);
    if l < size {
        lemma_order_pair(s[l], s[i]);
    }
    if r < size {
        lemma_order_pair(s[r], s[i]);
        if l < size {
            lemma_order_pair(s[r], s[l]);
        }
    }
    if i < size && top != i {
        let t = swapped(s, i, top);
        let other = if top == l { r } else { l };
        // The new top dominates both of its children.
        if top == r && l < size && gt(s[l], s[i]) {
            lemma_ge_transitive(s[r], s[l], s[i]);
        }
        assert(ge(s[top], s[i]));
        if other < size {
            if top == r && !gt(s[l], s[i]) {
                lemma_ge_transitive(s[r], s[i], s[l]);
            }
            assert(ge(s[top], s[other]));
        }
        lemma_children_in_region(region, i);
        assert(region(top));
        assert forall|j: int|
            1 <= j < size && region(parent_of(j)) && parent_of(j) != top implies #[trigger] edge_ok(
            t,
            j,
        ) by {
            if parent_of(j) == i {
                assert(j == l || j == r);
            } else if j == i {
                assert(edge_ok(t, j));
            } else {
                assert(edge_ok(s, j));
            }
        }
        assert(left_of(top) < size ==> ge(t[i], t[left_of(top)])) by {
            if left_of(top) < size {
                assert(edge_ok(s, left_of(top)));
            }
        }
        assert(right_of(top) < size ==> ge(t[i], t[right_of(top)])) by {
            if right_of(top) < size {
                assert(edge_ok(s, right_of(top)));
            }
        }
        lemma_sift_down_repairs(t, size, region, top);
    } else {
        assert forall|j: int| 1 <= j < size && region(parent_of(j)) implies #[trigger] edge_ok(
            s,
            j,
        ) by {
            if parent_of(j) == i {
                assert(j == l || j == r);
            }
        }
    }
}

/// Top-down repair from node `i` extends the heap property from the nodes
/// after `i` to node `i`.
pub proof fn lemma_sift_down_heap_from<T: PartialOrd>(s: Seq<T>, size: int, i: int)
    requires
        total_order::<T>(),
        0 <= i,
        size <= s.len(),
        heap_within(s, size, from_index(i + 1)),
    ensures
        heap_within(sift_down(s, size, i), size, from_index(i)),
{
    let region = from_index(i);
    lemma_from_index_closed(i);
    assert forall|j: int|
        1 <= j < size && region(parent_of(j)) && parent_of(j) != i implies #[trigger] edge_ok(
        s,
        j,
    ) by {
        assert(from_index(i + 1)(parent_of(j)));
    }
    lemma_sift_down_repairs(s, size, region, i);
}

/// Top-down repair from node `i` makes the subtree of `i` a heap when the
/// subtrees of its two children are heaps.
pub proof fn lemma_sift_down_subtree<T: PartialOrd>(s: Seq<T>, size: int, i: int)
    requires
        total_order::<T>(),
        0 <= i,
        size <= s.len(),
        subtree_is_heap(s, size, left_of(i)),
        subtree_is_heap(s, size, right_of(i)),
    ensures
        subtree_is_heap(sift_down(s, size, i), size, i),
{
    let region = subtree(i);
    lemma_subtree_closed(i);
    assert forall|j: int|
        1 <= j < size && region(parent_of(j)) && parent_of(j) != i implies #[trigger] edge_ok(
        s,
        j,
    ) by {
        lemma_subtree_splits(i, parent_of(j));
        assert(subtree(left_of(i))(parent_of(j)) || subtree(right_of(i))(parent_of(j)));
    }
    if i >= 1 && region(parent_of(i)) {
        lemma_subtree_below_root(i, parent_of(i));
    }
    lemma_sift_down_repairs(s, size, region, i);
}

/// Top-down repair leaves a heap as it is.
pub proof fn lemma_sift_down_of_heap<T: PartialOrd>(s: Seq<T>, size: int, i: int)
    requires
        total_order::<T>(),
        size <= s.len(),
        is_heap(s, size),
    ensures
        sift_down(s, size, i) == s,
{
    if 0 <= i < size {
        if left_of(i) < size {
            assert(edge_ok(s, left_of(i)));
            lemma_order_pair(s[left_of(i)], s[i]);
        }
        if right_of(i) < size {
            assert(edge_ok(s, right_of(i)));
            lemma_order_pair(s[right_of(i)], s[i]);
        }
    }
}

/// Top-down repair from node `i` changes nothing outside the subtree of
/// `i`.
pub proof fn lemma_sift_down_frame<T: PartialOrd>(s: Seq<T>, size: int, i: int, j: int)
    requires
        size <= s.len(),
        0 <= j < s.len(),
        !in_subtree(i, j),
    ensures
        sift_down(s, size, i)[j] == s[j],
    decreases size - i,
{
    let top = largest_of(s, size, i);
    if 0 <= i < size && top != i {
        let t = swapped(s, i, top);
        if in_subtree(top, j) {
            lemma_subtree_of_child(top, j);
        }
        assert(in_subtree(i, top)) by {
            assert(in_subtree(i, i));
            assert(parent_of(top) == i);
        }
        lemma_sift_down_frame(t, size, top, j);
    }
}

/// Top-down repair permutes the heap's members and touches nothing else.
pub proof fn lemma_sift_down_permutes<T: PartialOrd>(s: Seq<T>, size: int, i: int)
    requires
        size <= s.len(),
    ensures
        sift_down(s, size, i).len() == s.len(),
        sift_down(s, size, i).take(size).to_multiset() == s.take(size).to_multiset(),
        sift_down(s, size, i).skip(size) == s.skip(size),
        sift_down(s, size, i).to_multiset() == s.to_multiset(),
    decreases size - i,
{
    let top = largest_of(s, size, i);
    if 0 <= i < size && top != i {
        let t = swapped(s, i, top);
        lemma_swapped_permutes(s, i, top);
        lemma_swapped_in_prefix(s, size, i, top);
        lemma_sift_down_permutes(t, size, top);
    }
}

/// Bottom-up repair establishes the heap property when only the edge into
/// the start node may violate it.
pub proof fn lemma_sift_up_repairs<T: PartialOrd>(s: Seq<T>, size: int, i: int)
    requires
        total_order::<T>(),
        sift_up_ready(s, size, i),
    ensures
        is_heap(sift_up(s, size, i), size),
    decreases i,
{
    let p = parent_of(i);
    if 0 < i < size {
        lemma_order_pair(s[p], s[i]);
    }
    if 0 < i < size && lt(s[p], s[i]) {
        let t = swapped(s, p, i);
        assert forall|j: int| 1 <= j < size && j != p implies #[trigger] edge_ok(t, j) by {
            if j == i {
                assert(ge(s[i], s[p]));
            } else if parent_of(j) == p {
                // the sibling of `i`
                assert(edge_ok(s, j));
                lemma_ge_transitive(s[i], s[p], s[j]);
            } else if parent_of(j) == i {
                assert(j == left_of(i) || j == right_of(i));
            } else {
                assert(edge_ok(s, j));
            }
        }
        if p >= 1 {
            assert(edge_ok(s, p));
            let a = left_of(p);
            let b = right_of(p);
            assert(a == i || b == i);
            if a < size && a != i {
                assert(edge_ok(s, a));
                lemma_ge_transitive(s[parent_of(p)], s[p], s[a]);
            }
            if b < size && b != i {
                assert(edge_ok(s, b));
                lemma_ge_transitive(s[parent_of(p)], s[p], s[b]);
            }
        }
        lemma_sift_up_repairs(t, size, p);
    } else {
        assert forall|j: int| 1 <= j < size implies #[trigger] edge_ok(s, j) by {}
    }
}

/// Bottom-up repair leaves a heap as it is.
pub proof fn lemma_sift_up_of_heap<T: PartialOrd>(s: Seq<T>, size: int, i: int)
    requires
        total_order::<T>(),
        size <= s.len(),
        is_heap(s, size),
    ensures
        sift_up(s, size, i) == s,
{
    if 0 < i < size {
        assert(edge_ok(s, i));
        lemma_order_pair(s[parent_of(i)], s[i]);
    }
}

/// Bottom-up repair from node `i` changes nothing but node `i` and its
/// ancestors.
pub proof fn lemma_sift_up_frame<T: PartialOrd>(s: Seq<T>, size: int, i: int, j: int)
    requires
        size <= s.len(),
        0 <= j < s.len(),
        !in_subtree(j, i),
    ensures
        sift_up(s, size, i)[j] == s[j],
    decreases i,
{
    let p = parent_of(i);
    if 0 < i < size && lt(s[p], s[i]) {
        let t = swapped(s, p, i);
        assert(in_subtree(i, i));
        assert(in_subtree(p, p));
        lemma_sift_up_frame(t, size, p, j);
    }
}

/// Bottom-up repair permutes the heap's members and touches nothing else.
pub proof fn lemma_sift_up_permutes<T: PartialOrd>(s: Seq<T>, size: int, i: int)
    requires
        size <= s.len(),
    ensures
        sift_up(s, size, i).len() == s.len(),
        sift_up(s, size, i).take(size).to_multiset() == s.take(size).to_multiset(),
        sift_up(s, size, i).skip(size) == s.skip(size),
        sift_up(s, size, i).to_multiset() == s.to_multiset(),
    decreases i,
{
    if 0 < i < size && lt(s[parent_of(i)], s[i]) {
        let t = swapped(s, parent_of(i), i);
        lemma_swapped_permutes(s, parent_of(i), i);
        lemma_swapped_in_prefix(s, size, parent_of(i), i);
        lemma_sift_up_permutes(t, size, parent_of(i));
    }
}

/// Appending an element to a heap and repairing bottom-up gives a heap.
pub proof fn lemma_pushed_is_heap<T: PartialOrd>(s: Seq<T>, size: int, x: T)
    requires
        total_order::<T>(),
        0 <= size <= s.len(),
        is_heap(s, size),
    ensures
        is_heap(pushed(s, size, x), size + 1),
{
    let t = s.insert(size, x);
    assert forall|j: int| 1 <= j < size + 1 && j != size implies #[trigger] edge_ok(t, j) by {
        assert(edge_ok(s, j));
    }
    lemma_sift_up_repairs(t, size + 1, size);
}

/// Repairing the nodes before `k` from the last to the first completes a
/// heap whose nodes from `k` on already satisfy the heap property.
pub proof fn lemma_build_from_is_heap<T: PartialOrd>(s: Seq<T>, size: int, k: int)
    requires
        total_order::<T>(),
        0 <= k,
        size <= s.len(),
        heap_within(s, size, from_index(k)),
    ensures
        is_heap(build_from(s, size, k), size),
    decreases k,
{
    if k <= 0 {
        lemma_is_heap_from_zero(s, size);
    } else {
        lemma_sift_down_heap_from(s, size, k - 1);
        lemma_sift_down_permutes(s, size, k - 1);
        lemma_build_from_is_heap(sift_down(s, size, k - 1), size, k - 1);
    }
}

/// Repairing the nodes before `k` permutes the heap's members and touches
/// nothing else.
pub proof fn lemma_build_from_permutes<T: PartialOrd>(s: Seq<T>, size: int, k: int)
    requires
        size <= s.len(),
    ensures
        build_from(s, size, k).len() == s.len(),
        build_from(s, size, k).take(size).to_multiset() == s.take(size).to_multiset(),
        build_from(s, size, k).skip(size) == s.skip(size),
        build_from(s, size, k).to_multiset() == s.to_multiset(),
    decreases k,
{
    if k > 0 {
        lemma_sift_down_permutes(s, size, k - 1);
        lemma_build_from_permutes(sift_down(s, size, k - 1), size, k - 1);
    }
}

/// Bulk construction turns any sequence into a heap of the same elements.
pub proof fn lemma_build_heap_is_heap<T: PartialOrd>(s: Seq<T>)
    requires
        total_order::<T>(),
    ensures
        is_heap(build_heap(s), s.len() as int),
        build_heap(s).len() == s.len(),
        build_heap(s).to_multiset() == s.to_multiset(),
{
    let n = s.len() as int;
    lemma_leaves_are_heaps(s, n);
    lemma_build_from_is_heap(s, n, n / 2);
    lemma_build_from_permutes(s, n, n / 2);
}

/// Nothing is settled in a sequence taken as a whole.
pub proof fn lemma_settled_at_end<T: PartialOrd>(s: Seq<T>)
    ensures
        settled(s, s.len() as int),
{
}

/// A sequence whose elements from index 1 on are settled is sorted.
pub proof fn lemma_settled_is_sorted<T: PartialOrd>(s: Seq<T>, k: int)
    requires
        k <= 1,
        settled(s, k),
    ensures
        sorted(s),
{
}

/// Permuting the elements before index `k` keeps the elements from `k` on
/// settled.
pub proof fn lemma_settled_preserved<T: PartialOrd>(s: Seq<T>, t: Seq<T>, k: int)
    requires
        0 <= k <= s.len(),
        s.len() == t.len(),
        s.take(k).to_multiset() == t.take(k).to_multiset(),
        s.skip(k) == t.skip(k),
        settled(s, k),
    ensures
        settled(t, k),
{
    assert forall|a: int, b: int| 0 <= a < b < t.len() && k <= b implies #[trigger] le_rel::<T>()(
        t[a],
        t[b],
    ) by {
        assert(t[b] == t.skip(k)[b - k]);
        assert(s[b] == s.skip(k)[b - k]);
        if a >= k {
            assert(t[a] == t.skip(k)[a - k]);
            assert(s[a] == s.skip(k)[a - k]);
            assert(le_rel::<T>()(s[a], s[b]));
        } else {
            let x = t[a];
            assert(t.take(k)[a] == x);
            assert(t.take(k).contains(x));
            vstd::seq_lib::to_multiset_contains(t.take(k), x);
            vstd::seq_lib::to_multiset_contains(s.take(k), x);
            assert(s.take(k).contains(x));
            let a0 = choose|a0: int| 0 <= a0 < s.take(k).len() && s.take(k)[a0] == x;
            assert(s[a0] == x);
            assert(le_rel::<T>()(s[a0], s[b]));
        }
    }
}

/// One step of heapsort: exchanging the root of a heap of `k` members
/// with its last member settles one more element, and leaves the root as
/// the only node of the remaining `k - 1` that may violate the heap
/// property.
pub proof fn lemma_extract_max<T: PartialOrd>(s: Seq<T>, k: int)
    requires
        total_order::<T>(),
        2 <= k <= s.len(),
        is_heap(s, k),
        settled(s, k),
    ensures
        settled(swapped(s, 0, k - 1), k - 1),
        heap_within(swapped(s, 0, k - 1), k - 1, from_index(1)),
{
    let t = swapped(s, 0, k - 1);
    assert forall|a: int, b: int| 0 <= a < b < t.len() && k - 1 <= b implies #[trigger] le_rel::<
        T,
    >()(t[a], t[b]) by {
        if b == k - 1 {
            let a0 = if a == 0 {
                k - 1
            } else {
                a
            };
            assert(t[a] == s[a0]);
            lemma_heap_root_is_max(s, k, a0);
            lemma_order_pair(s[a0], s[0]);
        } else {
            let a0 = if a == 0 {
                k - 1
            } else if a == k - 1 {
                0
            } else {
                a
            };
            assert(t[a] == s[a0]);
            assert(le_rel::<T>()(s[a0], s[b]));
        }
    }
    assert forall|j: int| 1 <= j < k - 1 && from_index(1)(parent_of(j)) implies #[trigger] edge_ok(
        t,
        j,
    ) by {
        assert(edge_ok(s, j));
    }
}

/// The rounds of heapsort sort a heap whose elements behind the members
/// are settled, and keep its elements.
pub proof fn lemma_sort_down_sorts<T: PartialOrd>(s: Seq<T>, k: int)
    requires
        total_order::<T>(),
        0 <= k <= s.len(),
        is_heap(s, k),
        settled(s, k),
    ensures
        sorted(sort_down(s, k)),
        sort_down(s, k).len() == s.len(),
        sort_down(s, k).to_multiset() == s.to_multiset(),
    decreases k,
{
    if k <= 1 {
        lemma_settled_is_sorted(s, k);
    } else {
        let s1 = swapped(s, 0, k - 1);
        let s2 = sift_down(s1, k - 1, 0);
        lemma_swapped_permutes(s, 0, k - 1);
        lemma_extract_max(s, k);
        lemma_sift_down_heap_from(s1, k - 1, 0);
        lemma_sift_down_permutes(s1, k - 1, 0);
        lemma_settled_preserved(s1, s2, k - 1);
        lemma_is_heap_from_zero(s2, k - 1);
        lemma_sort_down_sorts(s2, k - 1);
    }
}

/// Heapsort gives the elements of its input in non-decreasing order.
pub proof fn lemma_heapsorted_sorts<T: PartialOrd>(s: Seq<T>)
    requires
        total_order::<T>(),
    ensures
        sorted(heapsorted(s)),
        heapsorted(s).len() == s.len(),
        heapsorted(s).to_multiset() == s.to_multiset(),
{
    lemma_build_heap_is_heap(s);
    lemma_settled_at_end(build_heap(s));
    lemma_sort_down_sorts(build_heap(s), s.len() as int);
}

/// Heapsort gives a sorted sequence back as it was.
pub proof fn lemma_heapsorted_of_sorted<T: PartialOrd>(s: Seq<T>)
    requires
        total_order::<T>(),
        sorted(s),
    ensures
        heapsorted(s) == s,
{
    lemma_heapsorted_sorts(s);
    lemma_sorted_permutation_unique(heapsorted(s), s);
}

} // verus!
