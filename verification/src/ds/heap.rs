//! An array-backed binary max-heap.
//!
//! The heap lives in the first `size` slots of a vector. The slots from
//! `size` on hold residual data that takes no part in the heap; heapsort
//! collects the maxima it has extracted there.

use crate::ds::heap_model::{
    build_from, build_heap, edge_ok, from_index, heap_within, heapsorted, in_subtree, is_heap,
    largest_of, left_depth, left_of, lemma_build_from_is_heap, lemma_heapsorted_of_sorted,
    lemma_heapsorted_sorts, lemma_leaves_are_heaps, lemma_pushed_is_heap, lemma_sift_down_frame,
    lemma_sift_down_heap_from, lemma_sift_down_of_heap, lemma_sift_down_subtree,
    lemma_left_depth_closed_form, lemma_log2_floor_bounds, lemma_sift_up_frame,
    lemma_sift_up_of_heap, lemma_sift_up_repairs, log2_floor,
    parent_of, pushed, right_of, sift_down, sift_up, sift_up_ready, sort_down,
    subtree_is_heap,
};
use crate::order::{comparable, lemma_total_order_comparable, sorted, total_order};
use crate::slices::{
    lemma_prefix_and_rest, lemma_swapped_in_prefix, lemma_swapped_permutes, swapped,
};
use vstd::arithmetic::power2::pow2;
use vstd::prelude::*;

verus! {

/// The logical size that was asked for does not fit the backing storage.
#[derive(Debug, Clone, Copy, PartialEq, Eq, Structural)]
pub struct InvalidSize {
    /// The size that was asked for.
    pub requested: usize,
    /// The number of slots of the backing storage.
    pub length: usize,
}

/// A heap is a complete binary tree, all of whose levels are full except
/// possibly the last, laid out in an array.
///
/// `storage` is the backing array and `spec_size` the number of its
/// leading slots that make up the heap. The contracts of this trait fix
/// the shape of the tree and what each operation does to length, size and
/// elements; which element sits above which is up to the implementer.
pub trait Heap<T>: Sized {
    /// The backing storage.
    spec fn storage(&self) -> Seq<T>;

    /// The number of elements of the heap.
    spec fn spec_size(&self) -> nat;

    /// The heap fits its storage: the size does not exceed the length.
    open spec fn fits(&self) -> bool {
        self.spec_size() <= self.storage().len()
    }

    /// The elements of the heap: the first `spec_size` slots of the
    /// storage.
    open spec fn members(&self) -> Seq<T> {
        self.storage().take(self.spec_size() as int)
    }

    /// The slots of the storage behind the heap.
    open spec fn residue(&self) -> Seq<T> {
        self.storage().skip(self.spec_size() as int)
    }

    /// The number of slots of the backing storage.
    fn length(&self) -> (n: usize)
        ensures
            n == self.storage().len(),
    ;

    /// The number of elements of the heap, which occupy the first slots of
    /// the storage.
    fn size(&self) -> (n: usize)
        ensures
            n == self.spec_size(),
    ;

    /// The index of the parent of a node of the heap other than the root.
    fn parent(&self, node_idx: usize) -> (r: Option<usize>)
        ensures
            node_idx != 0 && node_idx < self.spec_size() ==> r == Some(
                parent_of(node_idx as int) as usize,
            ),
            node_idx == 0 || node_idx >= self.spec_size() ==> r is None,
    ;

    /// The index of the left child of a node, if it has one in the heap.
    fn left(&self, node_idx: usize) -> (r: Option<usize>)
        ensures
            left_of(node_idx as int) < self.spec_size() ==> r == Some(
                left_of(node_idx as int) as usize,
            ),
            left_of(node_idx as int) >= self.spec_size() ==> r is None,
    ;

    /// The index of the right child of a node, if it has one in the heap.
    fn right(&self, node_idx: usize) -> (r: Option<usize>)
        ensures
            right_of(node_idx as int) < self.spec_size() ==> r == Some(
                right_of(node_idx as int) as usize,
            ),
            right_of(node_idx as int) >= self.spec_size() ==> r is None,
    ;

    /// The height of the root: the number of edges on the longest path
    /// down to a leaf, which is the logarithm of the size to base 2,
    /// rounded down, and 0 for the empty heap.
    fn height(&self) -> (h: usize)
        ensures
            h == log2_floor(self.spec_size() as int),
            self.spec_size() == 0 ==> h == 0,
            self.spec_size() >= 1 ==> pow2(h as nat) <= self.spec_size() < 2 * pow2(h as nat),
    ;

    /// The number of edges on the path from a node down its left
    /// children, or `None` for an index beyond the heap's size. Following
    /// left children from node `i` of a heap of `n` members takes
    /// `floor(log2(n / (i + 1)))` steps.
    fn node_height(&self, node_idx: usize) -> (r: Option<usize>)
        ensures
            node_idx > self.spec_size() ==> r is None,
            node_idx <= self.spec_size() ==> r is Some && r.unwrap() == left_depth(
                self.spec_size() as int,
                node_idx as int,
            ) && r.unwrap() == log2_floor(self.spec_size() as int / (node_idx + 1)),
    ;

    /// Builds a heap out of a vector. All of its elements are members.
    fn from_vec(data: Vec<T>) -> (heap: Self)
        ensures
            heap.fits(),
            heap.spec_size() == data@.len(),
            heap.storage().len() == data@.len(),
            heap.storage().to_multiset() == data@.to_multiset(),
    ;

    /// Restores the heap property top-down from a node whose subtrees
    /// satisfy it. The members are permuted; the residual slots stay.
    fn heapify_top(&mut self, start_node_idx: usize)
        requires
            old(self).fits(),
        ensures
            final(self).fits(),
            final(self).spec_size() == old(self).spec_size(),
            final(self).storage().len() == old(self).storage().len(),
            final(self).members().to_multiset() == old(self).members().to_multiset(),
            final(self).residue() == old(self).residue(),
            final(self).storage().to_multiset() == old(self).storage().to_multiset(),
    ;

    /// Restores the heap property bottom-up from a node that alone may
    /// exceed its parent. The members are permuted; the residual slots
    /// stay.
    fn heapify_bottom(&mut self, start_node_idx: usize)
        requires
            old(self).fits(),
        ensures
            final(self).fits(),
            final(self).spec_size() == old(self).spec_size(),
            final(self).storage().len() == old(self).storage().len(),
            final(self).members().to_multiset() == old(self).members().to_multiset(),
            final(self).residue() == old(self).residue(),
            final(self).storage().to_multiset() == old(self).storage().to_multiset(),
    ;

    /// Establishes the heap property on the members, whatever their
    /// arrangement. The members are permuted; the residual slots stay.
    fn build(self) -> (heap: Self)
        requires
            self.fits(),
        ensures
            heap.fits(),
            heap.spec_size() == self.spec_size(),
            heap.storage().len() == self.storage().len(),
            heap.members().to_multiset() == self.members().to_multiset(),
            heap.residue() == self.residue(),
            heap.storage().to_multiset() == self.storage().to_multiset(),
    ;

    /// A copy of the value stored in a slot of the backing storage,
    /// member of the heap or not.
    fn node_at(&self, node_idx: usize) -> (value: T)
        requires
            node_idx < self.storage().len(),
    ;

    /// Sets the size of the heap to any value that the storage can hold,
    /// and refuses any other. The storage is not touched, so the heap
    /// property of new members is the caller's business.
    fn change_size_to(&mut self, new_heap_size: usize) -> (r: Result<(), InvalidSize>)
        ensures
            final(self).storage() == old(self).storage(),
            new_heap_size <= old(self).storage().len() ==> r is Ok && final(self).spec_size()
                == new_heap_size,
            new_heap_size > old(self).storage().len() ==> r == Err::<(), InvalidSize>(
                (InvalidSize {
                    requested: new_heap_size,
                    length: old(self).storage().len() as usize,
                }),
            ) && final(self).spec_size() == old(self).spec_size(),
            old(self).fits() ==> final(self).fits(),
    ;

    /// Adds an element to the heap. It enters the storage right after the
    /// members, in front of the residual slots.
    fn push(&mut self, new_node: T)
        requires
            old(self).fits(),
            old(self).storage().len() < usize::MAX,
        ensures
            final(self).fits(),
            final(self).spec_size() == old(self).spec_size() + 1,
            final(self).storage().len() == old(self).storage().len() + 1,
            final(self).members().to_multiset() == old(self).members().to_multiset().insert(
                new_node,
            ),
            final(self).residue() == old(self).residue(),
            final(self).storage().to_multiset() == old(self).storage().to_multiset().insert(
                new_node,
            ),
    ;
}

/// A max-heap: the parent of each node holds a value greater than or
/// equal to those of its children, so the root holds the greatest.
#[derive(Debug)]
pub struct MaxHeap<T> {
    data: Vec<T>,
    size: usize,
}

impl<T: PartialOrd + Clone> Heap<T> for MaxHeap<T> {
    closed spec fn storage(&self) -> Seq<T> {
        self.data@
    }

    closed spec fn spec_size(&self) -> nat {
        self.size as nat
    }

    fn length(&self) -> (n: usize) {
        self.data.len()
    }

    fn size(&self) -> (n: usize) {
        self.size
    }

    fn parent(&self, node_idx: usize) -> (r: Option<usize>) {
        if node_idx != 0 && node_idx < self.size {
            Some((node_idx - 1) / 2)
        } else {
            None
        }
    }

    fn left(&self, node_idx: usize) -> (r: Option<usize>) {
        if node_idx < self.size / 2 {
            Some(2 * node_idx + 1)
        } else {
            None
        }
    }

    fn right(&self, node_idx: usize) -> (r: Option<usize>) {
        if self.size > 0 && node_idx < (self.size - 1) / 2 {
            Some(2 * (node_idx + 1))
        } else {
            None
        }
    }

    fn height(&self) -> (h: usize) {
        let mut h: usize = 0;
        let mut n: usize = self.size;
        while n > 1
            invariant
                h + log2_floor(n as int) == log2_floor(self.size as int),
                h <= self.size - n,
            decreases n,
        {
            n = n / 2;
            h = h + 1;
        }
        proof {
            if self.size >= 1 {
                lemma_log2_floor_bounds(self.size as int);
            }
        }
        h
    }

    fn node_height(&self, node_idx: usize) -> (r: Option<usize>) {
        if node_idx > self.size {
            return None;
        }
        let mut i: usize = node_idx;
        let mut height: usize = 0;
        loop
            invariant
                height <= i,
                height + left_depth(self.size as int, i as int) == left_depth(
                    self.size as int,
                    node_idx as int,
                ),
            ensures
                height == left_depth(self.size as int, node_idx as int),
            decreases self.size - i,
        {
            match self.left(i) {
                Some(left) => {
                    height = height + 1;
                    i = left;
                },
                None => {
                    break ;
                },
            }
        }
        proof {
            lemma_left_depth_closed_form(self.size as int, node_idx as int);
        }
        Some(height)
    }

    /// The heap is the one that repairing every internal node of `data`
    /// top-down, the last one first, leads to. Under a total order it is
    /// a valid max-heap.
    fn from_vec(data: Vec<T>) -> (heap: Self)
        ensures
            comparable::<T>() ==> heap.storage() == build_heap(data@),
            total_order::<T>() ==> heap.is_max_heap(),
    {
        let size: usize = data.len();
        let heap = MaxHeap { data, size };
        heap.build()
    }

    /// The node sinks along the path of the greatest child until it
    /// dominates both of its children; nothing outside its subtree moves.
    /// Under a total order the subtree of the node becomes a heap where
    /// the subtrees of its children are heaps, the heap property spreads
    /// from the nodes after it to the node itself, and a valid heap is
    /// left as it is.
    fn heapify_top(&mut self, start_node_idx: usize)
        ensures
            comparable::<T>() ==> final(self).storage() == sift_down(
                old(self).storage(),
                old(self).spec_size() as int,
                start_node_idx as int,
            ),
            comparable::<T>() ==> forall|j: int|
                0 <= j < old(self).storage().len() && !in_subtree(start_node_idx as int, j)
                    ==> #[trigger] final(self).storage()[j] == old(self).storage()[j],
            total_order::<T>() && subtree_is_heap(
                old(self).storage(),
                old(self).spec_size() as int,
                left_of(start_node_idx as int),
            ) && subtree_is_heap(
                old(self).storage(),
                old(self).spec_size() as int,
                right_of(start_node_idx as int),
            ) ==> subtree_is_heap(
                final(self).storage(),
                final(self).spec_size() as int,
                start_node_idx as int,
            ),
            total_order::<T>() && heap_within(
                old(self).storage(),
                old(self).spec_size() as int,
                from_index(start_node_idx + 1),
            ) ==> heap_within(
                final(self).storage(),
                final(self).spec_size() as int,
                from_index(start_node_idx as int),
            ),
            total_order::<T>() && old(self).is_max_heap() ==> final(self).storage() == old(self)
                .storage() && final(self).is_max_heap(),
    {
        let ghost s0 = self.data@;
        let ghost size = self.size as int;
        let mut i: usize = start_node_idx;
        loop
            invariant
                self.size == size,
                size <= s0.len(),
                self.data@.len() == s0.len(),
                self.data@.take(size).to_multiset() == s0.take(size).to_multiset(),
                self.data@.skip(size) == s0.skip(size),
                comparable::<T>() ==> sift_down(self.data@, size, i as int) == sift_down(
                    s0,
                    size,
                    start_node_idx as int,
                ),
            ensures
                comparable::<T>() ==> self.data@ == sift_down(s0, size, start_node_idx as int),
            decreases size - i,
        {
            let mut largest: usize = i;
            if let Some(left) = self.left(i) {
                if self.data[left] > self.data[i] {
                    largest = left;
                }
            }
            if let Some(right) = self.right(i) {
                if self.data[right] > self.data[largest] {
                    largest = right;
                }
            }
            assert(comparable::<T>() ==> largest == largest_of(self.data@, size, i as int));
            if largest == i {
                break ;
            }
            let ghost before = self.data@;
            self.data.swap(largest, i);
            proof {
                assert(self.data@ =~= swapped(before, i as int, largest as int));
                lemma_swapped_in_prefix(before, size, i as int, largest as int);
            }
            i = largest;
        }
        proof {
            lemma_prefix_and_rest(self.data@, s0, size);
            let start = start_node_idx as int;
            if comparable::<T>() {
                assert forall|j: int|
                    0 <= j < s0.len() && !in_subtree(start, j) implies #[trigger] self.data@[j]
                    == s0[j] by {
                    lemma_sift_down_frame(s0, size, start, j);
                }
            }
            if total_order::<T>() {
                lemma_total_order_comparable::<T>();
                if subtree_is_heap(s0, size, left_of(start)) && subtree_is_heap(
                    s0,
                    size,
                    right_of(start),
                ) {
                    lemma_sift_down_subtree(s0, size, start);
                }
                if heap_within(s0, size, from_index(start + 1)) {
                    lemma_sift_down_heap_from(s0, size, start);
                }
                if is_heap(s0, size) {
                    lemma_sift_down_of_heap(s0, size, start);
                }
            }
        }
    }

    /// The node rises as long as it is greater than its parent; nothing
    /// but the node and its ancestors moves. Under a total order the heap
    /// becomes valid where only the edge into the node could violate the
    /// heap property, and a valid heap is left as it is.
    fn heapify_bottom(&mut self, start_node_idx: usize)
        ensures
            comparable::<T>() ==> final(self).storage() == sift_up(
                old(self).storage(),
                old(self).spec_size() as int,
                start_node_idx as int,
            ),
            comparable::<T>() ==> forall|j: int|
                0 <= j < old(self).storage().len() && !in_subtree(j, start_node_idx as int)
                    ==> #[trigger] final(self).storage()[j] == old(self).storage()[j],
            total_order::<T>() && sift_up_ready(
                old(self).storage(),
                old(self).spec_size() as int,
                start_node_idx as int,
            ) ==> final(self).is_max_heap(),
            total_order::<T>() && old(self).is_max_heap() ==> final(self).storage() == old(self)
                .storage() && final(self).is_max_heap(),
    {
        let ghost s0 = self.data@;
        let ghost size = self.size as int;
        let mut i: usize = start_node_idx;
        loop
            invariant
                self.size == size,
                size <= s0.len(),
                self.data@.len() == s0.len(),
                self.data@.take(size).to_multiset() == s0.take(size).to_multiset(),
                self.data@.skip(size) == s0.skip(size),
                comparable::<T>() ==> sift_up(self.data@, size, i as int) == sift_up(
                    s0,
                    size,
                    start_node_idx as int,
                ),
            ensures
                comparable::<T>() ==> self.data@ == sift_up(s0, size, start_node_idx as int),
            decreases i,
        {
            match self.parent(i) {
                Some(parent) => {
                    if self.data[parent] < self.data[i] {
                        let ghost before = self.data@;
                        self.data.swap(parent, i);
                        proof {
                            assert(self.data@ =~= swapped(before, parent as int, i as int));
                            lemma_swapped_in_prefix(before, size, parent as int, i as int);
                        }
                        i = parent;
                    } else {
                        break ;
                    }
                },
                None => {
                    break ;
                },
            }
        }
        proof {
            lemma_prefix_and_rest(self.data@, s0, size);
            let start = start_node_idx as int;
            if comparable::<T>() {
                assert forall|j: int|
                    0 <= j < s0.len() && !in_subtree(j, start) implies #[trigger] self.data@[j]
                    == s0[j] by {
                    lemma_sift_up_frame(s0, size, start, j);
                }
            }
            if total_order::<T>() {
                lemma_total_order_comparable::<T>();
                if sift_up_ready(s0, size, start) {
                    lemma_sift_up_repairs(s0, size, start);
                }
                if is_heap(s0, size) {
                    lemma_sift_up_of_heap(s0, size, start);
                }
            }
        }
    }

    /// Every internal node is repaired top-down, the last one first.
    /// Under a total order the result is a valid max-heap.
    fn build(self) -> (heap: Self)
        ensures
            comparable::<T>() ==> heap.storage() == build_from(
                self.storage(),
                self.spec_size() as int,
                self.spec_size() as int / 2,
            ),
            total_order::<T>() ==> heap.is_max_heap(),
    {
        let mut heap = self;
        let ghost s0 = heap.data@;
        let ghost size = heap.size as int;
        let mut k: usize = heap.size / 2;
        proof {
            lemma_leaves_are_heaps(s0, size);
        }
        while k > 0
            invariant
                heap.size == size,
                size <= s0.len(),
                heap.data@.len() == s0.len(),
                heap.data@.take(size).to_multiset() == s0.take(size).to_multiset(),
                heap.data@.skip(size) == s0.skip(size),
                comparable::<T>() ==> build_from(heap.data@, size, k as int) == build_from(
                    s0,
                    size,
                    size / 2,
                ),
            decreases k,
        {
            k = k - 1;
            heap.heapify_top(k);
        }
        proof {
            lemma_prefix_and_rest(heap.data@, s0, size);
            if total_order::<T>() {
                lemma_total_order_comparable::<T>();
                lemma_build_from_is_heap(s0, size, size / 2);
            }
        }
        heap
    }

    /// The value is a clone of the element in the slot.
    fn node_at(&self, node_idx: usize) -> (value: T)
        ensures
            cloned(self.storage()[node_idx as int], value),
    {
        self.data[node_idx].clone()
    }

    /// A valid heap stays valid when it shrinks.
    fn change_size_to(&mut self, new_heap_size: usize) -> (r: Result<(), InvalidSize>)
        ensures
            old(self).is_max_heap() && new_heap_size <= old(self).spec_size() ==> final(self)
                .is_max_heap(),
    {
        if new_heap_size > self.data.len() {
            return Err(InvalidSize { requested: new_heap_size, length: self.data.len() });
        }
        proof {
            if old(self).is_max_heap() && new_heap_size <= old(self).spec_size() {
                assert forall|j: int| 1 <= j < new_heap_size implies #[trigger] edge_ok(
                    self.data@,
                    j,
                ) by {}
            }
        }
        self.size = new_heap_size;
        Ok(())
    }

    /// The new element rises from the first slot behind the members to
    /// its place. Under a total order a valid heap stays valid.
    fn push(&mut self, new_node: T)
        ensures
            comparable::<T>() ==> final(self).storage() == pushed(
                old(self).storage(),
                old(self).spec_size() as int,
                new_node,
            ),
            total_order::<T>() && old(self).is_max_heap() ==> final(self).is_max_heap(),
    {
        let ghost s0 = self.data@;
        let ghost size = self.size as int;
        self.data.insert(self.size, new_node);
        self.size = self.size + 1;
        proof {
            vstd::seq_lib::to_multiset_insert(s0, size, new_node);
            vstd::seq_lib::to_multiset_build(s0.take(size), new_node);
            assert(self.data@.skip(size + 1) =~= s0.skip(size));
            assert(self.data@.take(size + 1) =~= s0.take(size).push(new_node));
        }
        self.heapify_bottom(self.size - 1);
        proof {
            if total_order::<T>() && old(self).is_max_heap() {
                lemma_total_order_comparable::<T>();
                lemma_pushed_is_heap(s0, size, new_node);
            }
        }
    }
}

impl<T: PartialOrd + Clone> MaxHeap<T> {
    /// The heap satisfies its two invariants: the size does not exceed the
    /// length of the storage, and every member but the root is dominated
    /// by its parent.
    pub open spec fn is_max_heap(&self) -> bool {
        &&& self.fits()
        &&& is_heap(self.storage(), self.spec_size() as int)
    }

    /// The empty heap.
    pub fn new() -> (heap: Self)
        ensures
            heap.storage() == Seq::<T>::empty(),
            heap.spec_size() == 0,
            heap.is_max_heap(),
    {
        MaxHeap { data: Vec::new(), size: 0 }
    }

    /// Gives up the heap for its backing storage.
    pub fn into_vec(self) -> (data: Vec<T>)
        ensures
            data@ == self.storage(),
    {
        self.data
    }

    /// Heapsort: builds a heap of the elements, then moves the greatest
    /// member behind the heap until a single member is left. The result
    /// holds the elements of `data` in non-decreasing order.
    pub fn heapsort(data: Vec<T>) -> (out: Vec<T>)
        ensures
            out@.len() == data@.len(),
            out@.to_multiset() == data@.to_multiset(),
            comparable::<T>() ==> out@ == heapsorted(data@),
            total_order::<T>() ==> sorted(out@),
            total_order::<T>() && sorted(data@) ==> out@ == data@,
    {
        let mut h = MaxHeap::from_vec(data);
        let mut idx: usize = h.length();
        while idx > 1
            invariant
                h.size == idx,
                idx <= h.data@.len(),
                h.data@.len() == data@.len(),
                h.data@.to_multiset() == data@.to_multiset(),
                comparable::<T>() ==> sort_down(h.data@, idx as int) == heapsorted(data@),
            decreases idx,
        {
            let ghost before = h.data@;
            idx = idx - 1;
            h.data.swap(0, idx);
            proof {
                assert(h.data@ =~= swapped(before, 0, idx as int));
                lemma_swapped_permutes(before, 0, idx as int);
            }
            let _ = h.change_size_to(idx);
            h.heapify_top(0);
        }
        proof {
            if total_order::<T>() {
                lemma_total_order_comparable::<T>();
                lemma_heapsorted_sorts(data@);
                if sorted(data@) {
                    lemma_heapsorted_of_sorted(data@);
                }
            }
        }
        h.data
    }
}

} // verus!
