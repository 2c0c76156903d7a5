use algae::ds::{Heap, InvalidSize, MaxHeap};
use algae::sort;

/// Whether every member but the root is dominated by its parent.
fn is_max_heap(storage: &[i32], size: usize) -> bool {
    (1..size).all(|i| storage[(i - 1) / 2] >= storage[i])
}

/// A heap with the given storage and size, valid or not: a push into a
/// heap of size 0 puts the element in front of the storage and moves
/// nothing else.
fn arranged(storage: &[i32], size: usize) -> MaxHeap<i32> {
    let mut heap = MaxHeap::new();
    for x in storage.iter().rev() {
        assert_eq!(heap.change_size_to(0), Ok(()));
        heap.push(*x);
    }
    assert_eq!(heap.change_size_to(size), Ok(()));
    heap
}

#[test]
fn build_heap_from_vec() {
    let heap = MaxHeap::from_vec(vec![9, 3, 1, 2, 4, 16, 10, 7, 8, 14]);
    assert_eq!(heap.into_vec(), vec![16, 14, 10, 8, 4, 1, 9, 7, 2, 3]);
}

#[test]
fn build_heap_via_push() {
    let mut heap = MaxHeap::new();
    vec![9, 3, 1, 2, 4, 16, 10, 7, 8, 14]
        .iter()
        .for_each(|&x| heap.push(x));
    assert_eq!(heap.into_vec(), vec![16, 14, 10, 7, 8, 1, 9, 2, 4, 3]);
}

#[test]
fn heap_heapsort() {
    let v = sort::rand_vec(1000);
    let v_heapsort = MaxHeap::heapsort(v);
    assert!(sort::is_sorted(&v_heapsort));
}

#[test]
fn heapsort_scenario() {
    let sorted = MaxHeap::heapsort(vec![9, 3, 1, 2, 4, 16, 10, 7, 8, 14]);
    assert_eq!(sorted, vec![1, 2, 3, 4, 7, 8, 9, 10, 14, 16]);
}

#[test]
fn heapsort_of_nothing_and_of_one() {
    assert_eq!(MaxHeap::heapsort(Vec::<i32>::new()), Vec::<i32>::new());
    assert_eq!(MaxHeap::heapsort(vec![7]), vec![7]);
    assert_eq!(MaxHeap::heapsort(vec![7, 3]), vec![3, 7]);
}

#[test]
fn heapsort_keeps_duplicates() {
    let sorted = MaxHeap::heapsort(vec![3, 1, 3, 2, 1, 3, 2]);
    assert_eq!(sorted, vec![1, 1, 2, 2, 3, 3, 3]);
    assert_eq!(MaxHeap::heapsort(vec![4; 9]), vec![4; 9]);
}

#[test]
fn heapsort_is_a_sorted_permutation() {
    for size in [2usize, 3, 16, 17, 257] {
        let input = sort::rand_vec(size);
        let mut expected = input.clone();
        expected.sort();
        assert_eq!(MaxHeap::heapsort(input), expected);
    }
}

#[test]
fn heapsort_leaves_sorted_input_unchanged() {
    let input = vec![-5, -5, 0, 1, 2, 2, 9, 40];
    assert_eq!(MaxHeap::heapsort(input.clone()), input);
}

#[test]
fn empty_heap() {
    let heap: MaxHeap<i32> = MaxHeap::new();
    assert_eq!(heap.length(), 0);
    assert_eq!(heap.size(), 0);
    assert_eq!(heap.height(), 0);
    assert_eq!(heap.parent(0), None);
    assert_eq!(heap.left(0), None);
    assert_eq!(heap.right(0), None);
    assert_eq!(heap.node_height(0), Some(0));
    assert_eq!(heap.node_height(1), None);
    assert_eq!(heap.into_vec(), Vec::<i32>::new());

    let built = MaxHeap::from_vec(Vec::<i32>::new());
    assert_eq!(built.size(), 0);
    assert_eq!(built.length(), 0);
}

#[test]
fn navigation() {
    let heap = MaxHeap::from_vec(vec![9, 3, 1, 2, 4, 16, 10, 7, 8, 14]);
    assert_eq!(heap.size(), 10);
    assert_eq!(heap.length(), 10);

    assert_eq!(heap.parent(0), None);
    assert_eq!(heap.parent(1), Some(0));
    assert_eq!(heap.parent(2), Some(0));
    assert_eq!(heap.parent(8), Some(3));
    assert_eq!(heap.parent(9), Some(4));
    assert_eq!(heap.parent(10), None);
    assert_eq!(heap.parent(usize::MAX), None);

    assert_eq!(heap.left(0), Some(1));
    assert_eq!(heap.left(3), Some(7));
    assert_eq!(heap.left(4), Some(9));
    assert_eq!(heap.left(5), None);
    assert_eq!(heap.left(usize::MAX), None);

    assert_eq!(heap.right(0), Some(2));
    assert_eq!(heap.right(3), Some(8));
    assert_eq!(heap.right(4), None);
    assert_eq!(heap.right(usize::MAX), None);
}

#[test]
fn navigation_follows_the_size_not_the_length() {
    let mut heap = MaxHeap::from_vec(vec![9, 3, 1, 2, 4, 16, 10, 7, 8, 14]);
    assert_eq!(heap.change_size_to(4), Ok(()));
    assert_eq!(heap.parent(3), Some(1));
    assert_eq!(heap.parent(4), None);
    assert_eq!(heap.left(1), Some(3));
    assert_eq!(heap.right(1), None);
    assert_eq!(heap.left(2), None);
    assert_eq!(heap.height(), 2);
    assert_eq!(heap.node_height(4), Some(0));
    assert_eq!(heap.node_height(5), None);
}

#[test]
fn heights() {
    let mut heap = MaxHeap::new();
    let expected = [0, 1, 1, 2, 2, 2, 2, 3, 3];
    for (i, h) in expected.iter().enumerate() {
        heap.push(i as i32);
        assert_eq!(heap.height(), *h);
    }

    let heap = MaxHeap::from_vec(vec![9, 3, 1, 2, 4, 16, 10, 7, 8, 14]);
    assert_eq!(heap.height(), 3);
    assert_eq!(heap.node_height(0), Some(3));
    assert_eq!(heap.node_height(1), Some(2));
    assert_eq!(heap.node_height(2), Some(1));
    assert_eq!(heap.node_height(4), Some(1));
    assert_eq!(heap.node_height(5), Some(0));
    assert_eq!(heap.node_height(9), Some(0));
    assert_eq!(heap.node_height(10), Some(0));
    assert_eq!(heap.node_height(11), None);
}

#[test]
fn node_at_reads_the_storage() {
    let mut heap = MaxHeap::from_vec(vec![9, 3, 1, 2, 4, 16, 10, 7, 8, 14]);
    assert_eq!(heap.change_size_to(3), Ok(()));
    let expected = [16, 14, 10, 8, 4, 1, 9, 7, 2, 3];
    for (i, x) in expected.iter().enumerate() {
        assert_eq!(heap.node_at(i), *x);
    }
}

#[test]
fn change_size_rejects_more_than_length() {
    let mut heap = MaxHeap::from_vec(vec![5, 1, 4]);
    assert_eq!(
        heap.change_size_to(4),
        Err(InvalidSize { requested: 4, length: 3 })
    );
    assert_eq!(heap.size(), 3);
    assert_eq!(
        heap.change_size_to(usize::MAX),
        Err(InvalidSize { requested: usize::MAX, length: 3 })
    );
    assert_eq!(heap.size(), 3);
    assert_eq!(heap.change_size_to(1), Ok(()));
    assert_eq!(
        heap.change_size_to(4),
        Err(InvalidSize { requested: 4, length: 3 })
    );
    assert_eq!(heap.size(), 1);
    assert_eq!(heap.into_vec(), vec![5, 1, 4]);
}

#[test]
fn change_size_within_length() {
    let mut heap = MaxHeap::from_vec(vec![5, 1, 4]);
    assert_eq!(heap.change_size_to(2), Ok(()));
    assert_eq!(heap.size(), 2);
    assert_eq!(heap.length(), 3);
    assert_eq!(heap.change_size_to(0), Ok(()));
    assert_eq!(heap.size(), 0);
    assert_eq!(heap.change_size_to(3), Ok(()));
    assert_eq!(heap.size(), 3);
    assert_eq!(heap.into_vec(), vec![5, 1, 4]);
}

#[test]
fn heapify_top_moves_a_small_root_down() {
    let mut heap = arranged(&[5, 14, 10, 8, 7, 9, 3, 2, 4, 1], 10);
    heap.heapify_top(0);
    assert_eq!(heap.size(), 10);
    assert_eq!(heap.into_vec(), vec![14, 8, 10, 5, 7, 9, 3, 2, 4, 1]);
}

#[test]
fn heapify_top_prefers_the_left_child_among_equals() {
    let mut heap = arranged(&[1, 7, 7, 2, 3, 4, 5], 7);
    heap.heapify_top(0);
    assert_eq!(heap.into_vec(), vec![7, 3, 7, 2, 1, 4, 5]);
}

#[test]
fn heapify_top_stays_inside_the_subtree() {
    let mut heap = arranged(&[1, 2, 3, 4, 5, 6, 7], 7);
    heap.heapify_top(1);
    assert_eq!(heap.into_vec(), vec![1, 5, 3, 4, 2, 6, 7]);
}

#[test]
fn heapify_top_leaves_the_residual_slots() {
    let mut heap = arranged(&[1, 9, 8, 100, 200], 3);
    heap.heapify_top(0);
    assert_eq!(heap.size(), 3);
    assert_eq!(heap.into_vec(), vec![9, 1, 8, 100, 200]);

    let mut heap = arranged(&[1, 9, 8, 100, 200], 2);
    heap.heapify_top(0);
    assert_eq!(heap.into_vec(), vec![9, 1, 8, 100, 200]);
}

#[test]
fn heapify_top_outside_the_heap_does_nothing() {
    for start in [3usize, 4, 5, 6, 1000, usize::MAX] {
        let mut heap = arranged(&[1, 2, 3, 4, 5, 6, 7], 3);
        heap.heapify_top(start);
        assert_eq!(heap.into_vec(), vec![1, 2, 3, 4, 5, 6, 7]);
    }
}

#[test]
fn heapify_bottom_moves_a_large_leaf_up() {
    let mut heap = arranged(&[10, 8, 9, 4, 5, 12], 6);
    heap.heapify_bottom(5);
    assert_eq!(heap.size(), 6);
    assert_eq!(heap.into_vec(), vec![12, 8, 10, 4, 5, 9]);
}

#[test]
fn heapify_bottom_stops_below_a_parent_that_dominates() {
    let mut heap = arranged(&[10, 8, 9, 4, 5, 9], 6);
    heap.heapify_bottom(5);
    assert_eq!(heap.into_vec(), vec![10, 8, 9, 4, 5, 9]);

    let mut heap = arranged(&[10, 3, 9, 4, 5, 7], 6);
    heap.heapify_bottom(4);
    assert_eq!(heap.into_vec(), vec![10, 5, 9, 4, 3, 7]);
}

#[test]
fn heapify_bottom_outside_the_heap_does_nothing() {
    for start in [0usize, 3, 4, 1000, usize::MAX] {
        let mut heap = arranged(&[1, 2, 3, 4, 5], 3);
        heap.heapify_bottom(start);
        assert_eq!(heap.into_vec(), vec![1, 2, 3, 4, 5]);
    }
}

#[test]
fn repairs_leave_a_heap_alone() {
    let mut heap = MaxHeap::from_vec(vec![9, 3, 1, 2, 4, 16, 10, 7, 8, 14]);
    for i in 0..12 {
        heap.heapify_top(i);
        heap.heapify_bottom(i);
    }
    assert_eq!(heap.into_vec(), vec![16, 14, 10, 8, 4, 1, 9, 7, 2, 3]);
}

#[test]
fn build_repairs_the_members_only() {
    let heap = arranged(&[1, 2, 3, 9, 9], 3).build();
    assert_eq!(heap.size(), 3);
    assert_eq!(heap.into_vec(), vec![3, 2, 1, 9, 9]);

    let heap = arranged(&[9, 3, 1, 2, 4, 16, 10, 7, 8, 14], 10).build();
    assert_eq!(heap.into_vec(), vec![16, 14, 10, 8, 4, 1, 9, 7, 2, 3]);
}

#[test]
fn push_goes_in_front_of_the_residual_slots() {
    let mut heap = MaxHeap::from_vec(vec![7, 5, 6, 1]);
    assert_eq!(heap.change_size_to(2), Ok(()));
    heap.push(9);
    assert_eq!(heap.size(), 3);
    assert_eq!(heap.length(), 5);
    assert_eq!(heap.into_vec(), vec![9, 5, 7, 6, 1]);
}

#[test]
fn every_operation_keeps_the_heap_valid() {
    let numbers: Vec<i32> = sort::rand_vec(200)
        .iter()
        .map(|x| (*x % 1000) as i32)
        .collect();
    let mut heap = MaxHeap::from_vec(numbers.clone());
    assert!(heap.size() <= heap.length());
    for x in numbers {
        heap.push(x);
        assert!(heap.size() <= heap.length());
    }
    assert_eq!(heap.size(), 400);
    heap.heapify_top(0);
    heap.heapify_bottom(399);
    let whole = MaxHeap::from_vec(heap.into_vec());
    // A heap that is valid is left as it is by construction.
    let mut heap = whole.build();
    assert_eq!(heap.change_size_to(300), Ok(()));
    assert_eq!(heap.size(), 300);
    assert_eq!(heap.length(), 400);
    let storage = heap.into_vec();
    assert!(is_max_heap(&storage, 400));
    assert!(is_max_heap(&storage, 300));
}

#[test]
fn growing_the_size_may_break_the_heap() {
    let mut heap = arranged(&[3, 5], 1);
    heap.heapify_top(0);
    assert_eq!(heap.change_size_to(2), Ok(()));
    let storage = heap.into_vec();
    assert_eq!(storage, vec![3, 5]);
    assert!(!is_max_heap(&storage, 2));
}
