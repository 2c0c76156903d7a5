use algae::sort;
use algae::sort::Sorter;
use algae::sorting;
use algae::sorting::HeapSort;

fn sorted_copy(xs: &[i64]) -> Vec<i64> {
    let mut v = xs.to_vec();
    v.sort();
    v
}

#[test]
fn mod_sorted() {
    let v1 = vec![1, 2, 3, 4, 5, 5];
    assert!(sort::is_sorted(&v1));

    let v2 = vec![0, 3, 9, 8, 10];
    assert!(!sort::is_sorted(&v2));
}

#[test]
fn sorted_edge_cases() {
    let empty: Vec<i32> = Vec::new();
    assert!(sort::is_sorted(&empty));
    assert!(sort::is_sorted(&[1]));
    assert!(sort::is_sorted(&[1, 1]));
    assert!(!sort::is_sorted(&[2, 1]));
    assert!(!sort::is_sorted(&[1, 2, 3, 2]));
    assert!(sorting::is_sorted(&[1, 2, 3]));
    assert!(!sorting::is_sorted(&[1, 3, 2]));
}

#[test]
fn sorting() {
    assert!(sort::check_sort_fn(sort::merge_sort));
}

#[test]
fn merge_arrays() {
    let mut xs = vec![5, 6, 7, 8, 1, 2, 3, 4];
    sort::merge(&mut xs, 0, 3, 7);
    assert_eq!(xs, vec![1, 2, 3, 4, 5, 6, 7, 8]);

    let mut xs = vec![13, 11, 5, 6, 7, 8, 1, 2, 3, 4, 90, 21];
    sort::merge(&mut xs, 2, 5, 9);
    assert_eq!(xs, vec![13, 11, 1, 2, 3, 4, 5, 6, 7, 8, 90, 21]);
}

/// A number with a tag that takes no part in comparisons.
#[derive(Clone, Copy, Debug)]
struct Tagged(i32, char);

impl PartialEq for Tagged {
    fn eq(&self, other: &Self) -> bool {
        self.0 == other.0
    }
}

impl PartialOrd for Tagged {
    fn partial_cmp(&self, other: &Self) -> Option<std::cmp::Ordering> {
        self.0.partial_cmp(&other.0)
    }
}

#[test]
fn merge_takes_equal_elements_from_the_left_first() {
    let mut xs = vec![
        Tagged(1, 'a'),
        Tagged(2, 'a'),
        Tagged(1, 'b'),
        Tagged(2, 'b'),
    ];
    sort::merge(&mut xs, 0, 1, 3);
    let order: Vec<(i32, char)> = xs.iter().map(|k| (k.0, k.1)).collect();
    assert_eq!(order, vec![(1, 'a'), (1, 'b'), (2, 'a'), (2, 'b')]);
}

#[test]
fn merge_with_an_empty_run() {
    let mut xs = vec![4, 1, 2, 3];
    sort::merge(&mut xs, 1, 3, 3);
    assert_eq!(xs, vec![4, 1, 2, 3]);
    sort::merge(&mut xs, 1, 0, 3);
    assert_eq!(xs, vec![4, 1, 2, 3]);
}

#[test]
fn insertion_sort_test() {
    assert!(sort::check_sort_fn(sort::insertion_sort));
}

#[test]
fn sorting_quicksort() {
    assert!(sort::check_sort_fn(sort::quick_sort));
}

#[test]
fn sorting_quick3waysort() {
    assert!(sort::check_sort_fn(sort::quick_three_way_sort));
}

#[test]
fn check_sort_fn_catches_a_function_that_does_not_sort() {
    assert!(!sort::check_sort_fn(|xs: &mut [i64]| xs.reverse()));
    assert!(!sort::check_sort_fn(|_xs: &mut [i64]| ()));
}

struct ByInsertion;

impl Sorter for ByInsertion {
    fn sort<T: PartialOrd + Copy>(xs: &mut [T]) {
        sort::insertion_sort(xs)
    }
}

struct ByQuick;

impl Sorter for ByQuick {
    fn sort<T: PartialOrd + Copy>(xs: &mut [T]) {
        sort::quick_sort(xs)
    }
}

#[test]
fn check_sorter_accepts_sorters() {
    assert!(sort::check_sorter(ByInsertion));
    assert!(sort::check_sorter(ByQuick));
}

struct Reverser;

impl Sorter for Reverser {
    fn sort<T: PartialOrd + Copy>(xs: &mut [T]) {
        xs.reverse()
    }
}

#[test]
fn check_sorter_catches_what_does_not_sort() {
    assert!(!sort::check_sorter(Reverser));
}

#[test]
fn sorter_sorts_says_whether_the_sorter_sorted() {
    let mut xs: Vec<i64> = vec![5, 3, 9, 3, 1];
    assert!(sort::sorter_sorts::<ByInsertion>(&mut xs));
    assert_eq!(xs, vec![1, 3, 3, 5, 9]);

    let mut xs: Vec<i64> = vec![1, 2, 3];
    assert!(!sort::sorter_sorts::<Reverser>(&mut xs));
    assert_eq!(xs, vec![3, 2, 1]);

    let mut xs: Vec<i64> = vec![3, 2, 1];
    assert!(sort::sorter_sorts::<Reverser>(&mut xs));
}

#[test]
fn sorts_says_whether_the_function_sorted() {
    let mut xs: Vec<i64> = vec![4, -1, 7, 0];
    assert!(sort::sorts(&sort::merge_sort::<i64>, &mut xs));
    assert_eq!(xs, vec![-1, 0, 4, 7]);

    let mut xs: Vec<i64> = vec![1, 2, 3];
    assert!(!sort::sorts(&|v: &mut [i64]| v.reverse(), &mut xs));
    assert_eq!(xs, vec![3, 2, 1]);

    let mut xs: Vec<i64> = vec![1, 2, 3];
    assert!(sort::sorts(&|_v: &mut [i64]| (), &mut xs));
    let mut none: Vec<i64> = Vec::new();
    assert!(sort::sorts(&|_v: &mut [i64]| (), &mut none));
}

#[test]
fn quick_sort_example() {
    let mut v = [99, 32, 58, 66, 2, 4, 0, 3928, 55, 88, 30, 44, 3, 2, 0];
    sort::quick_sort(&mut v);
    assert_eq!(v, [0, 0, 2, 2, 3, 4, 30, 32, 44, 55, 58, 66, 88, 99, 3928]);
}

#[test]
fn quick_three_way_sort_example() {
    let mut v = "quicksortexample".as_bytes().to_vec();
    sort::quick_three_way_sort(&mut v);
    assert_eq!("aceeiklmopqrstux", &String::from_utf8(v).unwrap());
}

#[test]
fn every_sort_gives_the_sorted_permutation() {
    for size in [0usize, 1, 2, 3, 10, 11, 12, 13, 50, 300] {
        let input: Vec<i64> = sort::rand_vec(size).iter().map(|x| x % 40).collect();
        let expected = sorted_copy(&input);

        let mut xs = input.clone();
        sort::insertion_sort(&mut xs);
        assert_eq!(xs, expected);

        let mut xs = input.clone();
        sort::merge_sort(&mut xs);
        assert_eq!(xs, expected);

        let mut xs = input.clone();
        sort::quick_sort(&mut xs);
        assert_eq!(xs, expected);

        let mut xs = input.clone();
        sort::quick_three_way_sort(&mut xs);
        assert_eq!(xs, expected);

        assert_eq!(sort::heap_sort(input.clone()), expected);
        assert_eq!(HeapSort::sort(input), expected);
    }
}

#[test]
fn sorts_leave_sorted_input_unchanged() {
    let input: Vec<i64> = vec![-3, -3, 0, 1, 1, 2, 8, 8, 9, 10, 11, 12, 13, 14, 20];
    let mut xs = input.clone();
    sort::insertion_sort(&mut xs);
    assert_eq!(xs, input);
    let mut xs = input.clone();
    sort::merge_sort(&mut xs);
    assert_eq!(xs, input);
    let mut xs = input.clone();
    sort::quick_sort(&mut xs);
    assert_eq!(xs, input);
    assert_eq!(sort::heap_sort(input.clone()), input);
}

#[test]
fn heap_sort_scenario() {
    assert_eq!(
        sort::heap_sort(vec![9, 3, 1, 2, 4, 16, 10, 7, 8, 14]),
        vec![1, 2, 3, 4, 7, 8, 9, 10, 14, 16]
    );
    assert_eq!(
        HeapSort::sort(vec![9, 3, 1, 2, 4, 16, 10, 7, 8, 14]),
        vec![1, 2, 3, 4, 7, 8, 9, 10, 14, 16]
    );
}

#[test]
fn rand_vec_has_the_length_asked_for() {
    assert_eq!(sort::rand_vec(0).len(), 0);
    assert_eq!(sort::rand_vec(100).len(), 100);
    assert_eq!(sorting::rand_vec(0).len(), 0);
    assert_eq!(sorting::rand_vec(100).len(), 100);
}

#[test]
fn rand_vec_of_the_small_range_stays_in_it() {
    let v = sorting::rand_vec(5000);
    assert!(v.iter().all(|x| (-1000..1000).contains(x)));
    assert!(v.iter().any(|x| *x != v[0]));
}

#[test]
fn rand_vec_varies() {
    let v = sort::rand_vec(64);
    assert!(v.iter().any(|x| *x != v[0]));
}
