use algae::search;
use algae::search::{BinarySearch, Searcher};

#[test]
fn binary_search() {
    let xs = vec![3];
    assert_eq!(search::binary_search(&xs, &3), Some(0));

    let xs = vec![3, 4];
    assert_eq!(search::binary_search(&xs, &3), Some(0));
    assert_eq!(search::binary_search(&xs, &4), Some(1));

    let xs = vec![3, 5, 7, 11, 35, 90];
    assert_eq!(search::binary_search(&xs, &90), Some(xs.len() - 1));
    assert_eq!(search::binary_search(&xs, &6), None);
}

#[test]
fn binary_search_misses() {
    let empty: Vec<i32> = Vec::new();
    assert_eq!(search::binary_search(&empty, &1), None);

    let xs = vec![3, 5, 7, 11, 35, 90];
    assert_eq!(search::binary_search(&xs, &2), None);
    assert_eq!(search::binary_search(&xs, &91), None);
    assert_eq!(search::binary_search(&xs, &12), None);
    assert_eq!(search::binary_search(&[3], &2), None);
    assert_eq!(search::binary_search(&[3], &4), None);
}

#[test]
fn binary_search_finds_every_element() {
    let xs: Vec<i64> = (0..100).map(|x| 3 * x - 50).collect();
    for (i, x) in xs.iter().enumerate() {
        assert_eq!(search::binary_search(&xs, x), Some(i));
        assert_eq!(search::binary_search(&xs, &(x + 1)), None);
    }
}

#[test]
fn binary_search_among_equals() {
    let xs = vec![1, 2, 2, 2, 3];
    let found = search::binary_search(&xs, &2);
    assert!(matches!(found, Some(i) if xs[i] == 2));
}

#[test]
fn binary_search_as_a_searcher() {
    let xs = vec![3, 5, 7, 11, 35, 90];
    assert_eq!(BinarySearch::search(&xs, 11), Some(3));
    assert_eq!(BinarySearch::search(&xs, 3), Some(0));
    assert_eq!(BinarySearch::search(&xs, 4), None);
    assert_eq!(BinarySearch::search(&xs[..0], 4), None);
}
