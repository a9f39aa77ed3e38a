use quicksort::sort::{partition, quick_sort};

fn is_sorted(v: &[i64]) -> bool {
    v.windows(2).all(|w| w[0] <= w[1])
}

fn counts_match(a: &[i64], b: &[i64]) -> bool {
    let mut x = a.to_vec();
    let mut y = b.to_vec();
    x.sort();
    y.sort();
    x == y
}

#[test]
fn sorts_mixed_with_duplicates() {
    let mut arr = [5, 2, 9, 1, 5, 6];
    quick_sort(&mut arr);
    assert_eq!(arr, [1, 2, 5, 5, 6, 9]);
}

#[test]
fn sorts_single_element() {
    let mut arr = [1];
    quick_sort(&mut arr);
    assert_eq!(arr, [1]);
}

#[test]
fn sorts_empty() {
    let mut v: Vec<i64> = Vec::new();
    quick_sort(&mut v);
    assert!(v.is_empty());
}

#[test]
fn sorts_all_equal() {
    let mut arr = [3, 3, 3];
    quick_sort(&mut arr);
    assert_eq!(arr, [3, 3, 3]);
}

#[test]
fn sorts_reverse_sorted() {
    let mut arr = [9, 8, 7, 6, 5, 4, 3, 2, 1];
    quick_sort(&mut arr);
    assert_eq!(arr, [1, 2, 3, 4, 5, 6, 7, 8, 9]);
}

#[test]
fn sorted_input_is_unchanged() {
    let mut arr = [1, 2, 2, 4, 8, 8, 10];
    quick_sort(&mut arr);
    assert_eq!(arr, [1, 2, 2, 4, 8, 8, 10]);
}

#[test]
fn sorting_twice_equals_sorting_once() {
    let mut v = vec![4, -1, 7, 0, 7, -3, 2];
    quick_sort(&mut v);
    let once = v.clone();
    quick_sort(&mut v);
    assert_eq!(v, once);
    assert_eq!(once, vec![-3, -1, 0, 2, 4, 7, 7]);
}

#[test]
fn sorts_extreme_values() {
    let mut v = vec![i64::MAX, 0, i64::MIN, -1, i64::MAX, 1, i64::MIN];
    quick_sort(&mut v);
    assert_eq!(v, vec![i64::MIN, i64::MIN, -1, 0, 1, i64::MAX, i64::MAX]);
}

#[test]
fn sort_keeps_elements_and_orders_them() {
    let original: Vec<i64> = (0..200).map(|k: i64| (k * 7919 + 13) % 101 - 50).collect();
    let mut v = original.clone();
    quick_sort(&mut v);
    assert!(is_sorted(&v));
    assert!(counts_match(&original, &v));
}

#[test]
fn sorts_already_sorted_long_run() {
    let mut v: Vec<i64> = (0..500).collect();
    let expected = v.clone();
    quick_sort(&mut v);
    assert_eq!(v, expected);
}

#[test]
fn partition_pivot_is_minimum() {
    let mut arr = [5, 2, 9, 1, 5, 6];
    let p = partition(&mut arr);
    assert_eq!(p, 0);
    assert_eq!(arr, [1, 2, 9, 6, 5, 5]);
}

#[test]
fn partition_pivot_in_the_middle() {
    let mut arr = [4, 7, 5, 1, 3];
    let p = partition(&mut arr);
    assert_eq!(p, 3);
    assert_eq!(arr, [4, 3, 1, 5, 7]);
}

#[test]
fn partition_three_elements() {
    let mut arr = [3, 1, 2];
    let p = partition(&mut arr);
    assert_eq!(p, 0);
    assert_eq!(arr, [1, 2, 3]);
}

#[test]
fn partition_duplicates_of_pivot_go_left() {
    let mut arr = [2, 2, 2];
    let p = partition(&mut arr);
    assert_eq!(p, 2);
    assert_eq!(arr, [2, 2, 2]);
}

#[test]
fn partition_single_element() {
    let mut arr = [7];
    let p = partition(&mut arr);
    assert_eq!(p, 0);
    assert_eq!(arr, [7]);
}
