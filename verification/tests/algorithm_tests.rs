use dsa::binary_search_list::binary_search_list;
use dsa::bubble_sort::bubble_sort;
use dsa::quick_sort::quick_sort;
use dsa::two_crystal_balls::two_crystal_balls;

#[test]
fn binary_search_list_test() {
    assert_eq!(binary_search_list([1, 2, 3, 4, 5, 6, 7, 12, 13, 33], 5), true);
    assert_eq!(binary_search_list([1, 2, 3, 4, 5, 6, 7, 12, 13, 33], 100), false);
    assert_eq!(binary_search_list([1, 2, 3, 4, 5, 6, 7, 12, 13, 33], 0), false);
}

#[test]
fn binary_search_list_finds_ends() {
    assert_eq!(binary_search_list([1, 2, 3, 4, 5, 6, 7, 12, 13, 33], 1), true);
    assert_eq!(binary_search_list([1, 2, 3, 4, 5, 6, 7, 12, 13, 33], 33), true);
    assert_eq!(binary_search_list([1, 2, 3, 4, 5, 6, 7, 12, 13, 33], 8), false);
}

#[test]
fn bubble_sort_test() {
    let mut arr = vec![9, 3, 7, 4, 69, 420, 42];
    bubble_sort(&mut arr);
    assert_eq!(arr, [3, 4, 7, 9, 42, 69, 420]);
}

#[test]
fn bubble_sort_short_inputs() {
    let mut empty: Vec<u32> = vec![];
    bubble_sort(&mut empty);
    assert_eq!(empty, []);

    let mut single = vec![5];
    bubble_sort(&mut single);
    assert_eq!(single, [5]);

    let mut equal = vec![2, 2, 1, 2];
    bubble_sort(&mut equal);
    assert_eq!(equal, [1, 2, 2, 2]);
}

#[test]
fn quick_sort_test_1() {
    let mut arr = vec![9, 3, 7, 4, 69, 420, 42];
    let len = arr.len();
    quick_sort(&mut arr, 0, (len - 1) as i32);
    assert_eq!(arr, [3, 4, 7, 9, 42, 69, 420]);
}

#[test]
fn test_2() {
    let mut arr = vec![2, 5, 7, 3, 9, 1, 8, 6, 4];
    let len = arr.len();
    quick_sort(&mut arr, 0, (len - 1) as i32);
    assert_eq!(arr, [1, 2, 3, 4, 5, 6, 7, 8, 9]);
}

#[test]
fn quick_sort_single_element() {
    let mut arr = vec![3];
    quick_sort(&mut arr, 0, 0);
    assert_eq!(arr, [3]);
}

#[test]
fn two_crystal_balls_test() {
    assert_eq!(two_crystal_balls(&[false, false, true, true]), 2);
    assert_eq!(two_crystal_balls(&[false, false, false, true, true]), 3);
    assert_eq!(two_crystal_balls(&[false, true, true, true, true, true, true, true]), 1);
    assert_eq!(two_crystal_balls(&[false, false, false, false, false, false, false, true]), 7);
}

#[test]
fn two_crystal_balls_no_break() {
    assert_eq!(two_crystal_balls(&[]), -1);
    assert_eq!(two_crystal_balls(&[false, false, false, false]), -1);
    assert_eq!(two_crystal_balls(&[true, true, true]), 0);
}
