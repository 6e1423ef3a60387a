use array_address::{binary_search, linear_search};

#[test]
fn binary_search_finds_middle_element() {
    let arr = [2, 4, 6, 8, 10, 12, 14];
    assert_eq!(binary_search(&arr, 10), Some(4));
}

#[test]
fn binary_search_finds_first_and_last() {
    let arr = [2, 4, 6, 8, 10, 12, 14];
    assert_eq!(binary_search(&arr, 2), Some(0));
    assert_eq!(binary_search(&arr, 14), Some(6));
}

#[test]
fn binary_search_missing_values() {
    let arr = [2, 4, 6, 8, 10, 12, 14];
    assert_eq!(binary_search(&arr, 5), None);
    assert_eq!(binary_search(&arr, 1), None);
    assert_eq!(binary_search(&arr, 15), None);
}

#[test]
fn binary_search_single_element() {
    assert_eq!(binary_search(&[42], 42), Some(0));
    assert_eq!(binary_search(&[42], 99), None);
    assert_eq!(binary_search(&[42], 7), None);
}

#[test]
fn binary_search_empty() {
    let empty: [i32; 0] = [];
    assert_eq!(binary_search(&empty, 5), None);
}

#[test]
fn binary_search_extreme_values() {
    let arr = [i32::MIN, -100, 0, 100, i32::MAX];
    assert_eq!(binary_search(&arr, i32::MAX), Some(4));
    assert_eq!(binary_search(&arr, i32::MIN), Some(0));
}

#[test]
fn binary_search_every_even_number() {
    let arr: Vec<i32> = (0..1000).map(|i| i * 2).collect();
    for (i, &v) in arr.iter().enumerate() {
        assert_eq!(binary_search(&arr, v), Some(i));
        assert_eq!(binary_search(&arr, v + 1), None);
    }
    assert_eq!(binary_search(&arr, -1), None);
}

#[test]
fn linear_search_finds_values() {
    let arr = [5, 3, 8, 4, 2];
    assert_eq!(linear_search(&arr, 4), Some(3));
    assert_eq!(linear_search(&arr, 5), Some(0));
    assert_eq!(linear_search(&arr, 2), Some(4));
    assert_eq!(linear_search(&arr, 9), None);
}

#[test]
fn linear_search_single_element() {
    assert_eq!(linear_search(&[42], 42), Some(0));
    assert_eq!(linear_search(&[42], 99), None);
}

#[test]
fn linear_search_returns_first_duplicate() {
    assert_eq!(linear_search(&[1, 2, 3, 2, 1], 2), Some(1));
}

#[test]
fn linear_search_empty() {
    let empty: [i32; 0] = [];
    assert_eq!(linear_search(&empty, 5), None);
}
