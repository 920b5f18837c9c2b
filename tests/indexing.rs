use aerolattice::indexing::{checked_entry, checked_get, checked_set, is_square, IndexError};

#[test]
fn checked_get_in_and_out_of_range() {
    let v = vec![1.5f64, -2.0, 3.25];
    assert_eq!(checked_get(&v, 2), Ok(3.25));
    assert_eq!(checked_get(&v, 3), Err(IndexError::OutOfBounds { index: 3, len: 3 }));
    let empty: Vec<f64> = vec![];
    assert_eq!(checked_get(&empty, 0), Err(IndexError::OutOfBounds { index: 0, len: 0 }));
}

#[test]
fn checked_set_replaces_or_leaves_unchanged() {
    let mut v = vec![1.0f64, 2.0, 3.0];
    assert_eq!(checked_set(&mut v, 1, 9.0), Ok(()));
    assert_eq!(v, vec![1.0, 9.0, 3.0]);
    assert_eq!(checked_set(&mut v, 5, 7.0), Err(IndexError::OutOfBounds { index: 5, len: 3 }));
    assert_eq!(v, vec![1.0, 9.0, 3.0]);
}

#[test]
fn is_square_detects_ragged_and_rectangular_grids() {
    assert!(is_square(&vec![vec![1, 2], vec![3, 4]]));
    assert!(is_square::<i32>(&vec![]));
    assert!(!is_square(&vec![vec![1, 2], vec![3]]));
    assert!(!is_square(&vec![vec![1, 2, 3], vec![4, 5, 6]]));
}

#[test]
fn checked_entry_reports_the_bad_index() {
    let m = vec![vec![1, 2], vec![3, 4]];
    assert_eq!(checked_entry(&m, 1, 0), Ok(3));
    assert_eq!(checked_entry(&m, 2, 0), Err(IndexError::OutOfBounds { index: 2, len: 2 }));
    assert_eq!(checked_entry(&m, 0, 5), Err(IndexError::OutOfBounds { index: 5, len: 2 }));
}
