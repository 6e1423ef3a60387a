use array_address::{compute_offset, element_address, OffsetError, Order};

const ORDERS: [Order; 2] = [Order::RowMajor, Order::ColumnMajor];

fn reversed(v: &[usize]) -> Vec<usize> {
    v.iter().rev().copied().collect()
}

#[test]
fn rank_mismatch_on_shorter_or_longer_indices() {
    for order in ORDERS {
        assert_eq!(compute_offset(&[3, 4], &[1], order), Err(OffsetError::RankMismatch));
        assert_eq!(compute_offset(&[3, 4], &[1, 2, 0], order), Err(OffsetError::RankMismatch));
        assert_eq!(compute_offset(&[], &[0], order), Err(OffsetError::RankMismatch));
        assert_eq!(compute_offset(&[0, 4], &[], order), Err(OffsetError::RankMismatch));
    }
}

#[test]
fn out_of_bounds_reports_the_axis() {
    for order in ORDERS {
        assert_eq!(
            compute_offset(&[3, 4], &[1, 4], order),
            Err(OffsetError::IndexOutOfBounds { axis: 1, index: 4, extent: 4 })
        );
        assert_eq!(
            compute_offset(&[3, 4], &[3, 0], order),
            Err(OffsetError::IndexOutOfBounds { axis: 0, index: 3, extent: 3 })
        );
    }
}

#[test]
fn out_of_bounds_reports_the_lowest_axis() {
    for order in ORDERS {
        assert_eq!(
            compute_offset(&[2, 3, 4], &[1, 7, 9], order),
            Err(OffsetError::IndexOutOfBounds { axis: 1, index: 7, extent: 3 })
        );
        assert_eq!(
            compute_offset(&[2, 3, 4], &[5, 7, 9], order),
            Err(OffsetError::IndexOutOfBounds { axis: 0, index: 5, extent: 2 })
        );
    }
}

#[test]
fn column_major_is_row_major_over_reversed_axes() {
    let shape = [2, 3, 4, 2];
    for a in 0..2 {
        for b in 0..3 {
            for c in 0..4 {
                for d in 0..2 {
                    let indices = [a, b, c, d];
                    let col = compute_offset(&shape, &indices, Order::ColumnMajor);
                    let row = compute_offset(&reversed(&shape), &reversed(&indices), Order::RowMajor);
                    assert_eq!(col, row);
                    assert!(col.is_ok());
                }
            }
        }
    }
    assert_eq!(compute_offset(&[3, 4], &[1, 2], Order::ColumnMajor), Ok(7));
    assert_eq!(compute_offset(&[4, 3], &[2, 1], Order::RowMajor), Ok(7));
}

#[test]
fn offsets_number_every_element_once() {
    let shape = [3, 4, 2];
    for order in ORDERS {
        let mut seen = vec![false; 24];
        for a in 0..3 {
            for b in 0..4 {
                for c in 0..2 {
                    let offset = compute_offset(&shape, &[a, b, c], order).unwrap();
                    assert!(offset < 24);
                    assert!(!seen[offset]);
                    seen[offset] = true;
                }
            }
        }
        assert!(seen.iter().all(|&s| s));
    }
}

#[test]
fn bijection_examples_two_by_three_row_major() {
    assert_eq!(compute_offset(&[3, 4], &[0, 0], Order::RowMajor), Ok(0));
    assert_eq!(compute_offset(&[3, 4], &[2, 3], Order::RowMajor), Ok(11));
    assert_eq!(compute_offset(&[3, 4], &[1, 2], Order::RowMajor), Ok(6));
}

#[test]
fn scalar_shape_has_offset_zero() {
    for order in ORDERS {
        assert_eq!(compute_offset(&[], &[], order), Ok(0));
    }
}

#[test]
fn two_dimensional_row_major() {
    assert_eq!(compute_offset(&[3, 4], &[1, 2], Order::RowMajor), Ok(6));
}

#[test]
fn two_dimensional_column_major() {
    // j * rows + i with rows = 3
    assert_eq!(compute_offset(&[3, 4], &[1, 2], Order::ColumnMajor), Ok(2 * 3 + 1));
}

#[test]
fn three_dimensional_row_major() {
    assert_eq!(compute_offset(&[2, 3, 4], &[1, 2, 3], Order::RowMajor), Ok(1 * 12 + 2 * 4 + 3));
    assert_eq!(compute_offset(&[2, 3, 4], &[1, 2, 3], Order::RowMajor), Ok(23));
}

#[test]
fn three_dimensional_column_major() {
    // k * rows * cols + j * rows + i
    assert_eq!(compute_offset(&[2, 3, 4], &[1, 2, 3], Order::ColumnMajor), Ok(3 * 6 + 2 * 2 + 1));
}

#[test]
fn four_dimensional_row_major() {
    // i * (3 * 4 * 2) + j * (4 * 2) + k * 2 + l
    assert_eq!(
        compute_offset(&[2, 3, 4, 2], &[1, 2, 3, 1], Order::RowMajor),
        Ok(1 * 24 + 2 * 8 + 3 * 2 + 1)
    );
    assert_eq!(compute_offset(&[2, 3, 4, 2], &[1, 2, 3, 1], Order::RowMajor), Ok(47));
}

#[test]
fn four_dimensional_column_major() {
    // l * 24 + k * 6 + j * 2 + i
    assert_eq!(
        compute_offset(&[2, 3, 4, 2], &[1, 2, 3, 1], Order::ColumnMajor),
        Ok(1 * 24 + 3 * 6 + 2 * 2 + 1)
    );
}

#[test]
fn zero_extent_is_rejected_whatever_the_indices() {
    for order in ORDERS {
        assert_eq!(compute_offset(&[0], &[0], order), Err(OffsetError::InvalidExtent));
        assert_eq!(compute_offset(&[3, 0, 4], &[1, 0, 2], order), Err(OffsetError::InvalidExtent));
        assert_eq!(compute_offset(&[3, 0, 4], &[9, 9, 9], order), Err(OffsetError::InvalidExtent));
        assert_eq!(compute_offset(&[3, 4, 0], &[5, 0, 0], order), Err(OffsetError::InvalidExtent));
    }
}

#[test]
fn one_dimensional_offset_is_the_index() {
    for order in ORDERS {
        assert_eq!(compute_offset(&[10], &[3], order), Ok(3));
        assert_eq!(compute_offset(&[10], &[9], order), Ok(9));
    }
}

#[test]
fn last_element_of_a_large_shape() {
    let big = 1usize << 20;
    for order in ORDERS {
        assert_eq!(
            compute_offset(&[big, big], &[big - 1, big - 1], order),
            Ok(big * big - 1)
        );
    }
}

#[test]
fn element_address_scales_by_element_size() {
    assert_eq!(element_address(1000, &[3, 4], &[1, 2], Order::RowMajor, 4), Ok(1000 + 6 * 4));
    assert_eq!(element_address(1000, &[3, 4], &[1, 2], Order::ColumnMajor, 8), Ok(1000 + 7 * 8));
    assert_eq!(element_address(1000, &[], &[], Order::RowMajor, 4), Ok(1000));
    assert_eq!(element_address(64, &[3, 4], &[2, 3], Order::RowMajor, 0), Ok(64));
}

#[test]
fn element_address_passes_errors_on() {
    assert_eq!(
        element_address(1000, &[3, 4], &[1], Order::RowMajor, 4),
        Err(OffsetError::RankMismatch)
    );
    assert_eq!(
        element_address(1000, &[3, 0], &[1, 0], Order::RowMajor, 4),
        Err(OffsetError::InvalidExtent)
    );
    assert_eq!(
        element_address(1000, &[3, 4], &[1, 4], Order::ColumnMajor, 4),
        Err(OffsetError::IndexOutOfBounds { axis: 1, index: 4, extent: 4 })
    );
}
