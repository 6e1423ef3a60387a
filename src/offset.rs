//! Computing the flat offset, and the address, of an element of an
//! N-dimensional array.
use vstd::prelude::*;

use crate::shape::{
    column_major_offset, element_count, first_out_of_bounds, has_zero_extent, indices_valid,
    lemma_column_major_bound, lemma_count_drop_last, lemma_count_prefix_le, lemma_count_suffix_le,
    lemma_row_major_bound, lemma_valid_has_no_zero_extent, lemma_valid_subrange, row_major_offset,
};

verus! {

/// Which axis varies fastest in memory.
#[derive(Debug, Clone, Copy, PartialEq, Eq, Structural)]
pub enum Order {
    /// The last (rightmost) axis varies fastest.
    RowMajor,
    /// The first (leftmost) axis varies fastest.
    ColumnMajor,
}

/// Why an index vector addresses no element of an array.
#[derive(Debug, Clone, Copy, PartialEq, Eq, Structural)]
pub enum OffsetError {
    /// The index vector does not have one entry per axis.
    RankMismatch,
    /// Some axis has extent zero, so the array has no element.
    InvalidExtent,
    /// The index on `axis` is not below that axis's extent.
    IndexOutOfBounds { axis: usize, index: usize, extent: usize },
}

/// The offset of the element that `indices` addresses, in the given layout.
pub open spec fn layout_offset(shape: Seq<usize>, indices: Seq<usize>, order: Order) -> int {
    match order {
        Order::RowMajor => row_major_offset(shape, indices),
        Order::ColumnMajor => column_major_offset(shape, indices),
    }
}

/// What `compute_offset` returns: the offset when `indices` is valid, and
/// otherwise the first error in the order rank, extents, bounds.
pub open spec fn offset_outcome(
    shape: Seq<usize>,
    indices: Seq<usize>,
    order: Order,
    r: Result<usize, OffsetError>,
) -> bool {
    match r {
        Ok(offset) => indices_valid(shape, indices) && offset == layout_offset(
            shape,
            indices,
            order,
        ),
        Err(OffsetError::RankMismatch) => indices.len() != shape.len(),
        Err(OffsetError::InvalidExtent) => indices.len() == shape.len() && has_zero_extent(shape),
        Err(OffsetError::IndexOutOfBounds { axis, index, extent }) => {
            &&& indices.len() == shape.len()
            &&& !has_zero_extent(shape)
            &&& first_out_of_bounds(shape, indices, axis as int)
            &&& index == indices[axis as int]
            &&& extent == shape[axis as int]
        },
    }
}

/// Checks that `indices` addresses an element of an array of this shape.
/// (Which error comes out does not depend on the layout.)
fn validate(shape: &[usize], indices: &[usize]) -> (r: Result<(), OffsetError>)
    ensures
        r is Ok <==> indices_valid(shape@, indices@),
        r matches Err(e) ==> offset_outcome(shape@, indices@, Order::RowMajor, Err(e)),
{
    let n = shape.len();
    if indices.len() != n {
        return Err(OffsetError::RankMismatch);
    }
    let mut d: usize = 0;
    while d < n
        invariant
            n == shape.len(),
            n == indices.len(),
            d <= n,
            forall|e: int| 0 <= e < d ==> #[trigger] shape@[e] != 0,
        decreases n - d,
    {
        if shape[d] == 0 {
            assert(shape@[d as int] == 0 && indices@[d as int] >= shape@[d as int]);
            return Err(OffsetError::InvalidExtent);
        }
        d = d + 1;
    }
    let mut d: usize = 0;
    while d < n
        invariant
            n == shape.len(),
            n == indices.len(),
            d <= n,
            !has_zero_extent(shape@),
            forall|e: int| 0 <= e < d ==> #[trigger] indices@[e] < shape@[e],
        decreases n - d,
    {
        if indices[d] >= shape[d] {
            return Err(OffsetError::IndexOutOfBounds { axis: d, index: indices[d], extent: shape[d] });
        }
        d = d + 1;
    }
    Ok(())
}

/// Row-major accumulation: from the last axis to the first, each index is
/// weighted by the product of the extents after it.
fn row_major(shape: &[usize], indices: &[usize]) -> (offset: usize)
    requires
        indices_valid(shape@, indices@),
        element_count(shape@) <= usize::MAX,
    ensures
        offset == row_major_offset(shape@, indices@),
{
    let n = shape.len();
    proof {
        lemma_valid_has_no_zero_extent(shape@, indices@);
    }
    let mut offset: usize = 0;
    let mut multiplier: usize = 1;
    let mut k: usize = n;
    assert(shape@.subrange(n as int, n as int) =~= Seq::<usize>::empty());
    while k > 0
        invariant
            n == shape.len(),
            k <= n,
            indices_valid(shape@, indices@),
            !has_zero_extent(shape@),
            element_count(shape@) <= usize::MAX,
            offset == row_major_offset(
                shape@.subrange(k as int, n as int),
                indices@.subrange(k as int, n as int),
            ),
            multiplier == element_count(shape@.subrange(k as int, n as int)),
        decreases k,
    {
        k = k - 1;
        proof {
            let s = shape@.subrange(k as int, n as int);
            let i = indices@.subrange(k as int, n as int);
            assert(s.drop_first() =~= shape@.subrange(k + 1, n as int));
            assert(i.drop_first() =~= indices@.subrange(k + 1, n as int));
            lemma_valid_subrange(shape@, indices@, k as int, n as int);
            lemma_row_major_bound(s, i);
            lemma_count_suffix_le(shape@, k as int);
            assert(s[0] == shape@[k as int]);
            assert(element_count(s) == shape@[k as int] * multiplier);
            assert(shape@[k as int] * multiplier == multiplier * shape@[k as int]) by (nonlinear_arith);
        }
        offset = offset + indices[k] * multiplier;
        multiplier = multiplier * shape[k];
    }
    assert(shape@.subrange(0, n as int) =~= shape@);
    assert(indices@.subrange(0, n as int) =~= indices@);
    offset
}

/// Column-major accumulation: from the first axis to the last, each index is
/// weighted by the product of the extents before it.
fn column_major(shape: &[usize], indices: &[usize]) -> (offset: usize)
    requires
        indices_valid(shape@, indices@),
        element_count(shape@) <= usize::MAX,
    ensures
        offset == column_major_offset(shape@, indices@),
{
    let n = shape.len();
    proof {
        lemma_valid_has_no_zero_extent(shape@, indices@);
    }
    let mut offset: usize = 0;
    let mut multiplier: usize = 1;
    let mut k: usize = 0;
    assert(shape@.take(0) =~= Seq::<usize>::empty());
    while k < n
        invariant
            n == shape.len(),
            k <= n,
            indices_valid(shape@, indices@),
            !has_zero_extent(shape@),
            element_count(shape@) <= usize::MAX,
            offset == column_major_offset(shape@.take(k as int), indices@.take(k as int)),
            multiplier == element_count(shape@.take(k as int)),
        decreases n - k,
    {
        proof {
            let s = shape@.take(k + 1);
            let i = indices@.take(k + 1);
            assert(s.drop_last() =~= shape@.take(k as int));
            assert(i.drop_last() =~= indices@.take(k as int));
            assert(s =~= shape@.subrange(0, k + 1));
            assert(i =~= indices@.subrange(0, k + 1));
            lemma_valid_subrange(shape@, indices@, 0, k + 1);
            lemma_column_major_bound(s, i);
            lemma_count_drop_last(s);
            lemma_count_prefix_le(shape@, k + 1);
        }
        offset = offset + indices[k] * multiplier;
        multiplier = multiplier * shape[k];
        k = k + 1;
    }
    assert(shape@.take(n as int) =~= shape@);
    assert(indices@.take(n as int) =~= indices@);
    offset
}

/// The flat offset, in elements, of the element of an array of the given shape
/// that `indices` addresses, in the given layout.
///
/// Errors come in this order: `RankMismatch` when there is not one index per
/// axis, `InvalidExtent` when some extent is zero, and `IndexOutOfBounds` for
/// the lowest-numbered axis whose index is not below its extent.
pub fn compute_offset(shape: &[usize], indices: &[usize], order: Order) -> (r: Result<
    usize,
    OffsetError,
>)
    requires
        element_count(shape@) <= usize::MAX,
    ensures
        offset_outcome(shape@, indices@, order, r),
        r is Ok <==> indices_valid(shape@, indices@),
        r matches Ok(offset) ==> offset < element_count(shape@),
        indices@.len() != shape@.len() ==> r == Err::<usize, OffsetError>(
            OffsetError::RankMismatch,
        ),
        indices@.len() == shape@.len() && has_zero_extent(shape@) ==> r == Err::<
            usize,
            OffsetError,
        >(OffsetError::InvalidExtent),
        forall|d: int|
            0 <= d < shape@.len() && indices@.len() == shape@.len() && !has_zero_extent(shape@)
                && #[trigger] indices@[d] >= shape@[d] ==> (r matches Err(
                OffsetError::IndexOutOfBounds { axis, .. },
            ) && axis <= d),
{
    match validate(shape, indices) {
        Err(e) => Err(e),
        Ok(()) => {
            proof {
                lemma_valid_has_no_zero_extent(shape@, indices@);
                lemma_row_major_bound(shape@, indices@);
                lemma_column_major_bound(shape@, indices@);
            }
            match order {
                Order::RowMajor => Ok(row_major(shape, indices)),
                Order::ColumnMajor => Ok(column_major(shape, indices)),
            }
        },
    }
}

/// The address of the element that `indices` addresses, in an array of the
/// given shape and layout that starts at `base` and whose elements take
/// `element_size` bytes: `base + offset * element_size`. The whole array must
/// fit below the top of the address space.
pub fn element_address(
    base: usize,
    shape: &[usize],
    indices: &[usize],
    order: Order,
    element_size: usize,
) -> (r: Result<usize, OffsetError>)
    requires
        element_count(shape@) <= usize::MAX,
        base + element_count(shape@) * element_size <= usize::MAX,
    ensures
        r is Ok <==> indices_valid(shape@, indices@),
        r matches Ok(address) ==> address == base + layout_offset(shape@, indices@, order)
            * element_size,
        r matches Err(e) ==> offset_outcome(shape@, indices@, order, Err(e)),
{
    match compute_offset(shape, indices, order) {
        Err(e) => Err(e),
        Ok(offset) => {
            proof {
                let (o, c, z) = (offset as int, element_count(shape@) as int, element_size as int);
                assert(o * z <= c * z) by (nonlinear_arith)
                    requires
                        0 <= o < c,
                        z >= 0,
                ;
            }
            Ok(base + offset * element_size)
        },
    }
}

} // verus!
