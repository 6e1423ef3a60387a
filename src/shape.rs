//! The mathematical model of a shape (the extent of each axis) and of the
//! offset that an index vector addresses in each layout.
use vstd::prelude::*;

verus! {

/// Number of elements of an array of the given shape: the product of its extents.
/// The empty shape (a scalar) holds one element.
pub open spec fn element_count(shape: Seq<usize>) -> nat
    decreases shape.len(),
{
    if shape.len() == 0 {
        1
    } else {
        shape[0] as nat * element_count(shape.drop_first())
    }
}

/// Some axis has extent zero.
pub open spec fn has_zero_extent(shape: Seq<usize>) -> bool {
    exists|d: int| 0 <= d < shape.len() && #[trigger] shape[d] == 0
}

/// `indices` addresses an element of an array of the given shape:
/// one index per axis, each below the axis's extent.
pub open spec fn indices_valid(shape: Seq<usize>, indices: Seq<usize>) -> bool {
    &&& indices.len() == shape.len()
    &&& forall|d: int| 0 <= d < shape.len() ==> #[trigger] indices[d] < shape[d]
}

/// `axis` is the lowest-numbered axis whose index is not below its extent.
pub open spec fn first_out_of_bounds(shape: Seq<usize>, indices: Seq<usize>, axis: int) -> bool {
    &&& 0 <= axis < shape.len()
    &&& axis < indices.len()
    &&& indices[axis] >= shape[axis]
    &&& forall|d: int| 0 <= d < axis ==> #[trigger] indices[d] < shape[d]
}

/// Row-major offset (last axis fastest):
/// the sum over `d` of `indices[d]` times the product of the extents after `d`.
pub open spec fn row_major_offset(shape: Seq<usize>, indices: Seq<usize>) -> int
    decreases shape.len(),
{
    if shape.len() == 0 || indices.len() == 0 {
        0
    } else {
        indices[0] * element_count(shape.drop_first()) + row_major_offset(
            shape.drop_first(),
            indices.drop_first(),
        )
    }
}

/// Column-major offset (first axis fastest):
/// the sum over `d` of `indices[d]` times the product of the extents before `d`.
pub open spec fn column_major_offset(shape: Seq<usize>, indices: Seq<usize>) -> int
    decreases shape.len(),
{
    if shape.len() == 0 || indices.len() == 0 {
        0
    } else {
        column_major_offset(shape.drop_last(), indices.drop_last()) + indices.last()
            * element_count(shape.drop_last())
    }
}

/// A valid index vector leaves no axis of extent zero.
pub proof fn lemma_valid_has_no_zero_extent(shape: Seq<usize>, indices: Seq<usize>)
    requires
        indices_valid(shape, indices),
    ensures
        !has_zero_extent(shape),
{
    assert forall|d: int| 0 <= d < shape.len() implies #[trigger] shape[d] != 0 by {
        assert(indices[d] < shape[d]);
    }
}

/// The axes `a..b` of a valid index vector are valid for the axes `a..b` of the shape.
pub proof fn lemma_valid_subrange(shape: Seq<usize>, indices: Seq<usize>, a: int, b: int)
    requires
        indices_valid(shape, indices),
        0 <= a <= b <= shape.len(),
    ensures
        indices_valid(shape.subrange(a, b), indices.subrange(a, b)),
{
    let (s, i) = (shape.subrange(a, b), indices.subrange(a, b));
    assert forall|d: int| 0 <= d < s.len() implies #[trigger] i[d] < s[d] by {
        assert(indices[a + d] < shape[a + d]);
    }
}

/// Peeling the last extent off: the count is the count of the other axes times it.
pub proof fn lemma_count_drop_last(shape: Seq<usize>)
    requires
        shape.len() > 0,
    ensures
        element_count(shape) == element_count(shape.drop_last()) * shape.last(),
    decreases shape.len(),
{
    if shape.len() > 1 {
        let rest = shape.drop_first();
        lemma_count_drop_last(rest);
        assert(rest.drop_last() =~= shape.drop_last().drop_first());
        let a = shape[0] as int;
        let b = element_count(rest.drop_last()) as int;
        let c = shape.last() as int;
        assert(element_count(shape.drop_last()) == a * b);
        assert(element_count(rest) == b * c);
        assert(element_count(shape) == a * (b * c));
        assert(a * (b * c) == (a * b) * c) by (nonlinear_arith);
    } else {
        assert(shape.drop_last() =~= Seq::<usize>::empty());
        assert(shape.drop_first() =~= Seq::<usize>::empty());
        assert(element_count(shape.drop_first()) == 1);
        assert(element_count(shape.drop_last()) == 1);
        assert(element_count(shape) == shape[0] as int * 1);
    }
}

/// Without a zero extent the array holds at least one element.
pub proof fn lemma_count_positive(shape: Seq<usize>)
    requires
        !has_zero_extent(shape),
    ensures
        element_count(shape) >= 1,
    decreases shape.len(),
{
    if shape.len() > 0 {
        let rest = shape.drop_first();
        assert forall|d: int| 0 <= d < rest.len() implies #[trigger] rest[d] != 0 by {
            assert(shape[d + 1] != 0);
        }
        lemma_count_positive(rest);
        assert(shape[0] != 0);
        let a = shape[0] as int;
        let b = element_count(rest) as int;
        assert(a >= 1 && b >= 1 ==> a * b >= 1) by (nonlinear_arith);
    }
}

/// The extents from axis `k` on count no more elements than the whole shape.
pub proof fn lemma_count_suffix_le(shape: Seq<usize>, k: int)
    requires
        !has_zero_extent(shape),
        0 <= k <= shape.len(),
    ensures
        element_count(shape.subrange(k, shape.len() as int)) <= element_count(shape),
    decreases k,
{
    if k == 0 {
        assert(shape.subrange(0, shape.len() as int) =~= shape);
    } else {
        let rest = shape.drop_first();
        assert forall|d: int| 0 <= d < rest.len() implies #[trigger] rest[d] != 0 by {
            assert(shape[d + 1] != 0);
        }
        lemma_count_suffix_le(rest, k - 1);
        assert(rest.subrange(k - 1, rest.len() as int) =~= shape.subrange(k, shape.len() as int));
        lemma_count_positive(rest);
        assert(shape[0] != 0);
        let a = shape[0] as int;
        let b = element_count(rest) as int;
        assert(a >= 1 && b >= 0 ==> a * b >= b) by (nonlinear_arith);
    }
}

/// The extents before axis `k` count no more elements than the whole shape.
pub proof fn lemma_count_prefix_le(shape: Seq<usize>, k: int)
    requires
        !has_zero_extent(shape),
        0 <= k <= shape.len(),
    ensures
        element_count(shape.take(k)) <= element_count(shape),
    decreases shape.len() - k,
{
    if k == shape.len() {
        assert(shape.take(k) =~= shape);
    } else {
        let init = shape.drop_last();
        assert forall|d: int| 0 <= d < init.len() implies #[trigger] init[d] != 0 by {
            assert(shape[d] != 0);
        }
        lemma_count_prefix_le(init, k);
        assert(init.take(k) =~= shape.take(k));
        lemma_count_drop_last(shape);
        lemma_count_positive(init);
        assert(shape[shape.len() - 1] != 0);
        let a = shape.last() as int;
        let b = element_count(init) as int;
        assert(a >= 1 && b >= 0 ==> b * a >= b) by (nonlinear_arith);
    }
}

/// A valid index vector addresses an offset inside the array, in row-major order.
pub proof fn lemma_row_major_bound(shape: Seq<usize>, indices: Seq<usize>)
    requires
        indices_valid(shape, indices),
    ensures
        0 <= row_major_offset(shape, indices) < element_count(shape),
    decreases shape.len(),
{
    if shape.len() > 0 {
        let (rs, ri) = (shape.drop_first(), indices.drop_first());
        assert forall|d: int| 0 <= d < rs.len() implies #[trigger] ri[d] < rs[d] by {
            assert(indices[d + 1] < shape[d + 1]);
        }
        lemma_row_major_bound(rs, ri);
        assert(indices[0] < shape[0]);
        let i = indices[0] as int;
        let s = shape[0] as int;
        let m = element_count(rs) as int;
        let r = row_major_offset(rs, ri);
        assert(0 <= i < s && 0 <= r < m ==> 0 <= i * m + r < s * m) by (nonlinear_arith);
    }
}

/// A valid index vector addresses an offset inside the array, in column-major order.
pub proof fn lemma_column_major_bound(shape: Seq<usize>, indices: Seq<usize>)
    requires
        indices_valid(shape, indices),
    ensures
        0 <= column_major_offset(shape, indices) < element_count(shape),
    decreases shape.len(),
{
    if shape.len() > 0 {
        let (hs, hi) = (shape.drop_last(), indices.drop_last());
        assert forall|d: int| 0 <= d < hs.len() implies #[trigger] hi[d] < hs[d] by {
            assert(indices[d] < shape[d]);
        }
        lemma_column_major_bound(hs, hi);
        lemma_count_drop_last(shape);
        assert(indices[shape.len() - 1] < shape[shape.len() - 1]);
        let i = indices.last() as int;
        let s = shape.last() as int;
        let m = element_count(hs) as int;
        let r = column_major_offset(hs, hi);
        assert(0 <= i < s && 0 <= r < m ==> 0 <= r + i * m < m * s) by (nonlinear_arith);
    }
}

} // verus!
