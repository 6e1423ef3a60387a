//! Laws that relate the two layouts, and that make each layout a one-to-one
//! numbering of the elements of an array.
use vstd::arithmetic::div_mod::{lemma_fundamental_div_mod, lemma_mod_pos_bound};
use vstd::prelude::*;

use crate::offset::{layout_offset, offset_outcome, Order, OffsetError};
use crate::shape::{
    column_major_offset, element_count, has_zero_extent, indices_valid, lemma_column_major_bound,
    lemma_count_drop_last, lemma_row_major_bound, row_major_offset,
};

verus! {

proof fn lemma_reverse_len_index<A>(s: Seq<A>)
    ensures
        s.reverse().len() == s.len(),
        forall|i: int| 0 <= i < s.len() ==> #[trigger] s.reverse()[i] == s[s.len() - 1 - i],
{
}

/// Reversing twice gives the sequence back.
proof fn lemma_reverse_reverse<A>(s: Seq<A>)
    ensures
        s.reverse().reverse() == s,
{
    lemma_reverse_len_index(s);
    lemma_reverse_len_index(s.reverse());
    assert(s.reverse().reverse() =~= s);
}

/// Dropping the first of the reversed sequence reverses the sequence without its last.
proof fn lemma_reverse_drop_first<A>(s: Seq<A>)
    requires
        s.len() > 0,
    ensures
        s.reverse().drop_first() == s.drop_last().reverse(),
        s.reverse()[0] == s.last(),
{
    lemma_reverse_len_index(s);
    lemma_reverse_len_index(s.drop_last());
    assert(s.reverse().drop_first() =~= s.drop_last().reverse());
}

/// Reversing the extents keeps the number of elements.
proof fn lemma_count_reverse(shape: Seq<usize>)
    ensures
        element_count(shape.reverse()) == element_count(shape),
    decreases shape.len(),
{
    if shape.len() > 0 {
        lemma_reverse_len_index(shape);
        lemma_reverse_drop_first(shape);
        lemma_count_reverse(shape.drop_last());
        lemma_count_drop_last(shape);
        let a = shape.last() as int;
        let b = element_count(shape.drop_last()) as int;
        assert(a * b == b * a) by (nonlinear_arith);
    } else {
        assert(shape.reverse() =~= shape);
    }
}

/// Validity does not depend on which way round the axes are listed.
proof fn lemma_valid_reverse(shape: Seq<usize>, indices: Seq<usize>)
    ensures
        indices_valid(shape, indices) <==> indices_valid(shape.reverse(), indices.reverse()),
{
    lemma_reverse_len_index(shape);
    lemma_reverse_len_index(indices);
    let (rs, ri) = (shape.reverse(), indices.reverse());
    let n = shape.len() as int;
    if indices_valid(shape, indices) {
        assert forall|d: int| 0 <= d < n implies #[trigger] ri[d] < rs[d] by {
            assert(indices[n - 1 - d] < shape[n - 1 - d]);
        }
    }
    if indices_valid(rs, ri) {
        assert forall|d: int| 0 <= d < n implies #[trigger] indices[d] < shape[d] by {
            assert(ri[n - 1 - d] < rs[n - 1 - d]);
        }
    }
}

/// A zero extent stays a zero extent when the axes are reversed.
proof fn lemma_zero_extent_reverse(shape: Seq<usize>)
    ensures
        has_zero_extent(shape) <==> has_zero_extent(shape.reverse()),
{
    lemma_reverse_len_index(shape);
    let rs = shape.reverse();
    let n = shape.len() as int;
    if has_zero_extent(shape) {
        let d = choose|d: int| 0 <= d < n && #[trigger] shape[d] == 0;
        assert(rs[n - 1 - d] == 0);
    }
    if has_zero_extent(rs) {
        let d = choose|d: int| 0 <= d < n && #[trigger] rs[d] == 0;
        assert(shape[n - 1 - d] == 0);
    }
}

proof fn lemma_column_is_reversed_row(shape: Seq<usize>, indices: Seq<usize>)
    requires
        indices.len() == shape.len(),
    ensures
        column_major_offset(shape, indices) == row_major_offset(shape.reverse(), indices.reverse()),
    decreases shape.len(),
{
    lemma_reverse_len_index(shape);
    lemma_reverse_len_index(indices);
    if shape.len() > 0 {
        lemma_reverse_drop_first(shape);
        lemma_reverse_drop_first(indices);
        lemma_column_is_reversed_row(shape.drop_last(), indices.drop_last());
        lemma_count_reverse(shape.drop_last());
    }
}

/// Column-major order over `(shape, indices)` is row-major order over the
/// reversed shape and the reversed indices: the same offsets, on the same
/// valid inputs, and the same rank and extent errors.
pub proof fn law_row_column_symmetry(shape: Seq<usize>, indices: Seq<usize>)
    ensures
        indices.len() == shape.len() ==> column_major_offset(shape, indices) == row_major_offset(
            shape.reverse(),
            indices.reverse(),
        ),
        indices_valid(shape, indices) <==> indices_valid(shape.reverse(), indices.reverse()),
        element_count(shape.reverse()) == element_count(shape),
        forall|offset: usize|
            #[trigger] offset_outcome(shape, indices, Order::ColumnMajor, Ok(offset))
                <==> offset_outcome(shape.reverse(), indices.reverse(), Order::RowMajor, Ok(offset)),
        offset_outcome(shape, indices, Order::ColumnMajor, Err(OffsetError::RankMismatch))
            <==> offset_outcome(
            shape.reverse(),
            indices.reverse(),
            Order::RowMajor,
            Err(OffsetError::RankMismatch),
        ),
        offset_outcome(shape, indices, Order::ColumnMajor, Err(OffsetError::InvalidExtent))
            <==> offset_outcome(
            shape.reverse(),
            indices.reverse(),
            Order::RowMajor,
            Err(OffsetError::InvalidExtent),
        ),
{
    lemma_reverse_len_index(shape);
    lemma_reverse_len_index(indices);
    lemma_valid_reverse(shape, indices);
    lemma_zero_extent_reverse(shape);
    lemma_count_reverse(shape);
    if indices.len() == shape.len() {
        lemma_column_is_reversed_row(shape, indices);
    }
}

/// The row-major index vector of the element at offset `k`: each index is the
/// quotient by the number of elements that the later axes span.
pub open spec fn row_major_indices_of(shape: Seq<usize>, k: int) -> Seq<usize>
    decreases shape.len(),
{
    if shape.len() == 0 {
        Seq::empty()
    } else {
        let m = element_count(shape.drop_first()) as int;
        seq![(k / m) as usize] + row_major_indices_of(shape.drop_first(), k % m)
    }
}

proof fn lemma_row_major_indices_of(shape: Seq<usize>, k: int)
    requires
        0 <= k < element_count(shape),
    ensures
        indices_valid(shape, row_major_indices_of(shape, k)),
        row_major_offset(shape, row_major_indices_of(shape, k)) == k,
    decreases shape.len(),
{
    if shape.len() > 0 {
        let rest = shape.drop_first();
        let m = element_count(rest) as int;
        let s0 = shape[0] as int;
        assert(element_count(shape) == s0 * m);
        assert(0 <= k < s0 * m && s0 >= 0 && m >= 0 ==> m > 0) by (nonlinear_arith);
        let q = k / m;
        let r = k % m;
        lemma_fundamental_div_mod(k, m);
        lemma_mod_pos_bound(k, m);
        assert(0 <= q < s0) by (nonlinear_arith)
            requires
                k == m * q + r,
                0 <= r < m,
                0 <= k < s0 * m,
        ;
        lemma_row_major_indices_of(rest, r);
        let i = row_major_indices_of(shape, k);
        let ir = row_major_indices_of(rest, r);
        assert(i.drop_first() =~= ir);
        assert(i[0] == q);
        assert forall|d: int| 0 <= d < shape.len() implies #[trigger] i[d] < shape[d] by {
            if d > 0 {
                assert(ir[d - 1] < rest[d - 1]);
            }
        }
        assert(q * m == m * q) by (nonlinear_arith);
    }
}

proof fn lemma_row_major_injective(shape: Seq<usize>, a: Seq<usize>, b: Seq<usize>)
    requires
        indices_valid(shape, a),
        indices_valid(shape, b),
        row_major_offset(shape, a) == row_major_offset(shape, b),
    ensures
        a == b,
    decreases shape.len(),
{
    if shape.len() == 0 {
        assert(a =~= b);
    } else {
        let rest = shape.drop_first();
        let (ra, rb) = (a.drop_first(), b.drop_first());
        assert forall|d: int| 0 <= d < rest.len() implies #[trigger] ra[d] < rest[d] by {
            assert(a[d + 1] < shape[d + 1]);
        }
        assert forall|d: int| 0 <= d < rest.len() implies #[trigger] rb[d] < rest[d] by {
            assert(b[d + 1] < shape[d + 1]);
        }
        lemma_row_major_bound(rest, ra);
        lemma_row_major_bound(rest, rb);
        let m = element_count(rest) as int;
        let (x, y) = (a[0] as int, b[0] as int);
        let (u, v) = (row_major_offset(rest, ra), row_major_offset(rest, rb));
        assert(x == y) by (nonlinear_arith)
            requires
                x * m + u == y * m + v,
                0 <= u < m,
                0 <= v < m,
                x >= 0,
                y >= 0,
        ;
        lemma_row_major_injective(rest, ra, rb);
        assert(a =~= seq![a[0]] + ra);
        assert(b =~= seq![b[0]] + rb);
    }
}

/// Some valid index vector has offset `k` in the given layout.
pub open spec fn offset_is_reached(shape: Seq<usize>, order: Order, k: int) -> bool {
    exists|i: Seq<usize>| indices_valid(shape, i) && #[trigger] layout_offset(shape, i, order) == k
}

/// For a fixed shape and layout, offsets number the elements one to one:
/// every valid index vector lands in `[0, element_count(shape))`, two valid
/// index vectors with the same offset are equal, and every offset in that
/// range is the offset of some valid index vector.
pub proof fn law_offset_bijection(shape: Seq<usize>, order: Order)
    ensures
        forall|i: Seq<usize>|
            indices_valid(shape, i) ==> 0 <= #[trigger] layout_offset(shape, i, order)
                < element_count(shape),
        forall|a: Seq<usize>, b: Seq<usize>|
            indices_valid(shape, a) && indices_valid(shape, b) && #[trigger] layout_offset(
                shape,
                a,
                order,
            ) == #[trigger] layout_offset(shape, b, order) ==> a == b,
        forall|k: int| 0 <= k < element_count(shape) ==> #[trigger] offset_is_reached(shape, order, k),
{
    assert forall|i: Seq<usize>| indices_valid(shape, i) implies 0 <= #[trigger] layout_offset(
        shape,
        i,
        order,
    ) < element_count(shape) by {
        lemma_row_major_bound(shape, i);
        lemma_column_major_bound(shape, i);
    }
    let rs = shape.reverse();
    assert forall|a: Seq<usize>, b: Seq<usize>|
        indices_valid(shape, a) && indices_valid(shape, b) && #[trigger] layout_offset(
            shape,
            a,
            order,
        ) == #[trigger] layout_offset(shape, b, order) implies a == b by {
        match order {
            Order::RowMajor => lemma_row_major_injective(shape, a, b),
            Order::ColumnMajor => {
                law_row_column_symmetry(shape, a);
                law_row_column_symmetry(shape, b);
                lemma_row_major_injective(rs, a.reverse(), b.reverse());
                lemma_reverse_reverse(a);
                lemma_reverse_reverse(b);
            },
        }
    }
    assert forall|k: int| 0 <= k < element_count(shape) implies #[trigger] offset_is_reached(
        shape,
        order,
        k,
    ) by {
        match order {
            Order::RowMajor => {
                lemma_row_major_indices_of(shape, k);
                let i = row_major_indices_of(shape, k);
                assert(layout_offset(shape, i, order) == k);
            },
            Order::ColumnMajor => {
                lemma_count_reverse(shape);
                lemma_row_major_indices_of(rs, k);
                let j = row_major_indices_of(rs, k);
                let i = j.reverse();
                lemma_reverse_reverse(j);
                lemma_reverse_reverse(shape);
                law_row_column_symmetry(shape, i);
                assert(layout_offset(shape, i, order) == k);
            },
        }
    }
}

} // verus!
