//! The host path: elementwise addition with zero-padding.
use vstd::prelude::*;
use crate::shape::{CombineError, Shape, mat, is_valid, shape_of, union_shape, matrix_dimensions, reconcile_shape};

verus! {

/// Entry `(i, j)` of `m`, or zero where `i` is past the last row or `j` is
/// past the end of row `i`.
pub open spec fn entry(m: Seq<Seq<i64>>, i: int, j: int) -> i64 {
    if 0 <= i < m.len() && 0 <= j < m[i].len() {
        m[i][j]
    } else {
        0
    }
}

/// The combination of two matrices: over the reconciled shape, the wrapping
/// sum of the zero-padded entries.
pub open spec fn combined(a: Seq<Seq<i64>>, b: Seq<Seq<i64>>) -> Seq<Seq<i64>> {
    let s = union_shape(shape_of(a), shape_of(b));
    Seq::new(s.0, |i: int| Seq::new(s.1, |j: int| entry(a, i, j).wrapping_add(entry(b, i, j))))
}

/// Reads `m[i][j]`, or zero when the position is outside the matrix.
fn padded_get(m: &[Vec<i64>], i: usize, j: usize) -> (r: i64)
    ensures
        r == entry(mat(m@), i as int, j as int),
{
    if i < m.len() && j < m[i].len() {
        m[i][j]
    } else {
        0
    }
}

/// Adds two non-empty matrices elementwise on the host; the result has the
/// reconciled shape, and entries outside an operand's bounds count as zero.
pub fn hp_on_cpu(a: &[Vec<i64>], b: &[Vec<i64>]) -> (c: Vec<Vec<i64>>)
    requires
        a@.len() > 0,
        b@.len() > 0,
    ensures
        mat(c@) == combined(mat(a@), mat(b@)),
{
    let a_shape = Shape { rows: a.len(), cols: a[0].len() };
    let b_shape = Shape { rows: b.len(), cols: b[0].len() };
    let out_shape = reconcile_shape(a_shape, b_shape);
    let ghost target = combined(mat(a@), mat(b@));
    let mut c: Vec<Vec<i64>> = Vec::new();
    let mut i: usize = 0;
    while i < out_shape.rows
        invariant
            0 <= i <= out_shape.rows,
            out_shape.view() == union_shape(shape_of(mat(a@)), shape_of(mat(b@))),
            target == combined(mat(a@), mat(b@)),
            c@.len() == i,
            forall|q: int| 0 <= q < i ==> #[trigger] c@[q]@ == target[q],
        decreases out_shape.rows - i,
    {
        let mut row: Vec<i64> = Vec::new();
        let mut j: usize = 0;
        while j < out_shape.cols
            invariant
                0 <= j <= out_shape.cols,
                i < out_shape.rows,
                out_shape.view() == union_shape(shape_of(mat(a@)), shape_of(mat(b@))),
                target == combined(mat(a@), mat(b@)),
                row@ =~= target[i as int].take(j as int),
            decreases out_shape.cols - j,
        {
            let a_ij = padded_get(a, i, j);
            let b_ij = padded_get(b, i, j);
            row.push(a_ij.wrapping_add(b_ij));
            j += 1;
        }
        assert(row@ =~= target[i as int]);
        c.push(row);
        i += 1;
    }
    assert(mat(c@) =~= target);
    c
}

/// The host path of combine: `InvalidMatrix` when either operand has no rows
/// or an empty first row, and otherwise the zero-padded sum.
pub fn combine_cpu(a: &[Vec<i64>], b: &[Vec<i64>]) -> (r: Result<Vec<Vec<i64>>, CombineError>)
    ensures
        match r {
            Ok(c) => is_valid(mat(a@)) && is_valid(mat(b@)) && mat(c@) == combined(mat(a@), mat(b@)),
            Err(e) => !(is_valid(mat(a@)) && is_valid(mat(b@))) && e == CombineError::InvalidMatrix,
        },
{
    match (matrix_dimensions(a), matrix_dimensions(b)) {
        (Ok(_), Ok(_)) => Ok(hp_on_cpu(a, b)),
        _ => Err(CombineError::InvalidMatrix),
    }
}

} // verus!
