//! Properties that hold across the operations of the library.
use vstd::prelude::*;
use crate::shape::{is_rectangular, row_count, col_count};
use crate::layout::{chunks, lemma_flatten_rectangular};
use crate::cpu::{entry, combined};

verus! {

/// The result of combining has as many rows as the taller operand, and every
/// row has as many entries as the wider operand's first row.
pub proof fn law_combined_shape(a: Seq<Seq<i64>>, b: Seq<Seq<i64>>)
    ensures
        combined(a, b).len() == if row_count(a) >= row_count(b) { row_count(a) } else { row_count(b) },
        forall|i: int|
            0 <= i < combined(a, b).len() ==> #[trigger] combined(a, b)[i].len() == if col_count(a)
                >= col_count(b) {
                col_count(a)
            } else {
                col_count(b)
            },
{
}

/// Combining a 2x2 matrix with a 1x1 matrix leaves the second row and the
/// second column of the 2x2 matrix as they are: the smaller one counts as zero
/// there.
pub proof fn law_zero_padding(a: Seq<Seq<i64>>, b: Seq<Seq<i64>>)
    requires
        a.len() == 2,
        a[0].len() == 2,
        a[1].len() == 2,
        b.len() == 1,
        b[0].len() == 1,
    ensures
        forall|j: int| 0 <= j < 2 ==> #[trigger] combined(a, b)[1][j] == a[1][j],
        forall|i: int| 0 <= i < 2 ==> #[trigger] combined(a, b)[i][1] == a[i][1],
{
    assert forall|i: int, j: int| 0 <= i < 2 && 0 <= j < 2 && (i == 1 || j == 1) implies #[trigger] combined(
        a,
        b,
    )[i][j] == a[i][j] by {
        assert(entry(b, i, j) == 0);
        assert(entry(a, i, j) == a[i][j]);
    }
}

/// Cutting the flattening of a rectangular matrix into rows of its column
/// count gives the matrix back.
pub proof fn law_reshape_flatten_round_trip(m: Seq<Seq<i64>>)
    requires
        is_rectangular(m),
        col_count(m) > 0,
    ensures
        chunks(m.flatten(), col_count(m)) == m,
{
    let c = col_count(m);
    let r = row_count(m);
    lemma_flatten_rectangular(m, c);
    let v = m.flatten();
    let ch = chunks(v, c);
    assert((r * c + c - 1) / c as int == r) by (nonlinear_arith)
        requires
            c > 0,
    ;
    assert forall|i: int| 0 <= i < r implies #[trigger] ch[i] == m[i] by {
        assert(i * c + c <= r * c) by (nonlinear_arith)
            requires
                0 <= i < r,
        ;
        assert(m[i].len() == c);
        assert forall|j: int| 0 <= j < c implies #[trigger] ch[i][j] == m[i][j] by {
            assert(ch[i][j] == v[i * c + j]);
        }
        assert(ch[i] =~= m[i]);
    }
    assert(ch =~= m);
}

/// Combining is commutative.
pub proof fn law_combine_commutative(a: Seq<Seq<i64>>, b: Seq<Seq<i64>>)
    ensures
        combined(a, b) == combined(b, a),
{
    let x = combined(a, b);
    let y = combined(b, a);
    assert forall|i: int| 0 <= i < x.len() implies #[trigger] x[i] == y[i] by {
        assert forall|j: int| 0 <= j < x[i].len() implies #[trigger] x[i][j] == y[i][j] by {
            let p = entry(a, i, j);
            let q = entry(b, i, j);
            assert(p.wrapping_add(q) == q.wrapping_add(p));
        }
        assert(x[i] =~= y[i]);
    }
    assert(x =~= y);
}

} // verus!
