//! Shapes of matrices, their reconciliation, and the error taxonomy.
use vstd::prelude::*;

verus! {

/// The number of rows and columns of a matrix.
#[derive(Clone, Copy, Debug, PartialEq, Eq, Structural)]
pub struct Shape {
    pub rows: usize,
    pub cols: usize,
}

/// Failures surfaced by the combine operations.
#[derive(Clone, Copy, Debug, PartialEq, Eq, Structural)]
pub enum CombineError {
    /// A matrix has no rows or an empty first row, or is ragged where
    /// rectangularity is required.
    InvalidMatrix,
    /// A device buffer could not be allocated.
    DeviceAllocationError,
    /// The tile grid exceeds the device's group-count limit.
    LaunchGeometryExceeded,
    /// An upload or download did not transfer the expected bytes.
    DeviceTransferError,
}

/// The mathematical value of a matrix held as a sequence of row vectors.
pub open spec fn mat(m: Seq<Vec<i64>>) -> Seq<Seq<i64>> {
    m.map_values(|row: Vec<i64>| row@)
}

/// Row count of a matrix.
pub open spec fn row_count(m: Seq<Seq<i64>>) -> nat {
    m.len()
}

/// Column count of a matrix: the length of its first row.
pub open spec fn col_count(m: Seq<Seq<i64>>) -> nat {
    if m.len() > 0 {
        m[0].len()
    } else {
        0
    }
}

/// A matrix that combine accepts: at least one row, and a non-empty first row.
pub open spec fn is_valid(m: Seq<Seq<i64>>) -> bool {
    row_count(m) > 0 && col_count(m) > 0
}

/// Every row has the length of the first row.
pub open spec fn is_rectangular(m: Seq<Seq<i64>>) -> bool {
    forall|i: int| 0 <= i < m.len() ==> #[trigger] m[i].len() == col_count(m)
}

/// The shape of a matrix as the combine logic sees it.
pub open spec fn shape_of(m: Seq<Seq<i64>>) -> (nat, nat) {
    (row_count(m), col_count(m))
}

/// The reconciled shape: the per-axis maximum.
pub open spec fn union_shape(a: (nat, nat), b: (nat, nat)) -> (nat, nat) {
    (
        if a.0 >= b.0 { a.0 } else { b.0 },
        if a.1 >= b.1 { a.1 } else { b.1 },
    )
}

impl Shape {
    pub open spec fn view(self) -> (nat, nat) {
        (self.rows as nat, self.cols as nat)
    }

    /// Number of cells.
    pub open spec fn cells(self) -> nat {
        (self.rows * self.cols) as nat
    }
}

/// Shape of a matrix, or `InvalidMatrix` when it has no rows or an empty first row.
pub fn matrix_dimensions(matrix: &[Vec<i64>]) -> (r: Result<Shape, CombineError>)
    ensures
        match r {
            Ok(s) => is_valid(mat(matrix@)) && s.view() == shape_of(mat(matrix@)),
            Err(e) => !is_valid(mat(matrix@)) && e == CombineError::InvalidMatrix,
        },
{
    if matrix.len() == 0 {
        return Err(CombineError::InvalidMatrix);
    }
    let cols = matrix[0].len();
    if cols == 0 {
        return Err(CombineError::InvalidMatrix);
    }
    Ok(Shape { rows: matrix.len(), cols })
}

/// Whether every row of the matrix has the length of its first row.
pub fn check_rectangular(matrix: &[Vec<i64>]) -> (r: bool)
    ensures
        r == is_rectangular(mat(matrix@)),
{
    if matrix.len() == 0 {
        return true;
    }
    let cols = matrix[0].len();
    let mut i: usize = 0;
    while i < matrix.len()
        invariant
            0 <= i <= matrix.len(),
            matrix.len() > 0,
            cols == col_count(mat(matrix@)),
            forall|k: int| 0 <= k < i ==> #[trigger] mat(matrix@)[k].len() == cols,
        decreases matrix.len() - i,
    {
        if matrix[i].len() != cols {
            assert(mat(matrix@)[i as int].len() != cols);
            return false;
        }
        i += 1;
    }
    true
}

/// The reconciled shape of two inputs: the per-axis maximum.
pub fn reconcile_shape(a: Shape, b: Shape) -> (r: Shape)
    ensures
        r.view() == union_shape(a.view(), b.view()),
{
    Shape {
        rows: if a.rows >= b.rows { a.rows } else { b.rows },
        cols: if a.cols >= b.cols { a.cols } else { b.cols },
    }
}

} // verus!
