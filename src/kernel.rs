//! The combine kernel: one invocation per grid position, reading each operand
//! from its own flat row-major buffer, and the dispatch of a whole grid.
use vstd::prelude::*;
use crate::shape::Shape;
use crate::tiling::{TileGeometry, reach};

verus! {

/// Offset of cell `(row, col)` in a row-major buffer with `cols` columns.
pub open spec fn cell_index(row: int, col: int, cols: int) -> int {
    row * cols + col
}

/// Cell `(row, col)` of a flat buffer of shape `s`, or zero outside `s`.
pub open spec fn read_cell(flat: Seq<i64>, s: (nat, nat), row: int, col: int) -> i64 {
    if 0 <= row < s.0 && 0 <= col < s.1 {
        flat[cell_index(row, col, s.1 as int)]
    } else {
        0
    }
}

/// What the kernel writes at `(row, col)`: the wrapping sum of both operands,
/// each read against its own shape.
pub open spec fn kernel_value(
    a: Seq<i64>,
    a_s: (nat, nat),
    b: Seq<i64>,
    b_s: (nat, nat),
    row: int,
    col: int,
) -> i64 {
    read_cell(a, a_s, row, col).wrapping_add(read_cell(b, b_s, row, col))
}

/// `out` is the output buffer of shape `o_s` after a grid reaching `reach`
/// along x and y has run, on a buffer that started as zeros.
pub open spec fn is_grid_output(
    out: Seq<i64>,
    a: Seq<i64>,
    a_s: (nat, nat),
    b: Seq<i64>,
    b_s: (nat, nat),
    o_s: (nat, nat),
    reach: (nat, nat),
) -> bool {
    &&& out.len() == o_s.0 * o_s.1
    &&& forall|r: int, c: int|
        0 <= r < o_s.0 && 0 <= c < o_s.1 ==> #[trigger] out[cell_index(r, c, o_s.1 as int)] == if r
            < reach.1 && c < reach.0 {
            kernel_value(a, a_s, b, b_s, r, c)
        } else {
            0
        }
}

/// A cell of a shape lies inside a buffer of that shape.
pub proof fn lemma_cell_index_bounds(r: int, c: int, rows: int, cols: int)
    requires
        0 <= r < rows,
        0 <= c < cols,
    ensures
        0 <= cell_index(r, c, cols),
        cell_index(r, c, cols) + 1 <= rows * cols,
{
    assert(r * cols + c + 1 <= rows * cols) by (nonlinear_arith)
        requires
            0 <= r < rows,
            0 <= c < cols,
    ;
    assert(0 <= r * cols) by (nonlinear_arith)
        requires
            0 <= r,
            0 <= c < cols,
    ;
}

/// Distinct cells have distinct offsets.
pub proof fn lemma_cell_index_unique(r1: int, c1: int, r2: int, c2: int, cols: int)
    requires
        0 <= r1,
        0 <= r2,
        0 <= c1 < cols,
        0 <= c2 < cols,
        cell_index(r1, c1, cols) == cell_index(r2, c2, cols),
    ensures
        r1 == r2,
        c1 == c2,
{
    if r1 < r2 {
        assert(r1 * cols + c1 < r2 * cols + c2) by (nonlinear_arith)
            requires
                r1 + 1 <= r2,
                0 <= c1 < cols,
                0 <= c2,
        ;
    } else if r2 < r1 {
        assert(r2 * cols + c2 < r1 * cols + c1) by (nonlinear_arith)
            requires
                r2 + 1 <= r1,
                0 <= c2 < cols,
                0 <= c1,
        ;
    }
}

/// Reads `(row, col)` from a flat buffer of the given shape, or zero when the
/// position lies outside that shape.
fn read_operand(flat: &[i64], s: Shape, row: u64, col: u64) -> (r: i64)
    requires
        flat@.len() == s.rows * s.cols,
    ensures
        r == read_cell(flat@, s.view(), row as int, col as int),
{
    let len = flat.len();
    if row < s.rows as u64 && col < s.cols as u64 {
        proof {
            lemma_cell_index_bounds(row as int, col as int, s.rows as int, s.cols as int);
        }
        flat[row as usize * s.cols + col as usize]
    } else {
        0
    }
}

/// One invocation of the kernel at grid position `(pos_x, pos_y)`: column
/// `pos_x`, row `pos_y`. It writes the sum of the operands there when the
/// position lies inside the output, and nothing otherwise.
pub fn combine_kernel(
    a: &[i64],
    a_shape: Shape,
    b: &[i64],
    b_shape: Shape,
    out: &mut Vec<i64>,
    out_shape: Shape,
    pos_x: u64,
    pos_y: u64,
)
    requires
        a@.len() == a_shape.rows * a_shape.cols,
        b@.len() == b_shape.rows * b_shape.cols,
        old(out)@.len() == out_shape.rows * out_shape.cols,
    ensures
        final(out)@ == if pos_y < out_shape.rows && pos_x < out_shape.cols {
            old(out)@.update(
                cell_index(pos_y as int, pos_x as int, out_shape.cols as int),
                kernel_value(a@, a_shape.view(), b@, b_shape.view(), pos_y as int, pos_x as int),
            )
        } else {
            old(out)@
        },
{
    let a_val = read_operand(a, a_shape, pos_y, pos_x);
    let b_val = read_operand(b, b_shape, pos_y, pos_x);
    let len = out.len();
    if pos_y < out_shape.rows as u64 && pos_x < out_shape.cols as u64 {
        proof {
            lemma_cell_index_bounds(pos_y as int, pos_x as int, out_shape.rows as int, out_shape.cols as int);
        }
        out.set(pos_y as usize * out_shape.cols + pos_x as usize, a_val.wrapping_add(b_val));
    }
}

/// Runs the kernel at every position of the grid that `g` launches, on an
/// output buffer of `out_shape` that starts as zeros.
pub fn dispatch_grid(
    g: TileGeometry,
    a: &[i64],
    a_shape: Shape,
    b: &[i64],
    b_shape: Shape,
    out_shape: Shape,
) -> (r: Vec<i64>)
    requires
        a@.len() == a_shape.rows * a_shape.cols,
        b@.len() == b_shape.rows * b_shape.cols,
        out_shape.rows * out_shape.cols <= usize::MAX,
    ensures
        is_grid_output(r@, a@, a_shape.view(), b@, b_shape.view(), out_shape.view(), reach(g)),
{
    let n = out_shape.rows * out_shape.cols;
    let mut out: Vec<i64> = Vec::new();
    let mut k: usize = 0;
    while k < n
        invariant
            0 <= k <= n,
            out@ == Seq::new(k as nat, |q: int| 0i64),
        decreases n - k,
    {
        out.push(0);
        assert(out@ =~= Seq::new((k + 1) as nat, |q: int| 0i64));
        k += 1;
    }
    let ghost rows = out_shape.rows as int;
    let ghost cols = out_shape.cols as int;
    assert(g.count_x * g.size_x <= u64::MAX && g.count_y * g.size_y <= u64::MAX) by (nonlinear_arith)
        requires
            g.count_x <= u32::MAX,
            g.size_x <= u32::MAX,
            g.count_y <= u32::MAX,
            g.size_y <= u32::MAX,
    ;
    let total_x: u64 = g.count_x as u64 * g.size_x as u64;
    let total_y: u64 = g.count_y as u64 * g.size_y as u64;
    proof {
        assert forall|r: int, c: int| 0 <= r < rows && 0 <= c < cols implies #[trigger] out@[cell_index(
            r,
            c,
            cols,
        )] == 0i64 by {
            lemma_cell_index_bounds(r, c, rows, cols);
        }
    }
    let mut y: u64 = 0;
    while y < total_y
        invariant
            0 <= y <= total_y,
            rows == out_shape.rows,
            cols == out_shape.cols,
            total_x == reach(g).0,
            total_y == reach(g).1,
            a@.len() == a_shape.rows * a_shape.cols,
            b@.len() == b_shape.rows * b_shape.cols,
            out@.len() == rows * cols,
            forall|r: int, c: int|
                0 <= r < rows && 0 <= c < cols ==> #[trigger] out@[cell_index(r, c, cols)] == if r < y
                    && c < total_x {
                    kernel_value(a@, a_shape.view(), b@, b_shape.view(), r, c)
                } else {
                    0
                },
        decreases total_y - y,
    {
        let mut x: u64 = 0;
        while x < total_x
            invariant
                0 <= x <= total_x,
                y < total_y,
                rows == out_shape.rows,
                cols == out_shape.cols,
                a@.len() == a_shape.rows * a_shape.cols,
                b@.len() == b_shape.rows * b_shape.cols,
                out@.len() == rows * cols,
                forall|r: int, c: int|
                    0 <= r < rows && 0 <= c < cols ==> #[trigger] out@[cell_index(r, c, cols)] == if (r
                        < y && c < total_x) || (r == y && c < x) {
                        kernel_value(a@, a_shape.view(), b@, b_shape.view(), r, c)
                    } else {
                        0
                    },
            decreases total_x - x,
        {
            let ghost before = out@;
            combine_kernel(a, a_shape, b, b_shape, &mut out, out_shape, x, y);
            proof {
                if y < rows && x < cols {
                    lemma_cell_index_bounds(y as int, x as int, rows, cols);
                }
                assert forall|r: int, c: int| 0 <= r < rows && 0 <= c < cols implies #[trigger] out@[cell_index(
                    r,
                    c,
                    cols,
                )] == if (r < y && c < total_x) || (r == y && c < x + 1) {
                    kernel_value(a@, a_shape.view(), b@, b_shape.view(), r, c)
                } else {
                    0
                } by {
                    lemma_cell_index_bounds(r, c, rows, cols);
                    if y < rows && x < cols && cell_index(r, c, cols) == cell_index(y as int, x as int, cols) {
                        lemma_cell_index_unique(r, c, y as int, x as int, cols);
                    }
                    assert(before[cell_index(r, c, cols)] == if (r < y && c < total_x) || (r == y && c < x) {
                        kernel_value(a@, a_shape.view(), b@, b_shape.view(), r, c)
                    } else {
                        0
                    });
                }
            }
            x += 1;
        }
        y += 1;
    }
    out
}

} // verus!
