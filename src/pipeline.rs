//! The tiled path end to end: validation, staging of the flat buffers, the
//! launch geometry, the grid run, and the reassembly of the output.
use vstd::prelude::*;
use vstd::arithmetic::div_mod::{lemma_fundamental_div_mod, lemma_mod_pos_bound};
use crate::shape::{
    CombineError, Shape, mat, is_valid, is_rectangular, shape_of, union_shape, row_count,
    col_count, matrix_dimensions, check_rectangular, reconcile_shape,
};
use crate::layout::{ELEM_BYTES, encodes, chunks, flatten, vec_to_flat_u8_vec, reshape, decode_flat_buffer, lemma_flatten_rectangular};
use crate::cpu::{entry, combined, combine_cpu};
use crate::tiling::{DeviceLimits, TileGeometry, group_side, ceil_div, grid_within_limits, fits, reach, schedule_tiles};
use crate::kernel::{cell_index, read_cell, is_grid_output, dispatch_grid};

verus! {

/// Everything the host prepares before a device launch: the shapes, the
/// encoded operands, the size of the output buffer in bytes, and the grid.
pub struct LaunchPlan {
    pub a_shape: Shape,
    pub b_shape: Shape,
    pub out_shape: Shape,
    pub a_bytes: Vec<u8>,
    pub b_bytes: Vec<u8>,
    pub out_bytes: usize,
    pub geometry: TileGeometry,
}

/// Both operands can be laid out for the tiled path: non-empty and rectangular.
pub open spec fn operands_ok(a: Seq<Seq<i64>>, b: Seq<Seq<i64>>) -> bool {
    is_valid(a) && is_valid(b) && is_rectangular(a) && is_rectangular(b)
}

/// The reconciled shape of two matrices.
pub open spec fn out_shape_of(a: Seq<Seq<i64>>, b: Seq<Seq<i64>>) -> (nat, nat) {
    union_shape(shape_of(a), shape_of(b))
}

/// The output buffer, in bytes, is addressable.
pub open spec fn output_addressable(a: Seq<Seq<i64>>, b: Seq<Seq<i64>>) -> bool {
    ELEM_BYTES * (out_shape_of(a, b).0 * out_shape_of(a, b).1) <= usize::MAX
}

/// The failure, if any, of the tiled path on `a`, `b` under `limits`.
pub open spec fn tiled_error(a: Seq<Seq<i64>>, b: Seq<Seq<i64>>, limits: DeviceLimits) -> Option<
    CombineError,
> {
    if !operands_ok(a, b) {
        Some(CombineError::InvalidMatrix)
    } else if !output_addressable(a, b) {
        Some(CombineError::DeviceAllocationError)
    } else if !grid_within_limits(
        Shape { rows: out_shape_of(a, b).0 as usize, cols: out_shape_of(a, b).1 as usize },
        limits,
    ) {
        Some(CombineError::LaunchGeometryExceeded)
    } else {
        None
    }
}

/// A rectangular matrix read through its flat buffer gives its padded entries.
pub proof fn lemma_read_flat(m: Seq<Seq<i64>>, r: int, c: int)
    requires
        is_rectangular(m),
        0 <= r,
        0 <= c,
    ensures
        read_cell(m.flatten(), shape_of(m), r, c) == entry(m, r, c),
{
    lemma_flatten_rectangular(m, col_count(m));
    if r < row_count(m) && c < col_count(m) {
        assert(m[r].len() == col_count(m));
    } else if r < row_count(m) {
        assert(m[r].len() == col_count(m));
    }
}

/// Whatever buffer a covering grid leaves, reshaped by the output's column
/// count, it is the host result.
pub proof fn law_backends_agree(
    a: Seq<Seq<i64>>,
    b: Seq<Seq<i64>>,
    out: Seq<i64>,
    rch: (nat, nat),
)
    requires
        operands_ok(a, b),
        is_grid_output(out, a.flatten(), shape_of(a), b.flatten(), shape_of(b), out_shape_of(a, b), rch),
        rch.0 >= out_shape_of(a, b).1,
        rch.1 >= out_shape_of(a, b).0,
    ensures
        chunks(out, out_shape_of(a, b).1) == combined(a, b),
{
    let rows = out_shape_of(a, b).0;
    let cols = out_shape_of(a, b).1;
    let ch = chunks(out, cols);
    let want = combined(a, b);
    assert(cols > 0);
    assert((rows * cols + cols - 1) / cols as int == rows) by (nonlinear_arith)
        requires
            cols > 0,
    ;
    assert(ch.len() == rows);
    assert forall|i: int| 0 <= i < rows implies #[trigger] ch[i] == want[i] by {
        assert(i * cols + cols <= rows * cols) by (nonlinear_arith)
            requires
                0 <= i < rows,
        ;
        assert forall|j: int| 0 <= j < cols implies #[trigger] ch[i][j] == want[i][j] by {
            assert(ch[i][j] == out[cell_index(i, j, cols as int)]);
            lemma_read_flat(a, i, j);
            lemma_read_flat(b, i, j);
        }
        assert(ch[i] =~= want[i]);
    }
    assert(ch =~= want);
}

/// A matrix cut from a buffer of `rows * cols` elements flattens back to it.
proof fn lemma_flatten_chunks(v: Seq<i64>, rows: nat, cols: nat)
    requires
        cols > 0,
        v.len() == rows * cols,
    ensures
        chunks(v, cols).len() == rows,
        is_rectangular(chunks(v, cols)),
        rows > 0 ==> col_count(chunks(v, cols)) == cols,
        chunks(v, cols).flatten() == v,
{
    let m = chunks(v, cols);
    assert((rows * cols + cols - 1) / cols as int == rows) by (nonlinear_arith)
        requires
            cols > 0,
    ;
    assert forall|i: int| 0 <= i < rows implies #[trigger] m[i].len() == cols by {
        assert(i * cols + cols <= rows * cols) by (nonlinear_arith)
            requires
                0 <= i < rows,
        ;
    }
    lemma_flatten_rectangular(m, cols);
    assert forall|k: int| 0 <= k < v.len() implies #[trigger] m.flatten()[k] == v[k] by {
        lemma_fundamental_div_mod(k, cols as int);
        lemma_mod_pos_bound(k, cols as int);
        let i = k / cols as int;
        let j = k % cols as int;
        assert(0 <= i < rows) by (nonlinear_arith)
            requires
                k == cols * i + j,
                0 <= j < cols,
                0 <= k < rows * cols,
        ;
        assert(i * cols + cols <= rows * cols) by (nonlinear_arith)
            requires
                0 <= i < rows,
        ;
        assert(k == i * cols + j) by (nonlinear_arith)
            requires
                k == cols * i + j,
        ;
    }
    assert(m.flatten() =~= v);
}

/// Shapes of both operands and of the output, once the operands are known to
/// be non-empty, rectangular, and the output addressable.
fn validate_pair(a: &[Vec<i64>], b: &[Vec<i64>]) -> (r: Result<(Shape, Shape, Shape), CombineError>)
    ensures
        match r {
            Ok((sa, sb, so)) => {
                &&& operands_ok(mat(a@), mat(b@))
                &&& output_addressable(mat(a@), mat(b@))
                &&& sa.view() == shape_of(mat(a@))
                &&& sb.view() == shape_of(mat(b@))
                &&& so.view() == out_shape_of(mat(a@), mat(b@))
            },
            Err(e) => {
                &&& !(operands_ok(mat(a@), mat(b@)) && output_addressable(mat(a@), mat(b@)))
                &&& e == if operands_ok(mat(a@), mat(b@)) {
                    CombineError::DeviceAllocationError
                } else {
                    CombineError::InvalidMatrix
                }
            },
        },
{
    let sa = match matrix_dimensions(a) {
        Ok(s) => s,
        Err(e) => return Err(e),
    };
    let sb = match matrix_dimensions(b) {
        Ok(s) => s,
        Err(e) => return Err(e),
    };
    if !check_rectangular(a) || !check_rectangular(b) {
        return Err(CombineError::InvalidMatrix);
    }
    let so = reconcile_shape(sa, sb);
    match so.rows.checked_mul(so.cols) {
        Some(cells) => match cells.checked_mul(ELEM_BYTES) {
            Some(_) => Ok((sa, sb, so)),
            None => Err(CombineError::DeviceAllocationError),
        },
        None => {
            assert(so.rows * so.cols > usize::MAX);
            Err(CombineError::DeviceAllocationError)
        },
    }
}

/// The flat buffer of a valid rectangular operand has one element per cell.
proof fn lemma_operand_len(m: Seq<Seq<i64>>, s: Shape, out: (nat, nat))
    requires
        is_rectangular(m),
        s.view() == shape_of(m),
        s.rows <= out.0,
        s.cols <= out.1,
        ELEM_BYTES * (out.0 * out.1) <= usize::MAX,
    ensures
        m.flatten().len() == s.rows * s.cols,
        ELEM_BYTES * m.flatten().len() <= usize::MAX,
{
    lemma_flatten_rectangular(m, col_count(m));
    assert(s.rows * s.cols <= out.0 * out.1) by (nonlinear_arith)
        requires
            s.rows <= out.0,
            s.cols <= out.1,
    ;
}

/// Prepares a device launch: checks both operands, encodes them, sizes the
/// output buffer and schedules the grid.
pub fn plan_launch(a: &[Vec<i64>], b: &[Vec<i64>], limits: DeviceLimits) -> (r: Result<
    LaunchPlan,
    CombineError,
>)
    ensures
        match r {
            Ok(p) => {
                &&& tiled_error(mat(a@), mat(b@), limits) is None
                &&& p.a_shape.view() == shape_of(mat(a@))
                &&& p.b_shape.view() == shape_of(mat(b@))
                &&& p.out_shape.view() == out_shape_of(mat(a@), mat(b@))
                &&& encodes(p.a_bytes@, mat(a@).flatten())
                &&& encodes(p.b_bytes@, mat(b@).flatten())
                &&& p.out_bytes == ELEM_BYTES * (p.out_shape.rows * p.out_shape.cols)
                &&& p.geometry.size_x == group_side(limits.max_units_per_group as nat)
                &&& p.geometry.size_y == p.geometry.size_x
                &&& p.geometry.count_x == ceil_div(p.out_shape.cols as nat, p.geometry.size_x as nat)
                &&& p.geometry.count_y == ceil_div(p.out_shape.rows as nat, p.geometry.size_y as nat)
                &&& fits(p.geometry, p.out_shape, limits)
            },
            Err(e) => tiled_error(mat(a@), mat(b@), limits) == Some(e),
        },
{
    let (sa, sb, so) = match validate_pair(a, b) {
        Ok(t) => t,
        Err(e) => return Err(e),
    };
    let geometry = match schedule_tiles(so, limits) {
        Ok(g) => g,
        Err(e) => return Err(e),
    };
    proof {
        lemma_operand_len(mat(a@), sa, so.view());
        lemma_operand_len(mat(b@), sb, so.view());
    }
    let a_bytes = vec_to_flat_u8_vec(a);
    let b_bytes = vec_to_flat_u8_vec(b);
    let out_bytes = so.rows * so.cols * ELEM_BYTES;
    assert(out_bytes == ELEM_BYTES * (so.rows * so.cols)) by (nonlinear_arith)
        requires
            out_bytes == so.rows * so.cols * ELEM_BYTES,
    ;
    Ok(LaunchPlan { a_shape: sa, b_shape: sb, out_shape: so, a_bytes, b_bytes, out_bytes, geometry })
}

/// The tiled path of combine on the host: the kernel runs at every position of
/// the scheduled grid over the flat operands, and the output buffer is cut
/// into rows of the reconciled column count.
pub fn combine_tiled(a: &[Vec<i64>], b: &[Vec<i64>], limits: DeviceLimits) -> (r: Result<
    Vec<Vec<i64>>,
    CombineError,
>)
    ensures
        match r {
            Ok(c) => tiled_error(mat(a@), mat(b@), limits) is None && mat(c@) == combined(
                mat(a@),
                mat(b@),
            ),
            Err(e) => tiled_error(mat(a@), mat(b@), limits) == Some(e),
        },
{
    let (sa, sb, so) = match validate_pair(a, b) {
        Ok(t) => t,
        Err(e) => return Err(e),
    };
    let geometry = match schedule_tiles(so, limits) {
        Ok(g) => g,
        Err(e) => return Err(e),
    };
    proof {
        lemma_operand_len(mat(a@), sa, so.view());
        lemma_operand_len(mat(b@), sb, so.view());
    }
    let flat_a = flatten(a);
    let flat_b = flatten(b);
    let out = dispatch_grid(geometry, flat_a.as_slice(), sa, flat_b.as_slice(), sb, so);
    proof {
        law_backends_agree(mat(a@), mat(b@), out@, reach(geometry));
    }
    let c = reshape(out.as_slice(), so.cols);
    Ok(c)
}

/// Reassembles a downloaded output buffer of shape `out_shape`:
/// `DeviceTransferError` unless it holds exactly one encoded element per cell
/// and the shape has columns.
pub fn gather_output(bytes: &[u8], out_shape: Shape) -> (r: Result<Vec<Vec<i64>>, CombineError>)
    ensures
        match r {
            Ok(m) => {
                &&& out_shape.cols > 0
                &&& bytes@.len() == ELEM_BYTES * (out_shape.rows * out_shape.cols)
                &&& mat(m@).len() == out_shape.rows
                &&& forall|i: int| 0 <= i < m@.len() ==> #[trigger] m@[i]@.len() == out_shape.cols
                &&& encodes(bytes@, mat(m@).flatten())
            },
            Err(e) => {
                &&& !(out_shape.cols > 0 && bytes@.len() == ELEM_BYTES * (out_shape.rows
                    * out_shape.cols))
                &&& e == CombineError::DeviceTransferError
            },
        },
{
    let len = bytes.len();
    if out_shape.cols == 0 {
        return Err(CombineError::DeviceTransferError);
    }
    let cells = match out_shape.rows.checked_mul(out_shape.cols) {
        Some(n) => n,
        None => {
            assert(ELEM_BYTES * (out_shape.rows * out_shape.cols) > usize::MAX) by (nonlinear_arith)
                requires
                    out_shape.rows * out_shape.cols > usize::MAX,
            ;
            return Err(CombineError::DeviceTransferError);
        },
    };
    let expected = match cells.checked_mul(ELEM_BYTES) {
        Some(n) => n,
        None => return Err(CombineError::DeviceTransferError),
    };
    if len != expected {
        return Err(CombineError::DeviceTransferError);
    }
    let flat = decode_flat_buffer(bytes);
    assert(bytes@.take(ELEM_BYTES * flat@.len()) =~= bytes@);
    let m = reshape(flat.as_slice(), out_shape.cols);
    proof {
        lemma_flatten_chunks(flat@, out_shape.rows as nat, out_shape.cols as nat);
        assert forall|i: int| 0 <= i < m@.len() implies #[trigger] m@[i]@.len() == out_shape.cols by {
            assert(mat(m@)[i] == m@[i]@);
        }
    }
    Ok(m)
}

/// Where a combine runs: on the host, or as a tiled grid under device limits.
#[derive(Clone, Copy, Debug, PartialEq, Eq, Structural)]
pub enum Backend {
    Cpu,
    Tiled(DeviceLimits),
}

/// Combines `a` and `b` on the chosen backend. Both backends give the same
/// matrix wherever both succeed.
pub fn combine(a: &[Vec<i64>], b: &[Vec<i64>], backend: Backend) -> (r: Result<
    Vec<Vec<i64>>,
    CombineError,
>)
    ensures
        match r {
            Ok(c) => mat(c@) == combined(mat(a@), mat(b@)) && match backend {
                Backend::Cpu => is_valid(mat(a@)) && is_valid(mat(b@)),
                Backend::Tiled(limits) => tiled_error(mat(a@), mat(b@), limits) is None,
            },
            Err(e) => match backend {
                Backend::Cpu => !(is_valid(mat(a@)) && is_valid(mat(b@))) && e
                    == CombineError::InvalidMatrix,
                Backend::Tiled(limits) => tiled_error(mat(a@), mat(b@), limits) == Some(e),
            },
        },
{
    match backend {
        Backend::Cpu => combine_cpu(a, b),
        Backend::Tiled(limits) => combine_tiled(a, b, limits),
    }
}

} // verus!
