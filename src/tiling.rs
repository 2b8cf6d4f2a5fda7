//! Choice of the launch geometry: a square work-group shape under the
//! device's per-group ceiling, and enough groups to cover the output.
use vstd::prelude::*;
use crate::shape::{CombineError, Shape};

verus! {

/// Capacities that a device reports for one launch.
#[derive(Clone, Copy, Debug, PartialEq, Eq, Structural)]
pub struct DeviceLimits {
    /// Most compute units that one work-group may hold.
    pub max_units_per_group: u32,
    /// Most work-groups along the x axis.
    pub max_groups_x: u32,
    /// Most work-groups along the y axis.
    pub max_groups_y: u32,
    /// Most work-groups along the z axis.
    pub max_groups_z: u32,
}

/// A launch: the number of work-groups and the shape of each, per axis.
#[derive(Clone, Copy, Debug, PartialEq, Eq, Structural)]
pub struct TileGeometry {
    pub count_x: u32,
    pub count_y: u32,
    pub count_z: u32,
    pub size_x: u32,
    pub size_y: u32,
    pub size_z: u32,
}

/// `s` is the integer square root of `n`.
pub open spec fn is_floor_sqrt(s: nat, n: nat) -> bool {
    s * s <= n < (s + 1) * (s + 1)
}

/// The side of a square work-group for a per-group ceiling of `units`: its
/// integer square root, and at least one.
pub open spec fn is_group_side(s: nat, units: nat) -> bool {
    if units == 0 {
        s == 1
    } else {
        is_floor_sqrt(s, units)
    }
}

/// The work-group side that the scheduler picks for a per-group ceiling of `units`.
pub open spec fn group_side(units: nat) -> nat {
    choose|s: nat| is_group_side(s, units)
}

/// The grid for an output of shape `s` stays within the device's
/// group-count limits.
pub open spec fn grid_within_limits(s: Shape, limits: DeviceLimits) -> bool {
    let d = group_side(limits.max_units_per_group as nat);
    &&& ceil_div(s.cols as nat, d) <= limits.max_groups_x
    &&& ceil_div(s.rows as nat, d) <= limits.max_groups_y
    &&& limits.max_groups_z >= 1
}

/// `n / d` rounded up.
pub open spec fn ceil_div(n: nat, d: nat) -> nat
    recommends
        d > 0,
{
    ((n + d - 1) / d as int) as nat
}

/// How far the launched positions reach along x and along y.
pub open spec fn reach(g: TileGeometry) -> (nat, nat) {
    ((g.count_x * g.size_x) as nat, (g.count_y * g.size_y) as nat)
}

/// The geometry launches a position for every cell of `s`, and no group
/// exceeds the per-group ceiling nor the grid the group-count limits.
pub open spec fn fits(g: TileGeometry, s: Shape, limits: DeviceLimits) -> bool {
    &&& reach(g).0 >= s.cols
    &&& reach(g).1 >= s.rows
    &&& g.size_z == 1
    &&& g.count_z == 1
    &&& g.size_x * g.size_y <= limits.max_units_per_group || limits.max_units_per_group == 0
    &&& g.count_x <= limits.max_groups_x
    &&& g.count_y <= limits.max_groups_y
    &&& g.count_z <= limits.max_groups_z
}

/// Integer square root of `n`.
pub fn floor_sqrt(n: u32) -> (r: u32)
    ensures
        is_floor_sqrt(r as nat, n as nat),
{
    let mut s: u64 = 0;
    loop
        invariant
            s * s <= n,
            s <= 65535,
        ensures
            s * s <= n < (s + 1) * (s + 1),
        decreases n - s * s,
    {
        assert((s + 1) * (s + 1) <= 65536 * 65536) by (nonlinear_arith)
            requires
                s <= 65535,
        ;
        if (s + 1) * (s + 1) > n as u64 {
            break;
        }
        assert((s + 1) * (s + 1) > s * s) by (nonlinear_arith);
        assert(s + 1 <= 65535) by (nonlinear_arith)
            requires
                (s + 1) * (s + 1) <= n,
                n <= u32::MAX,
        ;
        s = s + 1;
    }
    s as u32
}

/// `n / d` rounded up, without overflow.
fn div_ceil_usize(n: usize, d: usize) -> (r: usize)
    requires
        d > 0,
    ensures
        r == ceil_div(n as nat, d as nat),
{
    assert(n as int % d as int != 0 ==> n as int / d as int + 1 <= usize::MAX) by (nonlinear_arith)
        requires
            d > 0,
            n <= usize::MAX,
    ;
    assert(n as int / d as int + if n as int % d as int != 0 { 1int } else { 0int } == (n + d - 1)
        / d as int) by (nonlinear_arith)
        requires
            d > 0,
    ;
    n / d + if n % d != 0 { 1 } else { 0 }
}

/// `ceil_div(n, d)` groups of side `d` cover `n` positions.
proof fn lemma_ceil_div_covers(n: nat, d: nat)
    requires
        d > 0,
    ensures
        ceil_div(n, d) * d >= n,
{
    let q = ceil_div(n, d);
    assert(q * d >= n) by (nonlinear_arith)
        requires
            d > 0,
            q == (n + d - 1) / d as int,
    ;
}

/// Chooses a square work-group of side the integer square root of the
/// per-group ceiling (at least one), and along each axis as many groups as it
/// takes to cover the output. `LaunchGeometryExceeded` when that count is
/// over the device's limit on some axis.
pub fn schedule_tiles(out: Shape, limits: DeviceLimits) -> (r: Result<TileGeometry, CombineError>)
    ensures
        match r {
            Ok(g) => {
                &&& g.size_x == group_side(limits.max_units_per_group as nat)
                &&& g.size_x >= 1
                &&& g.size_y == g.size_x
                &&& g.size_z == 1
                &&& g.count_x == ceil_div(out.cols as nat, g.size_x as nat)
                &&& g.count_y == ceil_div(out.rows as nat, g.size_y as nat)
                &&& g.count_z == 1
                &&& fits(g, out, limits)
            },
            Err(e) => e == CombineError::LaunchGeometryExceeded,
        },
        r is Ok <==> grid_within_limits(out, limits),
{
    let root = floor_sqrt(limits.max_units_per_group);
    let side: u32 = if root == 0 { 1 } else { root };
    proof {
        let n = limits.max_units_per_group as nat;
        if n == 0 {
            assert(root == 0) by (nonlinear_arith)
                requires
                    root * root <= n,
                    n == 0,
            ;
        } else {
            assert(root != 0);
            assert(side * side <= n);
        }
        assert(is_group_side(side as nat, n));
        let d = group_side(n);
        assert(is_group_side(d, n));
        if n > 0 {
            lemma_floor_sqrt_unique(d, root as nat, n);
        }
        assert(d == side);
    }
    let count_x = div_ceil_usize(out.cols, side as usize);
    let count_y = div_ceil_usize(out.rows, side as usize);
    if count_x > limits.max_groups_x as usize || count_y > limits.max_groups_y as usize
        || limits.max_groups_z < 1 {
        return Err(CombineError::LaunchGeometryExceeded);
    }
    let g = TileGeometry {
        count_x: count_x as u32,
        count_y: count_y as u32,
        count_z: 1,
        size_x: side,
        size_y: side,
        size_z: 1,
    };
    proof {
        lemma_ceil_div_covers(out.cols as nat, side as nat);
        lemma_ceil_div_covers(out.rows as nat, side as nat);
        assert(count_x * side == side * count_x) by (nonlinear_arith);
        assert(count_y * side == side * count_y) by (nonlinear_arith);
    }
    Ok(g)
}

/// The integer square root is unique.
proof fn lemma_floor_sqrt_unique(s: nat, t: nat, n: nat)
    requires
        is_floor_sqrt(s, n),
        is_floor_sqrt(t, n),
    ensures
        s == t,
{
    if s < t {
        assert((s + 1) * (s + 1) <= t * t) by (nonlinear_arith)
            requires
                s + 1 <= t,
        ;
    } else if t < s {
        assert((t + 1) * (t + 1) <= s * s) by (nonlinear_arith)
            requires
                t + 1 <= s,
        ;
    }
}

} // verus!
