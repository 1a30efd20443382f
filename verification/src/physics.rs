//! Swept axis-aligned box collision: the exact time and surface normal of
//! first contact between a moving box and a static box over one tick.
//!
//! All box coordinates and velocities are fixed-point milli-blocks. Times
//! are exact rationals `num / den` with a positive denominator, so every
//! comparison is an integer cross-multiplication and no precision is lost.
//!
//! Per axis, the displacement divided by the velocity gives an entry and an
//! exit time; an axis with zero velocity never constrains entry (its entry
//! time is minus infinity and its exit plus infinity). The overall entry
//! time is the greatest per-axis entry; a collision is reported when that
//! time lies in `[0, 1]` and does not exceed any axis's exit time. The
//! normal points against the motion on every axis whose entry time equals
//! the overall entry time; a tie yields a diagonal sign vector, one unit
//! per tied axis.

use vstd::prelude::*;
use crate::vecmath::{Vec3i, Vec3x, sign};

verus! {

/// Fixed-point box coordinates and velocities accepted by the sweep: large
/// enough for any world position, small enough that every intermediate
/// product fits its integer type.
pub const SWEEP_BOUND: i64 = 0x4000_0000_0000;

/// An axis-aligned box in fixed-point milli-blocks.
#[derive(Clone, Copy, Debug, PartialEq, Eq, Structural)]
pub struct Aabbx {
    pub min: Vec3x,
    pub max: Vec3x,
}

/// A moving box: a collider and its displacement over the tick.
#[derive(Clone, Copy, Debug, PartialEq, Eq, Structural)]
pub struct SweepBox {
    pub collider: Aabbx,
    pub velocity: Vec3x,
}

/// An exact rational number with a positive denominator.
#[derive(Clone, Copy, Debug, PartialEq, Eq, Structural)]
pub struct Ratio {
    pub num: i64,
    pub den: i64,
}

/// The first contact: the face normal entered through (a sign vector, one
/// unit per colliding axis) and the entry time as a fraction of the tick.
#[derive(Clone, Copy, Debug, PartialEq, Eq, Structural)]
pub struct SweepTestResult {
    pub normal: Vec3i,
    pub time: Ratio,
}

/// `n1 / d1 >= n2 / d2` for positive denominators.
pub open spec fn rat_ge(n1: int, d1: int, n2: int, d2: int) -> bool {
    n1 * d2 >= n2 * d1
}

/// `n1 / d1 <= n2 / d2` for positive denominators.
pub open spec fn rat_le(n1: int, d1: int, n2: int, d2: int) -> bool {
    n1 * d2 <= n2 * d1
}

/// The velocity component of axis `ax` (0, 1, 2 for x, y, z).
pub open spec fn axis_vel(a: SweepBox, ax: int) -> int {
    if ax == 0 {
        a.velocity.x as int
    } else if ax == 1 {
        a.velocity.y as int
    } else {
        a.velocity.z as int
    }
}

/// The moving box's lower face on axis `ax`.
pub open spec fn axis_amin(a: SweepBox, ax: int) -> int {
    if ax == 0 {
        a.collider.min.x as int
    } else if ax == 1 {
        a.collider.min.y as int
    } else {
        a.collider.min.z as int
    }
}

/// The moving box's upper face on axis `ax`.
pub open spec fn axis_amax(a: SweepBox, ax: int) -> int {
    if ax == 0 {
        a.collider.max.x as int
    } else if ax == 1 {
        a.collider.max.y as int
    } else {
        a.collider.max.z as int
    }
}

/// The static box's lower face on axis `ax`.
pub open spec fn axis_bmin(b: Aabbx, ax: int) -> int {
    if ax == 0 {
        b.min.x as int
    } else if ax == 1 {
        b.min.y as int
    } else {
        b.min.z as int
    }
}

/// The static box's upper face on axis `ax`.
pub open spec fn axis_bmax(b: Aabbx, ax: int) -> int {
    if ax == 0 {
        b.max.x as int
    } else if ax == 1 {
        b.max.y as int
    } else {
        b.max.z as int
    }
}

/// Whether axis `ax` constrains the entry time at all.
pub open spec fn axis_defined(a: SweepBox, ax: int) -> bool {
    axis_vel(a, ax) != 0
}

/// The signed distance to first overlap on axis `ax`, measured along the
/// direction of motion.
pub open spec fn raw_enter(a: SweepBox, b: Aabbx, ax: int) -> int {
    if axis_vel(a, ax) > 0 {
        axis_bmin(b, ax) - axis_amax(a, ax)
    } else {
        axis_bmax(b, ax) - axis_amin(a, ax)
    }
}

/// The signed distance to last overlap on axis `ax`.
pub open spec fn raw_exit(a: SweepBox, b: Aabbx, ax: int) -> int {
    if axis_vel(a, ax) > 0 {
        axis_bmax(b, ax) - axis_amin(a, ax)
    } else {
        axis_bmin(b, ax) - axis_amax(a, ax)
    }
}

/// Numerator of the entry time of axis `ax`, over denominator `axis_den`.
pub open spec fn entry_num(a: SweepBox, b: Aabbx, ax: int) -> int {
    if axis_vel(a, ax) > 0 {
        raw_enter(a, b, ax)
    } else {
        -raw_enter(a, b, ax)
    }
}

/// Numerator of the exit time of axis `ax`, over denominator `axis_den`.
pub open spec fn exit_num(a: SweepBox, b: Aabbx, ax: int) -> int {
    if axis_vel(a, ax) > 0 {
        raw_exit(a, b, ax)
    } else {
        -raw_exit(a, b, ax)
    }
}

/// The positive denominator of axis `ax`'s times: the speed on that axis.
pub open spec fn axis_den(a: SweepBox, ax: int) -> int {
    if axis_vel(a, ax) > 0 {
        axis_vel(a, ax)
    } else {
        -axis_vel(a, ax)
    }
}

/// Whether axis `ax`'s entry time is at least axis `ay`'s, reading an
/// unconstrained axis's entry as minus infinity.
pub open spec fn entry_ge(a: SweepBox, b: Aabbx, ax: int, ay: int) -> bool {
    if !axis_defined(a, ay) {
        true
    } else if !axis_defined(a, ax) {
        false
    } else {
        rat_ge(entry_num(a, b, ax), axis_den(a, ax), entry_num(a, b, ay), axis_den(a, ay))
    }
}

/// The axis that attains the overall entry time, preferring x, then y,
/// then z on ties. Meaningless when no axis is defined.
pub open spec fn max_axis(a: SweepBox, b: Aabbx) -> int {
    if entry_ge(a, b, 0, 1) && entry_ge(a, b, 0, 2) {
        0
    } else if entry_ge(a, b, 1, 2) {
        1
    } else {
        2
    }
}

/// Whether axis `ax` attains the overall entry time.
pub open spec fn at_max(a: SweepBox, b: Aabbx, ax: int) -> bool {
    &&& axis_defined(a, ax)
    &&& entry_ge(a, b, ax, (if ax == 0 { 1int } else { 0int }))
    &&& entry_ge(a, b, ax, (if ax == 2 { 1int } else { 2int }))
}

/// Whether the overall entry time does not exceed axis `ax`'s exit time.
pub open spec fn entry_before_exit(a: SweepBox, b: Aabbx, ax: int) -> bool {
    axis_defined(a, ax) ==> rat_le(
        entry_num(a, b, max_axis(a, b)),
        axis_den(a, max_axis(a, b)),
        exit_num(a, b, ax),
        axis_den(a, ax),
    )
}

/// Whether the sweep reports a collision: some axis constrains entry, the
/// overall entry time lies within the tick, and it precedes every exit.
pub open spec fn spec_hit(a: SweepBox, b: Aabbx) -> bool {
    let m = max_axis(a, b);
    &&& axis_defined(a, m)
    &&& 0 <= entry_num(a, b, m)
    &&& entry_num(a, b, m) <= axis_den(a, m)
    &&& entry_before_exit(a, b, 0)
    &&& entry_before_exit(a, b, 1)
    &&& entry_before_exit(a, b, 2)
}

/// The normal's component on axis `ax`: against the approach direction on
/// every axis that attains the entry time, zero elsewhere.
pub open spec fn normal_component(a: SweepBox, b: Aabbx, ax: int) -> int {
    if at_max(a, b, ax) {
        if raw_enter(a, b, ax) != 0 {
            -sign(raw_enter(a, b, ax))
        } else {
            -sign(axis_vel(a, ax))
        }
    } else {
        0
    }
}

/// The collision normal as a sign vector.
pub open spec fn spec_normal(a: SweepBox, b: Aabbx) -> Vec3i {
    Vec3i {
        x: normal_component(a, b, 0) as i32,
        y: normal_component(a, b, 1) as i32,
        z: normal_component(a, b, 2) as i32,
    }
}

/// Whether a fixed-point vector is within the accepted sweep range.
pub open spec fn sweep_vec_ok(v: Vec3x) -> bool {
    &&& -SWEEP_BOUND <= v.x <= SWEEP_BOUND
    &&& -SWEEP_BOUND <= v.y <= SWEEP_BOUND
    &&& -SWEEP_BOUND <= v.z <= SWEEP_BOUND
}

/// The exact result the sweep reports on a hit.
pub open spec fn spec_sweep_result(a: SweepBox, b: Aabbx) -> SweepTestResult {
    SweepTestResult {
        normal: spec_normal(a, b),
        time: Ratio {
            num: entry_num(a, b, max_axis(a, b)) as i64,
            den: axis_den(a, max_axis(a, b)) as i64,
        },
    }
}

/// Whether the sweep inputs are within the accepted fixed-point range.
pub open spec fn sweep_inputs_ok(a: SweepBox, b: Aabbx) -> bool {
    &&& sweep_vec_ok(a.collider.min)
    &&& sweep_vec_ok(a.collider.max)
    &&& sweep_vec_ok(a.velocity)
    &&& sweep_vec_ok(b.min)
    &&& sweep_vec_ok(b.max)
}

/// The product of two `i64` values always fits an `i128`.
pub proof fn lemma_i64_product_fits(x: int, y: int)
    requires
        -0x8000_0000_0000_0000 <= x < 0x8000_0000_0000_0000,
        -0x8000_0000_0000_0000 <= y < 0x8000_0000_0000_0000,
    ensures
        -0x4000_0000_0000_0000_0000_0000_0000_0000 <= x * y
            <= 0x4000_0000_0000_0000_0000_0000_0000_0000,
{
    assert(-0x4000_0000_0000_0000_0000_0000_0000_0000 <= x * y
        <= 0x4000_0000_0000_0000_0000_0000_0000_0000) by (nonlinear_arith)
        requires
            -0x8000_0000_0000_0000 <= x < 0x8000_0000_0000_0000,
            -0x8000_0000_0000_0000 <= y < 0x8000_0000_0000_0000,
    ;
}

/// `n1 / d1 >= n2 / d2`, decided exactly by cross-multiplication.
pub(crate) fn rat_ge_exec(n1: i64, d1: i64, n2: i64, d2: i64) -> (r: bool)
    requires
        d1 > 0,
        d2 > 0,
    ensures
        r == rat_ge(n1 as int, d1 as int, n2 as int, d2 as int),
{
    proof {
        lemma_i64_product_fits(n1 as int, d2 as int);
        lemma_i64_product_fits(n2 as int, d1 as int);
    }
    (n1 as i128) * (d2 as i128) >= (n2 as i128) * (d1 as i128)
}

/// `n1 / d1 <= n2 / d2`, decided exactly by cross-multiplication.
pub(crate) fn rat_le_exec(n1: i64, d1: i64, n2: i64, d2: i64) -> (r: bool)
    requires
        d1 > 0,
        d2 > 0,
    ensures
        r == rat_le(n1 as int, d1 as int, n2 as int, d2 as int),
{
    proof {
        lemma_i64_product_fits(n1 as int, d2 as int);
        lemma_i64_product_fits(n2 as int, d1 as int);
    }
    (n1 as i128) * (d2 as i128) <= (n2 as i128) * (d1 as i128)
}

/// The earliest contact of moving box `a` with static box `b` within one
/// tick, or `None` when the boxes do not meet during the tick.
pub fn sweep_test(a: SweepBox, b: Aabbx) -> (r: Option<SweepTestResult>)
    requires
        sweep_inputs_ok(a, b),
    ensures
        r is Some <==> spec_hit(a, b),
        r matches Some(res) ==> {
            &&& res == spec_sweep_result(a, b)
            &&& res.time.den == axis_den(a, max_axis(a, b))
            &&& res.time.num == entry_num(a, b, max_axis(a, b))
            &&& res.time.den > 0
            &&& 0 <= res.time.num <= res.time.den
            &&& res.normal == spec_normal(a, b)
            &&& res.normal != (Vec3i { x: 0, y: 0, z: 0 })
        },
{
    let vx: i64 = a.velocity.x;
    let vy: i64 = a.velocity.y;
    let vz: i64 = a.velocity.z;

    let raw_enter_x: i64 = if vx > 0 { b.min.x - a.collider.max.x } else { b.max.x - a.collider.min.x };
    let raw_enter_y: i64 = if vy > 0 { b.min.y - a.collider.max.y } else { b.max.y - a.collider.min.y };
    let raw_enter_z: i64 = if vz > 0 { b.min.z - a.collider.max.z } else { b.max.z - a.collider.min.z };
    let raw_exit_x: i64 = if vx > 0 { b.max.x - a.collider.min.x } else { b.min.x - a.collider.max.x };
    let raw_exit_y: i64 = if vy > 0 { b.max.y - a.collider.min.y } else { b.min.y - a.collider.max.y };
    let raw_exit_z: i64 = if vz > 0 { b.max.z - a.collider.min.z } else { b.min.z - a.collider.max.z };

    let num_x: i64 = if vx > 0 { raw_enter_x } else { -raw_enter_x };
    let num_y: i64 = if vy > 0 { raw_enter_y } else { -raw_enter_y };
    let num_z: i64 = if vz > 0 { raw_enter_z } else { -raw_enter_z };
    let exit_x: i64 = if vx > 0 { raw_exit_x } else { -raw_exit_x };
    let exit_y: i64 = if vy > 0 { raw_exit_y } else { -raw_exit_y };
    let exit_z: i64 = if vz > 0 { raw_exit_z } else { -raw_exit_z };
    let den_x: i64 = if vx > 0 { vx } else { -vx };
    let den_y: i64 = if vy > 0 { vy } else { -vy };
    let den_z: i64 = if vz > 0 { vz } else { -vz };

    proof {
        assert(raw_enter_x == raw_enter(a, b, 0) && raw_enter_y == raw_enter(a, b, 1)
            && raw_enter_z == raw_enter(a, b, 2));
        assert(num_x == entry_num(a, b, 0) && num_y == entry_num(a, b, 1)
            && num_z == entry_num(a, b, 2));
        assert(exit_x == exit_num(a, b, 0) && exit_y == exit_num(a, b, 1)
            && exit_z == exit_num(a, b, 2));
        assert(den_x == axis_den(a, 0) && den_y == axis_den(a, 1) && den_z == axis_den(a, 2));
    }

    // Pick the axis attaining the greatest entry time, preferring x, y, z.
    let ge01: bool = if vy == 0 {
        true
    } else if vx == 0 {
        false
    } else {
        rat_ge_exec(num_x, den_x, num_y, den_y)
    };
    let ge02: bool = if vz == 0 {
        true
    } else if vx == 0 {
        false
    } else {
        rat_ge_exec(num_x, den_x, num_z, den_z)
    };
    let ge12: bool = if vz == 0 {
        true
    } else if vy == 0 {
        false
    } else {
        rat_ge_exec(num_y, den_y, num_z, den_z)
    };

    proof {
        assert(ge01 == entry_ge(a, b, 0, 1));
        assert(ge02 == entry_ge(a, b, 0, 2));
        assert(ge12 == entry_ge(a, b, 1, 2));
    }

    let m_num: i64;
    let m_den: i64;
    let m_defined: bool;
    if ge01 && ge02 {
        m_num = num_x;
        m_den = den_x;
        m_defined = vx != 0;
        proof {
            assert(max_axis(a, b) == 0);
        }
    } else if ge12 {
        m_num = num_y;
        m_den = den_y;
        m_defined = vy != 0;
        proof {
            assert(max_axis(a, b) == 1);
        }
    } else {
        m_num = num_z;
        m_den = den_z;
        m_defined = vz != 0;
        proof {
            assert(max_axis(a, b) == 2);
        }
    }

    if !m_defined {
        return None;
    }
    if m_num < 0 || m_num > m_den {
        return None;
    }
    if vx != 0 && !rat_le_exec(m_num, m_den, exit_x, den_x) {
        return None;
    }
    if vy != 0 && !rat_le_exec(m_num, m_den, exit_y, den_y) {
        return None;
    }
    if vz != 0 && !rat_le_exec(m_num, m_den, exit_z, den_z) {
        return None;
    }

    // Every axis attaining the entry time contributes a normal component
    // pointing against the motion on that axis.
    let ge10: bool = if vx == 0 {
        true
    } else if vy == 0 {
        false
    } else {
        rat_ge_exec(num_y, den_y, num_x, den_x)
    };
    let ge20: bool = if vx == 0 {
        true
    } else if vz == 0 {
        false
    } else {
        rat_ge_exec(num_z, den_z, num_x, den_x)
    };
    let ge21: bool = if vy == 0 {
        true
    } else if vz == 0 {
        false
    } else {
        rat_ge_exec(num_z, den_z, num_y, den_y)
    };

    proof {
        assert(ge10 == entry_ge(a, b, 1, 0));
        assert(ge20 == entry_ge(a, b, 2, 0));
        assert(ge21 == entry_ge(a, b, 2, 1));
    }

    let nx: i32 = if vx != 0 && ge01 && ge02 {
        if raw_enter_x != 0 {
            if raw_enter_x > 0 { -1 } else { 1 }
        } else {
            if vx > 0 { -1 } else { 1 }
        }
    } else {
        0
    };
    let ny: i32 = if vy != 0 && ge10 && ge12 {
        if raw_enter_y != 0 {
            if raw_enter_y > 0 { -1 } else { 1 }
        } else {
            if vy > 0 { -1 } else { 1 }
        }
    } else {
        0
    };
    let nz: i32 = if vz != 0 && ge20 && ge21 {
        if raw_enter_z != 0 {
            if raw_enter_z > 0 { -1 } else { 1 }
        } else {
            if vz > 0 { -1 } else { 1 }
        }
    } else {
        0
    };

    let normal = Vec3i { x: nx, y: ny, z: nz };
    proof {
        assert(normal == spec_normal(a, b));
        lemma_some_axis_at_max(a, b);
        assert(normal != (Vec3i { x: 0, y: 0, z: 0 }));
    }
    Some(SweepTestResult { normal, time: Ratio { num: m_num, den: m_den } })
}

/// Transitivity step for rational comparisons: from `n2/d2 >= n3/d3` and
/// `n1/d1 < n3/d3` conclude `n2/d2 >= n1/d1`.
proof fn lemma_rat_trans(n1: int, d1: int, n2: int, d2: int, n3: int, d3: int)
    requires
        d1 > 0,
        d2 > 0,
        d3 > 0,
        rat_ge(n2, d2, n3, d3),
        !rat_ge(n1, d1, n3, d3),
    ensures
        rat_ge(n2, d2, n1, d1),
{
    assert(n2 * d1 >= n1 * d2) by (nonlinear_arith)
        requires
            d1 > 0,
            d2 > 0,
            d3 > 0,
            n2 * d3 >= n3 * d2,
            n1 * d3 < n3 * d1,
    ;
}

/// Chained transitivity for rational comparisons with positive
/// denominators.
pub proof fn lemma_rat_le_trans(n1: int, d1: int, n2: int, d2: int, n3: int, d3: int)
    requires
        d1 > 0,
        d2 > 0,
        d3 > 0,
        rat_le(n1, d1, n2, d2),
        rat_le(n2, d2, n3, d3),
    ensures
        rat_le(n1, d1, n3, d3),
{
    assert(n1 * d3 <= n3 * d1) by (nonlinear_arith)
        requires
            d1 > 0,
            d2 > 0,
            d3 > 0,
            n1 * d2 <= n2 * d1,
            n2 * d3 <= n3 * d2,
    ;
}

/// When the chosen axis is defined, it attains the entry time, so at least
/// one normal component is nonzero.
proof fn lemma_some_axis_at_max(a: SweepBox, b: Aabbx)
    requires
        axis_defined(a, max_axis(a, b)),
    ensures
        at_max(a, b, max_axis(a, b)),
{
    if entry_ge(a, b, 0, 1) && entry_ge(a, b, 0, 2) {
        // The x axis was chosen and dominates both others.
    } else if entry_ge(a, b, 1, 2) {
        // The y axis was chosen; it dominates z by the branch condition and
        // dominates x because x failed to dominate one of the others.
        if !entry_ge(a, b, 0, 1) {
            assert(entry_ge(a, b, 1, 0));
        } else {
            if axis_defined(a, 0) {
                lemma_rat_trans(
                    entry_num(a, b, 0), axis_den(a, 0),
                    entry_num(a, b, 1), axis_den(a, 1),
                    entry_num(a, b, 2), axis_den(a, 2),
                );
            }
        }
    } else {
        // The z axis was chosen; y failed to dominate it, and x failed to
        // dominate either y or z.
        assert(entry_ge(a, b, 2, 1));
        if !entry_ge(a, b, 0, 2) {
            assert(entry_ge(a, b, 2, 0));
        } else {
            if axis_defined(a, 0) {
                lemma_rat_trans(
                    entry_num(a, b, 0), axis_den(a, 0),
                    entry_num(a, b, 2), axis_den(a, 2),
                    entry_num(a, b, 1), axis_den(a, 1),
                );
            }
        }
    }
}

} // verus!
