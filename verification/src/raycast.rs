//! Voxel-grid ray traversal for look-at targeting: starting from a
//! fixed-point origin, step one voxel boundary at a time along the axis with
//! the smallest parametric distance until a solid block is entered or the
//! ray leaves its radius.
//!
//! All parametric distances are exact rationals over the fixed-point
//! direction, compared by cross-multiplication, so the traversal is fully
//! deterministic: ties between axes prefer x, then y, then z.

use vstd::prelude::*;
use crate::block::Block;
use crate::physics::{rat_le, lemma_i64_product_fits};
use crate::vecmath::{Vec3i, Vec3x, sign, floor_div_i64, SCALE};
use crate::world::{World, coord_ok};

verus! {

/// Largest accepted magnitude of a direction component.
pub const RAY_DIR_BOUND: i64 = 1_000_000;

/// Largest accepted ray radius, in milli-blocks.
pub const RAY_RADIUS_BOUND: i64 = 1_000_000_000;

/// Largest accepted magnitude of an origin component, in milli-blocks.
pub const RAY_ORIGIN_BOUND: i64 = 1_000_000_000_000;

/// The first solid voxel a ray enters, and the face it entered through. A
/// zero normal means the ray started inside the voxel.
#[derive(Clone, Copy, Debug, PartialEq, Eq, Structural)]
pub struct RaycastOutput {
    pub position: Vec3i,
    pub normal: Vec3i,
}

/// The absolute value of an integer.
pub open spec fn abs_i(v: int) -> int {
    if v >= 0 {
        v
    } else {
        -v
    }
}

/// Whether the ray stops in voxel `v`: its block is loaded and not air.
pub open spec fn spec_solid(world: World, v: Vec3i) -> bool {
    match world.spec_get_block(v) {
        Some(b) => !b.ty.spec_is_air(),
        None => false,
    }
}

/// The axis whose boundary the traversal crosses next: the defined axis
/// with the smallest parametric distance, preferring x, then y, then z on
/// ties; 3 when no axis is defined (a degenerate zero direction).
pub open spec fn pick_axis(dx: int, dy: int, dz: int, nx: int, ny: int, nz: int) -> int {
    let def0 = dx != 0;
    let def1 = dy != 0;
    let def2 = dz != 0;
    if def0 && (!def1 || rat_le(nx, abs_i(dx), ny, abs_i(dy)))
        && (!def2 || rat_le(nx, abs_i(dx), nz, abs_i(dz))) {
        0
    } else if def1 && (!def2 || rat_le(ny, abs_i(dy), nz, abs_i(dz))) {
        1
    } else if def2 {
        2
    } else {
        3
    }
}

/// One step of the traversal from voxel `v`, where `nx / |dx|` (and so on)
/// is the parametric distance at which the ray crosses the next voxel
/// boundary on each axis. The step crosses the nearest boundary; the ray
/// ends with no hit when that crossing lies beyond the radius, and with a
/// hit when the voxel entered holds a solid block.
pub open spec fn ray_step(
    world: World,
    d: Vec3x,
    radius: int,
    v: Vec3i,
    nx: int,
    ny: int,
    nz: int,
    fuel: nat,
) -> Option<RaycastOutput>
    decreases fuel,
{
    let dd = (d.x as int) * (d.x as int) + (d.y as int) * (d.y as int) + (d.z as int) * (d.z as int);
    if fuel == 0 {
        None
    } else {
        let m = pick_axis(d.x as int, d.y as int, d.z as int, nx, ny, nz);
        if m == 3 {
            None
        } else {
            let n_m = if m == 0 { nx } else if m == 1 { ny } else { nz };
            let den_m = if m == 0 { abs_i(d.x as int) } else if m == 1 { abs_i(d.y as int) } else { abs_i(d.z as int) };
            let step = if m == 0 { sign(d.x as int) } else if m == 1 { sign(d.y as int) } else { sign(d.z as int) };
            if n_m * n_m * dd > radius * radius * den_m * den_m {
                None
            } else {
                let v2 = Vec3i {
                    x: if m == 0 { (v.x + step) as i32 } else { v.x },
                    y: if m == 1 { (v.y + step) as i32 } else { v.y },
                    z: if m == 2 { (v.z + step) as i32 } else { v.z },
                };
                if spec_solid(world, v2) {
                    Some(RaycastOutput {
                        position: v2,
                        normal: Vec3i {
                            x: if m == 0 { (-step) as i32 } else { 0 },
                            y: if m == 1 { (-step) as i32 } else { 0 },
                            z: if m == 2 { (-step) as i32 } else { 0 },
                        },
                    })
                } else {
                    ray_step(
                        world,
                        d,
                        radius,
                        v2,
                        if m == 0 { nx + 1000 } else { nx },
                        if m == 1 { ny + 1000 } else { ny },
                        if m == 2 { nz + 1000 } else { nz },
                        (fuel - 1) as nat,
                    )
                }
            }
        }
    }
}

/// The voxel containing fixed-point coordinate `c`.
pub open spec fn voxel_of(c: int) -> int {
    c / 1000
}

/// The initial parametric numerator on one axis: the fixed-point distance
/// from the origin to the first voxel boundary in the direction of motion.
pub open spec fn init_num(o: int, d: int) -> int {
    if d > 0 {
        (voxel_of(o) + 1) * 1000 - o
    } else if d < 0 {
        o - voxel_of(o) * 1000
    } else {
        0
    }
}

/// Steps afforded to a ray of the given radius: enough boundary crossings
/// to cover the radius on all three axes.
pub open spec fn ray_budget(radius: int) -> nat {
    (3 * (radius / 1000) + 3) as nat
}

/// The ray traversal as a whole: no hit for a degenerate zero direction; an
/// immediate hit with a zero normal when the starting voxel is already
/// solid; otherwise the boundary-by-boundary traversal.
pub open spec fn spec_raycast(world: World, origin: Vec3x, d: Vec3x, radius: i64) -> Option<
    RaycastOutput,
> {
    let v0 = Vec3i {
        x: voxel_of(origin.x as int) as i32,
        y: voxel_of(origin.y as int) as i32,
        z: voxel_of(origin.z as int) as i32,
    };
    if d.x == 0 && d.y == 0 && d.z == 0 {
        None
    } else if spec_solid(world, v0) {
        Some(RaycastOutput { position: v0, normal: Vec3i { x: 0, y: 0, z: 0 } })
    } else {
        ray_step(
            world,
            d,
            radius as int,
            v0,
            init_num(origin.x as int, d.x as int),
            init_num(origin.y as int, d.y as int),
            init_num(origin.z as int, d.z as int),
            ray_budget(radius as int),
        )
    }
}

/// Whether the raycast inputs are within the accepted fixed-point range.
pub open spec fn ray_inputs_ok(origin: Vec3x, d: Vec3x, radius: i64) -> bool {
    &&& -RAY_ORIGIN_BOUND <= origin.x <= RAY_ORIGIN_BOUND
    &&& -RAY_ORIGIN_BOUND <= origin.y <= RAY_ORIGIN_BOUND
    &&& -RAY_ORIGIN_BOUND <= origin.z <= RAY_ORIGIN_BOUND
    &&& -RAY_DIR_BOUND <= d.x <= RAY_DIR_BOUND
    &&& -RAY_DIR_BOUND <= d.y <= RAY_DIR_BOUND
    &&& -RAY_DIR_BOUND <= d.z <= RAY_DIR_BOUND
    &&& 0 <= radius <= RAY_RADIUS_BOUND
}

/// Decide `n_m * n_m * dd > radius * radius * den_m * den_m` exactly.
fn beyond_radius(n_m: i64, den_m: i64, dd: i64, radius: i64) -> (r: bool)
    requires
        0 <= n_m <= 4_000_000_000,
        0 < den_m <= RAY_DIR_BOUND,
        0 < dd <= 3_000_000_000_000,
        0 <= radius <= RAY_RADIUS_BOUND,
    ensures
        r == ((n_m as int) * (n_m as int) * (dd as int)
            > (radius as int) * (radius as int) * (den_m as int) * (den_m as int)),
{
    proof {
        lemma_i64_product_fits(n_m as int, n_m as int);
        assert(0 <= (n_m as int) * (n_m as int) * (dd as int)
            <= 16_000_000_000_000_000_000 * 3_000_000_000_000) by (nonlinear_arith)
            requires
                0 <= n_m <= 4_000_000_000,
                0 < dd <= 3_000_000_000_000,
        ;
        lemma_i64_product_fits(radius as int, radius as int);
        assert(0 <= (radius as int) * (radius as int) * (den_m as int)
            <= 0x4_0000_0000_0000_0000 * 0x10_0000
            && 0 <= (radius as int) * (radius as int) * (den_m as int) * (den_m as int)
            <= 0x4_0000_0000_0000_0000 * 0x10_0000 * 0x10_0000)
            by (nonlinear_arith)
            requires
                0 <= radius <= RAY_RADIUS_BOUND,
                0 < den_m <= RAY_DIR_BOUND,
                RAY_RADIUS_BOUND == 1_000_000_000,
                RAY_DIR_BOUND == 1_000_000,
        ;
    }
    let lhs: i128 = (n_m as i128) * (n_m as i128) * (dd as i128);
    let rhs: i128 = (radius as i128) * (radius as i128) * (den_m as i128) * (den_m as i128);
    lhs > rhs
}

/// Compare two parametric distances `n1 / d1 <= n2 / d2` exactly.
fn tmax_le_exec(n1: i64, d1: i64, n2: i64, d2: i64) -> (r: bool)
    requires
        d1 > 0,
        d2 > 0,
    ensures
        r == rat_le(n1 as int, d1 as int, n2 as int, d2 as int),
{
    proof {
        lemma_i64_product_fits(n1 as int, d2 as int);
        lemma_i64_product_fits(n2 as int, d1 as int);
    }
    (n1 as i128) * (d2 as i128) <= (n2 as i128) * (d1 as i128)
}

/// Find the first solid voxel within `radius` along the ray from `origin`
/// in direction `direction`, together with the face normal it was entered
/// through. A ray starting inside a solid voxel reports that voxel with a
/// zero normal; a zero direction reports no hit.
pub fn raycast(world: &World, origin: Vec3x, direction: Vec3x, radius: i64) -> (r: Option<
    RaycastOutput,
>)
    requires
        world.wf(),
        ray_inputs_ok(origin, direction, radius),
    ensures
        r == spec_raycast(*world, origin, direction, radius),
        r matches Some(out) ==> spec_solid(*world, out.position),
        r matches Some(out) ==> {
            &&& -3_000_004 <= out.position.x - origin.x as int / 1000 <= 3_000_004
            &&& -3_000_004 <= out.position.y - origin.y as int / 1000 <= 3_000_004
            &&& -3_000_004 <= out.position.z - origin.z as int / 1000 <= 3_000_004
            &&& -1 <= out.normal.x <= 1
            &&& -1 <= out.normal.y <= 1
            &&& -1 <= out.normal.z <= 1
        },
{
    let dx = direction.x;
    let dy = direction.y;
    let dz = direction.z;
    if dx == 0 && dy == 0 && dz == 0 {
        return None;
    }
    let v0 = Vec3i {
        x: floor_div_i64(origin.x, SCALE) as i32,
        y: floor_div_i64(origin.y, SCALE) as i32,
        z: floor_div_i64(origin.z, SCALE) as i32,
    };
    proof {
        assert(coord_ok(v0));
    }
    if is_solid(world, v0) {
        return Some(RaycastOutput { position: v0, normal: Vec3i { x: 0, y: 0, z: 0 } });
    }

    proof {
        assert(0 <= dx * dx <= 1_000_000_000_000 && 0 <= dy * dy <= 1_000_000_000_000
            && 0 <= dz * dz <= 1_000_000_000_000 && (dx != 0 ==> dx * dx > 0)
            && (dy != 0 ==> dy * dy > 0) && (dz != 0 ==> dz * dz > 0)) by (nonlinear_arith)
            requires
                -RAY_DIR_BOUND <= dx <= RAY_DIR_BOUND,
                -RAY_DIR_BOUND <= dy <= RAY_DIR_BOUND,
                -RAY_DIR_BOUND <= dz <= RAY_DIR_BOUND,
                RAY_DIR_BOUND == 1_000_000,
        ;
    }
    let dd: i64 = dx * dx + dy * dy + dz * dz;
    let den_x: i64 = if dx >= 0 { dx } else { -dx };
    let den_y: i64 = if dy >= 0 { dy } else { -dy };
    let den_z: i64 = if dz >= 0 { dz } else { -dz };

    let mut nx: i64;
    let mut ny: i64;
    let mut nz: i64;
    if dx > 0 {
        nx = (v0.x as i64 + 1) * SCALE - origin.x;
    } else if dx < 0 {
        nx = origin.x - (v0.x as i64) * SCALE;
    } else {
        nx = 0;
    }
    if dy > 0 {
        ny = (v0.y as i64 + 1) * SCALE - origin.y;
    } else if dy < 0 {
        ny = origin.y - (v0.y as i64) * SCALE;
    } else {
        ny = 0;
    }
    if dz > 0 {
        nz = (v0.z as i64 + 1) * SCALE - origin.z;
    } else if dz < 0 {
        nz = origin.z - (v0.z as i64) * SCALE;
    } else {
        nz = 0;
    }
    proof {
        assert(nx == init_num(origin.x as int, dx as int));
        assert(ny == init_num(origin.y as int, dy as int));
        assert(nz == init_num(origin.z as int, dz as int));
    }

    let budget: i64 = 3 * (radius / SCALE) + 3;
    let mut fuel: i64 = budget;
    let mut v = v0;
    while fuel > 0
        invariant
            world.wf(),
            ray_inputs_ok(origin, direction, radius),
            direction.x == dx && direction.y == dy && direction.z == dz,
            !(dx == 0 && dy == 0 && dz == 0),
            dd == dx * dx + dy * dy + dz * dz,
            0 < dd <= 3_000_000_000_000,
            den_x == abs_i(dx as int) && den_y == abs_i(dy as int) && den_z == abs_i(dz as int),
            budget == 3 * (radius as int / 1000) + 3,
            0 <= fuel <= budget,
            budget <= 3_000_003,
            -1_000_000_001 <= v0.x <= 1_000_000_001,
            -1_000_000_001 <= v0.y <= 1_000_000_001,
            -1_000_000_001 <= v0.z <= 1_000_000_001,
            v0.x == origin.x as int / 1000,
            v0.y == origin.y as int / 1000,
            v0.z == origin.z as int / 1000,
            fuel - budget <= v.x - v0.x <= budget - fuel,
            fuel - budget <= v.y - v0.y <= budget - fuel,
            fuel - budget <= v.z - v0.z <= budget - fuel,
            0 <= nx <= 1000 * (budget - fuel) + 1000,
            0 <= ny <= 1000 * (budget - fuel) + 1000,
            0 <= nz <= 1000 * (budget - fuel) + 1000,
            spec_raycast(*world, origin, direction, radius) == ray_step(
                *world,
                direction,
                radius as int,
                v,
                nx as int,
                ny as int,
                nz as int,
                fuel as nat,
            ),
        decreases fuel,
    {
        // Choose the axis whose next boundary crossing is nearest.
        let m: usize = if dx != 0 && (dy == 0 || tmax_le_exec(nx, den_x, ny, den_y))
            && (dz == 0 || tmax_le_exec(nx, den_x, nz, den_z)) {
            0
        } else if dy != 0 && (dz == 0 || tmax_le_exec(ny, den_y, nz, den_z)) {
            1
        } else {
            2
        };
        proof {
            assert(m as int == pick_axis(dx as int, dy as int, dz as int, nx as int, ny as int, nz as int));
        }
        let n_m: i64 = if m == 0 { nx } else if m == 1 { ny } else { nz };
        let den_m: i64 = if m == 0 { den_x } else if m == 1 { den_y } else { den_z };
        if beyond_radius(n_m, den_m, dd, radius) {
            return None;
        }
        let step: i64 = if m == 0 {
            if dx > 0 { 1 } else { -1 }
        } else if m == 1 {
            if dy > 0 { 1 } else { -1 }
        } else {
            if dz > 0 { 1 } else { -1 }
        };
        proof {
            assert(-0x4000_0000 < v.x - 1 && v.x + 1 < 0x4000_0000);
            assert(-0x4000_0000 < v.y - 1 && v.y + 1 < 0x4000_0000);
            assert(-0x4000_0000 < v.z - 1 && v.z + 1 < 0x4000_0000);
        }
        let v2 = Vec3i {
            x: if m == 0 { v.x + step as i32 } else { v.x },
            y: if m == 1 { v.y + step as i32 } else { v.y },
            z: if m == 2 { v.z + step as i32 } else { v.z },
        };
        if is_solid(world, v2) {
            return Some(RaycastOutput {
                position: v2,
                normal: Vec3i {
                    x: if m == 0 { -step as i32 } else { 0 },
                    y: if m == 1 { -step as i32 } else { 0 },
                    z: if m == 2 { -step as i32 } else { 0 },
                },
            });
        }
        v = v2;
        if m == 0 {
            nx = nx + 1000;
        } else if m == 1 {
            ny = ny + 1000;
        } else {
            nz = nz + 1000;
        }
        fuel = fuel - 1;
    }
    None
}

/// Whether the voxel at `v` is loaded and holds a non-air block.
fn is_solid(world: &World, v: Vec3i) -> (r: bool)
    requires
        world.wf(),
        coord_ok(v),
    ensures
        r == spec_solid(*world, v),
{
    match world.get_block(v) {
        Some(b) => !b.ty.is_air(),
        None => false,
    }
}

} // verus!
