//! The block-light rule: how one block's cached light value is recomputed
//! from its own kind, its sky exposure and its six face neighbors.
//!
//! Light attenuates by a fixed step per block of adjacency distance. A
//! neighbor that is the declared source of the update may not raise the
//! target back above its previous value; this stops light reflecting back to
//! its own origin and oscillating.

use vstd::prelude::*;
use crate::block::Block;
use crate::vecmath::Vec3i;
use crate::world::{World, coord_ok, face_neighbors, spec_face_neighbor};

verus! {

/// How much light is lost crossing one face adjacency.
pub const ATTENUATION: u8 = 16;

/// A light value one attenuation step below `l`, floored at zero.
pub open spec fn attenuated(l: u8) -> u8 {
    if l >= 16 {
        (l - 16) as u8
    } else {
        0u8
    }
}

/// The light that neighbor `nb` at `p` contributes to `block`: the neighbor's
/// light less one attenuation step, except that the update's declared source
/// may not raise the block above its previous value.
pub open spec fn light_from(block: Block, p: Vec3i, nb: Block, source: Option<Vec3i>) -> u8 {
    let nl = attenuated(nb.light);
    if nl < block.light && source == Some(p) {
        0u8
    } else {
        nl
    }
}

/// The contribution of face neighbor `f` of `position`, or zero when that
/// neighbor's chunk is not loaded.
pub open spec fn face_contribution(
    world: World,
    position: Vec3i,
    block: Block,
    source: Option<Vec3i>,
    f: int,
) -> u8 {
    match world.spec_get_block(spec_face_neighbor(position, f)) {
        Some(nb) => light_from(block, spec_face_neighbor(position, f), nb, source),
        None => 0u8,
    }
}

/// The greatest contribution among the first `n` face neighbors.
pub open spec fn max_face_contribution(
    world: World,
    position: Vec3i,
    block: Block,
    source: Option<Vec3i>,
    n: int,
) -> u8
    decreases n,
{
    if n <= 0 {
        0u8
    } else {
        let prev = max_face_contribution(world, position, block, source, n - 1);
        let cur = face_contribution(world, position, block, source, n - 1);
        if cur > prev {
            cur
        } else {
            prev
        }
    }
}

/// The light value the propagation rule assigns to `block` at `position`:
/// full sun for a light-passing block open to the sky; a fixed emission for
/// an emitting kind; the attenuated maximum of the face neighbors for a
/// light-passing block; zero for an opaque, non-emitting block.
pub open spec fn spec_block_light(
    world: World,
    position: Vec3i,
    block: Block,
    source: Option<Vec3i>,
) -> u8 {
    if block.ty.spec_light_passing() && block.open_to_sky {
        255u8
    } else if block.ty.spec_light_emission() is Some {
        block.ty.spec_light_emission().unwrap()
    } else if block.ty.spec_light_passing() {
        max_face_contribution(world, position, block, source, 6)
    } else {
        0u8
    }
}

/// Block coordinates strictly inside the accepted range, so that every face
/// neighbor is also an acceptable coordinate.
pub open spec fn coord_interior(p: Vec3i) -> bool {
    &&& -0x4000_0000 < p.x < 0x3fff_ffff
    &&& -0x4000_0000 < p.y < 0x3fff_ffff
    &&& -0x4000_0000 < p.z < 0x3fff_ffff
}

/// A face neighbor of an interior coordinate is itself an acceptable
/// coordinate.
pub proof fn lemma_neighbor_coord_ok(p: Vec3i, f: int)
    requires
        coord_ok(p),
        coord_interior(p),
        0 <= f < 6,
    ensures
        coord_ok(spec_face_neighbor(p, f)),
{
}

/// Recompute the cached light value of `block` at `position` against the
/// current neighbor state. `source` names the neighbor whose change caused
/// this update, or `None` for a direct edit.
pub fn calculate_block_light(
    world: &World,
    position: Vec3i,
    block: Block,
    source: Option<Vec3i>,
) -> (r: u8)
    requires
        world.wf(),
        coord_ok(position),
        coord_interior(position),
    ensures
        r == spec_block_light(*world, position, block, source),
{
    if block.ty.light_passing() && block.open_to_sky {
        return 255;
    }
    match block.ty.light_emission() {
        Some(emission) => emission,
        None => {
            if block.ty.light_passing() {
                let neighbors = face_neighbors(position);
                let mut best: u8 = 0;
                let mut f: usize = 0;
                while f < 6
                    invariant
                        world.wf(),
                        coord_ok(position),
                        coord_interior(position),
                        f <= 6,
                        forall|k: int| 0 <= k < 6 ==> neighbors@[k] == spec_face_neighbor(position, k),
                        best == max_face_contribution(*world, position, block, source, f as int),
                    decreases 6 - f,
                {
                    let p = neighbors[f];
                    proof {
                        lemma_neighbor_coord_ok(position, f as int);
                    }
                    match world.get_block(p) {
                        Some(nb) => {
                            let nl = if nb.light >= ATTENUATION {
                                nb.light - ATTENUATION
                            } else {
                                0
                            };
                            let contribution = if nl < block.light && source == Some(p) {
                                0
                            } else {
                                nl
                            };
                            if contribution > best {
                                best = contribution;
                            }
                        },
                        None => {},
                    }
                    f = f + 1;
                }
                best
            } else {
                0
            }
        },
    }
}

/// Whether `position` counts as open to the sky: the block directly above is
/// missing (the loaded world's edge) or both passes light and is itself open
/// to the sky.
pub open spec fn spec_open_to_sky(world: World, position: Vec3i) -> bool {
    match world.spec_get_block(spec_face_neighbor(position, 1)) {
        Some(above) => above.ty.spec_light_passing() && above.open_to_sky,
        None => true,
    }
}

/// Recompute the sky exposure of `position` from the block above it.
pub fn compute_open_to_sky(world: &World, position: Vec3i) -> (r: bool)
    requires
        world.wf(),
        coord_ok(position),
        coord_interior(position),
    ensures
        r == spec_open_to_sky(*world, position),
{
    let above = Vec3i { x: position.x, y: position.y + 1, z: position.z };
    match world.get_block(above) {
        Some(block_above) => block_above.ty.light_passing() && block_above.open_to_sky,
        None => true,
    }
}

/// The block the lighting engine stores back for `block` at `position`:
/// the same kind with its sky exposure, occlusion flag and light value
/// recomputed against the current neighbor state. The sky and occlusion
/// flags are refreshed first, and the light rule reads the refreshed sky
/// flag.
pub open spec fn spec_recompute_block(
    world: World,
    position: Vec3i,
    block: Block,
    source: Option<Vec3i>,
) -> Block {
    let staged = Block {
        ty: block.ty,
        light: block.light,
        open_to_sky: spec_open_to_sky(world, position),
        occluded: spec_occluded(world, position),
    };
    Block { light: spec_block_light(world, position, staged, source), ..staged }
}

/// Recompute the cached fields of `block` at `position`: one unit of the
/// incremental lighting protocol.
pub fn recompute_block(
    world: &World,
    position: Vec3i,
    block: Block,
    source: Option<Vec3i>,
) -> (r: Block)
    requires
        world.wf(),
        coord_ok(position),
        coord_interior(position),
    ensures
        r == spec_recompute_block(*world, position, block, source),
        r.ty == block.ty,
{
    let open = compute_open_to_sky(world, position);
    let occl = compute_occluded(world, position);
    let staged = Block { ty: block.ty, light: block.light, open_to_sky: open, occluded: occl };
    let light = calculate_block_light(world, position, staged, source);
    Block { light, ..staged }
}

/// Whether face neighbor `f` of `position` is loaded and blocks light.
pub open spec fn face_opaque(world: World, position: Vec3i, f: int) -> bool {
    match world.spec_get_block(spec_face_neighbor(position, f)) {
        Some(nb) => !nb.ty.spec_light_passing(),
        None => false,
    }
}

/// Whether every face neighbor of `position` is loaded and blocks light, so
/// the block can never be seen.
pub open spec fn spec_occluded(world: World, position: Vec3i) -> bool {
    forall|f: int| 0 <= f < 6 ==> #[trigger] face_opaque(world, position, f)
}

/// Recompute the occlusion flag of `position` from its six face neighbors.
pub fn compute_occluded(world: &World, position: Vec3i) -> (r: bool)
    requires
        world.wf(),
        coord_ok(position),
        coord_interior(position),
    ensures
        r == spec_occluded(*world, position),
{
    let neighbors = face_neighbors(position);
    let mut f: usize = 0;
    let mut all_opaque = true;
    while f < 6
        invariant
            world.wf(),
            coord_ok(position),
            coord_interior(position),
            f <= 6,
            forall|k: int| 0 <= k < 6 ==> neighbors@[k] == spec_face_neighbor(position, k),
            all_opaque ==> forall|k: int| 0 <= k < f ==> #[trigger] face_opaque(*world, position, k),
            !all_opaque ==> exists|k: int| 0 <= k < f && !(#[trigger] face_opaque(*world, position, k)),
        decreases 6 - f,
    {
        proof {
            lemma_neighbor_coord_ok(position, f as int);
        }
        let opaque_here = match world.get_block(neighbors[f]) {
            Some(nb) => !nb.ty.light_passing(),
            None => false,
        };
        proof {
            assert(opaque_here == face_opaque(*world, position, f as int));
        }
        all_opaque = all_opaque && opaque_here;
        f = f + 1;
    }
    proof {
        if !all_opaque {
            let k = choose|k: int| 0 <= k < 6 && !(#[trigger] face_opaque(*world, position, k));
            assert(!spec_occluded(*world, position));
        }
    }
    all_opaque
}

/// Whether every loaded block's sky flag agrees with the sky rule: the
/// fixed point the incremental engine drives the world towards.
pub open spec fn sky_consistent(world: World) -> bool {
    forall|p: Vec3i|
        coord_ok(p) && coord_interior(p) && (#[trigger] world.spec_get_block(p)) is Some
            ==> world.spec_get_block(p).unwrap().open_to_sky == spec_open_to_sky(world, p)
}

/// Sky exposure, second half: at the sky fixed point, every loaded cell of
/// a column strictly below a light-blocking block has `open_to_sky` false,
/// however far down, as long as the cells between are loaded.
pub proof fn lemma_opaque_blocks_sky_below(world: World, x: i32, z: i32, y_block: i32, y: i32)
    requires
        world.wf(),
        sky_consistent(world),
        -600_000_000 <= x <= 600_000_000,
        -600_000_000 <= z <= 600_000_000,
        -600_000_000 <= y,
        y < y_block <= 600_000_000,
        world.spec_get_block(Vec3i { x, y: y_block, z }) matches Some(b)
            && !b.ty.spec_light_passing(),
        forall|y2: int|
            y < y2 < y_block ==> (#[trigger] world.spec_get_block(
                Vec3i { x, y: y2 as i32, z },
            )) is Some,
        world.spec_get_block(Vec3i { x, y, z }) is Some,
    ensures
        !world.spec_get_block(Vec3i { x, y, z }).unwrap().open_to_sky,
    decreases y_block - y,
{
    let p = Vec3i { x, y, z };
    let above = Vec3i { x, y: (y + 1) as i32, z };
    assert(spec_face_neighbor(p, 1) == above);
    if y + 1 == y_block {
        // Directly under the blocker.
        assert(!spec_open_to_sky(world, p));
    } else {
        assert(world.spec_get_block(above) is Some);
        lemma_opaque_blocks_sky_below(world, x, z, y_block, (y + 1) as i32);
        assert(!spec_open_to_sky(world, p));
    }
}

/// Sky exposure, first half: at the sky fixed point, every cell of a loaded
/// column of light-passing blocks that reaches the top of the loaded world
/// has `open_to_sky` true.
pub proof fn lemma_open_column_sky(world: World, x: i32, z: i32, y_top: i32, y: i32)
    requires
        world.wf(),
        sky_consistent(world),
        -600_000_000 <= x <= 600_000_000,
        -600_000_000 <= z <= 600_000_000,
        -600_000_000 <= y,
        y <= y_top <= 600_000_000,
        world.spec_get_block(Vec3i { x, y: (y_top + 1) as i32, z }) is None,
        forall|y2: int|
            y <= y2 <= y_top ==> ((#[trigger] world.spec_get_block(Vec3i { x, y: y2 as i32, z }))
                matches Some(b) && b.ty.spec_light_passing()),
    ensures
        world.spec_get_block(Vec3i { x, y, z }).unwrap().open_to_sky,
    decreases y_top - y,
{
    let p = Vec3i { x, y, z };
    let above = Vec3i { x, y: (y + 1) as i32, z };
    assert(spec_face_neighbor(p, 1) == above);
    assert((world.spec_get_block(Vec3i { x, y: y as i32, z }) matches Some(b)
        && b.ty.spec_light_passing()));
    if y == y_top {
        assert(spec_open_to_sky(world, p));
    } else {
        lemma_open_column_sky(world, x, z, y_top, (y + 1) as i32);
        assert(spec_open_to_sky(world, p));
    }
}

} // verus!
