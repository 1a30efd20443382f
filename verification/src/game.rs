//! Per-tick orchestration: player state, movement and gravity, collision
//! resolution, look-at targeting, block edits, the incremental lighting
//! queue, and the decisions that drive terrain streaming.
//!
//! Positions and velocities are fixed-point milli-blocks. One tick is a
//! fixed `1 / TICK_RATE` of a second.

use vstd::prelude::*;
use crate::block::{Block, BlockType};
use crate::chunk::{Chunk, flat_index, in_chunk};
use crate::input::{InputState, KEY_SPACE, KEY_LSHIFT, KEY_P, MOUSE_LEFT, MOUSE_MIDDLE, MOUSE_RIGHT};
use crate::vecmath::{Vec3i, Vec3x, floor_div_i64, euclid_rem_i64, isqrt_u64, tdiv, clamp_s, clamp_i64, lemma_tdiv_bound, SCALE};
use crate::physics::{
    SweepBox, Aabbx, SweepTestResult, rat_le, rat_le_exec, sweep_test, spec_hit, spec_sweep_result,
    entry_num, axis_den, max_axis, axis_amin, axis_amax, axis_vel, sweep_inputs_ok, sweep_vec_ok,
    lemma_rat_le_trans,
};
use vstd::arithmetic::div_mod::lemma_fundamental_div_mod;
use crate::raycast::{RaycastOutput, raycast, spec_raycast, ray_inputs_ok};
use crate::world::{World, WorldError, coord_ok, chunk_of, local_of, in_window, face_neighbors, spec_face_neighbor};
use crate::light::{coord_interior, recompute_block, spec_recompute_block};

verus! {

/// Simulation ticks per second.
pub const TICK_RATE: u32 = 16;

/// Downward acceleration, in milli-blocks per second per second.
pub const GRAVITY: i64 = 16_000;

/// Walking speed, in milli-blocks per second.
pub const SPEED: i64 = 6_000;


/// Largest position component the simulation accepts, in milli-blocks.
pub const POS_CAP: i64 = 200_000_000_000;

/// Largest velocity component the simulation accepts, in milli-blocks per
/// second.
pub const VEL_CAP: i64 = 1_000_000_000;

/// How far the look-at ray reaches, in milli-blocks.
pub const RAYCAST_RADIUS: i64 = 7_500;

/// One unit of lighting work: recompute the cached fields of `target`.
/// `source` names the neighbor whose change triggered the update, or `None`
/// for a direct edit; `state_changed` marks a cascade from a genuine value
/// change rather than a routine re-check.
#[derive(Clone, Copy, Debug, PartialEq, Eq, Structural)]
pub struct BlockUpdate {
    pub target: Vec3i,
    pub source: Option<Vec3i>,
    pub state_changed: bool,
}

/// A non-block inventory item.
#[derive(Clone, Copy, Debug, PartialEq, Eq, Structural)]
pub enum Item {
    Empty,
}

impl Item {
    /// A short human-readable label, in contracts.
    pub open spec fn spec_name(self) -> Seq<char> {
        "Empty"@
    }

    /// A short human-readable label.
    pub fn name(&self) -> (r: &'static str)
        ensures
            r@ == self.spec_name(),
    {
        "Empty"
    }
}

impl Default for Item {
    fn default() -> (r: Self)
        ensures
            r == Item::Empty,
    {
        Item::Empty
    }
}

/// What a hotbar slot can hold.
#[derive(Clone, Copy, Debug, PartialEq, Eq, Structural)]
pub enum BlockOrItem {
    Item(Item),
    Block(BlockType),
}

impl BlockOrItem {
    /// A short human-readable label: the wrapped value's own label.
    pub open spec fn spec_name(self) -> Seq<char> {
        match self {
            BlockOrItem::Item(item) => item.spec_name(),
            BlockOrItem::Block(block) => block.spec_name(),
        }
    }

    /// A short human-readable label.
    pub fn name(&self) -> (r: &'static str)
        ensures
            r@ == self.spec_name(),
    {
        match self {
            BlockOrItem::Item(item) => item.name(),
            BlockOrItem::Block(block) => block.name(),
        }
    }
}

/// Nine selectable slots, one of them active.
#[derive(Clone, Debug, PartialEq, Eq)]
pub struct Hotbar {
    pub slots: Vec<Option<BlockOrItem>>,
    pub active: usize,
}

impl Hotbar {
    /// Nine slots and an active index inside them.
    pub open spec fn wf(self) -> bool {
        &&& self.slots@.len() == 9
        &&& self.active < 9
    }

    /// An empty hotbar with the first slot active.
    pub fn new() -> (r: Hotbar)
        ensures
            r.wf(),
            r.active == 0,
            forall|i: int| 0 <= i < 9 ==> (#[trigger] r.slots@[i]) is None,
    {
        let mut slots: Vec<Option<BlockOrItem>> = Vec::new();
        let mut i: usize = 0;
        while i < 9
            invariant
                i <= 9,
                slots@.len() == i,
                forall|j: int| 0 <= j < i ==> (#[trigger] slots@[j]) is None,
            decreases 9 - i,
        {
            slots.push(None);
            i = i + 1;
        }
        Hotbar { slots, active: 0 }
    }
}

/// The simulation state driven once per tick: the loaded world, the player's
/// pose and motion, the current look-at target, the lighting work queue, and
/// the chunk coordinates waiting to be streamed in.
pub struct Game {
    pub world: World,
    /// The viewpoint position, in milli-blocks.
    pub position: Vec3x,
    /// The player's velocity, in milli-blocks per second.
    pub velocity: Vec3x,
    pub on_ground: bool,
    pub look_at_raycast: Option<RaycastOutput>,
    /// Pending lighting work, drained in bounded batches.
    pub dirty_blocks: Vec<BlockUpdate>,
    /// Lighting updates processed this tick.
    pub block_update_count: usize,
    /// Lighting updates processed since construction.
    pub total_block_update_count: usize,
    pub hotbar: Hotbar,
    pub flying: bool,
    /// Initial upward speed of a jump, in milli-blocks per second, fixed at
    /// construction from gravity and the jump height.
    pub jump_strength: i64,
    /// Chunk coordinates the streaming layer should generate, oldest first.
    pub pending_chunk_requests: Vec<Vec3i>,
}

/// The contents a sequence of chunk loads leaves at chunk coordinate `c`:
/// the payload of the last load for `c`, if any.
pub open spec fn chunks_value_at(s: Seq<(Vec3i, Chunk)>, c: Vec3i) -> Option<Seq<Block>>
    decreases s.len(),
{
    if s.len() == 0 {
        None
    } else if s.last().0 == c {
        Some(s.last().1@)
    } else {
        chunks_value_at(s.drop_last(), c)
    }
}

/// The block those loads leave at world coordinate `p`, inside the window
/// centred at the origin.
pub open spec fn loaded_block_at(s: Seq<(Vec3i, Chunk)>, p: Vec3i) -> Option<Block> {
    if in_window(Vec3i { x: 0, y: 0, z: 0 }, chunk_of(p)) {
        match chunks_value_at(s, chunk_of(p)) {
            Some(cells) => Some(cells[flat_index(local_of(p).0, local_of(p).1, local_of(p).2)]),
            None => None,
        }
    } else {
        None
    }
}

/// Where the first starter lantern is placed.
pub open spec fn lantern_a() -> Vec3i {
    Vec3i { x: 6, y: 14, z: 8 }
}

/// Where the second starter lantern is placed.
pub open spec fn lantern_b() -> Vec3i {
    Vec3i { x: -8i32, y: 14, z: -8i32 }
}

/// A freshly placed lantern block.
pub open spec fn lantern_block() -> Block {
    Block { ty: BlockType::Lantern, light: 0u8, open_to_sky: false, occluded: false }
}

/// The generated world after the first lantern write, which lands only when
/// its chunk is loaded.
pub open spec fn after_first_lantern(s: Seq<(Vec3i, Chunk)>, p: Vec3i) -> Option<Block> {
    if loaded_block_at(s, lantern_a()) is Some && p == lantern_a() {
        Some(lantern_block())
    } else {
        loaded_block_at(s, p)
    }
}

/// The world a fresh game starts with: the loaded chunks with both starter
/// lanterns written where their chunks are loaded.
pub open spec fn new_world_block(s: Seq<(Vec3i, Chunk)>, p: Vec3i) -> Option<Block> {
    if loaded_block_at(s, lantern_b()) is Some && p == lantern_b() {
        Some(lantern_block())
    } else {
        after_first_lantern(s, p)
    }
}

/// The lighting work a fresh game starts with: one direct edit per lantern
/// that landed.
pub open spec fn new_dirty_queue(s: Seq<(Vec3i, Chunk)>) -> Seq<BlockUpdate> {
    let q0 = Seq::<BlockUpdate>::empty();
    let q1 = if loaded_block_at(s, lantern_a()) is Some {
        q0.push(BlockUpdate { target: lantern_a(), source: None, state_changed: true })
    } else {
        q0
    };
    if loaded_block_at(s, lantern_b()) is Some {
        q1.push(BlockUpdate { target: lantern_b(), source: None, state_changed: true })
    } else {
        q1
    }
}

/// The hotbar a fresh game starts with.
pub open spec fn starter_slots() -> Seq<Option<BlockOrItem>> {
    seq![
        Some(BlockOrItem::Block(BlockType::Wood)),
        Some(BlockOrItem::Block(BlockType::Lantern)),
        Some(BlockOrItem::Block(BlockType::Test)),
        Some(BlockOrItem::Block(BlockType::Stone)),
        Some(BlockOrItem::Block(BlockType::Mesh)),
        None,
        None,
        None,
        None,
    ]
}

/// The fixed-point box of voxel `b`.
pub open spec fn voxel_box(b: Vec3i) -> Aabbx {
    Aabbx {
        min: Vec3x {
            x: (b.x * 1000) as i64,
            y: (b.y * 1000) as i64,
            z: (b.z * 1000) as i64,
        },
        max: Vec3x {
            x: (b.x * 1000 + 1000) as i64,
            y: (b.y * 1000 + 1000) as i64,
            z: (b.z * 1000 + 1000) as i64,
        },
    }
}

/// The lower face of the broad-phase box on axis `ax`: the swept volume
/// covering the whole displacement.
pub open spec fn broad_lo(a: SweepBox, ax: int) -> int {
    axis_amin(a, ax) + (if axis_vel(a, ax) < 0 {
        axis_vel(a, ax)
    } else {
        0int
    })
}

/// The upper face of the broad-phase box on axis `ax`.
pub open spec fn broad_hi(a: SweepBox, ax: int) -> int {
    broad_lo(a, ax) + (axis_amax(a, ax) - axis_amin(a, ax)) + (if axis_vel(a, ax) >= 0 {
        axis_vel(a, ax)
    } else {
        -axis_vel(a, ax)
    })
}

/// Whether voxel `b`'s box strictly overlaps the broad-phase box.
pub open spec fn voxel_overlaps_broad(a: SweepBox, b: Vec3i) -> bool {
    &&& b.x * 1000 < broad_hi(a, 0) && b.x * 1000 + 1000 > broad_lo(a, 0)
    &&& b.y * 1000 < broad_hi(a, 1) && b.y * 1000 + 1000 > broad_lo(a, 1)
    &&& b.z * 1000 < broad_hi(a, 2) && b.z * 1000 + 1000 > broad_lo(a, 2)
}

/// Whether voxel `b` takes part in collision resolution: loaded, solid, and
/// inside the broad-phase box.
pub open spec fn collision_candidate(world: World, a: SweepBox, b: Vec3i) -> bool {
    &&& voxel_overlaps_broad(a, b)
    &&& match world.spec_get_block(b) {
        Some(bl) => !bl.ty.spec_is_air(),
        None => false,
    }
}

/// Whether the sweep box is within the ranges collision resolution accepts.
pub open spec fn sweep_box_ok(a: SweepBox) -> bool {
    &&& sweep_vec_ok(a.collider.min)
    &&& sweep_vec_ok(a.collider.max)
    &&& sweep_vec_ok(a.velocity)
}

/// The swept player box for one resolution pass: the box at the tick's
/// initial position, moving by the displacement accumulated so far.
pub open spec fn player_sweep(initial: Vec3x, current: Vec3x) -> SweepBox {
    SweepBox {
        collider: Aabbx {
            min: Vec3x {
                x: (initial.x - 100) as i64,
                y: (initial.y - 1500) as i64,
                z: (initial.z - 100) as i64,
            },
            max: Vec3x {
                x: (initial.x + 100) as i64,
                y: (initial.y + 300) as i64,
                z: (initial.z + 100) as i64,
            },
        },
        velocity: Vec3x {
            x: (current.x - initial.x) as i64,
            y: (current.y - initial.y) as i64,
            z: (current.z - initial.z) as i64,
        },
    }
}

/// Whether the sweep hits nothing at all among the loaded solid voxels.
pub open spec fn no_collision(world: World, a: SweepBox) -> bool {
    forall|b: Vec3i| #[trigger] collision_candidate(world, a, b) ==> !spec_hit(a, voxel_box(b))
}

/// Strict x-major order on voxel coordinates: the deterministic tie-break
/// among simultaneous equal-time collisions.
pub open spec fn lex_lt(a: Vec3i, b: Vec3i) -> bool {
    ||| a.x < b.x
    ||| (a.x == b.x && a.y < b.y)
    ||| (a.x == b.x && a.y == b.y && a.z < b.z)
}

/// Whether `b` is the collision the resolver reports: a colliding candidate
/// of minimal entry time, and the x-major least among candidates of that
/// minimal time.
pub open spec fn is_first_hit(world: World, a: SweepBox, b: Vec3i) -> bool {
    &&& collision_candidate(world, a, b)
    &&& spec_hit(a, voxel_box(b))
    &&& forall|b2: Vec3i|
        #[trigger] collision_candidate(world, a, b2) && spec_hit(a, voxel_box(b2)) ==> rat_le(
            voxel_entry_num(a, b),
            voxel_entry_den(a, b),
            voxel_entry_num(a, b2),
            voxel_entry_den(a, b2),
        )
    &&& forall|b2: Vec3i|
        #[trigger] collision_candidate(world, a, b2) && spec_hit(a, voxel_box(b2)) && lex_lt(b2, b)
            ==> !rat_le(
            voxel_entry_num(a, b2),
            voxel_entry_den(a, b2),
            voxel_entry_num(a, b),
            voxel_entry_den(a, b),
        )
}

/// At most one voxel can be the reported collision.
pub proof fn lemma_first_hit_unique(world: World, a: SweepBox, b1: Vec3i, b2: Vec3i)
    requires
        is_first_hit(world, a, b1),
        is_first_hit(world, a, b2),
    ensures
        b1 == b2,
{
    if b1 != b2 {
        if lex_lt(b1, b2) {
        } else {
            assert(lex_lt(b2, b1));
        }
    }
}

/// The fixed-point displacement one tick of walking adds on one axis, given
/// that axis of the unit walk direction.
pub open spec fn walk_disp(c: int, flying: bool) -> int {
    tdiv(c * 375 * (if flying { 10int } else { 1int }), 1000)
}

/// Jump input: space minus shift, so -1, 0 or 1.
pub open spec fn up_down(input: InputState) -> int {
    let sp = input.spec_get_key(KEY_SPACE);
    let sh = input.spec_get_key(KEY_LSHIFT);
    (if sp is KeptPressed || sp is JustPressed { 1int } else { 0int })
        - (if sh is KeptPressed || sh is JustPressed { 1int } else { 0int })
}

/// The cell in front of the face a raycast hit: where a placed block goes.
pub open spec fn place_target(hl: RaycastOutput) -> Vec3i {
    Vec3i {
        x: (hl.position.x + hl.normal.x) as i32,
        y: (hl.position.y + hl.normal.y) as i32,
        z: (hl.position.z + hl.normal.z) as i32,
    }
}

/// Whether the given mouse button was pressed this very tick.
pub open spec fn just_clicked(input: InputState, button: u32) -> bool {
    input.spec_get_mouse_button(button) is JustPressed
}

/// Bounds a stored raycast target obeys.
pub open spec fn look_target_ok(o: RaycastOutput) -> bool {
    &&& -300_000_000 <= o.position.x <= 300_000_000
    &&& -300_000_000 <= o.position.y <= 300_000_000
    &&& -300_000_000 <= o.position.z <= 300_000_000
    &&& -1 <= o.normal.x <= 1
    &&& -1 <= o.normal.y <= 1
    &&& -1 <= o.normal.z <= 1
}

impl Game {
    /// Structural well-formedness: a well-formed world and hotbar, bounded
    /// position and velocity, and a bounded look-at target.
    pub open spec fn wf(self) -> bool {
        &&& self.world.wf()
        &&& -POS_CAP <= self.position.x <= POS_CAP
        &&& -POS_CAP <= self.position.y <= POS_CAP
        &&& -POS_CAP <= self.position.z <= POS_CAP
        &&& -VEL_CAP <= self.velocity.x <= VEL_CAP
        &&& -VEL_CAP <= self.velocity.y <= VEL_CAP
        &&& -VEL_CAP <= self.velocity.z <= VEL_CAP
        &&& self.hotbar.wf()
        &&& 0 <= self.jump_strength <= 100_000
        &&& match self.look_at_raycast {
            Some(o) => look_target_ok(o),
            None => true,
        }
    }

    /// The block coordinate the viewpoint occupies.
    pub open spec fn spec_block_coordinate(self) -> Vec3i {
        Vec3i {
            x: (self.position.x as int / 1000) as i32,
            y: (self.position.y as int / 1000) as i32,
            z: (self.position.z as int / 1000) as i32,
        }
    }

    /// The block coordinate the viewpoint occupies: the floor of each
    /// position axis in blocks.
    pub fn block_coordinate(&self) -> (r: Vec3i)
        requires
            self.wf(),
        ensures
            r == self.spec_block_coordinate(),
            coord_ok(r),
            -200_000_001 <= r.x <= 200_000_001,
            -200_000_001 <= r.y <= 200_000_001,
            -200_000_001 <= r.z <= 200_000_001,
    {
        Vec3i {
            x: floor_div_i64(self.position.x, SCALE) as i32,
            y: floor_div_i64(self.position.y, SCALE) as i32,
            z: floor_div_i64(self.position.z, SCALE) as i32,
        }
    }

    /// The chunk coordinate the viewpoint occupies.
    pub fn chunk_coordinate(&self) -> (r: Vec3i)
        requires
            self.wf(),
        ensures
            r == chunk_of(self.spec_block_coordinate()),
            -12_500_001 <= r.x <= 12_500_001,
            -12_500_001 <= r.y <= 12_500_001,
            -12_500_001 <= r.z <= 12_500_001,
    {
        let bc = self.block_coordinate();
        self.world.world_to_chunk(bc)
    }

    /// A fresh game over the given pre-generated chunks: the world window
    /// centred at the origin and filled from `chunks` (later entries win),
    /// two lanterns placed near the spawn, the starter hotbar, and the jump
    /// impulse derived once from gravity and the jump height.
    pub fn new(chunks: Vec<(Vec3i, Chunk)>) -> (r: Game)
        requires
            forall|i: int| 0 <= i < chunks@.len() ==> (#[trigger] chunks@[i]).1.wf(),
        ensures
            r.wf(),
            r.position == (Vec3x { x: 8_500, y: 48_000, z: 8_500 }),
            r.velocity == (Vec3x { x: 0, y: 0, z: 0 }),
            !r.on_ground,
            !r.flying,
            r.look_at_raycast is None,
            r.block_update_count == 0,
            r.total_block_update_count == 0,
            r.pending_chunk_requests@.len() == 0,
            r.jump_strength == 6402,
            r.hotbar.active == 0,
            r.hotbar.slots@ == starter_slots(),
            r.world.origin == (Vec3i { x: 0, y: 0, z: 0 }),
            forall|p: Vec3i|
                #[trigger] coord_ok(p) ==> r.world.spec_get_block(p) == new_world_block(chunks@, p),
            r.dirty_blocks@ == new_dirty_queue(chunks@),
    {
        let mut world = World::new(Vec3i::zero());
        let ghost all = chunks@;
        let mut rest = chunks;
        while rest.len() > 0
            invariant
                forall|i: int| 0 <= i < all.len() ==> (#[trigger] all[i]).1.wf(),
                rest@.len() <= all.len(),
                rest@ == all.subrange(all.len() - rest.len(), all.len() as int),
                world.wf(),
                world.origin == (Vec3i { x: 0, y: 0, z: 0 }),
                forall|c: Vec3i|
                    #[trigger] world.chunk_seq_at(c) == if in_window(Vec3i { x: 0, y: 0, z: 0 }, c) {
                        chunks_value_at(all.take(all.len() - rest.len()), c)
                    } else {
                        None::<Seq<Block>>
                    },
            decreases rest.len(),
        {
            let ghost done: int = all.len() - rest.len();
            let (c, ch) = rest.remove(0);
            proof {
                assert(all[done] == (c, ch));
                assert(rest@ =~= all.subrange(done + 1, all.len() as int));
            }
            world.load(c, ch);
            proof {
                let prefix = all.take(done + 1);
                assert(prefix.last() == (c, ch));
                assert(prefix.drop_last() =~= all.take(done));
                assert forall|cc: Vec3i|
                    #[trigger] world.chunk_seq_at(cc) == if in_window(Vec3i { x: 0, y: 0, z: 0 }, cc) {
                        chunks_value_at(prefix, cc)
                    } else {
                        None::<Seq<Block>>
                    } by {
                    if cc == c {
                    } else {
                        assert(chunks_value_at(prefix, cc) == chunks_value_at(all.take(done), cc));
                    }
                }
            }
        }
        proof {
            assert(all.take(all.len() as int) =~= all);
        }
        let ghost w_loads = world;
        proof {
            assert forall|p: Vec3i| #[trigger] coord_ok(p)
                implies w_loads.spec_get_block(p) == loaded_block_at(all, p) by {
                let c = chunk_of(p);
                assert(w_loads.chunk_seq_at(c) == if in_window(Vec3i { x: 0, y: 0, z: 0 }, c) {
                    chunks_value_at(all, c)
                } else {
                    None::<Seq<Block>>
                });
            }
        }

        let inner: u64 = 31_000_000;
        let root = isqrt_u64(inner);
        proof {
            assert(5567 * 5567 <= 31_000_000 < 5568 * 5568);
            assert(root == 5567) by (nonlinear_arith)
                requires
                    root * root <= 31_000_000,
                    31_000_000 < (root + 1) * (root + 1),
                    root >= 0,
                    5567 * 5567 <= 31_000_000,
                    31_000_000 < 5568 * 5568,
            ;
        }
        let jump_strength: i64 = ((1150 * root) / 1000) as i64;

        let mut game = Game {
            world,
            position: Vec3x { x: 8_500, y: 48_000, z: 8_500 },
            velocity: Vec3x { x: 0, y: 0, z: 0 },
            on_ground: false,
            look_at_raycast: None,
            dirty_blocks: Vec::new(),
            block_update_count: 0,
            total_block_update_count: 0,
            hotbar: Hotbar::new(),
            flying: false,
            jump_strength,
            pending_chunk_requests: Vec::new(),
        };

        proof {
            assert(game.world == w_loads);
        }
        game.set_block(Vec3i { x: 6, y: 14, z: 8 }, Block::new(BlockType::Lantern));
        let ghost w1 = game.world;
        let ghost d1 = game.dirty_blocks@;
        proof {
            assert(coord_ok(lantern_a()));
            assert forall|p: Vec3i| #[trigger] coord_ok(p)
                implies w1.spec_get_block(p) == after_first_lantern(all, p) by {
                assert(coord_ok(lantern_a()));
            }
            assert(d1 == (if loaded_block_at(all, lantern_a()) is Some {
                Seq::<BlockUpdate>::empty().push(BlockUpdate {
                    target: lantern_a(),
                    source: None,
                    state_changed: true,
                })
            } else {
                Seq::<BlockUpdate>::empty()
            }));
        }
        game.set_block(Vec3i { x: -8, y: 14, z: -8 }, Block::new(BlockType::Lantern));
        proof {
            assert(lantern_a() != lantern_b());
            assert(coord_ok(lantern_b()));
            assert(after_first_lantern(all, lantern_b()) == loaded_block_at(all, lantern_b()));
            assert forall|p: Vec3i| #[trigger] coord_ok(p)
                implies game.world.spec_get_block(p) == new_world_block(all, p) by {}
            assert(game.dirty_blocks@ == new_dirty_queue(all));
        }

        game.hotbar.slots.set(0, Some(BlockOrItem::Block(BlockType::Wood)));
        game.hotbar.slots.set(1, Some(BlockOrItem::Block(BlockType::Lantern)));
        game.hotbar.slots.set(2, Some(BlockOrItem::Block(BlockType::Test)));
        game.hotbar.slots.set(3, Some(BlockOrItem::Block(BlockType::Stone)));
        game.hotbar.slots.set(4, Some(BlockOrItem::Block(BlockType::Mesh)));
        proof {
            assert(game.hotbar.slots@ =~= starter_slots());
        }
        game
    }

    /// Write `block` at `position`, and enqueue lighting work for the edit
    /// when `update` is set. A write into an unloaded chunk is dropped.
    pub fn set_block1(&mut self, position: Vec3i, block: Block, update: bool)
        requires
            old(self).wf(),
            coord_ok(position),
        ensures
            final(self).wf(),
            *final(self) == (Game {
                world: final(self).world,
                dirty_blocks: final(self).dirty_blocks,
                ..*old(self)
            }),
            old(self).world.spec_get_block(position) is Some ==> {
                &&& final(self).world.spec_get_block(position) == Some(block)
                &&& forall|q: Vec3i|
                    q != position && #[trigger] coord_ok(q)
                        ==> final(self).world.spec_get_block(q) == old(self).world.spec_get_block(q)
                &&& forall|c: Vec3i|
                    (#[trigger] final(self).world.chunk_seq_at(c)) is Some
                        <==> old(self).world.chunk_seq_at(c) is Some
                &&& final(self).world.origin == old(self).world.origin
                &&& final(self).dirty_blocks@ == if update {
                    old(self).dirty_blocks@.push(BlockUpdate {
                        target: position,
                        source: None,
                        state_changed: true,
                    })
                } else {
                    old(self).dirty_blocks@
                }
            },
            old(self).world.spec_get_block(position) is None ==> {
                &&& final(self).world == old(self).world
                &&& final(self).dirty_blocks == old(self).dirty_blocks
            },
    {
        let r = self.world.set_block(position, block);
        match r {
            Ok(()) => {
                if update {
                    self.dirty_blocks.push(BlockUpdate {
                        target: position,
                        source: None,
                        state_changed: true,
                    });
                }
            },
            Err(WorldError::ChunkNotLoaded) => {},
        }
    }

    /// Write `block` at `position` and enqueue the lighting work for it.
    pub fn set_block(&mut self, position: Vec3i, block: Block)
        requires
            old(self).wf(),
            coord_ok(position),
        ensures
            final(self).wf(),
            *final(self) == (Game {
                world: final(self).world,
                dirty_blocks: final(self).dirty_blocks,
                ..*old(self)
            }),
            old(self).world.spec_get_block(position) is Some ==> {
                &&& final(self).world.spec_get_block(position) == Some(block)
                &&& forall|q: Vec3i|
                    q != position && #[trigger] coord_ok(q)
                        ==> final(self).world.spec_get_block(q) == old(self).world.spec_get_block(q)
                &&& forall|c: Vec3i|
                    (#[trigger] final(self).world.chunk_seq_at(c)) is Some
                        <==> old(self).world.chunk_seq_at(c) is Some
                &&& final(self).world.origin == old(self).world.origin
                &&& final(self).dirty_blocks@ == old(self).dirty_blocks@.push(BlockUpdate {
                    target: position,
                    source: None,
                    state_changed: true,
                })
            },
            old(self).world.spec_get_block(position) is None ==> {
                &&& final(self).world == old(self).world
                &&& final(self).dirty_blocks == old(self).dirty_blocks
            },
    {
        self.set_block1(position, block, true);
    }

    /// Apply walk input, the flying lift, and the jump impulse. `walk_dir`
    /// is the camera-aligned horizontal walk direction as a unit vector in
    /// milli-blocks.
    fn handle_movement(&mut self, input: &InputState, walk_dir: Vec3x)
        requires
            old(self).wf(),
            -1000 <= walk_dir.x <= 1000,
            -1000 <= walk_dir.y <= 1000,
            -1000 <= walk_dir.z <= 1000,
        ensures
            final(self).wf(),
            *final(self) == (Game {
                position: final(self).position,
                velocity: final(self).velocity,
                ..*old(self)
            }),
            final(self).position.x as int == clamp_s(
                old(self).position.x + walk_disp(walk_dir.x as int, old(self).flying),
                -POS_CAP as int,
                POS_CAP as int,
            ),
            final(self).position.z as int == clamp_s(
                old(self).position.z + walk_disp(walk_dir.z as int, old(self).flying),
                -POS_CAP as int,
                POS_CAP as int,
            ),
            final(self).position.y as int == {
                let lifted = clamp_s(
                    old(self).position.y + walk_disp(walk_dir.y as int, old(self).flying),
                    -POS_CAP as int,
                    POS_CAP as int,
                );
                if old(self).flying && (input.spec_get_key(KEY_SPACE) is KeptPressed
                    || input.spec_get_key(KEY_SPACE) is JustPressed) {
                    clamp_s(lifted + 625, -POS_CAP as int, POS_CAP as int)
                } else {
                    lifted
                }
            },
            final(self).velocity.x == old(self).velocity.x,
            final(self).velocity.z == old(self).velocity.z,
            final(self).velocity.y as int == if old(self).on_ground {
                up_down(*input) * old(self).jump_strength
            } else {
                old(self).velocity.y as int
            },
    {
        let mult: i64 = if self.flying {
            10
        } else {
            1
        };
        let step: i64 = SPEED / TICK_RATE as i64;
        let dx: i64 = (walk_dir.x * step * mult) / 1000;
        let dy: i64 = (walk_dir.y * step * mult) / 1000;
        let dz: i64 = (walk_dir.z * step * mult) / 1000;
        self.position.x = clamp_i64(self.position.x + dx, -POS_CAP, POS_CAP);
        self.position.y = clamp_i64(self.position.y + dy, -POS_CAP, POS_CAP);
        self.position.z = clamp_i64(self.position.z + dz, -POS_CAP, POS_CAP);

        if self.flying && self.get_key_pressed(input, KEY_SPACE) {
            self.position.y = clamp_i64(self.position.y + 625, -POS_CAP, POS_CAP);
        }

        if self.on_ground {
            let sp: i64 = if self.get_key_pressed(input, KEY_SPACE) {
                1
            } else {
                0
            };
            let sh: i64 = if self.get_key_pressed(input, KEY_LSHIFT) {
                1
            } else {
                0
            };
            proof {
                assert(-100_000 <= (sp - sh) * self.jump_strength <= 100_000) by (nonlinear_arith)
                    requires
                        -1 <= sp - sh <= 1,
                        0 <= self.jump_strength <= 100_000,
                ;
            }
            self.velocity.y = (sp - sh) * self.jump_strength;
        }
    }

    /// Whether `key` is currently down.
    fn get_key_pressed(&self, input: &InputState, key: u32) -> (r: bool)
        ensures
            r == (input.spec_get_key(key) is KeptPressed || input.spec_get_key(key) is JustPressed),
    {
        input.get_key(key).pressed()
    }

    /// Apply the tick's edits: destroy the looked-at block on a left click,
    /// place the active hotbar block in front of it on a right click, and
    /// place a lantern there on a middle click.
    fn handle_place_destroy(&mut self, input: &InputState)
        requires
            old(self).wf(),
        ensures
            final(self).wf(),
            *final(self) == (Game {
                world: final(self).world,
                dirty_blocks: final(self).dirty_blocks,
                ..*old(self)
            }),
            old(self).look_at_raycast is None ==> *final(self) == *old(self),
            old(self).look_at_raycast matches Some(hl) ==> {
                &&& final(self).world.origin == old(self).world.origin
                &&& forall|c: Vec3i|
                    (#[trigger] final(self).world.chunk_seq_at(c)) is Some
                        <==> old(self).world.chunk_seq_at(c) is Some
                &&& forall|q: Vec3i|
                    #[trigger] coord_ok(q) && q != hl.position && q != place_target(hl)
                        ==> final(self).world.spec_get_block(q) == old(self).world.spec_get_block(q)
            },
            old(self).look_at_raycast is Some
                && !just_clicked(*input, MOUSE_LEFT)
                && !just_clicked(*input, MOUSE_RIGHT)
                && !just_clicked(*input, MOUSE_MIDDLE) ==> *final(self) == *old(self),
            old(self).look_at_raycast matches Some(hl) ==> just_clicked(*input, MOUSE_LEFT)
                && !just_clicked(*input, MOUSE_RIGHT)
                && !just_clicked(*input, MOUSE_MIDDLE) ==> {
                &&& old(self).world.spec_get_block(hl.position) is Some ==> {
                    &&& final(self).world.spec_get_block(hl.position) == Some(Block {
                        ty: BlockType::Air,
                        light: 0u8,
                        open_to_sky: false,
                        occluded: false,
                    })
                    &&& final(self).dirty_blocks@ == old(self).dirty_blocks@.push(BlockUpdate {
                        target: hl.position,
                        source: None,
                        state_changed: true,
                    })
                }
                &&& old(self).world.spec_get_block(hl.position) is None ==> *final(self) == *old(self)
            },
            old(self).look_at_raycast matches Some(hl) ==> !just_clicked(*input, MOUSE_LEFT)
                && just_clicked(*input, MOUSE_RIGHT)
                && !just_clicked(*input, MOUSE_MIDDLE) ==> {
                match old(self).hotbar.slots@[old(self).hotbar.active as int] {
                    Some(BlockOrItem::Block(ty)) => {
                        &&& old(self).world.spec_get_block(place_target(hl)) is Some ==> {
                            &&& final(self).world.spec_get_block(place_target(hl)) == Some(Block {
                                ty,
                                light: 0u8,
                                open_to_sky: false,
                                occluded: false,
                            })
                            &&& final(self).dirty_blocks@ == old(self).dirty_blocks@.push(
                                BlockUpdate {
                                    target: place_target(hl),
                                    source: None,
                                    state_changed: true,
                                },
                            )
                        }
                        &&& old(self).world.spec_get_block(place_target(hl)) is None
                            ==> *final(self) == *old(self)
                    },
                    _ => *final(self) == *old(self),
                }
            },
            old(self).look_at_raycast matches Some(hl) ==> !just_clicked(*input, MOUSE_LEFT)
                && !just_clicked(*input, MOUSE_RIGHT)
                && just_clicked(*input, MOUSE_MIDDLE) ==> {
                &&& old(self).world.spec_get_block(place_target(hl)) is Some ==> {
                    &&& final(self).world.spec_get_block(place_target(hl)) == Some(Block {
                        ty: BlockType::Lantern,
                        light: 0u8,
                        open_to_sky: false,
                        occluded: false,
                    })
                    &&& final(self).dirty_blocks@ == old(self).dirty_blocks@.push(BlockUpdate {
                        target: place_target(hl),
                        source: None,
                        state_changed: true,
                    })
                }
                &&& old(self).world.spec_get_block(place_target(hl)) is None
                    ==> *final(self) == *old(self)
            },
    {
        let hl = match self.look_at_raycast {
            None => {
                return ;
            },
            Some(hl) => hl,
        };

        if input.get_mouse_button(MOUSE_LEFT).just_pressed() {
            self.set_block(hl.position, Block::new(BlockType::Air));
        }

        if input.get_mouse_button(MOUSE_RIGHT).just_pressed() {
            let target = Vec3i {
                x: hl.position.x + hl.normal.x,
                y: hl.position.y + hl.normal.y,
                z: hl.position.z + hl.normal.z,
            };
            match self.hotbar.slots[self.hotbar.active] {
                Some(BlockOrItem::Block(block_ty)) => {
                    self.set_block(target, Block::new(block_ty));
                },
                _ => {},
            }
        }

        if input.get_mouse_button(MOUSE_MIDDLE).just_pressed() {
            let target = Vec3i {
                x: hl.position.x + hl.normal.x,
                y: hl.position.y + hl.normal.y,
                z: hl.position.z + hl.normal.z,
            };
            self.set_block(target, Block::new(BlockType::Lantern));
        }
    }
}

/// Sweep the moving box against one voxel: a hit only when the voxel is a
/// loaded solid block inside the broad-phase box and the sweep makes
/// contact within the tick.
fn voxel_hit(world: &World, sweep: SweepBox, b: Vec3i) -> (r: Option<SweepTestResult>)
    requires
        world.wf(),
        sweep_box_ok(sweep),
        -300_000_000 <= b.x <= 300_000_000,
        -300_000_000 <= b.y <= 300_000_000,
        -300_000_000 <= b.z <= 300_000_000,
    ensures
        r is Some <==> collision_candidate(*world, sweep, b) && spec_hit(sweep, voxel_box(b)),
        r matches Some(res) ==> res == spec_sweep_result(sweep, voxel_box(b)),
        r matches Some(res) ==> {
            &&& res.time.den > 0
            &&& 0 <= res.time.num <= res.time.den
            &&& -1 <= res.normal.x <= 1
            &&& -1 <= res.normal.y <= 1
            &&& -1 <= res.normal.z <= 1
            &&& res.normal != (Vec3i { x: 0, y: 0, z: 0 })
        },
{
    let solid = match world.get_block(b) {
        Some(bl) => !bl.ty.is_air(),
        None => false,
    };
    if !solid {
        return None;
    }
    let bx: i64 = b.x as i64 * 1000;
    let by: i64 = b.y as i64 * 1000;
    let bz: i64 = b.z as i64 * 1000;

    let blo_x: i64 = sweep.collider.min.x + if sweep.velocity.x < 0 { sweep.velocity.x } else { 0 };
    let blo_y: i64 = sweep.collider.min.y + if sweep.velocity.y < 0 { sweep.velocity.y } else { 0 };
    let blo_z: i64 = sweep.collider.min.z + if sweep.velocity.z < 0 { sweep.velocity.z } else { 0 };
    let bhi_x: i64 = blo_x + (sweep.collider.max.x - sweep.collider.min.x)
        + (if sweep.velocity.x >= 0 { sweep.velocity.x } else { -sweep.velocity.x });
    let bhi_y: i64 = blo_y + (sweep.collider.max.y - sweep.collider.min.y)
        + (if sweep.velocity.y >= 0 { sweep.velocity.y } else { -sweep.velocity.y });
    let bhi_z: i64 = blo_z + (sweep.collider.max.z - sweep.collider.min.z)
        + (if sweep.velocity.z >= 0 { sweep.velocity.z } else { -sweep.velocity.z });

    let overlaps = bx < bhi_x && bx + 1000 > blo_x && by < bhi_y && by + 1000 > blo_y && bz < bhi_z
        && bz + 1000 > blo_z;
    if !overlaps {
        return None;
    }
    let bbox = Aabbx {
        min: Vec3x { x: bx, y: by, z: bz },
        max: Vec3x { x: bx + 1000, y: by + 1000, z: bz + 1000 },
    };
    proof {
        assert(bbox == voxel_box(b));
        assert(sweep_inputs_ok(sweep, bbox));
    }
    sweep_test(sweep, bbox)
}

/// Whether voxel `b` comes before the scan position `(cx, cy, cz)` in the
/// x-major scan order of collision gathering.
pub open spec fn scanned_before(b: Vec3i, cx: int, cy: int, cz: int) -> bool {
    ||| b.x < cx
    ||| (b.x == cx && b.y < cy)
    ||| (b.x == cx && b.y == cy && b.z < cz)
}

/// The entry time of the sweep against voxel `b`, as a rational's parts.
pub open spec fn voxel_entry_num(a: SweepBox, b: Vec3i) -> int {
    entry_num(a, voxel_box(b), max_axis(a, voxel_box(b)))
}

/// The positive denominator of that entry time.
pub open spec fn voxel_entry_den(a: SweepBox, b: Vec3i) -> int {
    axis_den(a, max_axis(a, voxel_box(b)))
}

/// No candidate scanned so far collides.
pub open spec fn no_hit_before(world: World, a: SweepBox, cx: int, cy: int, cz: int) -> bool {
    forall|b: Vec3i|
        #[trigger] collision_candidate(world, a, b) && scanned_before(b, cx, cy, cz)
            ==> !spec_hit(a, voxel_box(b))
}

/// `res` is no later than every colliding candidate scanned so far.
pub open spec fn min_before(
    world: World,
    a: SweepBox,
    res: SweepTestResult,
    cx: int,
    cy: int,
    cz: int,
) -> bool {
    forall|b: Vec3i|
        #[trigger] collision_candidate(world, a, b) && scanned_before(b, cx, cy, cz)
            && spec_hit(a, voxel_box(b)) ==> rat_le(
            res.time.num as int,
            res.time.den as int,
            voxel_entry_num(a, b),
            voxel_entry_den(a, b),
        )
}

/// Every collision candidate lies in the broad-phase voxel range and inside
/// the loaded window.
proof fn lemma_candidate_range(world: World, a: SweepBox, b: Vec3i)
    requires
        world.wf(),
        collision_candidate(world, a, b),
    ensures
        broad_lo(a, 0) / 1000 - 1 <= b.x <= broad_hi(a, 0) / 1000,
        broad_lo(a, 1) / 1000 - 1 <= b.y <= broad_hi(a, 1) / 1000,
        broad_lo(a, 2) / 1000 - 1 <= b.z <= broad_hi(a, 2) / 1000,
        (world.origin.x - 3) * 16 <= b.x < (world.origin.x + 4) * 16,
        (world.origin.y - 2) * 16 <= b.y < (world.origin.y + 3) * 16,
        (world.origin.z - 3) * 16 <= b.z < (world.origin.z + 4) * 16,
{
    lemma_fundamental_div_mod(broad_lo(a, 0), 1000);
    lemma_fundamental_div_mod(broad_lo(a, 1), 1000);
    lemma_fundamental_div_mod(broad_lo(a, 2), 1000);
    lemma_fundamental_div_mod(broad_hi(a, 0), 1000);
    lemma_fundamental_div_mod(broad_hi(a, 1), 1000);
    lemma_fundamental_div_mod(broad_hi(a, 2), 1000);
    assert(world.spec_get_block(b) is Some);
    assert(in_window(world.origin, chunk_of(b)));
    lemma_fundamental_div_mod(b.x as int, 16);
    lemma_fundamental_div_mod(b.y as int, 16);
    lemma_fundamental_div_mod(b.z as int, 16);
}

/// The earliest collision of the moving box against any loaded solid voxel
/// inside its broad-phase box, or `None` when nothing is hit this tick.
/// Among simultaneous equal-time collisions the lowest voxel coordinate in
/// x-major order wins, deterministically.
fn earliest_collision(world: &World, sweep: SweepBox) -> (r: Option<SweepTestResult>)
    requires
        world.wf(),
        sweep_box_ok(sweep),
    ensures
        r matches Some(res) ==> exists|b: Vec3i| {
            &&& #[trigger] collision_candidate(*world, sweep, b)
            &&& spec_hit(sweep, voxel_box(b))
            &&& res == spec_sweep_result(sweep, voxel_box(b))
        },
        r matches Some(res) ==> forall|b: Vec3i|
            #[trigger] collision_candidate(*world, sweep, b) && spec_hit(sweep, voxel_box(b))
                ==> rat_le(
                res.time.num as int,
                res.time.den as int,
                voxel_entry_num(sweep, b),
                voxel_entry_den(sweep, b),
            ),
        r is None ==> forall|b: Vec3i|
            #[trigger] collision_candidate(*world, sweep, b) ==> !spec_hit(sweep, voxel_box(b)),
        r matches Some(res) ==> {
            &&& res.time.den > 0
            &&& 0 <= res.time.num <= res.time.den
            &&& -1 <= res.normal.x <= 1
            &&& -1 <= res.normal.y <= 1
            &&& -1 <= res.normal.z <= 1
            &&& res.normal != (Vec3i { x: 0, y: 0, z: 0 })
        },
        r matches Some(res) ==> exists|b: Vec3i|
            #[trigger] is_first_hit(*world, sweep, b) && res == spec_sweep_result(
                sweep,
                voxel_box(b),
            ),
        r is None ==> no_collision(*world, sweep),
{
    let blo_x: i64 = sweep.collider.min.x + if sweep.velocity.x < 0 { sweep.velocity.x } else { 0 };
    let blo_y: i64 = sweep.collider.min.y + if sweep.velocity.y < 0 { sweep.velocity.y } else { 0 };
    let blo_z: i64 = sweep.collider.min.z + if sweep.velocity.z < 0 { sweep.velocity.z } else { 0 };
    let bhi_x: i64 = blo_x + (sweep.collider.max.x - sweep.collider.min.x)
        + (if sweep.velocity.x >= 0 { sweep.velocity.x } else { -sweep.velocity.x });
    let bhi_y: i64 = blo_y + (sweep.collider.max.y - sweep.collider.min.y)
        + (if sweep.velocity.y >= 0 { sweep.velocity.y } else { -sweep.velocity.y });
    let bhi_z: i64 = blo_z + (sweep.collider.max.z - sweep.collider.min.z)
        + (if sweep.velocity.z >= 0 { sweep.velocity.z } else { -sweep.velocity.z });

    let ax_lo: i64 = max_i64(floor_div_i64(blo_x, 1000) - 1, (world.origin().x as i64 - 3) * 16);
    let ax_hi: i64 = min_i64(floor_div_i64(bhi_x, 1000), (world.origin().x as i64 + 4) * 16 - 1);
    let ay_lo: i64 = max_i64(floor_div_i64(blo_y, 1000) - 1, (world.origin().y as i64 - 2) * 16);
    let ay_hi: i64 = min_i64(floor_div_i64(bhi_y, 1000), (world.origin().y as i64 + 3) * 16 - 1);
    let az_lo: i64 = max_i64(floor_div_i64(blo_z, 1000) - 1, (world.origin().z as i64 - 3) * 16);
    let az_hi: i64 = min_i64(floor_div_i64(bhi_z, 1000), (world.origin().z as i64 + 4) * 16 - 1);

    proof {
        assert(blo_x == broad_lo(sweep, 0) && blo_y == broad_lo(sweep, 1) && blo_z == broad_lo(sweep, 2));
        assert(bhi_x == broad_hi(sweep, 0) && bhi_y == broad_hi(sweep, 1) && bhi_z == broad_hi(sweep, 2));
        assert forall|b: Vec3i| #[trigger] collision_candidate(*world, sweep, b) implies {
            &&& ax_lo <= b.x <= ax_hi
            &&& ay_lo <= b.y <= ay_hi
            &&& az_lo <= b.z <= az_hi
        } by {
            lemma_candidate_range(*world, sweep, b);
        }
    }
    let mut best: Option<SweepTestResult> = None;
    let ghost mut wit: Vec3i = Vec3i { x: 0, y: 0, z: 0 };

    let mut cx: i64 = ax_lo;
    while cx <= ax_hi
        invariant
            world.wf(),
            sweep_box_ok(sweep),
            ax_lo <= cx <= ax_hi + 1 || (ax_lo > ax_hi && cx == ax_lo),
            -300_000_000 <= ax_lo && ax_hi <= 300_000_000,
            -300_000_000 <= ay_lo && ay_hi <= 300_000_000,
            -300_000_000 <= az_lo && az_hi <= 300_000_000,
            forall|b: Vec3i| #[trigger] collision_candidate(*world, sweep, b) ==> {
                &&& ax_lo <= b.x <= ax_hi
                &&& ay_lo <= b.y <= ay_hi
                &&& az_lo <= b.z <= az_hi
            },
            best is None ==> no_hit_before(*world, sweep, cx as int, ay_lo as int, az_lo as int),
            best matches Some(res) ==> {
                &&& collision_candidate(*world, sweep, wit)
                &&& spec_hit(sweep, voxel_box(wit))
                &&& res == spec_sweep_result(sweep, voxel_box(wit))
                &&& res.time.den > 0
                &&& 0 <= res.time.num <= res.time.den
                &&& -1 <= res.normal.x <= 1
                &&& -1 <= res.normal.y <= 1
                &&& -1 <= res.normal.z <= 1
                &&& res.normal != (Vec3i { x: 0, y: 0, z: 0 })
                &&& min_before(*world, sweep, res, cx as int, ay_lo as int, az_lo as int)
                    &&& scanned_before(wit, cx as int, ay_lo as int, az_lo as int)
                    &&& forall|b2: Vec3i|
                        #[trigger] collision_candidate(*world, sweep, b2)
                            && spec_hit(sweep, voxel_box(b2)) && lex_lt(b2, wit) ==> !rat_le(
                        voxel_entry_num(sweep, b2),
                        voxel_entry_den(sweep, b2),
                        res.time.num as int,
                        res.time.den as int,
                    )
            },
        decreases ax_hi + 1 - cx,
    {
        let mut cy: i64 = ay_lo;
        while cy <= ay_hi
            invariant
                world.wf(),
                sweep_box_ok(sweep),
                ax_lo <= cx <= ax_hi,
                ay_lo <= cy <= ay_hi + 1 || (ay_lo > ay_hi && cy == ay_lo),
                -300_000_000 <= ax_lo && ax_hi <= 300_000_000,
                -300_000_000 <= ay_lo && ay_hi <= 300_000_000,
                -300_000_000 <= az_lo && az_hi <= 300_000_000,
                forall|b: Vec3i| #[trigger] collision_candidate(*world, sweep, b) ==> {
                    &&& ax_lo <= b.x <= ax_hi
                    &&& ay_lo <= b.y <= ay_hi
                    &&& az_lo <= b.z <= az_hi
                },
                best is None ==> no_hit_before(*world, sweep, cx as int, cy as int, az_lo as int),
                best matches Some(res) ==> {
                    &&& collision_candidate(*world, sweep, wit)
                    &&& spec_hit(sweep, voxel_box(wit))
                    &&& res == spec_sweep_result(sweep, voxel_box(wit))
                    &&& res.time.den > 0
                    &&& 0 <= res.time.num <= res.time.den
                    &&& -1 <= res.normal.x <= 1
                    &&& -1 <= res.normal.y <= 1
                    &&& -1 <= res.normal.z <= 1
                    &&& res.normal != (Vec3i { x: 0, y: 0, z: 0 })
                    &&& min_before(*world, sweep, res, cx as int, cy as int, az_lo as int)
                    &&& scanned_before(wit, cx as int, cy as int, az_lo as int)
                    &&& forall|b2: Vec3i|
                        #[trigger] collision_candidate(*world, sweep, b2)
                            && spec_hit(sweep, voxel_box(b2)) && lex_lt(b2, wit) ==> !rat_le(
                        voxel_entry_num(sweep, b2),
                        voxel_entry_den(sweep, b2),
                        res.time.num as int,
                        res.time.den as int,
                    )
                },
            decreases ay_hi + 1 - cy,
        {
            let mut cz: i64 = az_lo;
            while cz <= az_hi
                invariant
                    world.wf(),
                    sweep_box_ok(sweep),
                    ax_lo <= cx <= ax_hi,
                    ay_lo <= cy <= ay_hi,
                    az_lo <= cz <= az_hi + 1 || (az_lo > az_hi && cz == az_lo),
                    -300_000_000 <= ax_lo && ax_hi <= 300_000_000,
                    -300_000_000 <= ay_lo && ay_hi <= 300_000_000,
                    -300_000_000 <= az_lo && az_hi <= 300_000_000,
                    forall|b: Vec3i| #[trigger] collision_candidate(*world, sweep, b) ==> {
                        &&& ax_lo <= b.x <= ax_hi
                        &&& ay_lo <= b.y <= ay_hi
                        &&& az_lo <= b.z <= az_hi
                    },
                    best is None ==> no_hit_before(*world, sweep, cx as int, cy as int, cz as int),
                    best matches Some(res) ==> {
                        &&& collision_candidate(*world, sweep, wit)
                        &&& spec_hit(sweep, voxel_box(wit))
                        &&& res == spec_sweep_result(sweep, voxel_box(wit))
                        &&& res.time.den > 0
                        &&& 0 <= res.time.num <= res.time.den
                        &&& -1 <= res.normal.x <= 1
                        &&& -1 <= res.normal.y <= 1
                        &&& -1 <= res.normal.z <= 1
                        &&& res.normal != (Vec3i { x: 0, y: 0, z: 0 })
                        &&& min_before(*world, sweep, res, cx as int, cy as int, cz as int)
                    &&& scanned_before(wit, cx as int, cy as int, cz as int)
                    &&& forall|b2: Vec3i|
                        #[trigger] collision_candidate(*world, sweep, b2)
                            && spec_hit(sweep, voxel_box(b2)) && lex_lt(b2, wit) ==> !rat_le(
                        voxel_entry_num(sweep, b2),
                        voxel_entry_den(sweep, b2),
                        res.time.num as int,
                        res.time.den as int,
                    )
                    },
                decreases az_hi + 1 - cz,
            {
                let b = Vec3i { x: cx as i32, y: cy as i32, z: cz as i32 };
                let hit = voxel_hit(world, sweep, b);
                match hit {
                    None => {
                        proof {
                            assert forall|b2: Vec3i|
                                #[trigger] collision_candidate(*world, sweep, b2)
                                    && scanned_before(b2, cx as int, cy as int, cz as int + 1)
                                    && spec_hit(sweep, voxel_box(b2))
                                implies b2 != b && scanned_before(b2, cx as int, cy as int, cz as int) by {
                                if !scanned_before(b2, cx as int, cy as int, cz as int) {
                                    assert(b2 == b);
                                }
                            }
                        }
                    },
                    Some(res) => {
                        let replace = match &best {
                            None => true,
                            Some(old_best) => !rat_le_exec(
                                old_best.time.num,
                                old_best.time.den,
                                res.time.num,
                                res.time.den,
                            ),
                        };
                        if replace {
                            proof {
                                assert(res.time.num as int == voxel_entry_num(sweep, b));
                                assert(res.time.den as int == voxel_entry_den(sweep, b));
                                assert forall|b2: Vec3i|
                                    #[trigger] collision_candidate(*world, sweep, b2)
                                        && scanned_before(b2, cx as int, cy as int, cz as int + 1)
                                        && spec_hit(sweep, voxel_box(b2))
                                    implies rat_le(
                                        res.time.num as int,
                                        res.time.den as int,
                                        voxel_entry_num(sweep, b2),
                                        voxel_entry_den(sweep, b2),
                                    ) by {
                                    if scanned_before(b2, cx as int, cy as int, cz as int) {
                                        let ob = best.unwrap();
                                        assert(!rat_le(
                                            ob.time.num as int,
                                            ob.time.den as int,
                                            res.time.num as int,
                                            res.time.den as int,
                                        ));
                                        assert(rat_le(
                                            res.time.num as int,
                                            res.time.den as int,
                                            ob.time.num as int,
                                            ob.time.den as int,
                                        ));
                                        assert(voxel_entry_den(sweep, b2) > 0);
                                        lemma_rat_le_trans(
                                            res.time.num as int,
                                            res.time.den as int,
                                            ob.time.num as int,
                                            ob.time.den as int,
                                            voxel_entry_num(sweep, b2),
                                            voxel_entry_den(sweep, b2),
                                        );
                                    } else {
                                        assert(b2 == b);
                                    }
                                }
                                assert forall|b2: Vec3i|
                                    #[trigger] collision_candidate(*world, sweep, b2)
                                        && spec_hit(sweep, voxel_box(b2)) && lex_lt(b2, b)
                                    implies !rat_le(
                                        voxel_entry_num(sweep, b2),
                                        voxel_entry_den(sweep, b2),
                                        res.time.num as int,
                                        res.time.den as int,
                                    ) by {
                                    assert(scanned_before(b2, cx as int, cy as int, cz as int));
                                    let ob = best.unwrap();
                                    assert(rat_le(
                                        ob.time.num as int,
                                        ob.time.den as int,
                                        voxel_entry_num(sweep, b2),
                                        voxel_entry_den(sweep, b2),
                                    ));
                                    if rat_le(
                                        voxel_entry_num(sweep, b2),
                                        voxel_entry_den(sweep, b2),
                                        res.time.num as int,
                                        res.time.den as int,
                                    ) {
                                        assert(voxel_entry_den(sweep, b2) > 0);
                                        lemma_rat_le_trans(
                                            ob.time.num as int,
                                            ob.time.den as int,
                                            voxel_entry_num(sweep, b2),
                                            voxel_entry_den(sweep, b2),
                                            res.time.num as int,
                                            res.time.den as int,
                                        );
                                        assert(false);
                                    }
                                }
                            }
                            best = Some(res);
                            proof {
                                wit = b;
                            }
                        } else {
                            proof {
                                let ob = best.unwrap();
                                assert(res.time.num as int == voxel_entry_num(sweep, b));
                                assert(res.time.den as int == voxel_entry_den(sweep, b));
                                assert forall|b2: Vec3i|
                                    #[trigger] collision_candidate(*world, sweep, b2)
                                        && scanned_before(b2, cx as int, cy as int, cz as int + 1)
                                        && spec_hit(sweep, voxel_box(b2))
                                    implies rat_le(
                                        ob.time.num as int,
                                        ob.time.den as int,
                                        voxel_entry_num(sweep, b2),
                                        voxel_entry_den(sweep, b2),
                                    ) by {
                                    if !scanned_before(b2, cx as int, cy as int, cz as int) {
                                        assert(b2 == b);
                                    }
                                }
                            }
                        }
                    },
                }
                cz = cz + 1;
            }
            proof {
                assert forall|b2: Vec3i|
                    #[trigger] collision_candidate(*world, sweep, b2)
                        && scanned_before(b2, cx as int, cy as int + 1, az_lo as int)
                    implies scanned_before(b2, cx as int, cy as int, cz as int) by {}
            }
            cy = cy + 1;
        }
        proof {
            assert forall|b2: Vec3i|
                #[trigger] collision_candidate(*world, sweep, b2)
                    && scanned_before(b2, cx as int + 1, ay_lo as int, az_lo as int)
                implies scanned_before(b2, cx as int, cy as int, az_lo as int) by {}
        }
        cx = cx + 1;
    }
    proof {
        match best {
            None => {
                assert forall|b: Vec3i| #[trigger] collision_candidate(*world, sweep, b)
                    implies !spec_hit(sweep, voxel_box(b)) by {
                    assert(scanned_before(b, cx as int, ay_lo as int, az_lo as int));
                }
            },
            Some(res) => {
                assert forall|b: Vec3i|
                    #[trigger] collision_candidate(*world, sweep, b) && spec_hit(sweep, voxel_box(b))
                    implies rat_le(
                        res.time.num as int,
                        res.time.den as int,
                        voxel_entry_num(sweep, b),
                        voxel_entry_den(sweep, b),
                    ) by {
                    assert(scanned_before(b, cx as int, ay_lo as int, az_lo as int));
                }
                assert(res.time.num as int == voxel_entry_num(sweep, wit));
                assert(res.time.den as int == voxel_entry_den(sweep, wit));
                assert(is_first_hit(*world, sweep, wit));
            },
        }
    }
    best
}

/// The state the resolver reaches from `(pos, vel, og)` with `fuel` passes
/// left: while a collision exists, advance and slide past the first one and
/// continue with one pass fewer.
pub open spec fn resolve_step(
    world: World,
    initial: Vec3x,
    pos: Vec3x,
    vel: Vec3x,
    og: bool,
    fuel: nat,
) -> (Vec3x, Vec3x, bool)
    decreases fuel,
{
    if fuel == 0 || no_collision(world, player_sweep(initial, pos)) {
        (pos, vel, og)
    } else {
        let b = choose|b: Vec3i| is_first_hit(world, player_sweep(initial, pos), b);
        let s2 = spec_apply_collision(
            initial,
            pos,
            vel,
            og,
            spec_sweep_result(player_sweep(initial, pos), voxel_box(b)),
        );
        resolve_step(world, initial, s2.0, s2.1, s2.2, (fuel - 1) as nat)
    }
}

/// With nothing to collide with, a resolution pass changes nothing.
proof fn lemma_resolve_identity(
    world: World,
    initial: Vec3x,
    pos: Vec3x,
    vel: Vec3x,
    og: bool,
    fuel: nat,
)
    requires
        no_collision(world, player_sweep(initial, pos)),
    ensures
        resolve_step(world, initial, pos, vel, og, fuel) == (pos, vel, og),
{
}

/// One unfolding of the resolver's recursion, at the collision the search
/// reports.
proof fn lemma_resolve_unfold(
    world: World,
    initial: Vec3x,
    pos: Vec3x,
    vel: Vec3x,
    og: bool,
    fuel: nat,
    b: Vec3i,
    res: SweepTestResult,
)
    requires
        fuel > 0,
        is_first_hit(world, player_sweep(initial, pos), b),
        res == spec_sweep_result(player_sweep(initial, pos), voxel_box(b)),
    ensures
        ({
            let s2 = spec_apply_collision(initial, pos, vel, og, res);
            resolve_step(world, initial, pos, vel, og, fuel) == resolve_step(
                world,
                initial,
                s2.0,
                s2.1,
                s2.2,
                (fuel - 1) as nat,
            )
        }),
{
    let a = player_sweep(initial, pos);
    assert(collision_candidate(world, a, b) && spec_hit(a, voxel_box(b)));
    assert(!no_collision(world, a));
    let bc = choose|b2: Vec3i| is_first_hit(world, a, b2);
    assert(is_first_hit(world, a, bc));
    lemma_first_hit_unique(world, a, bc, b);
}

impl Game {
    /// Resolve the tick's movement against the loaded solid voxels: up to
    /// four passes of finding the earliest swept collision, advancing to it,
    /// and sliding the remaining displacement along the contact surface.
    /// Hitting a ceiling zeroes the vertical velocity; any contact with an
    /// upward-facing normal sets `on_ground`.
    #[verifier::rlimit(100)]
    fn handle_collision(&mut self, initial_position: Vec3x)
        requires
            old(self).wf(),
            -POS_CAP <= initial_position.x <= POS_CAP,
            -POS_CAP <= initial_position.y <= POS_CAP,
            -POS_CAP <= initial_position.z <= POS_CAP,
        ensures
            final(self).wf(),
            *final(self) == (Game {
                position: final(self).position,
                velocity: final(self).velocity,
                on_ground: final(self).on_ground,
                ..*old(self)
            }),
            (final(self).position, final(self).velocity, final(self).on_ground) == resolve_step(
                old(self).world,
                initial_position,
                old(self).position,
                old(self).velocity,
                false,
                4,
            ),
            no_collision(old(self).world, player_sweep(initial_position, old(self).position)) ==> {
                &&& final(self).position == old(self).position
                &&& final(self).velocity == old(self).velocity
                &&& !final(self).on_ground
            },
    {
        self.on_ground = false;
        let mut iter: usize = 0;
        let mut done = false;
        while iter < 4 && !done
            invariant
                old(self).wf(),
                -POS_CAP <= initial_position.x <= POS_CAP,
                -POS_CAP <= initial_position.y <= POS_CAP,
                -POS_CAP <= initial_position.z <= POS_CAP,
                self.wf(),
                *self == (Game {
                    position: self.position,
                    velocity: self.velocity,
                    on_ground: self.on_ground,
                    ..*old(self)
                }),
                iter <= 4,
                done ==> no_collision(
                    old(self).world,
                    player_sweep(initial_position, self.position),
                ),
                resolve_step(
                    old(self).world,
                    initial_position,
                    old(self).position,
                    old(self).velocity,
                    false,
                    4,
                ) == resolve_step(
                    old(self).world,
                    initial_position,
                    self.position,
                    self.velocity,
                    self.on_ground,
                    (4 - iter) as nat,
                ),
            decreases 4 - iter,
        {
            let sweep = SweepBox {
                collider: Aabbx {
                    min: Vec3x {
                        x: initial_position.x - 100,
                        y: initial_position.y - 1500,
                        z: initial_position.z - 100,
                    },
                    max: Vec3x {
                        x: initial_position.x + 100,
                        y: initial_position.y + 300,
                        z: initial_position.z + 100,
                    },
                },
                velocity: Vec3x {
                    x: self.position.x - initial_position.x,
                    y: self.position.y - initial_position.y,
                    z: self.position.z - initial_position.z,
                },
            };
            proof {
                assert(sweep == player_sweep(initial_position, self.position));
                assert(sweep_box_ok(sweep));
            }
            let result = earliest_collision(&self.world, sweep);
            match result {
                None => {
                    proof {
                        // The scan found nothing, so this pass and every
                        // remaining one leave the state alone.
                        lemma_resolve_identity(
                            old(self).world,
                            initial_position,
                            self.position,
                            self.velocity,
                            self.on_ground,
                            (4 - iter) as nat,
                        );
                        lemma_resolve_identity(
                            old(self).world,
                            initial_position,
                            self.position,
                            self.velocity,
                            self.on_ground,
                            (4 - iter - 1) as nat,
                        );
                    }
                    done = true;
                },
                Some(res) => {
                    proof {
                        let b = choose|b: Vec3i|
                            is_first_hit(old(self).world, sweep, b) && res == spec_sweep_result(
                                sweep,
                                voxel_box(b),
                            );
                        lemma_resolve_unfold(
                            old(self).world,
                            initial_position,
                            self.position,
                            self.velocity,
                            self.on_ground,
                            (4 - iter) as nat,
                            b,
                            res,
                        );
                    }
                    self.apply_collision(initial_position, res);
                },
            }
            iter = iter + 1;
        }
        proof {
            if done {
                lemma_resolve_identity(
                    old(self).world,
                    initial_position,
                    self.position,
                    self.velocity,
                    self.on_ground,
                    (4 - iter) as nat,
                );
            }
            if no_collision(old(self).world, player_sweep(initial_position, old(self).position)) {
                lemma_resolve_identity(
                    old(self).world,
                    initial_position,
                    old(self).position,
                    old(self).velocity,
                    false,
                    4,
                );
            }
        }
    }
}

/// Where the tick's input handling and physics integration put the
/// viewpoint before collision resolution: the walk displacement, the flying
/// lift, then one tick of the (gravity-updated) velocity.
pub open spec fn integrated_position(g: Game, input: InputState, walk_dir: Vec3x) -> Vec3x {
    let mx = clamp_s(g.position.x + walk_disp(walk_dir.x as int, g.flying), -POS_CAP as int, POS_CAP as int);
    let mz = clamp_s(g.position.z + walk_disp(walk_dir.z as int, g.flying), -POS_CAP as int, POS_CAP as int);
    let my0 = clamp_s(g.position.y + walk_disp(walk_dir.y as int, g.flying), -POS_CAP as int, POS_CAP as int);
    let sp = input.spec_get_key(KEY_SPACE);
    let my = if g.flying && (sp is KeptPressed || sp is JustPressed) {
        clamp_s(my0 + 625, -POS_CAP as int, POS_CAP as int)
    } else {
        my0
    };
    let v = integrated_velocity(g, input);
    Vec3x {
        x: clamp_s(mx + tdiv(v.x as int, 16), -POS_CAP as int, POS_CAP as int) as i64,
        y: clamp_s(my + tdiv(v.y as int, 16), -POS_CAP as int, POS_CAP as int) as i64,
        z: clamp_s(mz + tdiv(v.z as int, 16), -POS_CAP as int, POS_CAP as int) as i64,
    }
}

/// The velocity after the tick's jump impulse and gravity: a jump impulse
/// while grounded, then one tick of gravity while not flying (or none at
/// all while flying).
pub open spec fn integrated_velocity(g: Game, input: InputState) -> Vec3x {
    let vy_m = if g.on_ground {
        up_down(input) * g.jump_strength
    } else {
        g.velocity.y as int
    };
    let vy = if !g.flying {
        clamp_s(vy_m - 1000, -VEL_CAP as int, VEL_CAP as int)
    } else {
        0int
    };
    Vec3x { x: g.velocity.x, y: vy as i64, z: g.velocity.z }
}

impl Game {
    /// Run one simulation tick. `look_dir` is the view direction and
    /// `walk_dir` the camera-aligned walk direction, both as fixed-point
    /// unit vectors computed by the input layer; `arrived` holds the chunk
    /// payloads the streaming workers delivered since the last tick. New
    /// generation work the tick decides on is appended to
    /// `pending_chunk_requests` for the streaming layer to pick up.
    pub fn update(
        &mut self,
        input: &InputState,
        look_dir: Vec3x,
        walk_dir: Vec3x,
        arrived: Vec<(Vec3i, Chunk)>,
    )
        requires
            old(self).wf(),
            -1000 <= walk_dir.x <= 1000,
            -1000 <= walk_dir.y <= 1000,
            -1000 <= walk_dir.z <= 1000,
            -1_000_000 <= look_dir.x <= 1_000_000,
            -1_000_000 <= look_dir.y <= 1_000_000,
            -1_000_000 <= look_dir.z <= 1_000_000,
            forall|i: int| 0 <= i < arrived@.len() ==> (#[trigger] arrived@[i]).1.wf(),
        ensures
            final(self).wf(),
            final(self).flying == (if input.spec_get_key(KEY_P) is JustPressed {
                !old(self).flying
            } else {
                old(self).flying
            }),
            final(self).hotbar.slots == old(self).hotbar.slots,
            final(self).hotbar.active as int == (old(self).hotbar.active - input.scroll_delta) % 9,
            final(self).jump_strength == old(self).jump_strength,
            final(self).world.origin == chunk_of(final(self).spec_block_coordinate()),
            final(self).look_at_raycast == spec_raycast(
                old(self).world,
                final(self).position,
                look_dir,
                RAYCAST_RADIUS,
            ),
            (final(self).position, final(self).velocity, final(self).on_ground) == resolve_step(
                old(self).world,
                old(self).position,
                integrated_position(*old(self), *input, walk_dir),
                integrated_velocity(*old(self), *input),
                false,
                4,
            ),
            final(self).block_update_count < 4096,
            final(self).dirty_blocks@.len() == 0 || final(self).block_update_count >= 2048,
            final(self).total_block_update_count >= old(self).total_block_update_count,
    {
        let initial_position = self.position;

        self.handle_movement(input, walk_dir);

        // Gravity and velocity integration over one tick.
        if !self.flying {
            self.velocity.y = clamp_i64(self.velocity.y - GRAVITY / TICK_RATE as i64, -VEL_CAP, VEL_CAP);
        } else {
            self.velocity.y = 0;
        }
        self.position.x = clamp_i64(self.position.x + self.velocity.x / 16, -POS_CAP, POS_CAP);
        self.position.y = clamp_i64(self.position.y + self.velocity.y / 16, -POS_CAP, POS_CAP);
        self.position.z = clamp_i64(self.position.z + self.velocity.z / 16, -POS_CAP, POS_CAP);

        proof {
            assert(self.position == integrated_position(*old(self), *input, walk_dir));
            assert(self.velocity == integrated_velocity(*old(self), *input));
        }
        self.handle_collision(initial_position);

        let ray = raycast(&self.world, self.position, look_dir, RAYCAST_RADIUS);
        proof {
            assert(-200_000_001 <= self.position.x as int / 1000 <= 200_000_000);
            assert(-200_000_001 <= self.position.y as int / 1000 <= 200_000_000);
            assert(-200_000_001 <= self.position.z as int / 1000 <= 200_000_000);
        }
        self.look_at_raycast = ray;

        // Hotbar selection scrolls with wraparound.
        let shifted: i64 = self.hotbar.active as i64 - input.scroll_delta as i64;
        self.hotbar.active = euclid_rem_i64(shifted, 9) as usize;

        self.handle_place_destroy(input);
        self.update_blocks();

        if input.get_key(KEY_P).just_pressed() {
            self.flying = !self.flying;
        }

        // Re-centre the window when the viewpoint crossed a chunk boundary,
        // and queue generation for nearby newly exposed slots.
        let cc = self.chunk_coordinate();
        let origin_now = self.world.origin();
        if !(cc.x == origin_now.x && cc.y == origin_now.y && cc.z == origin_now.z) {
            self.world.set_origin(cc);
            let unloaded = self.world.unloaded_chunks();
            let ghost pre_requests = *self;
            proof {
                assert forall|j: int| 0 <= j < unloaded@.len()
                    implies in_window(pre_requests.world.origin, #[trigger] unloaded@[j]) by {
                    assert(unloaded@.contains(unloaded@[j]));
                }
            }
            let mut k: usize = 0;
            while k < unloaded.len()
                invariant
                    pre_requests.wf(),
                    self.wf(),
                    k <= unloaded.len(),
                    forall|j: int|
                        0 <= j < unloaded@.len() ==> in_window(pre_requests.world.origin, #[trigger] unloaded@[j]),
                    pre_requests.world.origin == cc,
                    *self == (Game {
                        pending_chunk_requests: self.pending_chunk_requests,
                        ..pre_requests
                    }),
                decreases unloaded.len() - k,
            {
                let u = unloaded[k];
                let dx: i64 = u.x as i64 - cc.x as i64;
                let dy: i64 = u.y as i64 - cc.y as i64;
                let dz: i64 = u.z as i64 - cc.z as i64;
                proof {
                    assert(0 <= dx * dx <= 9 && 0 <= dy * dy <= 9 && 0 <= dz * dz <= 9)
                        by (nonlinear_arith)
                        requires
                            -3 <= dx <= 3,
                            -3 <= dy <= 3,
                            -3 <= dz <= 3,
                    ;
                }
                let dd: i64 = dx * dx + dy * dy + dz * dz;
                if 9 * dd < 64 {
                    self.pending_chunk_requests.push(u);
                }
                k = k + 1;
            }
        }

        // Accept whatever the streaming workers delivered; results for
        // coordinates that left the window land as no-ops.
        let ghost pre_loads = *self;
        let mut rest = arrived;
        while rest.len() > 0
            invariant
                pre_loads.wf(),
                self.wf(),
                forall|i: int| 0 <= i < rest@.len() ==> (#[trigger] rest@[i]).1.wf(),
                self.world.origin == pre_loads.world.origin,
                *self == (Game {
                    world: self.world,
                    ..pre_loads
                }),
            decreases rest.len(),
        {
            let ghost rest_prev = rest@;
            let (c, ch) = rest.remove(0);
            proof {
                assert forall|i: int| 0 <= i < rest@.len()
                    implies (#[trigger] rest@[i]).1.wf() by {
                    assert(rest@[i] == rest_prev[i + 1]);
                }
            }
            self.world.load(c, ch);
        }
    }

    /// Advance to the contact time and slide the remaining displacement and
    /// the velocity tangent to the contact surface, then record ground
    /// contact.
    #[verifier::rlimit(100)]
    fn apply_collision(&mut self, initial_position: Vec3x, res: SweepTestResult)
        requires
            old(self).wf(),
            -POS_CAP <= initial_position.x <= POS_CAP,
            -POS_CAP <= initial_position.y <= POS_CAP,
            -POS_CAP <= initial_position.z <= POS_CAP,
            res.time.den > 0,
            0 <= res.time.num <= res.time.den,
            -1 <= res.normal.x <= 1,
            -1 <= res.normal.y <= 1,
            -1 <= res.normal.z <= 1,
            res.normal != (Vec3i { x: 0, y: 0, z: 0 }),
        ensures
            final(self).wf(),
            *final(self) == (Game {
                position: final(self).position,
                velocity: final(self).velocity,
                on_ground: final(self).on_ground,
                ..*old(self)
            }),
            (final(self).position, final(self).velocity, final(self).on_ground)
                == spec_apply_collision(
                initial_position,
                old(self).position,
                old(self).velocity,
                old(self).on_ground,
                res,
            ),
    {
        self.position = slide_position(
            initial_position,
            self.position,
            res.time.num,
            res.time.den,
            res.normal,
        );
        self.velocity = slide_velocity(self.velocity, res.normal);
        if res.normal.y > 0 {
            self.on_ground = true;
        }
    }
}

/// Whether `reps` already schedules a replacement at `p`.
pub open spec fn reps_contains(reps: Seq<(Vec3i, Block)>, p: Vec3i) -> bool {
    exists|k: int| 0 <= k < reps.len() && (#[trigger] reps[k]).0 == p
}

/// The cascade updates one processed target appends for its face neighbors
/// `f..6`: one update per neighbor not already scheduled for replacement,
/// naming the processed target as its source.
pub open spec fn neighbor_appends(
    target: Vec3i,
    notify: bool,
    reps: Seq<(Vec3i, Block)>,
    f: int,
) -> Seq<BlockUpdate>
    decreases 6 - f,
{
    if f < 0 || f >= 6 {
        Seq::empty()
    } else {
        let rest = neighbor_appends(target, notify, reps, f + 1);
        if reps_contains(reps, spec_face_neighbor(target, f)) {
            rest
        } else {
            seq![
                BlockUpdate {
                    target: spec_face_neighbor(target, f),
                    source: Some(target),
                    state_changed: notify,
                },
            ] + rest
        }
    }
}

/// One batch of lighting work, folded item by item against the stable
/// world snapshot `world`: the replacements scheduled and the cascade
/// updates appended. An update whose target is out of range or in an
/// unloaded chunk is dropped; a target already scheduled for replacement
/// this batch is skipped; otherwise the target is recomputed, scheduled if
/// its value changed, and its face neighbors are notified when the update
/// was a direct edit, a genuine change, or a cascade from one.
pub open spec fn batch_outcome(
    world: World,
    batch: Seq<BlockUpdate>,
    i: int,
    reps: Seq<(Vec3i, Block)>,
    appends: Seq<BlockUpdate>,
) -> (Seq<(Vec3i, Block)>, Seq<BlockUpdate>)
    decreases batch.len() - i,
{
    if i < 0 || i >= batch.len() {
        (reps, appends)
    } else {
        let u = batch[i];
        if !(coord_ok(u.target) && coord_interior(u.target)) {
            batch_outcome(world, batch, i + 1, reps, appends)
        } else {
            match world.spec_get_block(u.target) {
                None => batch_outcome(world, batch, i + 1, reps, appends),
                Some(block) => {
                    if reps_contains(reps, u.target) {
                        batch_outcome(world, batch, i + 1, reps, appends)
                    } else {
                        let nb = spec_recompute_block(world, u.target, block, u.source);
                        let reps2 = if nb != block {
                            reps.push((u.target, nb))
                        } else {
                            reps
                        };
                        let notify = block.light != nb.light
                            || block.open_to_sky != nb.open_to_sky;
                        if u.source is None || notify || u.state_changed {
                            batch_outcome(
                                world,
                                batch,
                                i + 1,
                                reps2,
                                appends + neighbor_appends(u.target, notify, reps2, 0),
                            )
                        } else {
                            batch_outcome(world, batch, i + 1, reps2, appends)
                        }
                    }
                },
            }
        }
    }
}

/// How applying a batch's replacements changes the world: every scheduled
/// target holds its recomputed block, everything else is untouched, and
/// which chunks are loaded does not change.
pub open spec fn replaces_applied(w1: World, w2: World, reps: Seq<(Vec3i, Block)>) -> bool {
    &&& w2.wf()
    &&& w2.origin == w1.origin
    &&& forall|c: Vec3i| (#[trigger] w2.chunk_seq_at(c)) is Some <==> w1.chunk_seq_at(c) is Some
    &&& forall|k: int|
        0 <= k < reps.len() ==> w2.spec_get_block((#[trigger] reps[k]).0) == Some(reps[k].1)
    &&& forall|p: Vec3i|
        #[trigger] coord_ok(p) && !reps_contains(reps, p) ==> w2.spec_get_block(p)
            == w1.spec_get_block(p)
}

/// Saturating addition on the update counter.
pub open spec fn sat_add(total: int, k: int) -> int {
    if total + k > usize::MAX {
        usize::MAX as int
    } else {
        total + k
    }
}

/// How many updates the next batch takes off the queue: everything, capped
/// at the per-tick budget.
pub open spec fn batch_k(q: Seq<BlockUpdate>) -> int {
    if q.len() <= 2048 {
        q.len() as int
    } else {
        2048int
    }
}

/// The replacements the next batch schedules.
pub open spec fn batch_reps(w: World, q: Seq<BlockUpdate>) -> Seq<(Vec3i, Block)> {
    batch_outcome(w, q.take(batch_k(q)), 0, Seq::empty(), Seq::empty()).0
}

/// The cascade updates the next batch appends.
pub open spec fn batch_appends(w: World, q: Seq<BlockUpdate>) -> Seq<BlockUpdate> {
    batch_outcome(w, q.take(batch_k(q)), 0, Seq::empty(), Seq::empty()).1
}

/// The queue after the next batch: the remainder, then the cascades.
pub open spec fn next_queue(w: World, q: Seq<BlockUpdate>) -> Seq<BlockUpdate> {
    q.skip(batch_k(q)) + batch_appends(w, q)
}

/// Whether `wm` is the world the next batch's replacements leave behind.
pub open spec fn batch_applied(w1: World, q1: Seq<BlockUpdate>, wm: World) -> bool {
    replaces_applied(w1, wm, batch_reps(w1, q1))
}

/// The whole drain, batch by batch: while work remains and the per-tick
/// budget is not spent, take the next batch off the front of the queue,
/// compute its outcome against the stable pre-batch world, apply the
/// replacements together, append the cascades behind the remaining queue,
/// and account the work done.
pub open spec fn drain_rel(
    w1: World,
    q1: Seq<BlockUpdate>,
    count1: int,
    total1: int,
    w2: World,
    q2: Seq<BlockUpdate>,
    count2: int,
    total2: int,
) -> bool
    decreases 4096 - count1,
{
    if count1 < 0 || count1 >= 2048 || q1.len() == 0 {
        w2 == w1 && q2 == q1 && count2 == count1 && total2 == total1
    } else {
        exists|wm: World|
            #[trigger] batch_applied(w1, q1, wm) && drain_rel(
                wm,
                next_queue(w1, q1),
                count1 + batch_k(q1),
                sat_add(total1, batch_k(q1)),
                w2,
                q2,
                count2,
                total2,
            )
    }
}

/// One unfolding of the drain recursion: a batch whose outcome was applied
/// through intermediate world `wm` extends any drain from `wm` onward.
proof fn lemma_drain_step(
    w1: World,
    q1: Seq<BlockUpdate>,
    c1: int,
    t1: int,
    wm: World,
    w2: World,
    q2: Seq<BlockUpdate>,
    c2: int,
    t2: int,
)
    requires
        0 <= c1 < 2048,
        q1.len() != 0,
        batch_applied(w1, q1, wm),
        drain_rel(wm, next_queue(w1, q1), c1 + batch_k(q1), sat_add(t1, batch_k(q1)), w2, q2, c2, t2),
    ensures
        drain_rel(w1, q1, c1, t1, w2, q2, c2, t2),
{
    assert(exists|wmx: World|
        #[trigger] batch_applied(w1, q1, wmx) && drain_rel(
            wmx,
            next_queue(w1, q1),
            c1 + batch_k(q1),
            sat_add(t1, batch_k(q1)),
            w2,
            q2,
            c2,
            t2,
        ));
}

impl Game {
    /// Drain a bounded amount of pending lighting work: process updates in
    /// batches against a stable snapshot of their neighbors, apply all of a
    /// batch's replacements together, and cascade further updates to the
    /// face neighbors of every block whose cached values changed. Updates
    /// for unloaded chunks are dropped.
    fn update_blocks(&mut self)
        requires
            old(self).wf(),
        ensures
            final(self).wf(),
            *final(self) == (Game {
                world: final(self).world,
                dirty_blocks: final(self).dirty_blocks,
                block_update_count: final(self).block_update_count,
                total_block_update_count: final(self).total_block_update_count,
                ..*old(self)
            }),
            final(self).world.origin == old(self).world.origin,
            forall|c: Vec3i|
                (#[trigger] final(self).world.chunk_seq_at(c)) is Some
                    <==> old(self).world.chunk_seq_at(c) is Some,
            final(self).block_update_count < 4096,
            final(self).dirty_blocks@.len() == 0 || final(self).block_update_count >= 2048,
            old(self).total_block_update_count <= final(self).total_block_update_count,
            drain_rel(
                old(self).world,
                old(self).dirty_blocks@,
                0,
                old(self).total_block_update_count as int,
                final(self).world,
                final(self).dirty_blocks@,
                final(self).block_update_count as int,
                final(self).total_block_update_count as int,
            ),
            old(self).dirty_blocks@.len() == 0 ==> final(self).world == old(self).world
                && final(self).dirty_blocks == old(self).dirty_blocks
                && final(self).block_update_count == 0
                && final(self).total_block_update_count == old(self).total_block_update_count,
            old(self).dirty_blocks@.len() > 0 ==> final(self).block_update_count > 0,
    {
        self.block_update_count = 0;
        while self.block_update_count < 2048 && self.dirty_blocks.len() != 0
            invariant
                old(self).wf(),
                self.wf(),
                *self == (Game {
                    world: self.world,
                    dirty_blocks: self.dirty_blocks,
                    block_update_count: self.block_update_count,
                    total_block_update_count: self.total_block_update_count,
                    ..*old(self)
                }),
                self.world.origin == old(self).world.origin,
                forall|c: Vec3i|
                    (#[trigger] self.world.chunk_seq_at(c)) is Some
                        <==> old(self).world.chunk_seq_at(c) is Some,
                self.block_update_count < 4096,
                old(self).total_block_update_count <= self.total_block_update_count,
                old(self).dirty_blocks@.len() == 0 ==> self.world == old(self).world
                    && self.dirty_blocks == old(self).dirty_blocks
                    && self.block_update_count == 0
                    && self.total_block_update_count == old(self).total_block_update_count,
                self.block_update_count == 0 ==> self.dirty_blocks == old(self).dirty_blocks,
                forall|w2: World, q2: Seq<BlockUpdate>, c2: int, t2: int|
                    #[trigger] drain_rel(
                        self.world,
                        self.dirty_blocks@,
                        self.block_update_count as int,
                        self.total_block_update_count as int,
                        w2,
                        q2,
                        c2,
                        t2,
                    ) ==> drain_rel(
                        old(self).world,
                        old(self).dirty_blocks@,
                        0,
                        old(self).total_block_update_count as int,
                        w2,
                        q2,
                        c2,
                        t2,
                    ),
            decreases 4096 - self.block_update_count,
        {
            let ghost w_b = self.world;
            let ghost q_b = self.dirty_blocks@;
            let ghost count_b: int = self.block_update_count as int;
            let ghost total_b: int = self.total_block_update_count as int;

            let len = self.dirty_blocks.len();
            let update_count = if len <= 2048 {
                len
            } else {
                2048
            };
            let ghost k: int = update_count as int;
            self.block_update_count = self.block_update_count + update_count;
            self.total_block_update_count = self.total_block_update_count.saturating_add(
                update_count,
            );
            let ghost count_after: int = self.block_update_count as int;
            let ghost total_after: int = self.total_block_update_count as int;
            proof {
                assert(count_after == count_b + k);
                assert(total_after == sat_add(total_b, k));
            }

            let mut tail = self.dirty_blocks.split_off(update_count);
            core::mem::swap(&mut self.dirty_blocks, &mut tail);
            let batch = tail;
            proof {
                assert(batch@ =~= q_b.take(k));
                assert(self.dirty_blocks@ =~= q_b.skip(k));
            }
            let ghost tail_len: int = self.dirty_blocks@.len() as int;

            let mut replaces: Vec<(Vec3i, Block)> = Vec::new();
            proof {
                assert(self.dirty_blocks@.skip(tail_len) =~= Seq::<BlockUpdate>::empty());
            }
            let mut i: usize = 0;
            while i < batch.len()
                invariant
                    old(self).wf(),
                    self.wf(),
                    *self == (Game {
                        world: self.world,
                        dirty_blocks: self.dirty_blocks,
                        block_update_count: self.block_update_count,
                        total_block_update_count: self.total_block_update_count,
                        ..*old(self)
                    }),
                    self.world == w_b,
                    w_b.wf(),
                    self.world.origin == old(self).world.origin,
                    forall|c: Vec3i|
                        (#[trigger] self.world.chunk_seq_at(c)) is Some
                            <==> old(self).world.chunk_seq_at(c) is Some,
                    self.block_update_count == count_after,
                    self.total_block_update_count == total_after,
                    0 <= tail_len <= self.dirty_blocks@.len(),
                    self.dirty_blocks@.take(tail_len) == q_b.skip(k),
                    batch_outcome(w_b, batch@, 0, Seq::empty(), Seq::empty()) == batch_outcome(
                        w_b,
                        batch@,
                        i as int,
                        replaces@,
                        self.dirty_blocks@.skip(tail_len),
                    ),
                    forall|k2: int|
                        0 <= k2 < replaces@.len() ==> {
                            &&& coord_ok((#[trigger] replaces@[k2]).0)
                            &&& w_b.spec_get_block(replaces@[k2].0) is Some
                        },
                    forall|k1: int, k2: int|
                        0 <= k1 < k2 < replaces@.len()
                            ==> (#[trigger] replaces@[k1]).0 != (#[trigger] replaces@[k2]).0,
                decreases batch.len() - i,
            {
                let ghost reps0 = replaces@;
                let ghost app0 = self.dirty_blocks@.skip(tail_len);
                let upd = batch[i];
                if target_in_range(upd.target) {
                    let looked = self.world.get_block(upd.target);
                    match looked {
                        None => {},
                        Some(block) => {
                            if !replaces_contains(&replaces, upd.target) {
                                let new_block = recompute_block(
                                    &self.world,
                                    upd.target,
                                    block,
                                    upd.source,
                                );
                                if new_block != block {
                                    replaces.push((upd.target, new_block));
                                    proof {
                                        assert forall|k1: int, k2: int|
                                            0 <= k1 < k2 < replaces@.len()
                                            implies (#[trigger] replaces@[k1]).0
                                                != (#[trigger] replaces@[k2]).0 by {
                                            if k2 == replaces@.len() - 1 {
                                                assert(!reps_contains(reps0, upd.target));
                                                assert(reps0[k1] == replaces@[k1]);
                                            }
                                        }
                                    }
                                }
                                let should_notify = block.light != new_block.light
                                    || block.open_to_sky != new_block.open_to_sky;
                                if upd.source.is_none() || should_notify || upd.state_changed {
                                    let neighbors = face_neighbors(upd.target);
                                    let ghost app_mark: int = self.dirty_blocks@.len() as int;
                                    proof {
                                        assert(self.dirty_blocks@.skip(app_mark)
                                            =~= Seq::<BlockUpdate>::empty());
                                        assert(Seq::<BlockUpdate>::empty()
                                            + neighbor_appends(upd.target, should_notify, replaces@, 0)
                                            =~= neighbor_appends(upd.target, should_notify, replaces@, 0));
                                    }
                                    let mut f: usize = 0;
                                    while f < 6
                                        invariant
                                            f <= 6,
                                            old(self).wf(),
                                            self.wf(),
                                            *self == (Game {
                                                world: self.world,
                                                dirty_blocks: self.dirty_blocks,
                                                block_update_count: self.block_update_count,
                                                total_block_update_count: self.total_block_update_count,
                                                ..*old(self)
                                            }),
                                            self.world == w_b,
                                            self.world.origin == old(self).world.origin,
                                            forall|c: Vec3i|
                                                (#[trigger] self.world.chunk_seq_at(c)) is Some
                                                    <==> old(self).world.chunk_seq_at(c) is Some,
                                            self.block_update_count == count_after,
                                            self.total_block_update_count == total_after,
                                            coord_ok(upd.target),
                                            -0x4000_0000 < upd.target.x < 0x3fff_ffff,
                                            -0x4000_0000 < upd.target.y < 0x3fff_ffff,
                                            -0x4000_0000 < upd.target.z < 0x3fff_ffff,
                                            forall|k2: int|
                                                0 <= k2 < 6 ==> neighbors@[k2]
                                                    == spec_face_neighbor(upd.target, k2),
                                            0 <= app_mark <= self.dirty_blocks@.len(),
                                            self.dirty_blocks@.take(app_mark)
                                                == q_b.skip(k) + app0,
                                            neighbor_appends(upd.target, should_notify, replaces@, 0)
                                                == self.dirty_blocks@.skip(app_mark)
                                                + neighbor_appends(
                                                upd.target,
                                                should_notify,
                                                replaces@,
                                                f as int,
                                            ),
                                        decreases 6 - f,
                                    {
                                        let ghost d0 = self.dirty_blocks@;
                                        if !replaces_contains(&replaces, neighbors[f]) {
                                            self.dirty_blocks.push(BlockUpdate {
                                                target: neighbors[f],
                                                source: Some(upd.target),
                                                state_changed: should_notify,
                                            });
                                            proof {
                                                assert(self.dirty_blocks@.take(app_mark)
                                                    =~= d0.take(app_mark));
                                                assert(self.dirty_blocks@.skip(app_mark)
                                                    =~= d0.skip(app_mark) + seq![
                                                    BlockUpdate {
                                                        target: spec_face_neighbor(
                                                            upd.target,
                                                            f as int,
                                                        ),
                                                        source: Some(upd.target),
                                                        state_changed: should_notify,
                                                    },
                                                ]);
                                                assert(neighbor_appends(
                                                    upd.target,
                                                    should_notify,
                                                    replaces@,
                                                    f as int,
                                                ) == seq![
                                                    BlockUpdate {
                                                        target: spec_face_neighbor(
                                                            upd.target,
                                                            f as int,
                                                        ),
                                                        source: Some(upd.target),
                                                        state_changed: should_notify,
                                                    },
                                                ] + neighbor_appends(
                                                    upd.target,
                                                    should_notify,
                                                    replaces@,
                                                    f as int + 1,
                                                ));
                                                assert(self.dirty_blocks@.skip(app_mark)
                                                    + neighbor_appends(
                                                    upd.target,
                                                    should_notify,
                                                    replaces@,
                                                    f as int + 1,
                                                ) =~= d0.skip(app_mark) + neighbor_appends(
                                                    upd.target,
                                                    should_notify,
                                                    replaces@,
                                                    f as int,
                                                ));
                                            }
                                        } else {
                                            proof {
                                                assert(neighbor_appends(
                                                    upd.target,
                                                    should_notify,
                                                    replaces@,
                                                    f as int,
                                                ) == neighbor_appends(
                                                    upd.target,
                                                    should_notify,
                                                    replaces@,
                                                    f as int + 1,
                                                ));
                                            }
                                        }
                                        f = f + 1;
                                    }
                                    proof {
                                        assert(neighbor_appends(
                                            upd.target,
                                            should_notify,
                                            replaces@,
                                            6,
                                        ) =~= Seq::<BlockUpdate>::empty());
                                        assert(self.dirty_blocks@.skip(app_mark)
                                            + Seq::<BlockUpdate>::empty()
                                            =~= self.dirty_blocks@.skip(app_mark));
                                        assert(app_mark == tail_len + app0.len());
                                        assert(self.dirty_blocks@.take(app_mark)
                                            == q_b.skip(k) + app0);
                                        assert(q_b.skip(k).len() == tail_len);
                                        assert forall|ix: int|
                                            0 <= ix < self.dirty_blocks@.len() - tail_len
                                            implies self.dirty_blocks@.skip(tail_len)[ix]
                                                == (app0 + self.dirty_blocks@.skip(app_mark))[ix] by {
                                            if ix < app0.len() {
                                                assert(self.dirty_blocks@.take(app_mark)[tail_len + ix]
                                                    == (q_b.skip(k) + app0)[tail_len + ix]);
                                            }
                                        }
                                        assert(self.dirty_blocks@.skip(tail_len) =~= app0
                                            + self.dirty_blocks@.skip(app_mark));
                                    }
                                }
                            }
                        },
                    }
                }
                proof {
                    assert(batch_outcome(w_b, batch@, i as int, reps0, app0) == batch_outcome(
                        w_b,
                        batch@,
                        i as int + 1,
                        replaces@,
                        self.dirty_blocks@.skip(tail_len),
                    ));
                }
                i = i + 1;
            }
            let ghost outcome = batch_outcome(w_b, batch@, 0, Seq::empty(), Seq::empty());
            let ghost q_mid = self.dirty_blocks@;
            proof {
                assert(outcome == (replaces@, q_mid.skip(tail_len)));
                assert(q_mid =~= q_b.skip(k) + q_mid.skip(tail_len));
            }

            let mut j: usize = 0;
            while j < replaces.len()
                invariant
                    old(self).wf(),
                    self.wf(),
                    *self == (Game {
                        world: self.world,
                        dirty_blocks: self.dirty_blocks,
                        block_update_count: self.block_update_count,
                        total_block_update_count: self.total_block_update_count,
                        ..*old(self)
                    }),
                    w_b.wf(),
                    self.world.origin == w_b.origin,
                    forall|c: Vec3i|
                        (#[trigger] self.world.chunk_seq_at(c)) is Some
                            <==> w_b.chunk_seq_at(c) is Some,
                    self.block_update_count == count_after,
                    self.total_block_update_count == total_after,
                    self.dirty_blocks@ == q_mid,
                    j <= replaces@.len(),
                    forall|k2: int|
                        0 <= k2 < replaces@.len() ==> {
                            &&& coord_ok((#[trigger] replaces@[k2]).0)
                            &&& w_b.spec_get_block(replaces@[k2].0) is Some
                        },
                    forall|k1: int, k2: int|
                        0 <= k1 < k2 < replaces@.len()
                            ==> (#[trigger] replaces@[k1]).0 != (#[trigger] replaces@[k2]).0,
                    forall|k2: int|
                        0 <= k2 < j ==> self.world.spec_get_block((#[trigger] replaces@[k2]).0)
                            == Some(replaces@[k2].1),
                    forall|k2: int|
                        j <= k2 < replaces@.len() ==> self.world.spec_get_block(
                            (#[trigger] replaces@[k2]).0,
                        ) == w_b.spec_get_block(replaces@[k2].0),
                    forall|p: Vec3i|
                        #[trigger] coord_ok(p) && !reps_contains(replaces@, p)
                            ==> self.world.spec_get_block(p) == w_b.spec_get_block(p),
                decreases replaces.len() - j,
            {
                let (pos, b) = replaces[j];
                proof {
                    assert(reps_contains(replaces@, pos));
                }
                self.set_block1(pos, b, false);
                j = j + 1;
            }
            proof {
                assert(replaces_applied(w_b, self.world, replaces@));
                let wm = self.world;
                assert forall|w2: World, q2: Seq<BlockUpdate>, c2: int, t2: int|
                    #[trigger] drain_rel(
                        self.world,
                        self.dirty_blocks@,
                        self.block_update_count as int,
                        self.total_block_update_count as int,
                        w2,
                        q2,
                        c2,
                        t2,
                    ) implies drain_rel(
                        old(self).world,
                        old(self).dirty_blocks@,
                        0,
                        old(self).total_block_update_count as int,
                        w2,
                        q2,
                        c2,
                        t2,
                    ) by {
                    assert(0 <= count_b < 2048);
                    assert(q_b.len() != 0);
                    assert(batch@ == q_b.take(k));
                    assert(outcome == batch_outcome(
                        w_b,
                        q_b.take(k),
                        0,
                        Seq::<(Vec3i, Block)>::empty(),
                        Seq::<BlockUpdate>::empty(),
                    ));
                    assert(k == batch_k(q_b));
                    assert(replaces_applied(w_b, wm, outcome.0));
                    assert(outcome.0 == batch_reps(w_b, q_b));
                    assert(outcome.1 == batch_appends(w_b, q_b));
                    assert(batch_applied(w_b, q_b, wm));
                    assert(q_mid == next_queue(w_b, q_b));
                    lemma_drain_step(w_b, q_b, count_b, total_b, wm, w2, q2, c2, t2);
                }
            }
        }
        proof {
            assert(drain_rel(
                self.world,
                self.dirty_blocks@,
                self.block_update_count as int,
                self.total_block_update_count as int,
                self.world,
                self.dirty_blocks@,
                self.block_update_count as int,
                self.total_block_update_count as int,
            ));
        }
    }
}

/// Whether a lighting target lies strictly inside the coordinate range the
/// world arithmetic accepts, so that all of its face neighbors do too.
fn target_in_range(p: Vec3i) -> (r: bool)
    ensures
        r == (coord_ok(p) && coord_interior(p)),
{
    -0x4000_0000 < p.x && p.x < 0x3fff_ffff && -0x4000_0000 < p.y && p.y < 0x3fff_ffff
        && -0x4000_0000 < p.z && p.z < 0x3fff_ffff
}

/// Whether `target` is already scheduled for replacement in this batch.
fn replaces_contains(replaces: &Vec<(Vec3i, Block)>, target: Vec3i) -> (r: bool)
    ensures
        r == exists|k: int| 0 <= k < replaces@.len() && (#[trigger] replaces@[k]).0 == target,
{
    let mut k: usize = 0;
    while k < replaces.len()
        invariant
            k <= replaces.len(),
            forall|k2: int| 0 <= k2 < k ==> (#[trigger] replaces@[k2]).0 != target,
        decreases replaces.len() - k,
    {
        if replaces[k].0 == target {
            return true;
        }
        k = k + 1;
    }
    false
}

/// `v` scaled by a sign-vector component, in contracts.
pub open spec fn spart(n: int, v: int) -> int {
    if n == 1 {
        v
    } else if n == -1 {
        -v
    } else {
        0
    }
}

/// Where one resolution pass puts the position: each axis advanced to the
/// contact fraction `num / den` of the displacement since `initial`, plus
/// the remaining displacement with its component along the contact normal
/// removed; exact in rationals, rounded toward zero, clamped to the
/// position cap.
pub open spec fn spec_slide_position(
    initial: Vec3x,
    pos: Vec3x,
    num: int,
    den: int,
    normal: Vec3i,
) -> Vec3x {
    let dx = pos.x - initial.x;
    let dy = pos.y - initial.y;
    let dz = pos.z - initial.z;
    let ax = clamp_s(initial.x + tdiv(dx * num, den), -POS_CAP as int, POS_CAP as int);
    let ay = clamp_s(initial.y + tdiv(dy * num, den), -POS_CAP as int, POS_CAP as int);
    let az = clamp_s(initial.z + tdiv(dz * num, den), -POS_CAP as int, POS_CAP as int);
    let rx = tdiv(dx * (den - num), den);
    let ry = tdiv(dy * (den - num), den);
    let rz = tdiv(dz * (den - num), den);
    let nx = normal.x as int;
    let ny = normal.y as int;
    let nz = normal.z as int;
    let nsq = (if nx != 0 { 1int } else { 0int }) + (if ny != 0 { 1int } else { 0int })
        + (if nz != 0 { 1int } else { 0int });
    let dot = spart(nx, rx) + spart(ny, ry) + spart(nz, rz);
    Vec3x {
        x: clamp_s(ax + (rx - tdiv(spart(nx, dot), nsq)), -POS_CAP as int, POS_CAP as int) as i64,
        y: clamp_s(ay + (ry - tdiv(spart(ny, dot), nsq)), -POS_CAP as int, POS_CAP as int) as i64,
        z: clamp_s(az + (rz - tdiv(spart(nz, dot), nsq)), -POS_CAP as int, POS_CAP as int) as i64,
    }
}

/// Where one resolution pass puts the velocity: its component along the
/// contact normal removed, exactly in rationals, rounded toward zero,
/// clamped to the velocity cap.
pub open spec fn spec_slide_velocity(vel: Vec3x, normal: Vec3i) -> Vec3x {
    let nx = normal.x as int;
    let ny = normal.y as int;
    let nz = normal.z as int;
    let nsq = (if nx != 0 { 1int } else { 0int }) + (if ny != 0 { 1int } else { 0int })
        + (if nz != 0 { 1int } else { 0int });
    let vdot = spart(nx, vel.x as int) + spart(ny, vel.y as int) + spart(nz, vel.z as int);
    Vec3x {
        x: clamp_s(vel.x - tdiv(spart(nx, vdot), nsq), -VEL_CAP as int, VEL_CAP as int) as i64,
        y: clamp_s(vel.y - tdiv(spart(ny, vdot), nsq), -VEL_CAP as int, VEL_CAP as int) as i64,
        z: clamp_s(vel.z - tdiv(spart(nz, vdot), nsq), -VEL_CAP as int, VEL_CAP as int) as i64,
    }
}

/// The state one resolution pass leaves after the given collision: the
/// position advanced and slid, the velocity projected tangent to the
/// contact normal, and ground contact recorded for an upward normal.
pub open spec fn spec_apply_collision(
    initial: Vec3x,
    pos: Vec3x,
    vel: Vec3x,
    og: bool,
    res: SweepTestResult,
) -> (Vec3x, Vec3x, bool) {
    (
        spec_slide_position(initial, pos, res.time.num as int, res.time.den as int, res.normal),
        spec_slide_velocity(vel, res.normal),
        og || res.normal.y > 0,
    )
}

/// `v` scaled by a normal component that is -1, 0 or 1.
fn signed_part(v: i64, n: i32) -> (r: i64)
    requires
        -1 <= n <= 1,
        -4_000_000_000_000 <= v <= 4_000_000_000_000,
    ensures
        r as int == (if n == 1 { v as int } else if n == -1 { -(v as int) } else { 0int }),
        r == v || r == -v || r == 0,
{
    if n == 1 {
        v
    } else if n == -1 {
        -v
    } else {
        0
    }
}

/// Truncating division by a positive divisor, tied to its contract form.
fn tdiv_i64(a: i64, b: i64) -> (r: i64)
    requires
        b > 0,
    ensures
        r as int == tdiv(a as int, b as int),
{
    a / b
}

/// Advance the position to the contact fraction and slide the remaining
/// displacement tangent to the contact normal.
#[verifier::rlimit(100)]
fn slide_position(initial: Vec3x, pos: Vec3x, num: i64, den: i64, normal: Vec3i) -> (r: Vec3x)
    requires
        den > 0,
        0 <= num <= den,
        -POS_CAP <= initial.x <= POS_CAP,
        -POS_CAP <= initial.y <= POS_CAP,
        -POS_CAP <= initial.z <= POS_CAP,
        -POS_CAP <= pos.x <= POS_CAP,
        -POS_CAP <= pos.y <= POS_CAP,
        -POS_CAP <= pos.z <= POS_CAP,
        -1 <= normal.x <= 1,
        -1 <= normal.y <= 1,
        -1 <= normal.z <= 1,
        normal != (Vec3i { x: 0, y: 0, z: 0 }),
    ensures
        r == spec_slide_position(initial, pos, num as int, den as int, normal),
        -POS_CAP <= r.x <= POS_CAP,
        -POS_CAP <= r.y <= POS_CAP,
        -POS_CAP <= r.z <= POS_CAP,
{
    let (ax, rx) = advance_axis(initial.x, pos.x - initial.x, num, den);
    let (ay, ry) = advance_axis(initial.y, pos.y - initial.y, num, den);
    let (az, rz) = advance_axis(initial.z, pos.z - initial.z, num, den);

    let dot: i64 = signed_part(rx, normal.x) + signed_part(ry, normal.y)
        + signed_part(rz, normal.z);
    let nsq: i64 = (if normal.x != 0 { 1i64 } else { 0i64 })
        + (if normal.y != 0 { 1i64 } else { 0i64 })
        + (if normal.z != 0 { 1i64 } else { 0i64 });
    Vec3x {
        x: clamp_i64(ax + (rx - tdiv_i64(signed_part(dot, normal.x), nsq)), -POS_CAP, POS_CAP),
        y: clamp_i64(ay + (ry - tdiv_i64(signed_part(dot, normal.y), nsq)), -POS_CAP, POS_CAP),
        z: clamp_i64(az + (rz - tdiv_i64(signed_part(dot, normal.z), nsq)), -POS_CAP, POS_CAP),
    }
}

/// Remove the velocity's component along the contact normal, so a landing
/// or a ceiling hit stops the vertical motion and a wall stops the motion
/// into it.
#[verifier::rlimit(100)]
fn slide_velocity(vel: Vec3x, normal: Vec3i) -> (r: Vec3x)
    requires
        -VEL_CAP <= vel.x <= VEL_CAP,
        -VEL_CAP <= vel.y <= VEL_CAP,
        -VEL_CAP <= vel.z <= VEL_CAP,
        -1 <= normal.x <= 1,
        -1 <= normal.y <= 1,
        -1 <= normal.z <= 1,
        normal != (Vec3i { x: 0, y: 0, z: 0 }),
    ensures
        r == spec_slide_velocity(vel, normal),
        -VEL_CAP <= r.x <= VEL_CAP,
        -VEL_CAP <= r.y <= VEL_CAP,
        -VEL_CAP <= r.z <= VEL_CAP,
{
    let vdot: i64 = signed_part(vel.x, normal.x) + signed_part(vel.y, normal.y)
        + signed_part(vel.z, normal.z);
    let nsq: i64 = (if normal.x != 0 { 1i64 } else { 0i64 })
        + (if normal.y != 0 { 1i64 } else { 0i64 })
        + (if normal.z != 0 { 1i64 } else { 0i64 });
    Vec3x {
        x: clamp_i64(vel.x - tdiv_i64(signed_part(vdot, normal.x), nsq), -VEL_CAP, VEL_CAP),
        y: clamp_i64(vel.y - tdiv_i64(signed_part(vdot, normal.y), nsq), -VEL_CAP, VEL_CAP),
        z: clamp_i64(vel.z - tdiv_i64(signed_part(vdot, normal.z), nsq), -VEL_CAP, VEL_CAP),
    }
}

/// Advance one position axis to the collision time and compute the
/// remaining displacement on that axis: the position moves by the travelled
/// fraction `num / den` of the velocity, exactly in rationals and rounded
/// toward zero.
fn advance_axis(initial: i64, vel: i64, num: i64, den: i64) -> (r: (i64, i64))
    requires
        den > 0,
        0 <= num <= den,
        -500_000_000_000 <= initial <= 500_000_000_000,
        -500_000_000_000 <= vel <= 500_000_000_000,
    ensures
        r.0 as int == clamp_s(initial + tdiv(vel as int * num as int, den as int), -POS_CAP as int, POS_CAP as int),
        r.1 as int == tdiv(vel as int * (den - num) as int, den as int),
        -500_000_000_000 <= r.1 <= 500_000_000_000,
{
    proof {
        crate::physics::lemma_i64_product_fits(vel as int, num as int);
        crate::physics::lemma_i64_product_fits(vel as int, (den - num) as int);
    }
    let prod: i128 = vel as i128 * num as i128;
    let q: i128 = prod / (den as i128);
    let adv: i128 = initial as i128 + q;
    let advanced: i64 = if adv < -POS_CAP as i128 {
        -POS_CAP
    } else if adv > POS_CAP as i128 {
        POS_CAP
    } else {
        adv as i64
    };
    let rem_prod: i128 = vel as i128 * ((den - num) as i128);
    let rem_q: i128 = rem_prod / (den as i128);
    proof {
        let m: int = if vel >= 0 { vel as int } else { -(vel as int) };
        assert(-(m * den) <= vel as int * (den - num) as int <= m * den) by (nonlinear_arith)
            requires
                den > 0,
                0 <= den - num <= den,
                m == (if vel >= 0 { vel as int } else { -(vel as int) }),
        ;
        lemma_tdiv_bound(vel as int * (den - num) as int, den as int, m);
        assert(-(m * den) <= vel as int * num as int <= m * den) by (nonlinear_arith)
            requires
                den > 0,
                0 <= num <= den,
                m == (if vel >= 0 { vel as int } else { -(vel as int) }),
        ;
        lemma_tdiv_bound(vel as int * num as int, den as int, m);
    }
    let remaining: i64 = rem_q as i64;
    (advanced, remaining)
}

/// The larger of two values.
fn max_i64(a: i64, b: i64) -> (r: i64)
    ensures
        r == if a >= b { a } else { b },
{
    if a >= b { a } else { b }
}

/// The smaller of two values.
fn min_i64(a: i64, b: i64) -> (r: i64)
    ensures
        r == if a <= b { a } else { b },
{
    if a <= b { a } else { b }
}

} // verus!
