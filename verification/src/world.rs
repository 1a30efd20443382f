//! The sliding window of loaded terrain: a fixed-shape grid of optional
//! chunks keyed by a re-centerable origin, with the coordinate transforms
//! between world positions, chunk coordinates and window indices.

use vstd::prelude::*;
use vstd::arithmetic::div_mod::lemma_fundamental_div_mod;
use crate::block::Block;
use crate::chunk::{Chunk, CHUNK_SIZE_I, in_chunk};
use crate::vecmath::{Vec3i, floor_div_i32, euclid_rem_i32};

verus! {

/// Half-extent of the window, in chunks, on the x axis.
pub const EXTENT_X: i32 = 3;

/// Half-extent of the window, in chunks, on the y axis.
pub const EXTENT_Y: i32 = 2;

/// Half-extent of the window, in chunks, on the z axis.
pub const EXTENT_Z: i32 = 3;

/// Whether `p` is a block coordinate the world arithmetic accepts: the
/// range is bounded so that every coordinate computation stays inside
/// `i32`.
pub open spec fn coord_ok(p: Vec3i) -> bool {
    &&& -0x4000_0000 <= p.x < 0x4000_0000
    &&& -0x4000_0000 <= p.y < 0x4000_0000
    &&& -0x4000_0000 <= p.z < 0x4000_0000
}

/// Whether `c` is an acceptable window origin: bounded so that every
/// window coordinate stays inside the accepted block-coordinate range.
pub open spec fn origin_ok(c: Vec3i) -> bool {
    &&& -0x100_0000 <= c.x <= 0x100_0000
    &&& -0x100_0000 <= c.y <= 0x100_0000
    &&& -0x100_0000 <= c.z <= 0x100_0000
}

/// Whether chunk coordinate `c` falls inside the window centred at `origin`.
pub open spec fn in_window(origin: Vec3i, c: Vec3i) -> bool {
    &&& -3 <= c.x - origin.x <= 3
    &&& -2 <= c.y - origin.y <= 2
    &&& -3 <= c.z - origin.z <= 3
}

/// The flat slot index of chunk coordinate `c` in the window at `origin`.
pub open spec fn window_flat(origin: Vec3i, c: Vec3i) -> int {
    (c.x - origin.x + 3) * 35 + (c.y - origin.y + 2) * 7 + (c.z - origin.z + 3)
}

/// A window slot index is always inside the window volume.
pub proof fn lemma_window_flat_range(origin: Vec3i, c: Vec3i)
    requires
        in_window(origin, c),
    ensures
        0 <= window_flat(origin, c) < 245,
{
}

/// Distinct in-window chunk coordinates occupy distinct slots.
pub proof fn lemma_window_flat_injective(origin: Vec3i, c1: Vec3i, c2: Vec3i)
    requires
        in_window(origin, c1),
        in_window(origin, c2),
        window_flat(origin, c1) == window_flat(origin, c2),
    ensures
        c1 == c2,
{
}

/// The chunk coordinate of the chunk containing block coordinate `p`:
/// floor division of each axis by the chunk size.
pub open spec fn chunk_of(p: Vec3i) -> Vec3i {
    Vec3i { x: (p.x as int / 16) as i32, y: (p.y as int / 16) as i32, z: (p.z as int / 16) as i32 }
}

/// The cell of its chunk that block coordinate `p` addresses: the Euclidean
/// remainder of each axis by the chunk size, so negative coordinates map
/// correctly.
pub open spec fn local_of(p: Vec3i) -> (int, int, int) {
    (p.x as int % 16, p.y as int % 16, p.z as int % 16)
}

/// A block coordinate's local cell is always a valid chunk cell.
pub proof fn lemma_local_of_in_chunk(p: Vec3i)
    ensures
        in_chunk(local_of(p).0, local_of(p).1, local_of(p).2),
{
    assert(0 <= p.x as int % 16 < 16);
    assert(0 <= p.y as int % 16 < 16);
    assert(0 <= p.z as int % 16 < 16);
}

/// Failure modes of world mutation.
#[derive(Clone, Copy, Debug, PartialEq, Eq, Structural)]
pub enum WorldError {
    /// The chunk owning the target coordinate is not currently loaded.
    ChunkNotLoaded,
}

/// The loaded region: a window of `7 x 5 x 7` optional chunks centred on
/// `origin`. `None` means unloaded. The window shape never changes; only the
/// origin and which slots are filled do.
pub struct World {
    /// Chunk coordinate of the window centre.
    pub origin: Vec3i,
    /// The chunk slots, indexed by `window_flat`.
    pub chunks: Vec<Option<Chunk>>,
}

impl World {
    /// Structural well-formedness: correct slot count, bounded origin, and
    /// every loaded chunk holding a full grid.
    pub open spec fn wf(self) -> bool {
        &&& self.chunks.len() == 245
        &&& origin_ok(self.origin)
        &&& forall|i: int|
            0 <= i < 245 ==> (#[trigger] self.chunks[i] matches Some(c) ==> c.wf())
    }

    /// The chunk loaded at chunk coordinate `c`, if any.
    pub open spec fn spec_chunk_at(self, c: Vec3i) -> Option<Chunk> {
        if in_window(self.origin, c) {
            self.chunks[window_flat(self.origin, c)]
        } else {
            None
        }
    }

    /// The contents of the chunk loaded at `c`, if any, as a sequence of
    /// blocks in x-major cell order.
    pub open spec fn chunk_seq_at(self, c: Vec3i) -> Option<Seq<Block>> {
        match self.spec_chunk_at(c) {
            Some(ch) => Some(ch@),
            None => None,
        }
    }

    /// The block stored at world coordinate `p`, if its chunk is loaded.
    pub open spec fn spec_get_block(self, p: Vec3i) -> Option<Block> {
        match self.spec_chunk_at(chunk_of(p)) {
            Some(ch) => Some(ch.at(local_of(p).0, local_of(p).1, local_of(p).2)),
            None => None,
        }
    }

    /// A fresh, fully unloaded world centred at `origin`.
    pub fn new(origin: Vec3i) -> (r: World)
        requires
            origin_ok(origin),
        ensures
            r.wf(),
            r.origin == origin,
            forall|c: Vec3i| r.spec_chunk_at(c) == None::<Chunk>,
    {
        let mut chunks: Vec<Option<Chunk>> = Vec::new();
        let mut i: usize = 0;
        while i < 245
            invariant
                i <= 245,
                chunks.len() == i,
                forall|j: int| 0 <= j < i ==> chunks[j] == None::<Chunk>,
            decreases 245 - i,
        {
            chunks.push(None);
            i = i + 1;
        }
        let r = World { origin, chunks };
        proof {
            assert forall|c: Vec3i| r.spec_chunk_at(c) == None::<Chunk> by {
                if in_window(origin, c) {
                    lemma_window_flat_range(origin, c);
                }
            }
        }
        r
    }

    /// The chunk coordinate of the chunk containing `position`.
    pub fn world_to_chunk(&self, position: Vec3i) -> (r: Vec3i)
        requires
            coord_ok(position),
        ensures
            r == chunk_of(position),
    {
        Vec3i {
            x: floor_div_i32(position.x, CHUNK_SIZE_I),
            y: floor_div_i32(position.y, CHUNK_SIZE_I),
            z: floor_div_i32(position.z, CHUNK_SIZE_I),
        }
    }

    /// The window slot of chunk coordinate `chunk_coord`, or `None` when the
    /// coordinate is outside `origin` plus or minus the extents on any axis.
    pub fn chunk_to_index(&self, chunk_coord: Vec3i) -> (r: Option<usize>)
        requires
            self.wf(),
        ensures
            r is Some <==> in_window(self.origin, chunk_coord),
            r matches Some(i) ==> i == window_flat(self.origin, chunk_coord),
    {
        let ox: i64 = chunk_coord.x as i64 - self.origin.x as i64;
        let oy: i64 = chunk_coord.y as i64 - self.origin.y as i64;
        let oz: i64 = chunk_coord.z as i64 - self.origin.z as i64;
        if -3 <= ox && ox <= 3 && -2 <= oy && oy <= 2 && -3 <= oz && oz <= 3 {
            Some(((ox + 3) * 35 + (oy + 2) * 7 + (oz + 3)) as usize)
        } else {
            None
        }
    }

    /// The chunk coordinate of the window centre.
    pub fn origin(&self) -> (r: Vec3i)
        ensures
            r == self.origin,
    {
        self.origin
    }

    /// The window half-extents, in chunks.
    pub fn extents(&self) -> (r: Vec3i)
        ensures
            r == (Vec3i { x: 3, y: 2, z: 3 }),
    {
        Vec3i { x: EXTENT_X, y: EXTENT_Y, z: EXTENT_Z }
    }

    /// Insert `chunk` at `chunk_coordinate`; a no-op when the coordinate is
    /// outside the window, so late or duplicate streamed results are ignored.
    pub fn load(&mut self, chunk_coordinate: Vec3i, chunk: Chunk)
        requires
            old(self).wf(),
            chunk.wf(),
        ensures
            final(self).wf(),
            final(self).origin == old(self).origin,
            in_window(old(self).origin, chunk_coordinate)
                ==> final(self).chunk_seq_at(chunk_coordinate) == Some(chunk@),
            forall|c: Vec3i|
                c != chunk_coordinate
                    ==> #[trigger] final(self).chunk_seq_at(c) == old(self).chunk_seq_at(c),
            !in_window(old(self).origin, chunk_coordinate) ==> *final(self) == *old(self),
    {
        let idx = self.chunk_to_index(chunk_coordinate);
        match idx {
            None => {},
            Some(i) => {
                proof {
                    lemma_window_flat_range(self.origin, chunk_coordinate);
                }
                self.chunks.set(i, Some(chunk));
                proof {
                    assert forall|c: Vec3i| c != chunk_coordinate
                        implies #[trigger] self.chunk_seq_at(c) == old(self).chunk_seq_at(c) by {
                        if in_window(self.origin, c) {
                            lemma_window_flat_range(self.origin, c);
                            if window_flat(self.origin, c) == window_flat(self.origin, chunk_coordinate) {
                                lemma_window_flat_injective(self.origin, c, chunk_coordinate);
                            }
                        }
                    }
                }
            },
        }
    }

    /// Remove the chunk at `chunk_coordinate`, which must be inside the
    /// window, leaving its slot unloaded.
    pub fn unload(&mut self, chunk_coordinate: Vec3i)
        requires
            old(self).wf(),
            in_window(old(self).origin, chunk_coordinate),
        ensures
            final(self).wf(),
            final(self).origin == old(self).origin,
            final(self).chunk_seq_at(chunk_coordinate) == None::<Seq<Block>>,
            forall|c: Vec3i|
                c != chunk_coordinate
                    ==> #[trigger] final(self).chunk_seq_at(c) == old(self).chunk_seq_at(c),
    {
        let idx = self.chunk_to_index(chunk_coordinate);
        match idx {
            None => {
                // Excluded by the precondition: the coordinate is inside
                // the window, so the index lookup cannot fail.
                proof {
                    assert(false);
                }
            },
            Some(i) => {
                proof {
                    lemma_window_flat_range(self.origin, chunk_coordinate);
                }
                self.chunks.set(i, None);
                proof {
                    assert forall|c: Vec3i| c != chunk_coordinate
                        implies #[trigger] self.chunk_seq_at(c) == old(self).chunk_seq_at(c) by {
                        if in_window(self.origin, c) {
                            lemma_window_flat_range(self.origin, c);
                            if window_flat(self.origin, c) == window_flat(self.origin, chunk_coordinate) {
                                lemma_window_flat_injective(self.origin, c, chunk_coordinate);
                            }
                        }
                    }
                }
            },
        }
    }

    /// A copy of the chunk loaded at chunk coordinate `position`, if any.
    pub fn chunk_at(&self, position: Vec3i) -> (r: Option<Chunk>)
        requires
            self.wf(),
        ensures
            match r {
                Some(ch) => self.chunk_seq_at(position) == Some(ch@) && ch.wf(),
                None => self.chunk_seq_at(position) == None::<Seq<Block>>,
            },
    {
        let idx = self.chunk_to_index(position);
        match idx {
            None => None,
            Some(i) => {
                proof {
                    lemma_window_flat_range(self.origin, position);
                }
                match &self.chunks[i] {
                    None => None,
                    Some(ch) => Some(ch.duplicate()),
                }
            },
        }
    }

    /// A copy of the chunk containing world coordinate `position`, if loaded.
    pub fn chunk_at_world(&self, position: Vec3i) -> (r: Option<Chunk>)
        requires
            self.wf(),
            coord_ok(position),
        ensures
            match r {
                Some(ch) => self.chunk_seq_at(chunk_of(position)) == Some(ch@) && ch.wf(),
                None => self.chunk_seq_at(chunk_of(position)) == None::<Seq<Block>>,
            },
    {
        let c = self.world_to_chunk(position);
        self.chunk_at(c)
    }

    /// The block at world coordinate `position`, or `None` when its chunk is
    /// not loaded.
    pub fn get_block(&self, position: Vec3i) -> (r: Option<Block>)
        requires
            self.wf(),
            coord_ok(position),
        ensures
            r == self.spec_get_block(position),
    {
        let c = self.world_to_chunk(position);
        let idx = self.chunk_to_index(c);
        match idx {
            None => None,
            Some(i) => {
                proof {
                    lemma_window_flat_range(self.origin, c);
                    lemma_local_of_in_chunk(position);
                }
                match &self.chunks[i] {
                    None => None,
                    Some(ch) => {
                        let local = Vec3i {
                            x: euclid_rem_i32(position.x, CHUNK_SIZE_I),
                            y: euclid_rem_i32(position.y, CHUNK_SIZE_I),
                            z: euclid_rem_i32(position.z, CHUNK_SIZE_I),
                        };
                        Some(ch.get_block(local))
                    },
                }
            },
        }
    }

    /// Write `block` at world coordinate `position` by cloning the owning
    /// chunk, mutating the copy and publishing it back — or report
    /// `ChunkNotLoaded` without touching anything.
    pub fn set_block(&mut self, position: Vec3i, block: Block) -> (r: Result<(), WorldError>)
        requires
            old(self).wf(),
            coord_ok(position),
        ensures
            final(self).wf(),
            final(self).origin == old(self).origin,
            r is Ok <==> old(self).spec_get_block(position) is Some,
            r is Err ==> *final(self) == *old(self) && r == Err::<(), WorldError>(WorldError::ChunkNotLoaded),
            r is Ok ==> final(self).spec_get_block(position) == Some(block),
            r is Ok ==> forall|q: Vec3i|
                q != position && #[trigger] coord_ok(q)
                    ==> final(self).spec_get_block(q) == old(self).spec_get_block(q),
            r is Ok ==> forall|c: Vec3i|
                (#[trigger] final(self).chunk_seq_at(c)) is Some <==> old(self).chunk_seq_at(c) is Some,
    {
        let c = self.world_to_chunk(position);
        let idx = self.chunk_to_index(c);
        match idx {
            None => Err(WorldError::ChunkNotLoaded),
            Some(i) => {
                proof {
                    lemma_window_flat_range(self.origin, c);
                    lemma_local_of_in_chunk(position);
                }
                let local = Vec3i {
                    x: euclid_rem_i32(position.x, CHUNK_SIZE_I),
                    y: euclid_rem_i32(position.y, CHUNK_SIZE_I),
                    z: euclid_rem_i32(position.z, CHUNK_SIZE_I),
                };
                let mut new_chunk: Chunk;
                match &self.chunks[i] {
                    None => {
                        return Err(WorldError::ChunkNotLoaded);
                    },
                    Some(ch) => {
                        new_chunk = ch.duplicate();
                    },
                }
                new_chunk.set_block(local, block);
                self.chunks.set(i, Some(new_chunk));
                proof {
                    self.lemma_set_block_frame(*old(self), position, block, c, i as int, local);
                }
                Ok(())
            },
        }
    }

    /// Frame argument for `set_block`: replacing one cell of one chunk leaves
    /// every other world coordinate and the loaded-chunk membership as they
    /// were.
    proof fn lemma_set_block_frame(
        self,
        prev: World,
        position: Vec3i,
        block: Block,
        c: Vec3i,
        i: int,
        local: Vec3i,
    )
        requires
            prev.wf(),
            coord_ok(position),
            c == chunk_of(position),
            in_window(prev.origin, c),
            i == window_flat(prev.origin, c),
            (local.x as int, local.y as int, local.z as int) == local_of(position),
            self.origin == prev.origin,
            self.chunks.len() == prev.chunks.len(),
            prev.chunks[i] is Some,
            self.chunks[i] matches Some(nc) && {
                &&& nc.wf()
                &&& nc.at(local.x as int, local.y as int, local.z as int) == block
                &&& forall|x: int, y: int, z: int|
                    in_chunk(x, y, z) && (x, y, z) != (local.x as int, local.y as int, local.z as int)
                        ==> nc.at(x, y, z) == prev.chunks[i].unwrap().at(x, y, z)
            },
            forall|j: int| 0 <= j < prev.chunks.len() && j != i ==> self.chunks[j] == prev.chunks[j],
        ensures
            self.wf(),
            self.spec_get_block(position) == Some(block),
            forall|q: Vec3i|
                q != position && #[trigger] coord_ok(q)
                    ==> self.spec_get_block(q) == prev.spec_get_block(q),
            forall|cc: Vec3i|
                (#[trigger] self.chunk_seq_at(cc)) is Some <==> prev.chunk_seq_at(cc) is Some,
    {
        assert forall|q: Vec3i| q != position && #[trigger] coord_ok(q)
            implies self.spec_get_block(q) == prev.spec_get_block(q) by {
            let qc = chunk_of(q);
            if in_window(self.origin, qc) {
                lemma_window_flat_range(self.origin, qc);
                if window_flat(self.origin, qc) == i {
                    lemma_window_flat_injective(self.origin, qc, c);
                    assert(qc == c);
                    // Same chunk, different cell: the two coordinates must
                    // differ in their local offsets.
                    lemma_local_of_in_chunk(q);
                    if local_of(q) == local_of(position) {
                        lemma_same_chunk_same_local(q, position);
                    }
                }
            }
        }
        assert forall|cc: Vec3i|
            (#[trigger] self.chunk_seq_at(cc)) is Some <==> prev.chunk_seq_at(cc) is Some by {
            if in_window(self.origin, cc) {
                lemma_window_flat_range(self.origin, cc);
            }
        }
    }

    /// Re-centre the window on `new_origin`. Every loaded chunk whose
    /// coordinate still falls inside the new window keeps its contents at its
    /// new slot; chunks that fall outside are dropped.
    pub fn set_origin(&mut self, new_origin: Vec3i)
        requires
            old(self).wf(),
            origin_ok(new_origin),
        ensures
            final(self).wf(),
            final(self).origin == new_origin,
            forall|c: Vec3i|
                #[trigger] final(self).chunk_seq_at(c) == if in_window(new_origin, c) {
                    old(self).chunk_seq_at(c)
                } else {
                    None::<Seq<Block>>
                },
    {
        let ghost prev = *self;
        let mut chunks: Vec<Option<Chunk>> = Vec::new();
        let mut ix: i32 = 0;
        let mut iy: i32 = 0;
        let mut iz: i32 = 0;
        let mut i: usize = 0;
        while i < 245
            invariant
                prev.wf(),
                origin_ok(new_origin),
                *self == prev,
                i <= 245,
                chunks.len() == i,
                i < 245 ==> 0 <= ix < 7 && 0 <= iy < 5 && 0 <= iz < 7,
                i == ix * 35 + iy * 7 + iz,
                forall|j: int|
                    0 <= j < i ==> (#[trigger] chunks[j] matches Some(ch) ==> ch.wf()),
                forall|c: Vec3i|
                    in_window(new_origin, c) && window_flat(new_origin, c) < i
                        ==> #[trigger] opt_seq(chunks[window_flat(new_origin, c)])
                            == prev.chunk_seq_at(c),
            decreases 245 - i,
        {
            let cx: i32 = new_origin.x + ix - 3;
            let cy: i32 = new_origin.y + iy - 2;
            let cz: i32 = new_origin.z + iz - 3;
            let c = Vec3i { x: cx, y: cy, z: cz };
            proof {
                assert(in_window(new_origin, c));
                assert(window_flat(new_origin, c) == i as int);
            }
            let slot = self.chunk_at(c);
            chunks.push(slot);
            i = i + 1;
            iz = iz + 1;
            if iz == 7 {
                iz = 0;
                iy = iy + 1;
                if iy == 5 {
                    iy = 0;
                    ix = ix + 1;
                }
            }
        }
        self.chunks = chunks;
        self.origin = new_origin;
        proof {
            assert forall|c: Vec3i|
                #[trigger] self.chunk_seq_at(c) == if in_window(new_origin, c) {
                    prev.chunk_seq_at(c)
                } else {
                    None::<Seq<Block>>
                } by {
                if in_window(new_origin, c) {
                    lemma_window_flat_range(new_origin, c);
                    assert(opt_seq(self.chunks[window_flat(new_origin, c)]) == prev.chunk_seq_at(c));
                }
            }
        }
    }

    /// The chunk coordinate stored at window slot `index`.
    pub fn index_to_chunk(&self, index: usize) -> (r: Vec3i)
        requires
            self.wf(),
            index < 245,
        ensures
            in_window(self.origin, r),
            window_flat(self.origin, r) == index,
    {
        let ix: i32 = (index / 35) as i32;
        let rem35: usize = index % 35;
        let iy: i32 = (rem35 / 7) as i32;
        let iz: i32 = (rem35 % 7) as i32;
        proof {
            lemma_fundamental_div_mod(index as int, 35);
            lemma_fundamental_div_mod(rem35 as int, 7);
            assert(index as int == ix * 35 + iy * 7 + iz);
        }
        let r = Vec3i {
            x: self.origin.x + ix - 3,
            y: self.origin.y + iy - 2,
            z: self.origin.z + iz - 3,
        };
        r
    }

    /// Every chunk coordinate of the window whose slot is currently empty,
    /// in slot order.
    pub fn unloaded_chunks(&self) -> (r: Vec<Vec3i>)
        requires
            self.wf(),
        ensures
            forall|c: Vec3i|
                #[trigger] r@.contains(c)
                    <==> in_window(self.origin, c) && self.chunk_seq_at(c) == None::<Seq<Block>>,
            forall|k1: int, k2: int| 0 <= k1 < k2 < r@.len() ==> r@[k1] != r@[k2],
    {
        let mut r: Vec<Vec3i> = Vec::new();
        let mut ix: i32 = 0;
        let mut iy: i32 = 0;
        let mut iz: i32 = 0;
        let mut i: usize = 0;
        while i < 245
            invariant
                self.wf(),
                i <= 245,
                i < 245 ==> 0 <= ix < 7 && 0 <= iy < 5 && 0 <= iz < 7,
                i == ix * 35 + iy * 7 + iz,
                forall|c: Vec3i|
                    #[trigger] r@.contains(c)
                        ==> in_window(self.origin, c) && window_flat(self.origin, c) < i
                            && self.chunk_seq_at(c) == None::<Seq<Block>>,
                forall|c: Vec3i|
                    in_window(self.origin, c) && window_flat(self.origin, c) < i
                        && self.chunk_seq_at(c) == None::<Seq<Block>> ==> #[trigger] r@.contains(c),
                forall|k1: int, k2: int|
                    0 <= k1 < k2 < r@.len() ==> window_flat(self.origin, #[trigger] r@[k1])
                        < window_flat(self.origin, #[trigger] r@[k2]),
                forall|k: int| 0 <= k < r@.len() ==> window_flat(self.origin, #[trigger] r@[k]) < i,
            decreases 245 - i,
        {
            let c = Vec3i {
                x: self.origin.x + ix - 3,
                y: self.origin.y + iy - 2,
                z: self.origin.z + iz - 3,
            };
            proof {
                assert(in_window(self.origin, c));
                assert(window_flat(self.origin, c) == i as int);
            }
            let ghost r_prev = r@;
            let is_empty = match &self.chunks[i] {
                None => true,
                Some(_) => false,
            };
            if is_empty {
                r.push(c);
            }
            proof {
                assert forall|cc: Vec3i| #[trigger] r@.contains(cc)
                    implies in_window(self.origin, cc) && window_flat(self.origin, cc) < i + 1
                        && self.chunk_seq_at(cc) == None::<Seq<Block>> by {
                    let k = choose|k: int| 0 <= k < r@.len() && r@[k] == cc;
                    if k < r_prev.len() {
                        assert(r_prev[k] == cc);
                        assert(r_prev.contains(cc));
                    } else {
                        assert(cc == c);
                        assert(self.chunks[i as int] is None);
                    }
                }
                assert forall|cc: Vec3i|
                    in_window(self.origin, cc) && window_flat(self.origin, cc) < i + 1
                        && self.chunk_seq_at(cc) == None::<Seq<Block>>
                    implies #[trigger] r@.contains(cc) by {
                    if window_flat(self.origin, cc) < i as int {
                        assert(r_prev.contains(cc));
                        let k = choose|k: int| 0 <= k < r_prev.len() && r_prev[k] == cc;
                        assert(r@[k] == cc);
                    } else {
                        lemma_window_flat_injective(self.origin, cc, c);
                        assert(self.chunk_seq_at(c) == opt_seq(self.chunks[i as int]));
                        assert(r@[r@.len() - 1] == c);
                    }
                }
            }
            i = i + 1;
            iz = iz + 1;
            if iz == 7 {
                iz = 0;
                iy = iy + 1;
                if iy == 5 {
                    iy = 0;
                    ix = ix + 1;
                }
            }
        }
        proof {
            assert forall|k1: int, k2: int| 0 <= k1 < k2 < r@.len()
                implies r@[k1] != r@[k2] by {
                assert(window_flat(self.origin, r@[k1]) < window_flat(self.origin, r@[k2]));
            }
        }
        r
    }

    /// Every loaded chunk with its chunk coordinate, in slot order.
    pub fn chunks_iter(&self) -> (r: Vec<(Vec3i, Chunk)>)
        requires
            self.wf(),
        ensures
            forall|k: int|
                0 <= k < r@.len() ==> {
                    &&& (#[trigger] r@[k].1).wf()
                    &&& self.chunk_seq_at(r@[k].0) == Some(r@[k].1@)
                },
            forall|c: Vec3i|
                (#[trigger] self.chunk_seq_at(c)) is Some ==> exists|k: int|
                    0 <= k < r@.len() && r@[k].0 == c,
            forall|k1: int, k2: int| 0 <= k1 < k2 < r@.len() ==> r@[k1].0 != r@[k2].0,
    {
        let mut r: Vec<(Vec3i, Chunk)> = Vec::new();
        let mut ix: i32 = 0;
        let mut iy: i32 = 0;
        let mut iz: i32 = 0;
        let mut i: usize = 0;
        while i < 245
            invariant
                self.wf(),
                i <= 245,
                i < 245 ==> 0 <= ix < 7 && 0 <= iy < 5 && 0 <= iz < 7,
                i == ix * 35 + iy * 7 + iz,
                forall|k: int|
                    0 <= k < r@.len() ==> {
                        &&& (#[trigger] r@[k].1).wf()
                        &&& self.chunk_seq_at(r@[k].0) == Some(r@[k].1@)
                    },
                forall|c: Vec3i|
                    in_window(self.origin, c) && window_flat(self.origin, c) < i
                        && (#[trigger] self.chunk_seq_at(c)) is Some
                        ==> exists|k: int| 0 <= k < r@.len() && r@[k].0 == c,
                forall|k1: int, k2: int|
                    0 <= k1 < k2 < r@.len() ==> window_flat(self.origin, (#[trigger] r@[k1]).0)
                        < window_flat(self.origin, (#[trigger] r@[k2]).0),
                forall|k: int|
                    0 <= k < r@.len() ==> window_flat(self.origin, (#[trigger] r@[k]).0) < i,
            decreases 245 - i,
        {
            let c = Vec3i {
                x: self.origin.x + ix - 3,
                y: self.origin.y + iy - 2,
                z: self.origin.z + iz - 3,
            };
            proof {
                assert(in_window(self.origin, c));
                assert(window_flat(self.origin, c) == i as int);
            }
            let ghost r_prev = r@;
            let slot = self.chunk_at(c);
            let ghost was_some = slot is Some;
            match slot {
                None => {},
                Some(ch) => {
                    r.push((c, ch));
                },
            }
            proof {
                assert forall|cc: Vec3i|
                    in_window(self.origin, cc) && window_flat(self.origin, cc) < i + 1
                        && (#[trigger] self.chunk_seq_at(cc)) is Some
                    implies exists|k: int| 0 <= k < r@.len() && r@[k].0 == cc by {
                    if window_flat(self.origin, cc) < i as int {
                        let k = choose|k: int| 0 <= k < r_prev.len() && r_prev[k].0 == cc;
                        assert(r@[k].0 == cc);
                    } else {
                        lemma_window_flat_injective(self.origin, cc, c);
                        assert(was_some);
                        assert(r@[r@.len() - 1].0 == cc);
                    }
                }
            }
            i = i + 1;
            iz = iz + 1;
            if iz == 7 {
                iz = 0;
                iy = iy + 1;
                if iy == 5 {
                    iy = 0;
                    ix = ix + 1;
                }
            }
        }
        proof {
            assert forall|k1: int, k2: int| 0 <= k1 < k2 < r@.len()
                implies r@[k1].0 != r@[k2].0 by {
                assert(window_flat(self.origin, r@[k1].0) < window_flat(self.origin, r@[k2].0));
            }
        }
        r
    }
}

/// The contents of an optional chunk, as `chunk_seq_at` reports them.
pub open spec fn opt_seq(o: Option<Chunk>) -> Option<Seq<Block>> {
    match o {
        Some(ch) => Some(ch@),
        None => None,
    }
}

/// What `World::load` guarantees: the chunk lands at its coordinate when
/// that coordinate is inside the window, every other coordinate is
/// untouched, and an out-of-window load changes nothing.
pub open spec fn load_post(pre: World, post: World, c: Vec3i, ch: Chunk) -> bool {
    &&& post.wf()
    &&& post.origin == pre.origin
    &&& (in_window(pre.origin, c) ==> post.chunk_seq_at(c) == Some(ch@))
    &&& forall|c2: Vec3i| c2 != c ==> #[trigger] post.chunk_seq_at(c2) == pre.chunk_seq_at(c2)
    &&& (!in_window(pre.origin, c) ==> post == pre)
}

/// What a successful `World::set_block` guarantees: the written cell holds
/// the new block, every other coordinate is untouched, and which chunks are
/// loaded does not change.
pub open spec fn set_block_post(pre: World, post: World, p: Vec3i, b: Block) -> bool {
    &&& post.wf()
    &&& post.origin == pre.origin
    &&& post.spec_get_block(p) == Some(b)
    &&& forall|q: Vec3i|
        q != p && #[trigger] coord_ok(q) ==> post.spec_get_block(q) == pre.spec_get_block(q)
    &&& forall|c: Vec3i| (#[trigger] post.chunk_seq_at(c)) is Some <==> pre.chunk_seq_at(c) is Some
}

/// Coordinate round-trip: every world coordinate whose chunk lies inside
/// the window maps to a valid window slot, and it reads from a loaded chunk
/// exactly when that slot is filled.
pub proof fn lemma_coordinate_round_trip(w: World, p: Vec3i)
    requires
        w.wf(),
        coord_ok(p),
        in_window(w.origin, chunk_of(p)),
    ensures
        0 <= window_flat(w.origin, chunk_of(p)) < 245,
        w.spec_get_block(p) is Some <==> w.spec_chunk_at(chunk_of(p)) is Some,
{
    lemma_window_flat_range(w.origin, chunk_of(p));
    lemma_local_of_in_chunk(p);
}

/// Loading the same generated chunk at a coordinate twice leaves the world
/// exactly as loading it once does.
pub proof fn lemma_load_idempotent(w0: World, w1: World, w2: World, c: Vec3i, ch: Chunk)
    requires
        w0.wf(),
        ch.wf(),
        load_post(w0, w1, c, ch),
        load_post(w1, w2, c, ch),
    ensures
        w2.origin == w1.origin,
        forall|c2: Vec3i| #[trigger] w2.chunk_seq_at(c2) == w1.chunk_seq_at(c2),
{
    assert forall|c2: Vec3i| #[trigger] w2.chunk_seq_at(c2) == w1.chunk_seq_at(c2) by {
        if c2 == c {
            if !in_window(w0.origin, c) {
            }
        }
    }
}

/// Setting a block to some type and then back to its original value returns
/// every readable coordinate to its original block.
pub proof fn lemma_edit_then_undo(
    w0: World,
    w1: World,
    w2: World,
    p: Vec3i,
    b: Block,
    orig: Block,
)
    requires
        w0.wf(),
        coord_ok(p),
        w0.spec_get_block(p) == Some(orig),
        set_block_post(w0, w1, p, b),
        set_block_post(w1, w2, p, orig),
    ensures
        forall|q: Vec3i| #[trigger] coord_ok(q) ==> w2.spec_get_block(q) == w0.spec_get_block(q),
{
}

/// Two world coordinates that address the same chunk and the same local cell
/// are the same coordinate.
proof fn lemma_same_chunk_same_local(p: Vec3i, q: Vec3i)
    requires
        chunk_of(p) == chunk_of(q),
        local_of(p) == local_of(q),
    ensures
        p == q,
{
    lemma_fundamental_div_mod(p.x as int, 16);
    lemma_fundamental_div_mod(p.y as int, 16);
    lemma_fundamental_div_mod(p.z as int, 16);
    lemma_fundamental_div_mod(q.x as int, 16);
    lemma_fundamental_div_mod(q.y as int, 16);
    lemma_fundamental_div_mod(q.z as int, 16);
}

/// The outward unit normal of face `face` of a block, faces numbered
/// `+x, +y, +z, -x, -y, -z`.
pub fn face_to_normal(face: u8) -> (r: Vec3i)
    requires
        face < 6,
    ensures
        r == spec_face_normal(face as int),
{
    match face {
        0 => Vec3i { x: 1, y: 0, z: 0 },
        1 => Vec3i { x: 0, y: 1, z: 0 },
        2 => Vec3i { x: 0, y: 0, z: 1 },
        3 => Vec3i { x: -1, y: 0, z: 0 },
        4 => Vec3i { x: 0, y: -1, z: 0 },
        _ => Vec3i { x: 0, y: 0, z: -1 },
    }
}

/// The outward unit normal of face `face`.
pub open spec fn spec_face_normal(face: int) -> Vec3i {
    if face == 0 {
        Vec3i { x: 1, y: 0, z: 0 }
    } else if face == 1 {
        Vec3i { x: 0, y: 1, z: 0 }
    } else if face == 2 {
        Vec3i { x: 0, y: 0, z: 1 }
    } else if face == 3 {
        Vec3i { x: -1i32, y: 0, z: 0 }
    } else if face == 4 {
        Vec3i { x: 0, y: -1i32, z: 0 }
    } else {
        Vec3i { x: 0, y: 0, z: -1i32 }
    }
}

/// The neighbor of `p` across face `face`.
pub open spec fn spec_face_neighbor(p: Vec3i, face: int) -> Vec3i {
    Vec3i {
        x: (p.x + spec_face_normal(face).x) as i32,
        y: (p.y + spec_face_normal(face).y) as i32,
        z: (p.z + spec_face_normal(face).z) as i32,
    }
}

/// The six face-adjacent neighbors of `p`, in face order.
pub fn face_neighbors(position: Vec3i) -> (r: [Vec3i; 6])
    requires
        coord_ok(position),
        -0x4000_0000 < position.x < 0x3fff_ffff,
        -0x4000_0000 < position.y < 0x3fff_ffff,
        -0x4000_0000 < position.z < 0x3fff_ffff,
    ensures
        forall|f: int| 0 <= f < 6 ==> r@[f] == spec_face_neighbor(position, f),
{
    let r = [
        Vec3i { x: position.x + 1, y: position.y, z: position.z },
        Vec3i { x: position.x, y: position.y + 1, z: position.z },
        Vec3i { x: position.x, y: position.y, z: position.z + 1 },
        Vec3i { x: position.x - 1, y: position.y, z: position.z },
        Vec3i { x: position.x, y: position.y - 1, z: position.z },
        Vec3i { x: position.x, y: position.y, z: position.z - 1 },
    ];
    r
}

/// The six face neighbors of `p` followed by its eight corner neighbors.
pub fn surrounding_neighbors(position: Vec3i) -> (r: Vec<Vec3i>)
    requires
        coord_ok(position),
        -0x3fff_fffe < position.x < 0x3fff_fffe,
        -0x3fff_fffe < position.y < 0x3fff_fffe,
        -0x3fff_fffe < position.z < 0x3fff_fffe,
    ensures
        r@.len() == 14,
        forall|f: int| 0 <= f < 6 ==> r@[f] == spec_face_neighbor(position, f),
{
    let faces = face_neighbors(position);
    let mut r: Vec<Vec3i> = Vec::new();
    r.push(faces[0]);
    r.push(faces[1]);
    r.push(faces[2]);
    r.push(faces[3]);
    r.push(faces[4]);
    r.push(faces[5]);
    r.push(Vec3i { x: position.x + 1, y: position.y + 1, z: position.z + 1 });
    r.push(Vec3i { x: position.x + 1, y: position.y + 1, z: position.z - 1 });
    r.push(Vec3i { x: position.x + 1, y: position.y - 1, z: position.z + 1 });
    r.push(Vec3i { x: position.x + 1, y: position.y - 1, z: position.z - 1 });
    r.push(Vec3i { x: position.x - 1, y: position.y + 1, z: position.z + 1 });
    r.push(Vec3i { x: position.x - 1, y: position.y + 1, z: position.z - 1 });
    r.push(Vec3i { x: position.x - 1, y: position.y - 1, z: position.z + 1 });
    r.push(Vec3i { x: position.x - 1, y: position.y - 1, z: position.z - 1 });
    r
}

} // verus!
