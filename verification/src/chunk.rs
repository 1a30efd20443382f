//! The atomic unit of terrain loading: a fixed 16 x 16 x 16 grid of blocks.

use vstd::prelude::*;
use crate::block::{Block, BlockType};
use crate::vecmath::Vec3i;

verus! {

/// Blocks per chunk edge.
pub const CHUNK_SIZE: usize = 16;

/// `CHUNK_SIZE` as a block coordinate.
pub const CHUNK_SIZE_I: i32 = 16;

/// A fixed `CHUNK_SIZE`-cubed grid of blocks, stored in x-major order:
/// cell `(x, y, z)` lives at flat index `x * 256 + y * 16 + z`.
#[derive(Clone, Debug, PartialEq, Eq)]
pub struct Chunk {
    pub blocks: Vec<Block>,
}

impl View for Chunk {
    type V = Seq<Block>;

    open spec fn view(&self) -> Seq<Block> {
        self.blocks@
    }
}

/// The flat index of local cell `(x, y, z)`.
pub open spec fn flat_index(x: int, y: int, z: int) -> int {
    x * 256 + y * 16 + z
}

/// Whether `(x, y, z)` is a local cell coordinate of a chunk.
pub open spec fn in_chunk(x: int, y: int, z: int) -> bool {
    0 <= x < 16 && 0 <= y < 16 && 0 <= z < 16
}

proof fn lemma_flat_index_range(x: int, y: int, z: int)
    requires
        in_chunk(x, y, z),
    ensures
        0 <= flat_index(x, y, z) < 4096,
{
}

impl Chunk {
    /// A chunk is well formed when it holds exactly one block per cell.
    pub open spec fn wf(self) -> bool {
        self.blocks.len() == 4096
    }

    /// The block at local cell `(x, y, z)`.
    pub open spec fn at(self, x: int, y: int, z: int) -> Block {
        self.blocks[flat_index(x, y, z)]
    }

    /// A chunk whose every cell holds `b`.
    pub open spec fn all_of(self, b: Block) -> bool {
        forall|x: int, y: int, z: int|
            in_chunk(x, y, z) ==> self.at(x, y, z) == b
    }

    /// A chunk of the given uniform block.
    pub fn filled_with(b: Block) -> (r: Chunk)
        ensures
            r.wf(),
            r.all_of(b),
    {
        let mut blocks: Vec<Block> = Vec::new();
        let mut i: usize = 0;
        while i < 4096
            invariant
                i <= 4096,
                blocks.len() == i,
                forall|j: int| 0 <= j < i ==> blocks[j] == b,
            decreases 4096 - i,
        {
            blocks.push(b);
            i = i + 1;
        }
        let r = Chunk { blocks };
        proof {
            assert forall|x: int, y: int, z: int| in_chunk(x, y, z) implies r.at(x, y, z) == b by {
                lemma_flat_index_range(x, y, z);
            }
        }
        r
    }

    /// A fresh all-air chunk, open to the sky, as `Chunk::default` builds it.
    pub fn new() -> (r: Chunk)
        ensures
            r.wf(),
            r.all_of(Block { ty: BlockType::Air, light: 0u8, open_to_sky: true, occluded: false }),
    {
        Chunk::filled_with(Block { ty: BlockType::Air, light: 0, open_to_sky: true, occluded: false })
    }

    /// Wrap an explicit grid of blocks.
    pub fn from_blocks(blocks: Vec<Block>) -> (r: Chunk)
        requires
            blocks.len() == 4096,
        ensures
            r.wf(),
            forall|x: int, y: int, z: int|
                in_chunk(x, y, z) ==> r.at(x, y, z) == blocks[flat_index(x, y, z)],
    {
        Chunk { blocks }
    }

    /// The block at a local cell.
    pub fn get_block(&self, local: Vec3i) -> (r: Block)
        requires
            self.wf(),
            in_chunk(local.x as int, local.y as int, local.z as int),
        ensures
            r == self.at(local.x as int, local.y as int, local.z as int),
    {
        proof {
            lemma_flat_index_range(local.x as int, local.y as int, local.z as int);
        }
        let idx: usize = (local.x as usize) * 256 + (local.y as usize) * 16 + (local.z as usize);
        self.blocks[idx]
    }

    /// A fresh chunk with the same contents, for clone-mutate-publish
    /// updates.
    pub fn duplicate(&self) -> (r: Chunk)
        ensures
            r@ == self@,
            r.wf() == self.wf(),
    {
        let blocks = self.blocks.clone();
        proof {
            assert forall|i: int| 0 <= i < self.blocks@.len()
                implies blocks@[i] == self.blocks@[i] by {
                assert(cloned::<Block>(self.blocks[i], blocks[i]));
            }
            assert(blocks@ =~= self.blocks@);
        }
        Chunk { blocks }
    }

    /// Replace the block at a local cell.
    pub fn set_block(&mut self, local: Vec3i, block: Block)
        requires
            old(self).wf(),
            in_chunk(local.x as int, local.y as int, local.z as int),
        ensures
            final(self).wf(),
            final(self).at(local.x as int, local.y as int, local.z as int) == block,
            forall|x: int, y: int, z: int|
                in_chunk(x, y, z) && (x, y, z) != (local.x as int, local.y as int, local.z as int)
                    ==> #[trigger] final(self).at(x, y, z) == old(self).at(x, y, z),
    {
        proof {
            lemma_flat_index_range(local.x as int, local.y as int, local.z as int);
        }
        let idx: usize = (local.x as usize) * 256 + (local.y as usize) * 16 + (local.z as usize);
        self.blocks.set(idx, block);
        proof {
            assert forall|x: int, y: int, z: int|
                in_chunk(x, y, z) && (x, y, z) != (local.x as int, local.y as int, local.z as int)
                implies self.at(x, y, z) == old(self).at(x, y, z) by {
                lemma_flat_index_range(x, y, z);
                assert(flat_index(x, y, z) != flat_index(local.x as int, local.y as int, local.z as int));
            }
        }
    }
}

impl Default for Chunk {
    /// A fresh all-air chunk, open to the sky.
    fn default() -> (r: Self)
        ensures
            r.wf(),
            r.all_of(Block { ty: BlockType::Air, light: 0u8, open_to_sky: true, occluded: false }),
    {
        Chunk::new()
    }
}

} // verus!
