//! Deterministic terrain: the seed holder for the procedural sampler, and
//! chunk generation from a sampled column height map.
//!
//! The noise field itself is continuous mathematics evaluated outside the
//! verified core; generation here is a pure function from the sampled
//! heights to chunk contents, proved cell by cell.

use vstd::prelude::*;
use crate::block::{Block, BlockType};
use crate::chunk::{Chunk, in_chunk};
use crate::vecmath::Vec3i;

verus! {

/// The seed of the procedural height and cave fields. The same seed always
/// yields the same terrain, so generation may be repeated or run on any
/// worker without coordination.
#[derive(Clone, Copy, Debug, PartialEq, Eq, Structural)]
pub struct TerrainSampler {
    pub seed: u32,
}

impl TerrainSampler {
    pub fn new(seed: u32) -> (r: TerrainSampler)
        ensures
            r.seed == seed,
    {
        TerrainSampler { seed }
    }
}

/// The block generated at local height `y` of a column whose terrain height
/// is `h`, in the chunk at vertical chunk coordinate `cy`: solid ground
/// below the surface chunk (buried cells marked occluded), ground up to the
/// surface inside the surface chunk (the top cell open to the sky), and
/// bright sky-open air above.
pub open spec fn generated_cell(h: int, cy: int, y: int) -> Block {
    let chunk_y = h / 16;
    let top = h % 16;
    if cy < chunk_y {
        Block { ty: BlockType::Grass, light: 0u8, open_to_sky: false, occluded: y < 14 }
    } else if cy == chunk_y && y < top {
        Block { ty: BlockType::Grass, light: 0u8, open_to_sky: y == top - 1, occluded: false }
    } else {
        Block { ty: BlockType::Air, light: 255u8, open_to_sky: true, occluded: false }
    }
}

/// The sky-open bright air cell that generation starts from.
pub open spec fn sky_air() -> Block {
    Block { ty: BlockType::Air, light: 255u8, open_to_sky: true, occluded: false }
}

/// Build the chunk at `chunk_coordinate` from `heights`, the terrain height
/// of each of its 256 columns in x-major order.
pub fn generate_chunk(heights: &Vec<u32>, chunk_coordinate: Vec3i) -> (r: Chunk)
    requires
        heights.len() == 256,
        forall|c: int| 0 <= c < 256 ==> #[trigger] heights[c] < 0x10000,
    ensures
        r.wf(),
        forall|x: int, y: int, z: int|
            in_chunk(x, y, z) ==> #[trigger] r.at(x, y, z) == generated_cell(
                heights[x * 16 + z] as int,
                chunk_coordinate.y as int,
                y,
            ),
{
    let mut chunk = Chunk::filled_with(Block {
        ty: BlockType::Air,
        light: 255,
        open_to_sky: true,
        occluded: false,
    });
    let cy = chunk_coordinate.y;
    let mut cx: usize = 0;
    while cx < 16
        invariant
            heights.len() == 256,
            forall|c: int| 0 <= c < 256 ==> #[trigger] heights[c] < 0x10000,
            cx <= 16,
            cy == chunk_coordinate.y,
            chunk.wf(),
            forall|x: int, y: int, z: int|
                in_chunk(x, y, z) && x < cx ==> #[trigger] chunk.at(x, y, z) == generated_cell(
                    heights[x * 16 + z] as int,
                    cy as int,
                    y,
                ),
            forall|x: int, y: int, z: int|
                in_chunk(x, y, z) && x >= cx ==> #[trigger] chunk.at(x, y, z) == sky_air(),
        decreases 16 - cx,
    {
        let mut cz: usize = 0;
        while cz < 16
            invariant
                heights.len() == 256,
                forall|c: int| 0 <= c < 256 ==> #[trigger] heights[c] < 0x10000,
                cx < 16,
                cz <= 16,
                cy == chunk_coordinate.y,
                chunk.wf(),
                forall|x: int, y: int, z: int|
                    in_chunk(x, y, z) && (x < cx || (x == cx && z < cz))
                        ==> #[trigger] chunk.at(x, y, z) == generated_cell(
                        heights[x * 16 + z] as int,
                        cy as int,
                        y,
                    ),
                forall|x: int, y: int, z: int|
                    in_chunk(x, y, z) && (x > cx || (x == cx && z >= cz))
                        ==> #[trigger] chunk.at(x, y, z) == sky_air(),
            decreases 16 - cz,
        {
            let h: u32 = heights[cx * 16 + cz];
            let chunk_y: i32 = (h / 16) as i32;
            let top: i32 = (h % 16) as i32;
            if cy < chunk_y {
                let mut y: usize = 0;
                while y < 16
                    invariant
                        heights.len() == 256,
                        cx < 16,
                        cz < 16,
                        y <= 16,
                        cy == chunk_coordinate.y,
                        cy < chunk_y,
                        h == heights[cx as int * 16 + cz as int],
                        chunk_y == h as int / 16,
                        chunk.wf(),
                        forall|x2: int, y2: int, z2: int|
                            in_chunk(x2, y2, z2) && (x2 < cx || (x2 == cx && z2 < cz))
                                ==> #[trigger] chunk.at(x2, y2, z2) == generated_cell(
                                heights[x2 * 16 + z2] as int,
                                cy as int,
                                y2,
                            ),
                        forall|x2: int, y2: int, z2: int|
                            in_chunk(x2, y2, z2) && (x2 > cx || (x2 == cx && z2 > cz))
                                ==> #[trigger] chunk.at(x2, y2, z2) == sky_air(),
                        forall|y2: int|
                            0 <= y2 < y ==> #[trigger] chunk.at(cx as int, y2, cz as int)
                                == generated_cell(h as int, cy as int, y2),
                        forall|y2: int|
                            y <= y2 < 16 ==> #[trigger] chunk.at(cx as int, y2, cz as int)
                                == sky_air(),
                    decreases 16 - y,
                {
                    chunk.set_block(
                        Vec3i { x: cx as i32, y: y as i32, z: cz as i32 },
                        Block {
                            ty: BlockType::Grass,
                            light: 0,
                            open_to_sky: false,
                            occluded: y < 14,
                        },
                    );
                    proof {
                        assert forall|y2: int| 0 <= y2 < y + 1
                            implies #[trigger] chunk.at(cx as int, y2, cz as int)
                                == generated_cell(h as int, cy as int, y2) by {
                            if y2 != y as int {
                                assert((cx as int, y2, cz as int)
                                    != (cx as int, y as int, cz as int));
                            }
                        }
                        assert forall|y2: int| y + 1 <= y2 < 16
                            implies #[trigger] chunk.at(cx as int, y2, cz as int) == sky_air() by {
                            assert((cx as int, y2, cz as int) != (cx as int, y as int, cz as int));
                        }
                    }
                    y = y + 1;
                }
            } else if cy == chunk_y {
                let mut y: i32 = 0;
                while y < top
                    invariant
                        heights.len() == 256,
                        cx < 16,
                        cz < 16,
                        0 <= y <= top,
                        top < 16,
                        cy == chunk_coordinate.y,
                        cy == chunk_y,
                        h == heights[cx as int * 16 + cz as int],
                        chunk_y == h as int / 16,
                        top == h as int % 16,
                        chunk.wf(),
                        forall|x2: int, y2: int, z2: int|
                            in_chunk(x2, y2, z2) && (x2 < cx || (x2 == cx && z2 < cz))
                                ==> #[trigger] chunk.at(x2, y2, z2) == generated_cell(
                                heights[x2 * 16 + z2] as int,
                                cy as int,
                                y2,
                            ),
                        forall|x2: int, y2: int, z2: int|
                            in_chunk(x2, y2, z2) && (x2 > cx || (x2 == cx && z2 > cz))
                                ==> #[trigger] chunk.at(x2, y2, z2) == sky_air(),
                        forall|y2: int|
                            0 <= y2 < y ==> #[trigger] chunk.at(cx as int, y2, cz as int)
                                == generated_cell(h as int, cy as int, y2),
                        forall|y2: int|
                            y <= y2 < 16 ==> #[trigger] chunk.at(cx as int, y2, cz as int)
                                == sky_air(),
                    decreases top - y,
                {
                    chunk.set_block(
                        Vec3i { x: cx as i32, y, z: cz as i32 },
                        Block {
                            ty: BlockType::Grass,
                            light: 0,
                            open_to_sky: y == top - 1,
                            occluded: false,
                        },
                    );
                    proof {
                        assert forall|y2: int| 0 <= y2 < y + 1
                            implies #[trigger] chunk.at(cx as int, y2, cz as int)
                                == generated_cell(h as int, cy as int, y2) by {
                            if y2 != y as int {
                                assert((cx as int, y2, cz as int)
                                    != (cx as int, y as int, cz as int));
                            }
                        }
                        assert forall|y2: int| y + 1 <= y2 < 16
                            implies #[trigger] chunk.at(cx as int, y2, cz as int) == sky_air() by {
                            assert((cx as int, y2, cz as int) != (cx as int, y as int, cz as int));
                        }
                    }
                    y = y + 1;
                }
            }
            cz = cz + 1;
        }
        cx = cx + 1;
    }
    chunk
}

} // verus!
