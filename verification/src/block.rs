//! Voxel value types: the closed set of block kinds and the per-block state
//! the world stores for each cell.

use vstd::prelude::*;

verus! {

/// The closed set of voxel kinds. Each kind has fixed properties; they are
/// pure functions of the kind and never change.
#[derive(Clone, Copy, Debug, PartialEq, Eq, Structural)]
pub enum BlockType {
    Air,
    Test,
    Grass,
    Lantern,
    Mesh,
    Wood,
    Stone,
}

impl BlockType {
    /// How strongly this kind emits light, if it emits at all.
    pub open spec fn spec_light_emission(self) -> Option<u8> {
        match self {
            BlockType::Lantern => Some(224u8),
            _ => None,
        }
    }

    /// Whether light travels through blocks of this kind.
    pub open spec fn spec_light_passing(self) -> bool {
        match self {
            BlockType::Air => true,
            BlockType::Mesh => true,
            _ => false,
        }
    }

    /// Whether this kind is empty space.
    pub open spec fn spec_is_air(self) -> bool {
        self is Air
    }

    pub fn light_emission(self) -> (r: Option<u8>)
        ensures
            r == self.spec_light_emission(),
    {
        match self {
            BlockType::Lantern => Some(224),
            _ => None,
        }
    }

    pub fn light_passing(self) -> (r: bool)
        ensures
            r == self.spec_light_passing(),
    {
        match self {
            BlockType::Air => true,
            BlockType::Mesh => true,
            _ => false,
        }
    }

    pub fn is_air(self) -> (r: bool)
        ensures
            r == self.spec_is_air(),
    {
        match self {
            BlockType::Air => true,
            _ => false,
        }
    }

    /// A short human-readable label for the kind, in contracts. Kinds
    /// without a label of their own read as a placeholder.
    pub open spec fn spec_name(self) -> Seq<char> {
        match self {
            BlockType::Air => "??"@,
            BlockType::Test => "Test"@,
            BlockType::Grass => "Grass"@,
            BlockType::Lantern => "Lantern"@,
            BlockType::Mesh => "Mesh"@,
            BlockType::Wood => "Wood"@,
            BlockType::Stone => "Stone"@,
        }
    }

    /// A short human-readable label for the kind.
    pub fn name(self) -> (r: &'static str)
        ensures
            r@ == self.spec_name(),
    {
        match self {
            BlockType::Air => "??",
            BlockType::Test => "Test",
            BlockType::Grass => "Grass",
            BlockType::Lantern => "Lantern",
            BlockType::Mesh => "Mesh",
            BlockType::Wood => "Wood",
            BlockType::Stone => "Stone",
        }
    }
}

impl Default for BlockType {
    fn default() -> (r: Self)
        ensures
            r == BlockType::Air,
    {
        BlockType::Air
    }
}

/// One cell of the voxel grid. `light` is a cached value kept consistent by
/// the lighting engine; `open_to_sky` means no light-blocking block stands
/// above this one inside the loaded world; `occluded` is a rendering hint set
/// when all six face neighbors block light.
#[derive(Clone, Copy, Debug, PartialEq, Eq, Structural)]
pub struct Block {
    pub ty: BlockType,
    pub light: u8,
    pub open_to_sky: bool,
    pub occluded: bool,
}

impl Block {
    /// A fresh, dark block of the given kind.
    pub fn new(ty: BlockType) -> (r: Block)
        ensures
            r == (Block { ty, light: 0u8, open_to_sky: false, occluded: false }),
    {
        Block { ty, light: 0, open_to_sky: false, occluded: false }
    }

    /// The same block with its cached light value replaced.
    pub fn with_light(self, light: u8) -> (r: Block)
        ensures
            r == (Block { light, ..self }),
    {
        Block { light, ..self }
    }

    /// An air block, as `Block::new` makes it.
    pub fn air() -> (r: Block)
        ensures
            r == (Block { ty: BlockType::Air, light: 0u8, open_to_sky: false, occluded: false }),
    {
        Block::new(BlockType::Air)
    }
}

impl Default for Block {
    fn default() -> (r: Self)
        ensures
            r == (Block { ty: BlockType::Air, light: 0u8, open_to_sky: false, occluded: false }),
    {
        Block::new(BlockType::Air)
    }
}

} // verus!
