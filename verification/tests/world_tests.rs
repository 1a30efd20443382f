use rmc_core::block::{Block, BlockType};
use rmc_core::chunk::Chunk;
use rmc_core::vecmath::Vec3i;
use rmc_core::world::{World, WorldError};

fn air_chunk() -> Chunk {
    Chunk::filled_with(Block::air())
}

#[test]
fn test_world() {
    let mut world = World::new(Vec3i::zero());
    world.load(Vec3i::new(0, 0, 0), air_chunk());
    world.load(Vec3i::new(-1, 0, 0), air_chunk());
    world.load(Vec3i::new(-1, 0, -1), air_chunk());

    assert!(world.chunk_at_world(Vec3i::new(4, 4, 4)).is_some());
    assert!(world.chunk_at_world(Vec3i::new(-4, 4, 4)).is_some());
    assert!(world.chunk_at_world(Vec3i::new(-4, 4, -8)).is_some());
    assert!(world.chunk_at_world(Vec3i::new(-20, 4, 4)).is_none());

    assert_eq!(world.get_block(Vec3i::new(-4, 4, -2)), Some(Block::air()));

    let mut chunk = world.chunk_at(Vec3i::new(-1, 0, -1)).unwrap();
    chunk.set_block(Vec3i::new(12, 4, 14), Block::new(BlockType::Grass));
    world.load(Vec3i::new(-1, 0, -1), chunk);

    assert_eq!(
        world.get_block(Vec3i::new(-4, 4, -2)),
        Some(Block::new(BlockType::Grass))
    );

    assert_eq!(world.get_block(Vec3i::new(-4, 4, -1)), Some(Block::air()));
    world
        .set_block(Vec3i::new(-4, 4, -1), Block::new(BlockType::Grass))
        .unwrap();
    assert_eq!(
        world.get_block(Vec3i::new(-4, 4, -1)),
        Some(Block::new(BlockType::Grass))
    );
}

#[test]
fn coordinate_round_trip_write_then_read() {
    let mut world = World::new(Vec3i::zero());
    world.load(Vec3i::new(0, 0, 0), air_chunk());
    world.load(Vec3i::new(-1, -1, -1), air_chunk());

    for &p in &[
        Vec3i::new(0, 0, 0),
        Vec3i::new(15, 15, 15),
        Vec3i::new(-1, -1, -1),
        Vec3i::new(-16, -16, -16),
        Vec3i::new(7, 3, 11),
    ] {
        let marker = Block::new(BlockType::Wood).with_light(99);
        world.set_block(p, marker).unwrap();
        assert_eq!(world.get_block(p), Some(marker));
    }
}

#[test]
fn set_block_on_unloaded_chunk_is_an_error() {
    let mut world = World::new(Vec3i::zero());
    assert_eq!(
        world.set_block(Vec3i::new(0, 0, 0), Block::air()),
        Err(WorldError::ChunkNotLoaded)
    );
    assert_eq!(world.get_block(Vec3i::new(0, 0, 0)), None);
}

#[test]
fn recentering_preserves_membership() {
    let mut world = World::new(Vec3i::zero());

    let mut marked = air_chunk();
    marked.set_block(Vec3i::new(0, 0, 0), Block::new(BlockType::Stone));
    world.load(Vec3i::new(0, 0, 0), marked);

    let mut edge = air_chunk();
    edge.set_block(Vec3i::new(1, 1, 1), Block::new(BlockType::Lantern));
    world.load(Vec3i::new(-3, 0, 0), edge);

    // Shift the window one chunk along x: the centre chunk stays (offset
    // -1 is within the extents), the chunk at the old -x edge falls out.
    world.set_origin(Vec3i::new(1, 0, 0));
    assert_eq!(world.origin(), Vec3i::new(1, 0, 0));
    assert_eq!(
        world.get_block(Vec3i::new(0, 0, 0)),
        Some(Block::new(BlockType::Stone))
    );
    assert!(world.chunk_at(Vec3i::new(-3, 0, 0)).is_none());
    assert_eq!(world.get_block(Vec3i::new(-48, 1, 1)), None);
}

#[test]
fn idempotent_chunk_load() {
    let mut once = World::new(Vec3i::zero());
    let mut twice = World::new(Vec3i::zero());

    let mut chunk = air_chunk();
    chunk.set_block(Vec3i::new(3, 3, 3), Block::new(BlockType::Mesh));

    once.load(Vec3i::new(1, 1, 1), chunk.clone());
    twice.load(Vec3i::new(1, 1, 1), chunk.clone());
    twice.load(Vec3i::new(1, 1, 1), chunk.clone());

    assert_eq!(once.chunks_iter().len(), twice.chunks_iter().len());
    for x in 16..32 {
        assert_eq!(
            once.get_block(Vec3i::new(x, 19, 19)),
            twice.get_block(Vec3i::new(x, 19, 19))
        );
    }
    assert_eq!(
        twice.get_block(Vec3i::new(19, 19, 19)),
        Some(Block::new(BlockType::Mesh))
    );
}

#[test]
fn unloaded_chunks_lists_every_empty_slot() {
    let mut world = World::new(Vec3i::zero());
    assert_eq!(world.unloaded_chunks().len(), 245);
    world.load(Vec3i::new(0, 0, 0), air_chunk());
    let unloaded = world.unloaded_chunks();
    assert_eq!(unloaded.len(), 244);
    assert!(!unloaded.contains(&Vec3i::new(0, 0, 0)));
    assert!(unloaded.contains(&Vec3i::new(1, 0, 0)));
}

#[test]
fn face_helpers_enumerate_neighbors() {
    let p = Vec3i::new(5, 5, 5);
    let n = rmc_core::world::face_neighbors(p);
    assert_eq!(n[0], Vec3i::new(6, 5, 5));
    assert_eq!(n[1], Vec3i::new(5, 6, 5));
    assert_eq!(n[2], Vec3i::new(5, 5, 6));
    assert_eq!(n[3], Vec3i::new(4, 5, 5));
    assert_eq!(n[4], Vec3i::new(5, 4, 5));
    assert_eq!(n[5], Vec3i::new(5, 5, 4));
    let all = rmc_core::world::surrounding_neighbors(p);
    assert_eq!(all.len(), 14);
    assert_eq!(all[6], Vec3i::new(6, 6, 6));
    assert_eq!(all[13], Vec3i::new(4, 4, 4));
    assert_eq!(rmc_core::world::face_to_normal(4), Vec3i::new(0, -1, 0));
}
