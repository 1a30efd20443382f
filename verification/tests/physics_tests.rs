use rmc_core::block::{Block, BlockType};
use rmc_core::chunk::Chunk;
use rmc_core::physics::{sweep_test, Aabbx, SweepBox};
use rmc_core::raycast::raycast;
use rmc_core::vecmath::{Vec3i, Vec3x};
use rmc_core::world::World;

fn unit_box_at(x: i64, y: i64, z: i64) -> Aabbx {
    Aabbx {
        min: Vec3x::new(x, y, z),
        max: Vec3x::new(x + 1000, y + 1000, z + 1000),
    }
}

fn moving_unit_box(vx: i64, vy: i64, vz: i64) -> SweepBox {
    SweepBox {
        collider: unit_box_at(0, 0, 0),
        velocity: Vec3x::new(vx, vy, vz),
    }
}

fn times_equal(num: i64, den: i64, en: i64, ed: i64) -> bool {
    num as i128 * ed as i128 == en as i128 * den as i128
}

#[test]
fn test_sweep_test() {
    // Too slow to reach the box within one tick.
    assert_eq!(sweep_test(moving_unit_box(500, 0, 0), unit_box_at(2000, 2000, 0)), None);

    // A unit box at the origin moving (1.2, 0, 0) against a unit box at
    // (2, 2, 0): contact at five sixths of the tick through the -x face.
    let hit = sweep_test(moving_unit_box(1200, 0, 0), unit_box_at(2000, 2000, 0)).unwrap();
    assert_eq!(hit.normal, Vec3i::new(-1, 0, 0));
    assert!(times_equal(hit.time.num, hit.time.den, 5, 6));

    // A diagonal approach that still enters through the -x face first.
    let hit = sweep_test(moving_unit_box(1200, 1300, 0), unit_box_at(2000, 2000, 0)).unwrap();
    assert_eq!(hit.normal, Vec3i::new(-1, 0, 0));
    assert!(times_equal(hit.time.num, hit.time.den, 5, 6));

    // A perfectly diagonal approach: both axes tie, the normal combines.
    let hit = sweep_test(moving_unit_box(1200, 1200, 0), unit_box_at(2000, 2000, 0)).unwrap();
    assert_eq!(hit.normal, Vec3i::new(-1, -1, 0));
    assert!(times_equal(hit.time.num, hit.time.den, 5, 6));

    // Dropping from above but stopping short.
    let falling_short = SweepBox {
        collider: unit_box_at(500, 1500, 500),
        velocity: Vec3x::new(0, -100, 0),
    };
    assert_eq!(sweep_test(falling_short, unit_box_at(1000, 1000, 1000)), None);

    // Dropping onto the top face: contact exactly half way.
    let falling = SweepBox {
        collider: unit_box_at(500, 1100, 500),
        velocity: Vec3x::new(0, -200, 0),
    };
    let hit = sweep_test(falling, unit_box_at(0, 0, 0)).unwrap();
    assert_eq!(hit.normal, Vec3i::new(0, 1, 0));
    assert!(times_equal(hit.time.num, hit.time.den, 1, 2));

    let falling = SweepBox {
        collider: unit_box_at(500, 2100, 500),
        velocity: Vec3x::new(0, -200, 0),
    };
    let hit = sweep_test(falling, unit_box_at(1000, 1000, 1000)).unwrap();
    assert_eq!(hit.normal, Vec3i::new(0, 1, 0));
    assert!(times_equal(hit.time.num, hit.time.den, 1, 2));

    let falling = SweepBox {
        collider: unit_box_at(500, 1100, 500),
        velocity: Vec3x::new(0, -400, 0),
    };
    let hit = sweep_test(falling, unit_box_at(0, 0, 0)).unwrap();
    assert_eq!(hit.normal, Vec3i::new(0, 1, 0));
    assert!(times_equal(hit.time.num, hit.time.den, 1, 4));
}

#[test]
fn raycast_finds_first_solid_voxel() {
    let mut world = World::new(Vec3i::zero());
    let mut chunk = Chunk::filled_with(Block::air());
    chunk.set_block(Vec3i::new(9, 8, 0), Block::new(BlockType::Stone));
    world.load(Vec3i::new(0, 0, 0), chunk);

    // From (8, 8, 0) along (1, 0.4, 0) with radius 16: the stone voxel at
    // (9, 8, 0), entered through its -x face.
    let hit = raycast(&world, Vec3x::new(8_000, 8_000, 0), Vec3x::new(1000, 400, 0), 16_000)
        .unwrap();
    assert_eq!(hit.position, Vec3i::new(9, 8, 0));
    assert_eq!(hit.normal, Vec3i::new(-1, 0, 0));
}

#[test]
fn raycast_degenerate_direction_misses() {
    let mut world = World::new(Vec3i::zero());
    let mut chunk = Chunk::filled_with(Block::air());
    chunk.set_block(Vec3i::new(9, 8, 0), Block::new(BlockType::Stone));
    world.load(Vec3i::new(0, 0, 0), chunk);
    assert_eq!(raycast(&world, Vec3x::new(8_000, 8_000, 0), Vec3x::zero(), 16_000), None);
}

#[test]
fn raycast_starting_inside_a_solid_reports_it_with_zero_normal() {
    let mut world = World::new(Vec3i::zero());
    let chunk = Chunk::filled_with(Block::new(BlockType::Stone));
    world.load(Vec3i::new(0, 0, 0), chunk);
    let hit = raycast(&world, Vec3x::new(8_500, 8_500, 8_500), Vec3x::new(1000, 0, 0), 16_000)
        .unwrap();
    assert_eq!(hit.position, Vec3i::new(8, 8, 8));
    assert_eq!(hit.normal, Vec3i::zero());
}

#[test]
fn raycast_respects_its_radius() {
    let mut world = World::new(Vec3i::zero());
    let mut chunk = Chunk::filled_with(Block::air());
    chunk.set_block(Vec3i::new(9, 8, 0), Block::new(BlockType::Stone));
    world.load(Vec3i::new(0, 0, 0), chunk);
    // The stone voxel lies one block away, beyond a half-block radius.
    assert_eq!(
        raycast(&world, Vec3x::new(8_000, 8_000, 0), Vec3x::new(1000, 0, 0), 500),
        None
    );
}
