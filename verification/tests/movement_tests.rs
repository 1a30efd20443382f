use rmc_core::block::{Block, BlockType};
use rmc_core::chunk::Chunk;
use rmc_core::game::Game;
use rmc_core::input::{ButtonStateEvent, InputState, KeyboardEvent, KEY_P};
use rmc_core::vecmath::{Vec3i, Vec3x};

fn idle_tick(game: &mut Game) {
    let input = InputState::new();
    game.update(&input, Vec3x::zero(), Vec3x::zero(), Vec::new());
}

/// A chunk whose lower half is stone and upper half is air, giving the
/// player a floor at local height 8.
fn floor_chunk() -> Chunk {
    let mut chunk = Chunk::filled_with(Block::air());
    for x in 0..16 {
        for y in 0..8 {
            for z in 0..16 {
                chunk.set_block(Vec3i::new(x, y, z), Block::new(BlockType::Stone));
            }
        }
    }
    chunk
}

#[test]
fn falling_player_lands_on_the_floor_and_rests() {
    // The floor surface sits at world y = 40; the viewpoint spawns at
    // y = 48 and falls under gravity.
    let chunks = vec![(Vec3i::new(0, 2, 0), floor_chunk())];
    let mut game = Game::new(chunks);
    assert!(!game.on_ground);

    for _ in 0..40 {
        idle_tick(&mut game);
    }

    assert!(game.on_ground);
    // Feet (1.5 blocks below the viewpoint) rest on the surface at 40
    // blocks: the viewpoint settles at 41.5 blocks.
    assert!(
        (41_400..=41_600).contains(&game.position.y),
        "resting height was {}",
        game.position.y
    );

    // Resting is stable.
    let settled = game.position;
    idle_tick(&mut game);
    idle_tick(&mut game);
    assert_eq!(game.position.x, settled.x);
    assert_eq!(game.position.z, settled.z);
    assert!((settled.y - 10..=settled.y + 10).contains(&game.position.y));
    assert!(game.on_ground);
}

#[test]
fn flying_walk_moves_at_exactly_ten_times_walking_speed() {
    let mut game = Game::new(Vec::new());

    // Toggle flying so gravity stays out of the way.
    let mut input = InputState::new();
    input.push_keyboard_event(KeyboardEvent { key: KEY_P, state: ButtonStateEvent::Press });
    game.update(&input, Vec3x::zero(), Vec3x::zero(), Vec::new());
    assert!(game.flying);

    let before = game.position;
    let input = InputState::new();
    // A unit walk direction along +x: walking covers 375 milli-blocks per
    // tick, flying multiplies that by ten.
    game.update(&input, Vec3x::zero(), Vec3x::new(1000, 0, 0), Vec::new());
    assert_eq!(game.position.x, before.x + 3_750);
    assert_eq!(game.position.z, before.z);
}
