use rmc_core::block::{Block, BlockType};
use rmc_core::chunk::Chunk;
use rmc_core::game::Game;
use rmc_core::input::{ButtonStateEvent, InputState, KeyboardEvent, KEY_P};
use rmc_core::light::{calculate_block_light, compute_open_to_sky};
use rmc_core::vecmath::{Vec3i, Vec3x};
use rmc_core::world::World;

/// A chunk of solid stone with a small dark pocket of enclosed air.
fn pocket_chunk() -> Chunk {
    let mut chunk = Chunk::filled_with(Block::new(BlockType::Stone));
    for x in 1..6 {
        for y in 1..6 {
            for z in 1..6 {
                chunk.set_block(Vec3i::new(x, y, z), Block::air());
            }
        }
    }
    chunk
}

/// Switch to flying on the first tick, so gravity cannot carry the
/// viewpoint out of the window while the lighting queue drains.
fn start_flying(game: &mut Game) {
    let mut input = InputState::new();
    input.push_keyboard_event(KeyboardEvent { key: KEY_P, state: ButtonStateEvent::Press });
    game.update(&input, Vec3x::zero(), Vec3x::zero(), Vec::new());
    assert!(game.flying);
}

fn idle_tick(game: &mut Game) {
    let input = InputState::new();
    game.update(&input, Vec3x::zero(), Vec3x::zero(), Vec::new());
}

/// The cached light of every pocket cell, in scan order. The pocket chunk
/// sits at chunk (0, 2, 0), so its local cells map to world y 32..48.
fn pocket_lights(game: &Game) -> Vec<u8> {
    let mut lights = Vec::new();
    for x in 1..6 {
        for y in 33..38 {
            for z in 1..6 {
                lights.push(game.world.get_block(Vec3i::new(x, y, z)).unwrap().light);
            }
        }
    }
    lights
}

#[test]
fn lighting_converges_to_attenuated_distances_from_an_emitter() {
    let chunks = vec![(Vec3i::new(0, 2, 0), pocket_chunk())];
    let mut game = Game::new(chunks);
    start_flying(&mut game);

    // Before any edit nothing is queued: the pocket is all dark.
    assert!(pocket_lights(&game).iter().all(|&l| l == 0));

    // Place a lantern in the middle of the pocket.
    game.set_block(Vec3i::new(3, 35, 3), Block::new(BlockType::Lantern));
    for _ in 0..8 {
        idle_tick(&mut game);
    }
    let settled = pocket_lights(&game);

    // The emitter itself.
    assert_eq!(game.world.get_block(Vec3i::new(3, 35, 3)).unwrap().light, 224);
    // One step of block adjacency: one attenuation step below emission.
    assert_eq!(game.world.get_block(Vec3i::new(4, 35, 3)).unwrap().light, 208);
    assert_eq!(game.world.get_block(Vec3i::new(2, 35, 3)).unwrap().light, 208);
    assert_eq!(game.world.get_block(Vec3i::new(3, 34, 3)).unwrap().light, 208);
    // Two steps along the shortest block-adjacency path.
    assert_eq!(game.world.get_block(Vec3i::new(5, 35, 3)).unwrap().light, 192);
    assert_eq!(game.world.get_block(Vec3i::new(4, 35, 4)).unwrap().light, 192);
    // The surrounding stone does not carry light.
    assert_eq!(game.world.get_block(Vec3i::new(3, 35, 0)).unwrap().light, 0);

    // A fixed point: further drains change nothing.
    idle_tick(&mut game);
    idle_tick(&mut game);
    assert_eq!(settled, pocket_lights(&game));
}

#[test]
fn edit_then_undo_restores_blocks_and_lighting() {
    let chunks = vec![(Vec3i::new(0, 2, 0), pocket_chunk())];
    let mut game = Game::new(chunks);
    start_flying(&mut game);

    let pocket_cells: Vec<Vec3i> = (1..6)
        .flat_map(|x| (33..38).map(move |y| (x, y)))
        .flat_map(|(x, y)| (1..6).map(move |z| Vec3i::new(x, y, z)))
        .collect();
    let before: Vec<Option<Block>> =
        pocket_cells.iter().map(|&p| game.world.get_block(p)).collect();
    let original = game.world.get_block(Vec3i::new(3, 35, 3)).unwrap();

    game.set_block(Vec3i::new(3, 35, 3), Block::new(BlockType::Lantern));
    for _ in 0..8 {
        idle_tick(&mut game);
    }
    assert_ne!(game.world.get_block(Vec3i::new(4, 35, 3)).unwrap().light, 0);

    // Undo the edit and drain until the lighting settles again.
    game.set_block(Vec3i::new(3, 35, 3), original);
    for _ in 0..24 {
        idle_tick(&mut game);
    }

    assert_eq!(game.world.get_block(Vec3i::new(3, 35, 3)), Some(original));
    let after: Vec<Option<Block>> =
        pocket_cells.iter().map(|&p| game.world.get_block(p)).collect();
    assert_eq!(before, after);
}

#[test]
fn sky_exposure_propagates_down_a_column() {
    // An all-air chunk starts open to the sky everywhere.
    let chunks = vec![(Vec3i::new(0, 2, 0), Chunk::new())];
    let mut game = Game::new(chunks);
    start_flying(&mut game);
    for y in 32..48 {
        assert!(game.world.get_block(Vec3i::new(2, y, 2)).unwrap().open_to_sky);
    }

    // Insert one opaque block: every cell below it in the column loses its
    // sky exposure once the updates cascade down.
    game.set_block(Vec3i::new(2, 40, 2), Block::new(BlockType::Stone));
    for _ in 0..8 {
        idle_tick(&mut game);
    }
    for y in 41..48 {
        assert!(game.world.get_block(Vec3i::new(2, y, 2)).unwrap().open_to_sky);
    }
    for y in 32..40 {
        assert!(!game.world.get_block(Vec3i::new(2, y, 2)).unwrap().open_to_sky);
    }
}

#[test]
fn block_light_rule_literal_cases() {
    let mut world = World::new(Vec3i::zero());
    let mut chunk = Chunk::filled_with(Block::air());
    chunk.set_block(Vec3i::new(5, 5, 5), Block::new(BlockType::Lantern).with_light(224));
    world.load(Vec3i::new(0, 0, 0), chunk);

    // An emitting kind reports its fixed emission.
    let lantern = world.get_block(Vec3i::new(5, 5, 5)).unwrap();
    assert_eq!(calculate_block_light(&world, Vec3i::new(5, 5, 5), lantern, None), 224);

    // A dark enclosed neighbor takes the attenuated maximum of its
    // neighbors.
    let neighbor = world.get_block(Vec3i::new(6, 5, 5)).unwrap();
    assert_eq!(calculate_block_light(&world, Vec3i::new(6, 5, 5), neighbor, None), 208);

    // A light-passing block open to the sky is fully lit.
    let mut sky_world = World::new(Vec3i::zero());
    sky_world.load(Vec3i::new(0, 0, 0), Chunk::new());
    let open = sky_world.get_block(Vec3i::new(3, 3, 3)).unwrap();
    assert!(open.open_to_sky);
    assert_eq!(calculate_block_light(&sky_world, Vec3i::new(3, 3, 3), open, None), 255);
    assert!(compute_open_to_sky(&sky_world, Vec3i::new(3, 3, 3)));
}
