use rmc_core::block::{Block, BlockType};
use rmc_core::chunk::Chunk;
use rmc_core::game::{BlockOrItem, Game, Hotbar, Item};
use rmc_core::input::{InputState, KeyboardEvent, ButtonStateEvent, KEY_P};
use rmc_core::terrain::{generate_chunk, TerrainSampler};
use rmc_core::vecmath::{Vec3i, Vec3x};

#[test]
fn test_game_state_size() {
    // The game state is cloned and blended often; it must stay small.
    const MAX_SIZE: usize = 512;
    assert!(
        std::mem::size_of::<Game>() < MAX_SIZE,
        "Size of `Game` ({} bytes) needs to be smaller than {} bytes",
        std::mem::size_of::<Game>(),
        MAX_SIZE
    );
}

#[test]
fn new_game_starts_with_the_expected_state() {
    let game = Game::new(Vec::new());
    assert_eq!(game.position, Vec3x::new(8_500, 48_000, 8_500));
    assert_eq!(game.velocity, Vec3x::zero());
    assert!(!game.flying);
    assert!(!game.on_ground);
    assert_eq!(game.jump_strength, 6_402);
    assert_eq!(game.hotbar.active, 0);
    assert_eq!(
        game.hotbar.slots[0],
        Some(BlockOrItem::Block(BlockType::Wood))
    );
    assert_eq!(
        game.hotbar.slots[1],
        Some(BlockOrItem::Block(BlockType::Lantern))
    );
    assert_eq!(
        game.hotbar.slots[4],
        Some(BlockOrItem::Block(BlockType::Mesh))
    );
    assert_eq!(game.hotbar.slots[5], None);
    // Nothing was loaded, so the starter lantern writes were dropped.
    assert_eq!(game.world.get_block(Vec3i::new(6, 14, 8)), None);
    assert_eq!(game.dirty_blocks.len(), 0);
}

#[test]
fn new_game_places_starter_lanterns_in_loaded_chunks() {
    let chunks = vec![
        (Vec3i::new(0, 0, 0), Chunk::filled_with(Block::air())),
        (Vec3i::new(-1, 0, -1), Chunk::filled_with(Block::air())),
    ];
    let game = Game::new(chunks);
    assert_eq!(
        game.world.get_block(Vec3i::new(6, 14, 8)).map(|b| b.ty),
        Some(BlockType::Lantern)
    );
    assert_eq!(
        game.world.get_block(Vec3i::new(-8, 14, -8)).map(|b| b.ty),
        Some(BlockType::Lantern)
    );
    assert_eq!(game.dirty_blocks.len(), 2);
}

#[test]
fn hotbar_selection_scrolls_with_wraparound() {
    let mut game = Game::new(Vec::new());
    let mut input = InputState::new();
    input.scroll_delta = 1;
    game.update(&input, Vec3x::zero(), Vec3x::zero(), Vec::new());
    assert_eq!(game.hotbar.active, 8);
    input.scroll_delta = -3;
    game.update(&input, Vec3x::zero(), Vec3x::zero(), Vec::new());
    assert_eq!(game.hotbar.active, 2);
}

#[test]
fn flying_toggles_on_the_p_key_edge() {
    let mut game = Game::new(Vec::new());
    let mut input = InputState::new();
    input.push_keyboard_event(KeyboardEvent { key: KEY_P, state: ButtonStateEvent::Press });
    game.update(&input, Vec3x::zero(), Vec3x::zero(), Vec::new());
    assert!(game.flying);

    // A held key is no longer an edge.
    input.update_held_status();
    game.update(&input, Vec3x::zero(), Vec3x::zero(), Vec::new());
    assert!(game.flying);
}

#[test]
fn update_accepts_streamed_chunks_and_requests_nearby_ones() {
    let mut game = Game::new(Vec::new());
    let input = InputState::new();
    let arrived = vec![(Vec3i::new(0, 3, 0), Chunk::filled_with(Block::air()))];
    game.update(&input, Vec3x::zero(), Vec3x::zero(), arrived);
    // The viewpoint occupies a chunk away from the initial origin, so the
    // window re-centres on it and nearby unloaded chunks are requested.
    assert_eq!(game.world.origin().x, 0);
    assert!(!game.pending_chunk_requests.is_empty());
    for c in game.pending_chunk_requests.iter() {
        let d = (c.x as i64 - game.world.origin().x as i64).pow(2)
            + (c.y as i64 - game.world.origin().y as i64).pow(2)
            + (c.z as i64 - game.world.origin().z as i64).pow(2);
        assert!(9 * d < 64);
    }
}

#[test]
fn names_of_items_and_blocks() {
    assert_eq!(Item::Empty.name(), "Empty");
    assert_eq!(BlockOrItem::Item(Item::Empty).name(), "Empty");
    assert_eq!(BlockOrItem::Block(BlockType::Wood).name(), "Wood");
    assert_eq!(BlockOrItem::Block(BlockType::Air).name(), "??");
    let hotbar = Hotbar::new();
    assert_eq!(hotbar.slots.len(), 9);
    assert!(hotbar.slots.iter().all(|s| s.is_none()));
}

#[test]
fn generated_chunk_matches_the_height_rule() {
    let sampler = TerrainSampler::new(6543);
    assert_eq!(sampler.seed, 6543);

    // A flat height map of 40: the surface chunk is chunk 2 with eight
    // layers of ground, chunks below are solid, chunks above are sky.
    let heights = vec![40u32; 256];

    let surface = generate_chunk(&heights, Vec3i::new(0, 2, 0));
    for y in 0..7 {
        let b = surface.get_block(Vec3i::new(3, y, 3));
        assert_eq!(b.ty, BlockType::Grass);
        assert!(!b.open_to_sky);
    }
    let top = surface.get_block(Vec3i::new(3, 7, 3));
    assert_eq!(top.ty, BlockType::Grass);
    assert!(top.open_to_sky);
    let above = surface.get_block(Vec3i::new(3, 8, 3));
    assert_eq!(above.ty, BlockType::Air);
    assert_eq!(above.light, 255);
    assert!(above.open_to_sky);

    let below = generate_chunk(&heights, Vec3i::new(0, 1, 0));
    for y in 0..16 {
        let b = below.get_block(Vec3i::new(0, y, 0));
        assert_eq!(b.ty, BlockType::Grass);
        assert_eq!(b.occluded, y < 14);
    }

    let sky = generate_chunk(&heights, Vec3i::new(0, 3, 0));
    assert_eq!(sky.get_block(Vec3i::new(5, 5, 5)).ty, BlockType::Air);
}
