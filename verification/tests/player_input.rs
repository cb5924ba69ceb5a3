use voxel_world::chunk::Chunk;
use voxel_world::player::{locate, probe, Key, Movement, Player, Probe};
use voxel_world::world::World;

const STILL: Movement =
    Movement { forward: false, backward: false, left: false, right: false, up: false, down: false };

fn plain(_wx: i64, _wz: i64) -> usize {
    3
}

#[test]
fn new_player_holds_the_first_eight_materials() {
    let player = Player::new();
    assert_eq!(player.hotbar, [1, 2, 3, 4, 5, 6, 7, 8]);
    assert_eq!(player.selected_block, 1);
    assert_eq!(player.selected_hotbar_slot, 0);
    assert!(!player.cursor_locked);
    assert!(!player.show_inventory);
    assert_eq!(player.movement, STILL);
}

#[test]
fn selecting_a_slot_selects_its_material() {
    let mut player = Player::new();
    player.change_selected_block(7);
    assert_eq!(player.selected_hotbar_slot, 7);
    assert_eq!(player.selected_block, 8);
    player.change_selected_block(0);
    assert_eq!(player.selected_hotbar_slot, 0);
    assert_eq!(player.selected_block, 1);
    assert_eq!(player.hotbar, Player::new().hotbar);
}

#[test]
fn setting_the_slot_replaces_its_material() {
    let mut player = Player::new();
    player.change_selected_block(3);
    player.set_hotbar_slot(42);
    assert_eq!(player.hotbar, [1, 2, 3, 42, 5, 6, 7, 8]);
    assert_eq!(player.selected_block, 42);
    assert_eq!(player.selected_hotbar_slot, 3);
    player.change_selected_block(2);
    assert_eq!(player.selected_block, 3);
    player.change_selected_block(3);
    assert_eq!(player.selected_block, 42);
}

#[test]
fn movement_keys_set_and_clear_their_direction() {
    let pairs = [
        (Key::KeyW, Key::ArrowUp, Movement { forward: true, ..STILL }),
        (Key::KeyS, Key::ArrowDown, Movement { backward: true, ..STILL }),
        (Key::KeyA, Key::ArrowLeft, Movement { left: true, ..STILL }),
        (Key::KeyD, Key::ArrowRight, Movement { right: true, ..STILL }),
    ];
    for (letter, arrow, moving) in pairs {
        for key in [letter, arrow] {
            let mut player = Player::new();
            assert!(player.process_keyboard(key, true));
            assert_eq!(player, Player { movement: moving, ..Player::new() });
            assert!(player.process_keyboard(key, false));
            assert_eq!(player, Player::new());
        }
    }
    let mut player = Player::new();
    assert!(player.process_keyboard(Key::Space, true));
    assert_eq!(player.movement, Movement { up: true, ..STILL });
    assert!(player.process_keyboard(Key::ShiftLeft, true));
    assert_eq!(player.movement, Movement { up: true, down: true, ..STILL });
    assert!(player.process_keyboard(Key::Space, false));
    assert_eq!(player.movement, Movement { down: true, ..STILL });
    assert!(player.process_keyboard(Key::ShiftLeft, false));
    assert_eq!(player, Player::new());
}

#[test]
fn digit_keys_select_hotbar_slots_on_press_only() {
    let digits = [
        Key::Digit1,
        Key::Digit2,
        Key::Digit3,
        Key::Digit4,
        Key::Digit5,
        Key::Digit6,
        Key::Digit7,
        Key::Digit8,
    ];
    for (i, key) in digits.iter().enumerate() {
        assert_eq!(key.hotbar_slot(), Some(i));
        let mut player = Player::new();
        assert!(!player.process_keyboard(*key, false));
        assert_eq!(player, Player::new());
        assert!(player.process_keyboard(*key, true));
        assert_eq!(
            player,
            Player { selected_hotbar_slot: i, selected_block: i as u32 + 1, ..Player::new() }
        );
    }
    assert_eq!(Key::KeyE.hotbar_slot(), None);
    assert_eq!(Key::Other.hotbar_slot(), None);
}

#[test]
fn inventory_key_toggles_on_press_only() {
    let mut player = Player::new();
    assert!(!player.process_keyboard(Key::KeyE, false));
    assert_eq!(player, Player::new());
    assert!(player.process_keyboard(Key::KeyE, true));
    assert!(player.show_inventory);
    assert!(player.cursor_locked);
    assert!(player.process_keyboard(Key::KeyE, true));
    assert_eq!(player, Player::new());
    player.cursor_locked = true;
    assert!(player.process_keyboard(Key::KeyE, true));
    assert!(player.show_inventory);
    assert!(!player.cursor_locked);
}

#[test]
fn other_keys_mean_nothing() {
    let mut player = Player::new();
    assert!(!player.process_keyboard(Key::Other, true));
    assert!(!player.process_keyboard(Key::Other, false));
    assert_eq!(player, Player::new());
}

#[test]
fn cells_are_located_by_floored_division() {
    assert_eq!(locate([0, 0, 0]), ([0, 0], [0, 0, 0]));
    assert_eq!(locate([15, 7, 16]), ([0, 1], [15, 7, 0]));
    assert_eq!(locate([-1, 5, -17]), ([-1, -2], [15, 5, 15]));
    assert_eq!(locate([-16, -3, -32]), ([-1, -2], [0, -3, 0]));
    assert_eq!(locate([37, 300, -40]), ([2, -3], [5, 300, 8]));
    assert_eq!(
        locate([i32::MIN, i32::MIN, i32::MAX]),
        ([-134217728, 134217727], [0, i32::MIN, 15])
    );
}

#[test]
fn probing_tells_solid_empty_and_unloaded_apart() {
    let world = World::generate(&plain, [-1, 0], [0, 1]);
    assert_eq!(probe(&world.chunks, [-1, 2, 0]), Probe::Solid);
    assert_eq!(probe(&world.chunks, [-16, 0, 15]), Probe::Solid);
    assert_eq!(probe(&world.chunks, [-1, 3, 0]), Probe::Empty);
    assert_eq!(probe(&world.chunks, [-1, 256, 0]), Probe::Empty);
    assert_eq!(probe(&world.chunks, [-1, -1, 0]), Probe::Empty);
    assert_eq!(probe(&world.chunks, [0, 2, 0]), Probe::Unloaded);
    assert_eq!(probe(&world.chunks, [-17, 2, 0]), Probe::Unloaded);
    assert_eq!(probe(&world.chunks, [-1, 2, -1]), Probe::Unloaded);
    assert_eq!(probe(&world.chunks, [-1, 2, 16]), Probe::Unloaded);
}

#[test]
fn probing_uses_the_first_chunk_over_a_column() {
    let chunks = vec![
        Chunk::from_heights([0, 0], &[[0; 16]; 16]),
        Chunk::from_heights([0, 0], &[[9; 16]; 16]),
    ];
    assert_eq!(probe(&chunks, [3, 2, 3]), Probe::Empty);
    assert_eq!(Player::get_block_pointed_at(&chunks, &vec![[3, 2, 3]]), None);
}

#[test]
fn ray_hits_the_first_solid_cell() {
    let world = World::generate(&plain, [0, 0], [1, 1]);
    let cells = vec![[5, 6, 5], [5, 5, 5], [5, 4, 5], [5, 3, 5], [5, 2, 5], [5, 1, 5], [5, 0, 5]];
    assert_eq!(Player::get_block_pointed_at(&world.chunks, &cells), Some([5, 2, 5]));
    assert_eq!(Player::get_block_placement_pos(&world.chunks, &cells), Some([5, 3, 5]));
}

#[test]
fn ray_samples_may_repeat_a_cell() {
    let world = World::generate(&plain, [0, 0], [1, 1]);
    let cells = vec![[5, 4, 5], [5, 4, 5], [5, 3, 5], [5, 3, 5], [5, 3, 5], [5, 2, 5], [5, 2, 5]];
    assert_eq!(Player::get_block_pointed_at(&world.chunks, &cells), Some([5, 2, 5]));
    assert_eq!(Player::get_block_placement_pos(&world.chunks, &cells), Some([5, 3, 5]));
}

#[test]
fn ray_that_meets_nothing_gives_nothing() {
    let world = World::generate(&plain, [0, 0], [1, 1]);
    let cells = vec![[5, 9, 5], [6, 9, 5], [7, 9, 5], [8, 9, 5]];
    assert_eq!(Player::get_block_pointed_at(&world.chunks, &cells), None);
    // free cells were seen, but without a block behind them there is no target
    assert_eq!(Player::get_block_placement_pos(&world.chunks, &cells), None);
    let nothing: Vec<[i32; 3]> = Vec::new();
    assert_eq!(Player::get_block_pointed_at(&world.chunks, &nothing), None);
    assert_eq!(Player::get_block_placement_pos(&world.chunks, &nothing), None);
    let no_chunks: Vec<Chunk> = Vec::new();
    assert_eq!(Player::get_block_pointed_at(&no_chunks, &cells), None);
    assert_eq!(Player::get_block_placement_pos(&no_chunks, &cells), None);
}

#[test]
fn ray_passes_over_cells_without_a_chunk() {
    let world = World::generate(&plain, [0, 0], [1, 1]);
    let cells = vec![[-3, 2, 5], [-2, 2, 5], [-1, 2, 5], [0, 2, 5], [1, 2, 5]];
    assert_eq!(Player::get_block_pointed_at(&world.chunks, &cells), Some([0, 2, 5]));
    // no free cell was seen before the block: cells without a chunk do not count
    assert_eq!(Player::get_block_placement_pos(&world.chunks, &cells), None);
}

#[test]
fn ray_that_starts_inside_a_block_has_no_placement_target() {
    let world = World::generate(&plain, [0, 0], [1, 1]);
    let cells = vec![[5, 1, 5], [5, 2, 5], [5, 3, 5]];
    assert_eq!(Player::get_block_pointed_at(&world.chunks, &cells), Some([5, 1, 5]));
    assert_eq!(Player::get_block_placement_pos(&world.chunks, &cells), None);
}

#[test]
fn placement_target_is_the_last_free_cell_before_the_block() {
    let world = World::generate(&plain, [0, 0], [1, 1]);
    // from above the world, through a cell without a chunk, down to the ground
    let cells = vec![[5, 300, 5], [5, 5, 5], [5, 4, -1], [5, 2, 5], [5, 3, 5]];
    assert_eq!(Player::get_block_pointed_at(&world.chunks, &cells), Some([5, 2, 5]));
    assert_eq!(Player::get_block_placement_pos(&world.chunks, &cells), Some([5, 5, 5]));
    let cells = vec![[5, 300, 5], [5, 2, 5]];
    assert_eq!(Player::get_block_placement_pos(&world.chunks, &cells), Some([5, 300, 5]));
    let cells = vec![[5, -1, 5], [5, 0, 5]];
    assert_eq!(Player::get_block_placement_pos(&world.chunks, &cells), Some([5, -1, 5]));
}

#[test]
fn picked_block_can_be_broken_and_target_filled() {
    let mut world = World::generate(&plain, [0, 0], [1, 1]);
    let cells = vec![[5, 5, 5], [5, 4, 5], [5, 3, 5], [5, 2, 5], [5, 1, 5]];
    let target = Player::get_block_placement_pos(&world.chunks, &cells).unwrap();
    world.place_block(target);
    assert_eq!(Player::get_block_pointed_at(&world.chunks, &cells), Some([5, 3, 5]));
    assert_eq!(Player::get_block_placement_pos(&world.chunks, &cells), Some([5, 4, 5]));
    let hit = Player::get_block_pointed_at(&world.chunks, &cells).unwrap();
    world.break_block(hit);
    let hit = Player::get_block_pointed_at(&world.chunks, &cells).unwrap();
    assert_eq!(hit, [5, 2, 5]);
    world.break_block(hit);
    assert_eq!(Player::get_block_pointed_at(&world.chunks, &cells), Some([5, 1, 5]));
}
