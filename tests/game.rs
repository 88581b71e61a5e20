use rim::game::{empty_count, place_tile, tile_for_roll, TWO_TILE_PERCENT};
use rim::{Direction, Game, InMemoryStorage, State, Storage};

#[test]
fn test_count_empty() {
    let game = Game::with_board(0x0100_0020_0001_0001);
    let result = game.count_empty();

    assert_eq!(12, result);
}

#[test]
fn test_grid() {
    let game = Game::with_board(0xFEDC_BA98_7654_3210);
    assert_eq!(
        game.grid(),
        [[15, 14, 13, 12], [11, 10, 9, 8], [7, 6, 5, 4], [3, 2, 1, 0]]
    );

    let game = Game::with_board(0x0123_4567_89AB_CDEF);
    assert_eq!(
        game.grid(),
        [[0, 1, 2, 3], [4, 5, 6, 7], [8, 9, 10, 11], [12, 13, 14, 15]]
    );
}

fn nonzero_cells(b: u64) -> u32 {
    (0..16).filter(|i| (b >> (4 * i)) & 0xF != 0).count() as u32
}

#[test]
fn new_game_has_two_small_tiles() {
    let game = Game::new();
    let b = game.board();
    assert_eq!(nonzero_cells(b), 2);
    for i in 0..16 {
        let v = (b >> (4 * i)) & 0xF;
        assert!(v <= 2);
    }
    assert_eq!(game.count_empty(), 14);
}

#[test]
fn with_board_keeps_a_nonempty_board() {
    let game = Game::with_board(0x0000_0000_0030_0002);
    assert_eq!(game.board(), 0x0000_0000_0030_0002);
    assert_eq!(game.score(), 40);
}

#[test]
fn execute_moves_and_adds_a_tile() {
    let mut game = Game::with_board(0x0000_0000_0000_1001);
    game.execute(Direction::Right);
    let b = game.board();
    // the merged tile is in place and one new tile was added
    assert_eq!(b & 0xF, 2);
    assert_eq!(nonzero_cells(b), 2);
    assert_eq!(game.score(), 8);
}

#[test]
fn execute_without_change_adds_nothing() {
    let mut game = Game::with_board(0x0000_0000_0000_0001);
    game.execute(Direction::Right);
    game.execute(Direction::Down);
    assert_eq!(game.board(), 0x0000_0000_0000_0001);
    assert_eq!(game.score(), 0);
}

#[test]
fn restart_gives_two_tiles() {
    let mut game = Game::with_board(0x1234_0000_0000_0000);
    game.restart();
    assert_eq!(nonzero_cells(game.board()), 2);
}

#[test]
fn game_over_on_a_locked_board() {
    let game = Game::with_board(0x1212_2121_1212_2121);
    assert!(game.game_over());
}

#[test]
fn game_not_over_with_an_empty_cell() {
    let game = Game::with_board(0x1212_2121_1212_2120);
    assert!(!game.game_over());
}

#[test]
fn game_not_over_when_a_full_board_can_merge() {
    // only a horizontal merge is left, and only in the top row
    let game = Game::with_board(0x1123_2341_3412_4123);
    assert!(!game.game_over());
    // only a vertical merge is left
    let game = Game::with_board(0x1234_1342_2413_3124);
    assert!(!game.game_over());
}

#[test]
fn place_tile_counts_empty_cells_from_the_low_end() {
    assert_eq!(place_tile(0, 0, 1), 0x1);
    assert_eq!(place_tile(0, 3, 2), 0x2000);
    assert_eq!(place_tile(0x0000_0000_0000_0101, 1, 2), 0x0000_0000_0000_2101);
    assert_eq!(place_tile(0x0000_0000_0000_0101, 0, 1), 0x0000_0000_0000_0111);
    assert_eq!(place_tile(0x0FFF_FFFF_FFFF_FFFF, 0, 2), 0x2FFF_FFFF_FFFF_FFFF);
}

#[test]
fn tile_for_roll_uses_the_weight() {
    assert_eq!(TWO_TILE_PERCENT, 10);
    assert_eq!(tile_for_roll(0, 10), 2);
    assert_eq!(tile_for_roll(9, 10), 2);
    assert_eq!(tile_for_roll(10, 10), 1);
    assert_eq!(tile_for_roll(99, 10), 1);
    assert_eq!(tile_for_roll(39, 40), 2);
    assert_eq!(tile_for_roll(0, 0), 1);
}

#[test]
fn spawn_weight_can_be_changed() {
    let mut game = Game::with_board(0x0000_0000_0000_1001);
    game.set_two_percent(100);
    game.execute(Direction::Right);
    let b = game.board();
    let added: Vec<u64> = (1..16).map(|i| (b >> (4 * i)) & 0xF).filter(|v| *v != 0).collect();
    assert_eq!(added, vec![2]);
}

#[test]
fn empty_count_values() {
    assert_eq!(empty_count(0), 16);
    assert_eq!(empty_count(0x0100_0020_0001_0001), 12);
    assert_eq!(empty_count(u64::MAX), 0);
}

#[test]
fn state_starts_empty() {
    let s = State::new();
    assert_eq!(s.board, 0);
    assert_eq!(s.score, 0);
    assert_eq!(s.best_score, 0);
}

#[test]
fn in_memory_storage_keeps_values() {
    let mut s = InMemoryStorage::new();
    assert_eq!(s.board(), 0);
    assert_eq!(s.best(), 0);
    s.set_board(0x1234);
    s.set_best(99);
    assert_eq!(s.board(), 0x1234);
    assert_eq!(s.best(), 99);
    let d = InMemoryStorage::default();
    assert_eq!(d.best(), 0);
}

#[test]
fn unit_storage_keeps_nothing() {
    let mut s = ();
    s.set_board(0x1234);
    s.set_best(7);
    assert_eq!(Storage::board(&s), 0);
    assert_eq!(Storage::best(&s), 0);
}

#[test]
fn get_tile_values() {
    assert_eq!(rim::game::get_tile(0), 0);
    assert_eq!(rim::game::get_tile(1), 2);
    assert_eq!(rim::game::get_tile(2), 4);
    assert_eq!(rim::game::get_tile(11), 2048);
    assert_eq!(rim::game::get_tile(15), 32768);
}

#[test]
fn with_tables_reuses_built_tables() {
    let game = Game::with_tables(rim::Moves::new(), 0x0000_0000_0030_0002);
    assert_eq!(game.board(), 0x0000_0000_0030_0002);
    assert_eq!(game.score(), 40);
    let game = Game::with_tables(rim::Moves::new(), 0);
    assert_eq!(game.count_empty(), 14);
}
