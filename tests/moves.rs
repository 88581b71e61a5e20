use rim::row::{score_of_row, slide_low};
use rim::{Direction, Moves};

#[test]
fn test_transpose() {
    let board = 0xFEDC_BA98_7654_3210;
    let result = Moves::transpose(board);

    assert_eq!(result, 0xFB73_EA62_D951_C840);
}

#[test]
fn test_move_up() {
    let moves = Moves::new();
    let board = 0x1111_0000_0000_1111;
    let result = moves.up(board);

    assert_eq!(result, 0x2222_0000_0000_0000);
}

#[test]
fn test_move_down() {
    let moves = Moves::new();
    let board = 0x1111_0000_0000_1111;
    let result = moves.down(board);

    assert_eq!(result, 0x0000_0000_0000_2222);
}

#[test]
fn test_move_left() {
    let moves = Moves::new();
    let board = 0x1001_1001_1001_1001;
    let result = moves.left(board);

    assert_eq!(result, 0x2000_2000_2000_2000);
}

#[test]
fn test_move_right() {
    let moves = Moves::new();
    let board = 0x1001_1001_1001_1001;
    let result = moves.right(board);

    assert_eq!(result, 0x0002_0002_0002_0002);
}

#[test]
fn transpose_twice_gives_the_board_back() {
    for b in [0u64, 0xFEDC_BA98_7654_3210, 0x0123_4567_89AB_CDEF, 0x1111_0000_0000_1111, u64::MAX] {
        assert_eq!(Moves::transpose(Moves::transpose(b)), b);
    }
}

#[test]
fn slide_merges_pairs_once() {
    // four equal tiles make two merged tiles, not one
    assert_eq!(slide_low(0x1111), 0x0022);
    // the low pair merges first
    assert_eq!(slide_low(0x0111), 0x0012);
    // gaps close before merging
    assert_eq!(slide_low(0x1010), 0x0002);
    assert_eq!(slide_low(0x2100), 0x0021);
    assert_eq!(slide_low(0x0000), 0x0000);
    assert_eq!(slide_low(0x1234), 0x1234);
}

#[test]
fn slide_holds_merged_tiles_at_fifteen() {
    assert_eq!(slide_low(0x00FF), 0x000F);
    assert_eq!(slide_low(0xFFFF), 0x00FF);
    assert_eq!(slide_low(0x0EE0), 0x000F);
}

#[test]
fn row_score_values() {
    assert_eq!(score_of_row(0x0000), 0);
    assert_eq!(score_of_row(0x0001), 0);
    // exponent 2: (2 - 1) * 2^3
    assert_eq!(score_of_row(0x0002), 8);
    // exponent 3: (3 - 1) * 2^4
    assert_eq!(score_of_row(0x0030), 32);
    // exponent 15: 14 * 2^16
    assert_eq!(score_of_row(0xF000), 917_504);
    assert_eq!(score_of_row(0x2222), 32);
}

#[test]
fn board_score_sums_rows() {
    let moves = Moves::new();
    assert_eq!(moves.get_score(&0), 0);
    assert_eq!(moves.get_score(&0x0002_0000_0030_0000), 40);
    assert_eq!(moves.get_score(&0xF000_F000_F000_F000), 4 * 917_504);
}

#[test]
fn tables_hold_row_deltas() {
    let moves = Moves::new();
    assert_eq!(moves.right[0x1001], 0x1001 ^ 0x0002);
    assert_eq!(moves.left[0x1001], 0x1001 ^ 0x2000);
    assert_eq!(moves.scores[0x0030], 32);
    assert_eq!(moves.down[0x0011], Moves::transpose(0x0011) ^ Moves::transpose(0x0002));
    assert_eq!(moves.up.len(), 65536);
}

#[test]
fn apply_matches_each_direction() {
    let moves = Moves::new();
    let b = 0x1200_0340_0021_1001;
    assert_eq!(moves.apply(b, Direction::Up), moves.up(b));
    assert_eq!(moves.apply(b, Direction::Down), moves.down(b));
    assert_eq!(moves.apply(b, Direction::Left), moves.left(b));
    assert_eq!(moves.apply(b, Direction::Right), moves.right(b));
}

#[test]
fn no_op_move_stays_a_no_op() {
    let moves = Moves::new();
    let b = 0x0001_0001_0001_0001;
    assert_eq!(moves.right(b), b);
    assert_eq!(moves.right(moves.right(b)), b);
    let c = 0x1234_5678_9ABC_DEF1;
    for d in [Direction::Up, Direction::Down, Direction::Left, Direction::Right] {
        assert_eq!(moves.apply(c, d), c);
        assert_eq!(moves.apply(moves.apply(c, d), d), c);
    }
}

#[test]
fn moved_tiles_come_from_tiles_or_pairs() {
    let moves = Moves::new();
    let b = 0x1100_2200_0033_4400;
    let r = moves.left(b);
    assert_eq!(r, 0x2000_3000_4000_5000);
    let r = moves.right(0x2111_0000_0000_0000);
    assert_eq!(r, 0x0212_0000_0000_0000);
}

#[test]
fn score_does_not_drop_after_a_move() {
    let moves = Moves::new();
    let b = 0x1100_2200_0033_4400;
    for d in [Direction::Up, Direction::Down, Direction::Left, Direction::Right] {
        assert!(moves.get_score(&moves.apply(b, d)) >= moves.get_score(&b));
    }
    // two tiles of the largest exponent merge into one of the same exponent
    let capped = 0x0000_0000_0000_00FF;
    assert!(moves.get_score(&moves.right(capped)) < moves.get_score(&capped));
}

#[test]
fn column_mask_is_one_column() {
    assert_eq!(rim::COL_MASK, 0x000F_000F_000F_000F);
    assert_eq!(rim::ROW_MASK, 0xFFFF);
}

fn tile_mass(b: u64) -> u64 {
    (0..16)
        .map(|i| (b >> (4 * i)) & 0xF)
        .filter(|v| *v != 0)
        .map(|v| 1u64 << v)
        .sum()
}

fn tile_count(b: u64) -> u32 {
    (0..16).filter(|i| (b >> (4 * i)) & 0xF != 0).count() as u32
}

#[test]
fn moves_keep_tile_mass_below_fifteen() {
    let moves = Moves::new();
    let b = 0x1100_2230_0033_4E41;
    for d in [Direction::Up, Direction::Down, Direction::Left, Direction::Right] {
        let m = moves.apply(b, d);
        assert_eq!(tile_mass(m), tile_mass(b));
        assert!(tile_count(m) <= tile_count(b));
    }
}

#[test]
fn score_gain_is_two_to_the_pair_plus_two() {
    let moves = Moves::new();
    // one pair of exponent 1 merges: gain 2^3
    let b = 0x0000_0000_0000_0011;
    assert_eq!(moves.get_score(&moves.right(b)), moves.get_score(&b) + 8);
    // one pair of exponent 3 merges: gain 2^5
    let b = 0x0000_0000_0000_0303;
    assert_eq!(moves.get_score(&moves.right(b)), moves.get_score(&b) + 32);
    // nothing merges: the score and the tile count stay
    let b = 0x0000_0000_0000_0102;
    let m = moves.right(b);
    assert_ne!(m, b);
    assert_eq!(moves.get_score(&m), moves.get_score(&b));
    assert_eq!(tile_count(m), tile_count(b));
}
