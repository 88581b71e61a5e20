//! What every move keeps: where its tiles come from, and that it does not
//! lower the score.
use crate::board::{
    board_score, cell, empty_cells, lemma_empty_below_some, lemma_nibble_is_cell,
    lemma_transpose_involution, moved_high, moved_low, pack_rows, row_at, transposed, lemma_transposed_cell,
};
use crate::moves::{moved, Direction};
use crate::row::{
    bump, bumped, cell_score, lemma_row_cells_bounded, encode_cells, lemma_merge_gain, lemma_merge_keeps_mass,
    lemma_merge_parts, lemma_pad_score, lemma_tiles_below, lemma_tiles_nonzero, lemma_tiles_of_pad,
    lemma_tiles_score, merge_kept, merge_pairs, merged, pairs_gain, seq_mass, seq_score, lemma_changed_slide_frees_a_cell, lemma_reverse_row_involution, lemma_row_score_cells, lemma_slid_score, lemma_slid_source,
    lemma_slide_row_bounded, merges_at_cap, reverse_row, row_cells, row_score, slid_cells,
    slide_row, slide_row_high, tiles,
};
use vstd::prelude::*;

verus! {

/// `v` is a tile of `b`, or one more (held at 15) than two equal tiles in
/// two different cells of `b`.
pub open spec fn from_tiles_of(b: u64, v: u64) -> bool {
    (exists|r: u64, c: u64| r < 4 && c < 4 && #[trigger] cell(b, r, c) == v) || (exists|
        r1: u64,
        c1: u64,
        r2: u64,
        c2: u64,
    |
        r1 < 4 && c1 < 4 && r2 < 4 && c2 < 4 && (r1 != r2 || c1 != c2) && #[trigger] cell(b, r1, c1)
            == #[trigger] cell(b, r2, c2) && bump(cell(b, r1, c1)) == v)
}

/// Cell `c` of row `r` of a board is cell `c` of the 16-bit row.
proof fn lemma_cell_in_row(b: u64, r: u64, c: u64)
    requires
        r < 4,
        c < 4,
    ensures
        cell(b, r, c) == row_cells(row_at(b, r))[c as int],
{
    let x = row_at(b, r);
    assert(r < 4 && c < 4 ==> cell(b, r, c) == (row_at(b, r) >> (4 * c)) & 0xF) by (bit_vector);
    if c == 0 {
        assert((x >> (4 * 0u64)) & 0xF == x & 0xF) by (bit_vector);
    } else if c == 1 {
        assert((x >> (4 * 1u64)) & 0xF == (x >> 4u64) & 0xF) by (bit_vector);
    } else if c == 2 {
        assert((x >> (4 * 2u64)) & 0xF == (x >> 8u64) & 0xF) by (bit_vector);
    } else {
        assert((x >> (4 * 3u64)) & 0xF == (x >> 12u64) & 0xF) by (bit_vector);
    }
}

/// The rows of a board built from four 16-bit rows are those rows.
proof fn lemma_rows_of_pack(a0: u64, a1: u64, a2: u64, a3: u64)
    requires
        a0 < 0x10000,
        a1 < 0x10000,
        a2 < 0x10000,
        a3 < 0x10000,
    ensures
        row_at(pack_rows(a0, a1, a2, a3), 0) == a0,
        row_at(pack_rows(a0, a1, a2, a3), 1) == a1,
        row_at(pack_rows(a0, a1, a2, a3), 2) == a2,
        row_at(pack_rows(a0, a1, a2, a3), 3) == a3,
{
    assert(a0 < 0x10000 && a1 < 0x10000 && a2 < 0x10000 && a3 < 0x10000 ==> row_at(
        pack_rows(a0, a1, a2, a3),
        0,
    ) == a0 && row_at(pack_rows(a0, a1, a2, a3), 1) == a1 && row_at(pack_rows(a0, a1, a2, a3), 2)
        == a2 && row_at(pack_rows(a0, a1, a2, a3), 3) == a3) by (bit_vector);
}

/// The cells of a slid row are the slid cells.
proof fn lemma_cells_of_slide(x: u64)
    ensures
        row_cells(slide_row(x)) == slid_cells(x),
{
    lemma_slide_row_bounded(x);
    let s = slid_cells(x);
    let (l0, l1, l2, l3) = (s[0], s[1], s[2], s[3]);
    let e = encode_cells(s);
    assert(l0 <= 15 && l1 <= 15 && l2 <= 15 && l3 <= 15 ==> {
        let e = l0 | (l1 << 4u64) | (l2 << 8u64) | (l3 << 12u64);
        e & 0xF == l0 && (e >> 4u64) & 0xF == l1 && (e >> 8u64) & 0xF == l2 && (e >> 12u64) & 0xF
            == l3
    }) by (bit_vector);
    assert(row_cells(e) =~= s);
}

/// The cells of a reversed row are the row's cells in reverse order.
proof fn lemma_cells_of_reverse(x: u64)
    ensures
        forall|j: int| 0 <= j < 4 ==> #[trigger] row_cells(reverse_row(x))[j] == row_cells(x)[3 - j],
{
    let y = reverse_row(x);
    assert(y & 0xF == (x >> 12u64) & 0xF && (y >> 4u64) & 0xF == (x >> 8u64) & 0xF && (y >> 8u64)
        & 0xF == (x >> 4u64) & 0xF && (y >> 12u64) & 0xF == x & 0xF) by (bit_vector)
        requires
            y == reverse_row(x),
    ;
}

/// Cell `(r, c)` after every row of `b` slid toward its low end.
proof fn lemma_cell_of_moved_low(b: u64, r: u64, c: u64)
    requires
        r < 4,
        c < 4,
    ensures
        cell(moved_low(b), r, c) == slid_cells(row_at(b, r))[c as int],
{
    lemma_slide_row_bounded(row_at(b, 0));
    lemma_slide_row_bounded(row_at(b, 1));
    lemma_slide_row_bounded(row_at(b, 2));
    lemma_slide_row_bounded(row_at(b, 3));
    lemma_rows_of_pack(
        slide_row(row_at(b, 0)),
        slide_row(row_at(b, 1)),
        slide_row(row_at(b, 2)),
        slide_row(row_at(b, 3)),
    );
    lemma_cell_in_row(moved_low(b), r, c);
    lemma_cells_of_slide(row_at(b, r));
}

/// Cell `(r, c)` after every row of `b` slid toward its high end.
proof fn lemma_cell_of_moved_high(b: u64, r: u64, c: u64)
    requires
        r < 4,
        c < 4,
    ensures
        cell(moved_high(b), r, c) == slid_cells(reverse_row(row_at(b, r)))[3 - c],
{
    lemma_slide_row_bounded(row_at(b, 0));
    lemma_slide_row_bounded(row_at(b, 1));
    lemma_slide_row_bounded(row_at(b, 2));
    lemma_slide_row_bounded(row_at(b, 3));
    lemma_rows_of_pack(
        slide_row_high(row_at(b, 0)),
        slide_row_high(row_at(b, 1)),
        slide_row_high(row_at(b, 2)),
        slide_row_high(row_at(b, 3)),
    );
    lemma_cell_in_row(moved_high(b), r, c);
    let y = reverse_row(row_at(b, r));
    lemma_cells_of_reverse(slide_row(y));
    lemma_cells_of_slide(y);
    assert(row_cells(slide_row_high(row_at(b, r)))[c as int] == row_cells(slide_row(y))[3 - c]);
}

proof fn lemma_low_source(b: u64, r: u64, c: u64)
    requires
        r < 4,
        c < 4,
        cell(moved_low(b), r, c) != 0,
    ensures
        from_tiles_of(b, cell(moved_low(b), r, c)),
{
    let x = row_at(b, r);
    let v = cell(moved_low(b), r, c);
    lemma_cell_of_moved_low(b, r, c);
    lemma_slid_source(x, c as int);
    if exists|j: int| 0 <= j < 4 && #[trigger] row_cells(x)[j] == v {
        let j = choose|j: int| 0 <= j < 4 && #[trigger] row_cells(x)[j] == v;
        lemma_cell_in_row(b, r, j as u64);
        assert(cell(b, r, j as u64) == v);
    } else {
        let (j1, j2) = choose|j1: int, j2: int|
            0 <= j1 < j2 < 4 && #[trigger] row_cells(x)[j1] == #[trigger] row_cells(x)[j2] && bump(
                row_cells(x)[j1],
            ) == v;
        lemma_cell_in_row(b, r, j1 as u64);
        lemma_cell_in_row(b, r, j2 as u64);
        assert(cell(b, r, j1 as u64) == cell(b, r, j2 as u64) && bump(cell(b, r, j1 as u64)) == v);
    }
}

proof fn lemma_high_source(b: u64, r: u64, c: u64)
    requires
        r < 4,
        c < 4,
        cell(moved_high(b), r, c) != 0,
    ensures
        from_tiles_of(b, cell(moved_high(b), r, c)),
{
    let x = row_at(b, r);
    let y = reverse_row(x);
    let v = cell(moved_high(b), r, c);
    lemma_cell_of_moved_high(b, r, c);
    lemma_slid_source(y, 3 - c);
    lemma_cells_of_reverse(x);
    if exists|j: int| 0 <= j < 4 && #[trigger] row_cells(y)[j] == v {
        let j = choose|j: int| 0 <= j < 4 && #[trigger] row_cells(y)[j] == v;
        lemma_cell_in_row(b, r, (3 - j) as u64);
        assert(cell(b, r, (3 - j) as u64) == v);
    } else {
        let (j1, j2) = choose|j1: int, j2: int|
            0 <= j1 < j2 < 4 && #[trigger] row_cells(y)[j1] == #[trigger] row_cells(y)[j2] && bump(
                row_cells(y)[j1],
            ) == v;
        lemma_cell_in_row(b, r, (3 - j1) as u64);
        lemma_cell_in_row(b, r, (3 - j2) as u64);
        assert(cell(b, r, (3 - j1) as u64) == cell(b, r, (3 - j2) as u64) && bump(
            cell(b, r, (3 - j1) as u64),
        ) == v);
    }
}

proof fn lemma_source_of_transposed(b: u64, v: u64)
    requires
        from_tiles_of(transposed(b), v),
    ensures
        from_tiles_of(b, v),
{
    let t = transposed(b);
    if exists|r: u64, c: u64| r < 4 && c < 4 && #[trigger] cell(t, r, c) == v {
        let (r, c) = choose|r: u64, c: u64| r < 4 && c < 4 && #[trigger] cell(t, r, c) == v;
        lemma_transposed_cell(b, r, c);
        assert(cell(b, c, r) == v);
    } else {
        let (r1, c1, r2, c2) = choose|r1: u64, c1: u64, r2: u64, c2: u64|
            r1 < 4 && c1 < 4 && r2 < 4 && c2 < 4 && (r1 != r2 || c1 != c2) && #[trigger] cell(
                t,
                r1,
                c1,
            ) == #[trigger] cell(t, r2, c2) && bump(cell(t, r1, c1)) == v;
        lemma_transposed_cell(b, r1, c1);
        lemma_transposed_cell(b, r2, c2);
        assert(cell(b, c1, r1) == cell(b, c2, r2) && bump(cell(b, c1, r1)) == v);
    }
}

/// Every tile on the board after a move is a tile that was on the board
/// before it, or one more (held at 15) than two equal tiles that were: a
/// move makes no other tile.
pub proof fn lemma_move_makes_no_new_tile(b: u64, d: Direction, r: u64, c: u64)
    requires
        r < 4,
        c < 4,
        cell(moved(b, d), r, c) != 0,
    ensures
        from_tiles_of(b, cell(moved(b, d), r, c)),
{
    let t = transposed(b);
    match d {
        Direction::Right => lemma_low_source(b, r, c),
        Direction::Left => lemma_high_source(b, r, c),
        Direction::Down => {
            lemma_transposed_cell(moved_low(t), r, c);
            lemma_low_source(t, c, r);
            lemma_source_of_transposed(b, cell(moved(b, d), r, c));
        },
        Direction::Up => {
            lemma_transposed_cell(moved_high(t), r, c);
            lemma_high_source(t, c, r);
            lemma_source_of_transposed(b, cell(moved(b, d), r, c));
        },
    }
}

/// Whether sliding every row of `b` toward its low end merges two tiles
/// that are already at 15.
pub open spec fn low_merges_at_cap(b: u64) -> bool {
    merges_at_cap(tiles(row_cells(row_at(b, 0)))) || merges_at_cap(tiles(row_cells(row_at(b, 1))))
        || merges_at_cap(tiles(row_cells(row_at(b, 2)))) || merges_at_cap(
        tiles(row_cells(row_at(b, 3))),
    )
}

/// Whether sliding every row of `b` toward its high end merges two tiles
/// that are already at 15.
pub open spec fn high_merges_at_cap(b: u64) -> bool {
    merges_at_cap(tiles(row_cells(reverse_row(row_at(b, 0))))) || merges_at_cap(
        tiles(row_cells(reverse_row(row_at(b, 1)))),
    ) || merges_at_cap(tiles(row_cells(reverse_row(row_at(b, 2))))) || merges_at_cap(
        tiles(row_cells(reverse_row(row_at(b, 3)))),
    )
}

/// Whether moving `b` in direction `d` merges two tiles that are already at
/// 15: the one merge that leaves fewer points than the two tiles had.
pub open spec fn merges_at_cap_in(b: u64, d: Direction) -> bool {
    match d {
        Direction::Up => high_merges_at_cap(transposed(b)),
        Direction::Down => low_merges_at_cap(transposed(b)),
        Direction::Left => high_merges_at_cap(b),
        Direction::Right => low_merges_at_cap(b),
    }
}

proof fn lemma_slide_row_score(x: u64)
    requires
        !merges_at_cap(tiles(row_cells(x))),
    ensures
        row_score(slide_row(x)) >= row_score(x),
{
    lemma_slid_score(x);
    lemma_cells_of_slide(x);
    lemma_row_score_cells(slide_row(x));
}

proof fn lemma_reverse_row_score(x: u64)
    ensures
        row_score(reverse_row(x)) == row_score(x),
{
    lemma_cells_of_reverse(x);
    let y = reverse_row(x);
    assert(row_cells(y)[0] == row_cells(x)[3]);
    assert(row_cells(y)[1] == row_cells(x)[2]);
    assert(row_cells(y)[2] == row_cells(x)[1]);
    assert(row_cells(y)[3] == row_cells(x)[0]);
}

/// The points of a row of `b`, cell by cell.
proof fn lemma_row_score_of_board(b: u64, r: u64)
    requires
        r < 4,
    ensures
        row_score(row_at(b, r)) == cell_score(cell(b, r, 0)) + cell_score(cell(b, r, 1)) + cell_score(
            cell(b, r, 2),
        ) + cell_score(cell(b, r, 3)),
{
    lemma_cell_in_row(b, r, 0);
    lemma_cell_in_row(b, r, 1);
    lemma_cell_in_row(b, r, 2);
    lemma_cell_in_row(b, r, 3);
}

proof fn lemma_transposed_score(b: u64)
    ensures
        board_score(transposed(b)) == board_score(b),
{
    let t = transposed(b);
    lemma_row_score_of_board(b, 0);
    lemma_row_score_of_board(b, 1);
    lemma_row_score_of_board(b, 2);
    lemma_row_score_of_board(b, 3);
    lemma_row_score_of_board(t, 0);
    lemma_row_score_of_board(t, 1);
    lemma_row_score_of_board(t, 2);
    lemma_row_score_of_board(t, 3);
    assert forall|r: u64, c: u64| r < 4 && c < 4 implies #[trigger] cell(t, r, c) == cell(b, c, r) by {
        lemma_transposed_cell(b, r, c);
    }
    assert(cell(t, 0, 0) == cell(b, 0, 0) && cell(t, 0, 1) == cell(b, 1, 0) && cell(t, 0, 2) == cell(b, 2, 0) && cell(t, 0, 3) == cell(b, 3, 0));
    assert(cell(t, 1, 0) == cell(b, 0, 1) && cell(t, 1, 1) == cell(b, 1, 1) && cell(t, 1, 2) == cell(b, 2, 1) && cell(t, 1, 3) == cell(b, 3, 1));
    assert(cell(t, 2, 0) == cell(b, 0, 2) && cell(t, 2, 1) == cell(b, 1, 2) && cell(t, 2, 2) == cell(b, 2, 2) && cell(t, 2, 3) == cell(b, 3, 2));
    assert(cell(t, 3, 0) == cell(b, 0, 3) && cell(t, 3, 1) == cell(b, 1, 3) && cell(t, 3, 2) == cell(b, 2, 3) && cell(t, 3, 3) == cell(b, 3, 3));
}

proof fn lemma_low_score(b: u64)
    requires
        !low_merges_at_cap(b),
    ensures
        board_score(moved_low(b)) >= board_score(b),
{
    lemma_slide_row_bounded(row_at(b, 0));
    lemma_slide_row_bounded(row_at(b, 1));
    lemma_slide_row_bounded(row_at(b, 2));
    lemma_slide_row_bounded(row_at(b, 3));
    lemma_rows_of_pack(
        slide_row(row_at(b, 0)),
        slide_row(row_at(b, 1)),
        slide_row(row_at(b, 2)),
        slide_row(row_at(b, 3)),
    );
    lemma_slide_row_score(row_at(b, 0));
    lemma_slide_row_score(row_at(b, 1));
    lemma_slide_row_score(row_at(b, 2));
    lemma_slide_row_score(row_at(b, 3));
}

proof fn lemma_high_row_score(x: u64)
    requires
        !merges_at_cap(tiles(row_cells(reverse_row(x)))),
    ensures
        row_score(slide_row_high(x)) >= row_score(x),
{
    lemma_slide_row_score(reverse_row(x));
    lemma_reverse_row_score(x);
    lemma_reverse_row_score(slide_row(reverse_row(x)));
}

proof fn lemma_high_score(b: u64)
    requires
        !high_merges_at_cap(b),
    ensures
        board_score(moved_high(b)) >= board_score(b),
{
    lemma_slide_row_bounded(row_at(b, 0));
    lemma_slide_row_bounded(row_at(b, 1));
    lemma_slide_row_bounded(row_at(b, 2));
    lemma_slide_row_bounded(row_at(b, 3));
    lemma_rows_of_pack(
        slide_row_high(row_at(b, 0)),
        slide_row_high(row_at(b, 1)),
        slide_row_high(row_at(b, 2)),
        slide_row_high(row_at(b, 3)),
    );
    lemma_high_row_score(row_at(b, 0));
    lemma_high_row_score(row_at(b, 1));
    lemma_high_row_score(row_at(b, 2));
    lemma_high_row_score(row_at(b, 3));
}

/// A move does not lower the score, unless it merges two tiles that are
/// already at 15 (the one merge that gives one tile of 15 for two). The
/// score is a sum of points and is never negative.
pub proof fn lemma_move_does_not_lower_score(b: u64, d: Direction)
    requires
        !merges_at_cap_in(b, d),
    ensures
        board_score(moved(b, d)) >= board_score(b),
        board_score(b) >= 0,
{
    let t = transposed(b);
    match d {
        Direction::Right => lemma_low_score(b),
        Direction::Left => lemma_high_score(b),
        Direction::Down => {
            lemma_low_score(t);
            lemma_transposed_score(moved_low(t));
            lemma_transposed_score(b);
        },
        Direction::Up => {
            lemma_high_score(t);
            lemma_transposed_score(moved_high(t));
            lemma_transposed_score(b);
        },
    }
}

/// A board is made of its own four rows.
proof fn lemma_pack_own_rows(b: u64)
    ensures
        pack_rows(row_at(b, 0), row_at(b, 1), row_at(b, 2), row_at(b, 3)) == b,
{
    assert(pack_rows(row_at(b, 0), row_at(b, 1), row_at(b, 2), row_at(b, 3)) == b) by (bit_vector);
}

proof fn lemma_row_at_bounded(b: u64, k: u64)
    requires
        k < 4,
    ensures
        row_at(b, k) < 0x10000,
{
    assert(k < 4 ==> row_at(b, k) < 0x10000) by (bit_vector);
}

/// Some row that sliding toward the low end changes ends in an empty cell
/// `(k, 3)`.
proof fn lemma_low_frees_a_cell(b: u64) -> (k: u64)
    requires
        moved_low(b) != b,
    ensures
        k < 4,
        cell(moved_low(b), k, 3) == 0,
{
    lemma_pack_own_rows(b);
    let k: u64 = if slide_row(row_at(b, 0)) != row_at(b, 0) {
        0
    } else if slide_row(row_at(b, 1)) != row_at(b, 1) {
        1
    } else if slide_row(row_at(b, 2)) != row_at(b, 2) {
        2
    } else {
        3
    };
    lemma_row_at_bounded(b, k);
    lemma_changed_slide_frees_a_cell(row_at(b, k));
    lemma_cell_of_moved_low(b, k, 3);
    k
}

/// Some row that sliding toward the high end changes ends in an empty cell
/// `(k, 0)`.
proof fn lemma_high_frees_a_cell(b: u64) -> (k: u64)
    requires
        moved_high(b) != b,
    ensures
        k < 4,
        cell(moved_high(b), k, 0) == 0,
{
    lemma_pack_own_rows(b);
    let k: u64 = if slide_row_high(row_at(b, 0)) != row_at(b, 0) {
        0
    } else if slide_row_high(row_at(b, 1)) != row_at(b, 1) {
        1
    } else if slide_row_high(row_at(b, 2)) != row_at(b, 2) {
        2
    } else {
        3
    };
    let x = row_at(b, k);
    lemma_row_at_bounded(b, k);
    lemma_reverse_row_involution(x);
    lemma_changed_slide_frees_a_cell(reverse_row(x));
    lemma_cell_of_moved_high(b, k, 0);
    k
}

/// A move that changes the board leaves at least one empty cell, so a new
/// tile always has a place after it.
pub proof fn lemma_changing_move_frees_a_cell(b: u64, d: Direction)
    requires
        moved(b, d) != b,
    ensures
        empty_cells(moved(b, d)) > 0,
{
    let t = transposed(b);
    let m = moved(b, d);
    lemma_transpose_involution(b);
    let (r, c): (u64, u64) = match d {
        Direction::Right => (lemma_low_frees_a_cell(b), 3),
        Direction::Left => (lemma_high_frees_a_cell(b), 0),
        Direction::Down => {
            let k = lemma_low_frees_a_cell(t);
            lemma_transposed_cell(moved_low(t), 3, k);
            (3, k)
        },
        Direction::Up => {
            let k = lemma_high_frees_a_cell(t);
            lemma_transposed_cell(moved_high(t), 0, k);
            (0, k)
        },
    };
    lemma_nibble_is_cell(m, r, c);
    lemma_empty_below_some(m, (4 * r + c) as nat, 16);
}

/// Line `k` of `b` read in the direction of move `d`, as a 16-bit row whose
/// low nibble is the cell the tiles slide toward: row `k` for `Right`, row
/// `k` reversed for `Left`, column `k` from the low row up for `Down`, and
/// column `k` reversed for `Up`.
pub open spec fn line_toward(b: u64, d: Direction, k: u64) -> u64 {
    match d {
        Direction::Right => row_at(b, k),
        Direction::Left => reverse_row(row_at(b, k)),
        Direction::Down => row_at(transposed(b), k),
        Direction::Up => reverse_row(row_at(transposed(b), k)),
    }
}

/// The tiles of line `k` of `b`, read in the direction of move `d`.
pub open spec fn line_tiles(b: u64, d: Direction, k: u64) -> Seq<u64> {
    tiles(row_cells(line_toward(b, d, k)))
}

/// The points that the pairs merged in line `k` by move `d` gain.
pub open spec fn line_gain(b: u64, d: Direction, k: u64) -> nat {
    pairs_gain(merge_pairs(line_tiles(b, d, k)))
}

/// Each line after a move is its line before the move, slid toward the
/// low end of the reading.
proof fn lemma_line_after_move(b: u64, d: Direction, k: u64)
    requires
        k < 4,
    ensures
        line_toward(moved(b, d), d, k) == slide_row(line_toward(b, d, k)),
{
    let t = transposed(b);
    let o = line_toward(b, d, k);
    match d {
        Direction::Right => {
            lemma_slide_row_bounded(row_at(b, 0));
            lemma_slide_row_bounded(row_at(b, 1));
            lemma_slide_row_bounded(row_at(b, 2));
            lemma_slide_row_bounded(row_at(b, 3));
            lemma_rows_of_pack(
                slide_row(row_at(b, 0)),
                slide_row(row_at(b, 1)),
                slide_row(row_at(b, 2)),
                slide_row(row_at(b, 3)),
            );
        },
        Direction::Left => {
            lemma_slide_row_bounded(row_at(b, 0));
            lemma_slide_row_bounded(row_at(b, 1));
            lemma_slide_row_bounded(row_at(b, 2));
            lemma_slide_row_bounded(row_at(b, 3));
            lemma_rows_of_pack(
                slide_row_high(row_at(b, 0)),
                slide_row_high(row_at(b, 1)),
                slide_row_high(row_at(b, 2)),
                slide_row_high(row_at(b, 3)),
            );
            lemma_slide_row_bounded(o);
            lemma_reverse_row_involution(slide_row(o));
        },
        Direction::Down => {
            lemma_transpose_involution(moved_low(t));
            lemma_slide_row_bounded(row_at(t, 0));
            lemma_slide_row_bounded(row_at(t, 1));
            lemma_slide_row_bounded(row_at(t, 2));
            lemma_slide_row_bounded(row_at(t, 3));
            lemma_rows_of_pack(
                slide_row(row_at(t, 0)),
                slide_row(row_at(t, 1)),
                slide_row(row_at(t, 2)),
                slide_row(row_at(t, 3)),
            );
        },
        Direction::Up => {
            lemma_transpose_involution(moved_high(t));
            lemma_slide_row_bounded(row_at(t, 0));
            lemma_slide_row_bounded(row_at(t, 1));
            lemma_slide_row_bounded(row_at(t, 2));
            lemma_slide_row_bounded(row_at(t, 3));
            lemma_rows_of_pack(
                slide_row_high(row_at(t, 0)),
                slide_row_high(row_at(t, 1)),
                slide_row_high(row_at(t, 2)),
                slide_row_high(row_at(t, 3)),
            );
            lemma_slide_row_bounded(o);
            lemma_reverse_row_involution(slide_row(o));
        },
    }
}

/// The tiles of a line after a move are the line's tiles before it, merged.
proof fn lemma_line_tiles_after_move(b: u64, d: Direction, k: u64)
    requires
        k < 4,
    ensures
        line_tiles(moved(b, d), d, k) == merged(line_tiles(b, d, k)),
{
    let o = line_toward(b, d, k);
    lemma_line_after_move(b, d, k);
    lemma_cells_of_slide(o);
    lemma_row_cells_bounded(o);
    crate::row::lemma_tiles_bounded(row_cells(o));
    crate::row::lemma_merged_bounded(tiles(row_cells(o)));
    lemma_tiles_nonzero(row_cells(o));
    lemma_tiles_of_pad(merged(tiles(row_cells(o))));
}

/// Along the direction of a move, each line after it holds the tiles of
/// the line before it with some disjoint pairs of equal tiles each replaced
/// by one tile one higher (held at 15): as multisets, the tiles before are
/// the kept tiles and each pair twice, and the tiles after are the kept
/// tiles and each pair's merged tile. The line loses one tile per pair, and
/// where no tile of the line is at 15 the sum of `2^v` over its tiles stays
/// the same.
pub proof fn lemma_move_merges_disjoint_pairs(b: u64, d: Direction, k: u64)
    requires
        k < 4,
    ensures
        ({
            let s = line_tiles(b, d, k);
            let m = line_tiles(moved(b, d), d, k);
            &&& m == merged(s)
            &&& s.to_multiset() == merge_kept(s).to_multiset().add(merge_pairs(s).to_multiset()).add(
                merge_pairs(s).to_multiset(),
            )
            &&& m.to_multiset() == merge_kept(s).to_multiset().add(
                bumped(merge_pairs(s)).to_multiset(),
            )
            &&& m.len() + merge_pairs(s).len() == s.len()
            &&& (forall|j: int| 0 <= j < 4 ==> #[trigger] row_cells(line_toward(b, d, k))[j] < 15)
                ==> seq_mass(m) == seq_mass(s)
        }),
{
    let s = line_tiles(b, d, k);
    lemma_line_tiles_after_move(b, d, k);
    lemma_merge_parts(s);
    if forall|j: int| 0 <= j < 4 ==> #[trigger] row_cells(line_toward(b, d, k))[j] < 15 {
        lemma_tiles_below(row_cells(line_toward(b, d, k)), 15);
        lemma_merge_keeps_mass(s);
    }
}

/// The board's points are the points of its lines in any direction.
proof fn lemma_score_by_lines(b: u64, d: Direction)
    ensures
        board_score(b) == row_score(line_toward(b, d, 0)) + row_score(line_toward(b, d, 1))
            + row_score(line_toward(b, d, 2)) + row_score(line_toward(b, d, 3)),
{
    let t = transposed(b);
    match d {
        Direction::Right => {},
        Direction::Left => {
            lemma_reverse_row_score(row_at(b, 0));
            lemma_reverse_row_score(row_at(b, 1));
            lemma_reverse_row_score(row_at(b, 2));
            lemma_reverse_row_score(row_at(b, 3));
        },
        Direction::Down => {
            lemma_transposed_score(b);
        },
        Direction::Up => {
            lemma_transposed_score(b);
            lemma_reverse_row_score(row_at(t, 0));
            lemma_reverse_row_score(row_at(t, 1));
            lemma_reverse_row_score(row_at(t, 2));
            lemma_reverse_row_score(row_at(t, 3));
        },
    }
}

/// No cell of a line of `b` is at 15 where no cell of `b` is.
proof fn lemma_line_below_cap(b: u64, d: Direction, k: u64)
    requires
        k < 4,
        forall|r: u64, c: u64| r < 4 && c < 4 ==> #[trigger] cell(b, r, c) < 15,
    ensures
        forall|j: int| 0 <= j < 4 ==> #[trigger] row_cells(line_toward(b, d, k))[j] < 15,
{
    let t = transposed(b);
    assert forall|j: int| 0 <= j < 4 implies #[trigger] row_cells(line_toward(b, d, k))[j] < 15 by {
        match d {
            Direction::Right => {
                lemma_cell_in_row(b, k, j as u64);
            },
            Direction::Left => {
                lemma_cells_of_reverse(row_at(b, k));
                lemma_cell_in_row(b, k, (3 - j) as u64);
            },
            Direction::Down => {
                lemma_cell_in_row(t, k, j as u64);
                lemma_transposed_cell(b, k, j as u64);
            },
            Direction::Up => {
                lemma_cells_of_reverse(row_at(t, k));
                lemma_cell_in_row(t, k, (3 - j) as u64);
                lemma_transposed_cell(b, k, (3 - j) as u64);
            },
        }
    }
}

/// The points a line gains in a move, where none of its cells is at 15.
proof fn lemma_line_gain(b: u64, d: Direction, k: u64)
    requires
        k < 4,
        forall|j: int| 0 <= j < 4 ==> #[trigger] row_cells(line_toward(b, d, k))[j] < 15,
    ensures
        row_score(line_toward(moved(b, d), d, k)) == row_score(line_toward(b, d, k)) + line_gain(
            b,
            d,
            k,
        ),
        line_gain(b, d, k) == 0 <==> line_tiles(moved(b, d), d, k).len() == line_tiles(b, d, k).len(),
{
    let o = line_toward(b, d, k);
    let c = row_cells(o);
    let s = tiles(c);
    lemma_line_tiles_after_move(b, d, k);
    lemma_line_after_move(b, d, k);
    lemma_tiles_below(c, 15);
    lemma_tiles_nonzero(c);
    lemma_merge_gain(s);
    lemma_merge_parts(s);
    lemma_row_score_cells(o);
    lemma_tiles_score(c);
    lemma_row_cells_bounded(o);
    crate::row::lemma_tiles_bounded(c);
    crate::row::lemma_merged_bounded(s);
    lemma_pad_score(merged(s));
    lemma_cells_of_slide(o);
    lemma_row_score_cells(slide_row(o));
}

/// Where no cell of the board is at 15, a move adds to the score exactly
/// what its merged pairs gain, `2^(l + 2)` for two tiles of `l`; so the
/// score stays the same exactly when no line loses a tile, that is when
/// nothing merges.
pub proof fn lemma_move_score_gain(b: u64, d: Direction)
    requires
        forall|r: u64, c: u64| r < 4 && c < 4 ==> #[trigger] cell(b, r, c) < 15,
    ensures
        board_score(moved(b, d)) == board_score(b) + line_gain(b, d, 0) + line_gain(b, d, 1)
            + line_gain(b, d, 2) + line_gain(b, d, 3),
        board_score(moved(b, d)) == board_score(b) <==> (line_tiles(moved(b, d), d, 0).len()
            == line_tiles(b, d, 0).len() && line_tiles(moved(b, d), d, 1).len() == line_tiles(
            b,
            d,
            1,
        ).len() && line_tiles(moved(b, d), d, 2).len() == line_tiles(b, d, 2).len() && line_tiles(
            moved(b, d),
            d,
            3,
        ).len() == line_tiles(b, d, 3).len()),
{
    lemma_score_by_lines(b, d);
    lemma_score_by_lines(moved(b, d), d);
    lemma_line_below_cap(b, d, 0);
    lemma_line_below_cap(b, d, 1);
    lemma_line_below_cap(b, d, 2);
    lemma_line_below_cap(b, d, 3);
    lemma_line_gain(b, d, 0);
    lemma_line_gain(b, d, 1);
    lemma_line_gain(b, d, 2);
    lemma_line_gain(b, d, 3);
}

/// A move that changes nothing changes nothing when made again.
pub proof fn lemma_no_op_move_repeats(b: u64, d: Direction)
    requires
        moved(b, d) == b,
    ensures
        moved(moved(b, d), d) == b,
{
}

} // verus!
