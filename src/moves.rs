//! The lookup tables that turn each move into four table reads, and the
//! moves and score built on them.
use crate::board::{
    board_score, cell, column_of, moved_high, moved_low, pack_rows, row_at, transposed,
    lemma_transpose_formula, lemma_transpose_involution,
};
use crate::row::{
    lemma_reverse_row_involution, lemma_row_score_bounded, lemma_slide_row_bounded, reverse_row,
    row_score, score_of_row, slide_low, slide_row, slide_row_high,
};
use vstd::prelude::*;

verus! {

/// A direction in which the tiles of a board can be moved.
#[derive(Debug, Clone, Copy, PartialEq, Eq, Structural)]
pub enum Direction {
    Up,
    Down,
    Left,
    Right,
}

/// The board after moving its tiles in direction `d`: toward the high end of
/// each row for `Left`, the low end for `Right`, and the same on the columns
/// for `Up` and `Down`.
pub open spec fn moved(b: u64, d: Direction) -> u64 {
    match d {
        Direction::Up => transposed(moved_high(transposed(b))),
        Direction::Down => transposed(moved_low(transposed(b))),
        Direction::Left => moved_high(b),
        Direction::Right => moved_low(b),
    }
}

/// For every 16-bit row, the change each move makes to it, and its points.
///
/// `left` and `right` hold, at index `x`, the XOR of row `x` with its slid
/// form. `up` and `down` hold the same spread over a column, ready to be
/// XORed into a board at a column's offset. `scores` holds a row's points.
pub struct Moves {
    pub up: Vec<u64>,
    pub down: Vec<u64>,
    pub left: Vec<u64>,
    pub right: Vec<u64>,
    pub scores: Vec<u64>,
}

proof fn lemma_row_at_bounded(b: u64)
    ensures
        row_at(b, 0) == b & 0xFFFF,
        row_at(b, 1) == (b >> 16u64) & 0xFFFF,
        row_at(b, 2) == (b >> 32u64) & 0xFFFF,
        row_at(b, 3) == (b >> 48u64) & 0xFFFF,
        b & 0xFFFF < 0x10000,
        (b >> 16u64) & 0xFFFF < 0x10000,
        (b >> 32u64) & 0xFFFF < 0x10000,
        (b >> 48u64) & 0xFFFF < 0x10000,
{
    assert(row_at(b, 0) == b & 0xFFFF && row_at(b, 1) == (b >> 16u64) & 0xFFFF && row_at(b, 2) == (
    b >> 32u64) & 0xFFFF && row_at(b, 3) == (b >> 48u64) & 0xFFFF) by (bit_vector);
    assert(b & 0xFFFF < 0x10000 && (b >> 16u64) & 0xFFFF < 0x10000 && (b >> 32u64) & 0xFFFF
        < 0x10000 && (b >> 48u64) & 0xFFFF < 0x10000) by (bit_vector);
}

/// XORing each row's delta into the board at the row's offset gives the
/// board of the new rows.
proof fn lemma_row_deltas(b: u64, a0: u64, a1: u64, a2: u64, a3: u64)
    requires
        a0 < 0x10000,
        a1 < 0x10000,
        a2 < 0x10000,
        a3 < 0x10000,
    ensures
        b ^ (row_at(b, 0) ^ a0) ^ ((row_at(b, 1) ^ a1) << 16u64) ^ ((row_at(b, 2) ^ a2) << 32u64)
            ^ ((row_at(b, 3) ^ a3) << 48u64) == pack_rows(a0, a1, a2, a3),
{
    assert(a0 < 0x10000 && a1 < 0x10000 && a2 < 0x10000 && a3 < 0x10000 ==> b ^ (row_at(b, 0)
        ^ a0) ^ ((row_at(b, 1) ^ a1) << 16u64) ^ ((row_at(b, 2) ^ a2) << 32u64) ^ ((row_at(b, 3)
        ^ a3) << 48u64) == pack_rows(a0, a1, a2, a3)) by (bit_vector);
}

/// XORing each column delta of the transposed board `t` into `t`'s
/// transpose, at the column's offset, gives the transpose of the board of
/// the new rows.
proof fn lemma_column_deltas(t: u64, a0: u64, a1: u64, a2: u64, a3: u64)
    requires
        a0 < 0x10000,
        a1 < 0x10000,
        a2 < 0x10000,
        a3 < 0x10000,
    ensures
        transposed(t) ^ (column_of(row_at(t, 0)) ^ column_of(a0)) ^ ((column_of(row_at(t, 1))
            ^ column_of(a1)) << 4u64) ^ ((column_of(row_at(t, 2)) ^ column_of(a2)) << 8u64) ^ ((
        column_of(row_at(t, 3)) ^ column_of(a3)) << 12u64) == transposed(pack_rows(a0, a1, a2, a3)),
{
    assert(a0 < 0x10000 && a1 < 0x10000 && a2 < 0x10000 && a3 < 0x10000 ==> transposed(t) ^ (
    column_of(row_at(t, 0)) ^ column_of(a0)) ^ ((column_of(row_at(t, 1)) ^ column_of(a1))
        << 4u64) ^ ((column_of(row_at(t, 2)) ^ column_of(a2)) << 8u64) ^ ((column_of(row_at(t, 3))
        ^ column_of(a3)) << 12u64) == transposed(pack_rows(a0, a1, a2, a3))) by (bit_vector);
}

impl Moves {
    /// Each table has an entry for every 16-bit row, and each entry is the
    /// one its row calls for.
    pub open spec fn wf(&self) -> bool {
        &&& self.up@.len() == 0x10000
        &&& self.down@.len() == 0x10000
        &&& self.left@.len() == 0x10000
        &&& self.right@.len() == 0x10000
        &&& self.scores@.len() == 0x10000
        &&& forall|x: int|
            0 <= x < 0x10000 ==> #[trigger] self.right@[x] == (x as u64) ^ slide_row(x as u64)
        &&& forall|x: int|
            0 <= x < 0x10000 ==> #[trigger] self.left@[x] == (x as u64) ^ slide_row_high(x as u64)
        &&& forall|x: int|
            0 <= x < 0x10000 ==> #[trigger] self.down@[x] == column_of(x as u64) ^ column_of(
                slide_row(x as u64),
            )
        &&& forall|x: int|
            0 <= x < 0x10000 ==> #[trigger] self.up@[x] == column_of(x as u64) ^ column_of(
                slide_row_high(x as u64),
            )
        &&& forall|x: int| 0 <= x < 0x10000 ==> #[trigger] self.scores@[x] == row_score(x as u64)
    }

    /// Builds every table by sliding each of the 65536 rows once.
    pub fn new() -> (r: Moves)
        ensures
            r.wf(),
    {
        let mut up: Vec<u64> = vec![0; 65536];
        let mut down: Vec<u64> = vec![0; 65536];
        let mut left: Vec<u64> = vec![0; 65536];
        let mut right: Vec<u64> = vec![0; 65536];
        let mut scores: Vec<u64> = vec![0; 65536];

        let mut row: u64 = 0;
        while row < 0x10000
            invariant
                row <= 0x10000,
                up@.len() == 0x10000,
                down@.len() == 0x10000,
                left@.len() == 0x10000,
                right@.len() == 0x10000,
                scores@.len() == 0x10000,
                forall|x: int| 0 <= x < row ==> #[trigger] right@[x] == (x as u64) ^ slide_row(x as u64),
                forall|x: int|
                    0 <= x < row ==> #[trigger] down@[x] == column_of(x as u64) ^ column_of(
                        slide_row(x as u64),
                    ),
                forall|x: int| 0 <= x < row ==> #[trigger] scores@[x] == row_score(x as u64),
                forall|x: u64|
                    x < row ==> left@[#[trigger] reverse_row(x) as int] == reverse_row(x)
                        ^ reverse_row(slide_row(x)),
                forall|x: u64|
                    x < row ==> up@[#[trigger] reverse_row(x) as int] == column_of(reverse_row(x))
                        ^ column_of(reverse_row(slide_row(x))),
            decreases 0x10000 - row,
        {
            let s = score_of_row(row);
            let result = slide_low(row);

            let rev_row = (row >> 12) & 0x000F | (row >> 4) & 0x00F0 | (row << 4) & 0x0F00 | (row
                << 12) & 0xF000;
            let rev_res = (result >> 12) & 0x000F | (result >> 4) & 0x00F0 | (result << 4) & 0x0F00
                | (result << 12) & 0xF000;
            proof {
                lemma_reverse_row_involution(row);
            }

            let row_idx = row as usize;
            let rev_idx = rev_row as usize;

            scores.set(row_idx, s);
            right.set(row_idx, row ^ result);
            left.set(rev_idx, rev_row ^ rev_res);
            up.set(rev_idx, Self::column_from(rev_row) ^ Self::column_from(rev_res));
            down.set(row_idx, Self::column_from(row) ^ Self::column_from(result));

            proof {
                assert forall|x: u64| x < row + 1 implies left@[#[trigger] reverse_row(x) as int]
                    == reverse_row(x) ^ reverse_row(slide_row(x)) && up@[reverse_row(x) as int]
                    == column_of(reverse_row(x)) ^ column_of(reverse_row(slide_row(x))) by {
                    if x < row {
                        lemma_reverse_row_involution(x);
                    }
                }
            }
            row += 1;
        }
        proof {
            assert forall|x: int| 0 <= x < 0x10000 implies #[trigger] left@[x] == (x as u64)
                ^ slide_row_high(x as u64) && up@[x] == column_of(x as u64) ^ column_of(
                slide_row_high(x as u64),
            ) by {
                let y = reverse_row(x as u64);
                lemma_reverse_row_involution(x as u64);
                assert(left@[reverse_row(y) as int] == reverse_row(y) ^ reverse_row(slide_row(y)));
            }
            assert forall|x: int| 0 <= x < 0x10000 implies #[trigger] up@[x] == column_of(x as u64)
                ^ column_of(slide_row_high(x as u64)) by {
                assert(left@[x] == (x as u64) ^ slide_row_high(x as u64));
            }
        }
        Moves { up, down, left, right, scores }
    }

    /// Moves every column toward the top (the high rows), merging equal tiles.
    pub fn up(&self, board: u64) -> (r: u64)
        requires
            self.wf(),
        ensures
            r == moved(board, Direction::Up),
    {
        let transposed = Self::transpose(board);
        proof {
            lemma_row_at_bounded(transposed);
            lemma_transpose_involution(board);
            lemma_slide_row_bounded(row_at(transposed, 0));
            lemma_slide_row_bounded(row_at(transposed, 1));
            lemma_slide_row_bounded(row_at(transposed, 2));
            lemma_slide_row_bounded(row_at(transposed, 3));
            lemma_column_deltas(
                transposed,
                slide_row_high(row_at(transposed, 0)),
                slide_row_high(row_at(transposed, 1)),
                slide_row_high(row_at(transposed, 2)),
                slide_row_high(row_at(transposed, 3)),
            );
        }
        let mut result = board;

        result ^= self.up[(transposed & crate::ROW_MASK) as usize];
        result ^= self.up[((transposed >> 16) & crate::ROW_MASK) as usize] << 4;
        result ^= self.up[((transposed >> 32) & crate::ROW_MASK) as usize] << 8;
        result ^= self.up[((transposed >> 48) & crate::ROW_MASK) as usize] << 12;

        result
    }

    /// Moves every column toward the bottom (the low rows), merging equal tiles.
    pub fn down(&self, board: u64) -> (r: u64)
        requires
            self.wf(),
        ensures
            r == moved(board, Direction::Down),
    {
        let transposed = Self::transpose(board);
        proof {
            lemma_row_at_bounded(transposed);
            lemma_transpose_involution(board);
            lemma_slide_row_bounded(row_at(transposed, 0));
            lemma_slide_row_bounded(row_at(transposed, 1));
            lemma_slide_row_bounded(row_at(transposed, 2));
            lemma_slide_row_bounded(row_at(transposed, 3));
            lemma_column_deltas(
                transposed,
                slide_row(row_at(transposed, 0)),
                slide_row(row_at(transposed, 1)),
                slide_row(row_at(transposed, 2)),
                slide_row(row_at(transposed, 3)),
            );
        }
        let mut result = board;

        result ^= self.down[(transposed & crate::ROW_MASK) as usize];
        result ^= self.down[((transposed >> 16) & crate::ROW_MASK) as usize] << 4;
        result ^= self.down[((transposed >> 32) & crate::ROW_MASK) as usize] << 8;
        result ^= self.down[((transposed >> 48) & crate::ROW_MASK) as usize] << 12;

        result
    }

    /// Moves every row toward the left (the high nibbles), merging equal tiles.
    pub fn left(&self, board: u64) -> (r: u64)
        requires
            self.wf(),
        ensures
            r == moved(board, Direction::Left),
    {
        proof {
            lemma_row_at_bounded(board);
            lemma_slide_row_bounded(row_at(board, 0));
            lemma_slide_row_bounded(row_at(board, 1));
            lemma_slide_row_bounded(row_at(board, 2));
            lemma_slide_row_bounded(row_at(board, 3));
            lemma_row_deltas(
                board,
                slide_row_high(row_at(board, 0)),
                slide_row_high(row_at(board, 1)),
                slide_row_high(row_at(board, 2)),
                slide_row_high(row_at(board, 3)),
            );
        }
        let mut result = board;

        result ^= self.left[(board & crate::ROW_MASK) as usize];
        result ^= self.left[((board >> 16) & crate::ROW_MASK) as usize] << 16;
        result ^= self.left[((board >> 32) & crate::ROW_MASK) as usize] << 32;
        result ^= self.left[((board >> 48) & crate::ROW_MASK) as usize] << 48;

        result
    }

    /// Moves every row toward the right (the low nibbles), merging equal tiles.
    pub fn right(&self, board: u64) -> (r: u64)
        requires
            self.wf(),
        ensures
            r == moved(board, Direction::Right),
    {
        proof {
            lemma_row_at_bounded(board);
            lemma_slide_row_bounded(row_at(board, 0));
            lemma_slide_row_bounded(row_at(board, 1));
            lemma_slide_row_bounded(row_at(board, 2));
            lemma_slide_row_bounded(row_at(board, 3));
            lemma_row_deltas(
                board,
                slide_row(row_at(board, 0)),
                slide_row(row_at(board, 1)),
                slide_row(row_at(board, 2)),
                slide_row(row_at(board, 3)),
            );
        }
        let mut result = board;

        result ^= self.right[(board & crate::ROW_MASK) as usize];
        result ^= self.right[((board >> 16) & crate::ROW_MASK) as usize] << 16;
        result ^= self.right[((board >> 32) & crate::ROW_MASK) as usize] << 32;
        result ^= self.right[((board >> 48) & crate::ROW_MASK) as usize] << 48;

        result
    }

    /// Returns the board after a move in direction `d`.
    pub fn apply(&self, board: u64, d: Direction) -> (r: u64)
        requires
            self.wf(),
        ensures
            r == moved(board, d),
    {
        match d {
            Direction::Up => self.up(board),
            Direction::Down => self.down(board),
            Direction::Left => self.left(board),
            Direction::Right => self.right(board),
        }
    }

    /// Returns the points of all tiles on the board.
    pub fn get_score(&self, board: &u64) -> (r: u64)
        requires
            self.wf(),
        ensures
            r == board_score(*board),
    {
        let table = &self.scores;
        let board = *board;
        proof {
            lemma_row_at_bounded(board);
            lemma_row_score_bounded(row_at(board, 0));
            lemma_row_score_bounded(row_at(board, 1));
            lemma_row_score_bounded(row_at(board, 2));
            lemma_row_score_bounded(row_at(board, 3));
        }

        table[(board & crate::ROW_MASK) as usize] + table[(board >> 16 & crate::ROW_MASK) as usize]
            + table[(board >> 32 & crate::ROW_MASK) as usize] + table[(board >> 48
            & crate::ROW_MASK) as usize]
    }

    /// Returns `b` with rows and columns exchanged.
    pub fn transpose(b: u64) -> (r: u64)
        ensures
            r == transposed(b),
            forall|i: u64, j: u64| i < 4 && j < 4 ==> #[trigger] cell(r, i, j) == cell(b, j, i),
    {
        let a1 = b & 0xF0F0_0F0F_F0F0_0F0F_u64;
        let a2 = b & 0x0000_F0F0_0000_F0F0_u64;
        let a3 = b & 0x0F0F_0000_0F0F_0000_u64;

        let a = a1 | (a2 << 12) | (a3 >> 12);

        let b1 = a & 0xFF00_FF00_00FF_00FF_u64;
        let b2 = a & 0x00FF_00FF_0000_0000_u64;
        let b3 = a & 0x0000_0000_FF00_FF00_u64;

        let r = b1 | (b2 >> 24) | (b3 << 24);
        proof {
            lemma_transpose_formula(b);
            assert forall|i: u64, j: u64| i < 4 && j < 4 implies #[trigger] cell(r, i, j) == cell(
                b,
                j,
                i,
            ) by {
                crate::board::lemma_transposed_cell(b, i, j);
            }
        }
        r
    }

    /// Returns the cells of a 16-bit row spread over one column of a board.
    fn column_from(x: u64) -> (r: u64)
        ensures
            r == column_of(x),
    {
        (x | (x << 12) | (x << 24) | (x << 36)) & crate::COL_MASK
    }
}

} // verus!
