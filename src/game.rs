//! A game in progress: the board, its score, and the tiles that appear after
//! each move.
use crate::board::{board_score, cell, empty_below, empty_cells, lemma_empty_below_some, nibble};
use crate::move_facts::lemma_changing_move_frees_a_cell;
use crate::moves::{moved, Direction, Moves};
use rand::Rng;
use vstd::arithmetic::power2::{lemma2_to64, lemma2_to64_rest, pow2};
use vstd::bits::lemma_u64_shl_is_mul;
use vstd::prelude::*;

verus! {

/// The chance, in percent, that a new tile has exponent 2 rather than 1.
pub const TWO_TILE_PERCENT: u32 = 10;

/// Relies on `rand::Rng::gen_range` over `rand::thread_rng`: a value in
/// `0..n`. It panics on an empty range, hence `n > 0`.
#[verifier::external_body]
fn random_below(n: u32) -> (r: u32)
    requires
        n > 0,
    ensures
        r < n,
{
    rand::thread_rng().gen_range(0..n)
}

/// `b` with a tile of exponent `t` set into cell number `p`.
pub open spec fn with_tile(b: u64, p: nat, t: u64) -> u64 {
    b | (t << (4 * p) as u64)
}

/// `after` is `before` with one new tile, of exponent 1 or 2, in a cell
/// that was empty.
pub open spec fn one_tile_added(before: u64, after: u64) -> bool {
    exists|p: nat, t: u64|
        p < 16 && (t == 1 || t == 2) && nibble(before, p) == 0 && after == #[trigger] with_tile(
            before,
            p,
            t,
        )
}

/// `after` is `before` with two new tiles, one after the other.
pub open spec fn two_tiles_added(before: u64, after: u64) -> bool {
    exists|mid: u64| #[trigger] one_tile_added(before, mid) && one_tile_added(mid, after)
}

proof fn lemma_empty_cells_zero()
    ensures
        empty_cells(0) == 16,
{
    assert forall|q: nat| q < 16 implies #[trigger] nibble(0, q) == 0 by {
        let s = (4 * q) as u64;
        assert((0u64 >> s) & 0xF == 0) by (bit_vector);
    }
    reveal_with_fuel(empty_below, 17);
}

proof fn lemma_empty_below_all(b: u64, n: nat)
    ensures
        empty_below(b, n) <= n,
        empty_below(b, n) == n ==> forall|q: nat| q < n ==> #[trigger] nibble(b, q) == 0,
    decreases n,
{
    if n > 0 {
        lemma_empty_below_all(b, (n - 1) as nat);
    }
}

/// A board whose sixteen cells are all empty is zero, and a tile added to
/// it leaves an empty cell.
proof fn lemma_fresh_board(b: u64, mid: u64)
    requires
        empty_cells(b) == 16,
        one_tile_added(b, mid),
    ensures
        b == 0,
        empty_cells(mid) > 0,
{
    lemma_empty_below_all(b, 16);
    assert(nibble(b, 0) == 0 && nibble(b, 1) == 0 && nibble(b, 2) == 0 && nibble(b, 3) == 0);
    assert(nibble(b, 4) == 0 && nibble(b, 5) == 0 && nibble(b, 6) == 0 && nibble(b, 7) == 0);
    assert(nibble(b, 8) == 0 && nibble(b, 9) == 0 && nibble(b, 10) == 0 && nibble(b, 11) == 0);
    assert(nibble(b, 12) == 0 && nibble(b, 13) == 0 && nibble(b, 14) == 0 && nibble(b, 15) == 0);
    assert(((b >> 0u64) & 0xF == 0 && (b >> 4u64) & 0xF == 0 && (b >> 8u64) & 0xF == 0 && (b
        >> 12u64) & 0xF == 0 && (b >> 16u64) & 0xF == 0 && (b >> 20u64) & 0xF == 0 && (b >> 24u64)
        & 0xF == 0 && (b >> 28u64) & 0xF == 0 && (b >> 32u64) & 0xF == 0 && (b >> 36u64) & 0xF
        == 0 && (b >> 40u64) & 0xF == 0 && (b >> 44u64) & 0xF == 0 && (b >> 48u64) & 0xF == 0 && (b
        >> 52u64) & 0xF == 0 && (b >> 56u64) & 0xF == 0 && (b >> 60u64) & 0xF == 0) ==> b == 0)
        by (bit_vector);
    let (p, t) = choose|p: nat, t: u64|
        p < 16 && (t == 1 || t == 2) && nibble(b, p) == 0 && mid == #[trigger] with_tile(b, p, t);
    let q: nat = if p == 0 {
        1
    } else {
        0
    };
    let sp = (4 * p) as u64;
    let sq = (4 * q) as u64;
    assert(sp < 64 && sq < 64 && sp != sq && sp % 4 == 0 && sq % 4 == 0 && t <= 2 ==> ((0u64 | (t
        << sp)) >> sq) & 0xF == 0) by (bit_vector);
    lemma_empty_below_some(mid, q, 16);
}

/// Returns the exponent of a new tile for a roll in `0..100`: 2 when the
/// roll falls under `two_percent`, else 1.
pub fn tile_for_roll(roll: u32, two_percent: u32) -> (r: u64)
    ensures
        r == if roll < two_percent {
            2u64
        } else {
            1u64
        },
{
    if roll < two_percent {
        2
    } else {
        1
    }
}

/// Returns `board` with a tile of exponent `tile` in its empty cell number
/// `idx`, counting empty cells from the lowest nibble.
pub fn place_tile(board: u64, idx: u32, tile: u64) -> (r: u64)
    requires
        idx < empty_cells(board),
    ensures
        exists|p: nat|
            p < 16 && nibble(board, p) == 0 && #[trigger] empty_below(board, p) == idx && r
                == with_tile(board, p, tile),
{
    let mut p: u64 = 0;
    let mut k: u32 = 0;
    while p < 16
        invariant
            p <= 16,
            k == empty_below(board, p as nat),
            k <= idx,
        decreases 16 - p,
    {
        if (board >> (4 * p)) & 0xF == 0 {
            if k == idx {
                assert(nibble(board, p as nat) == 0);
                return board | (tile << (4 * p));
            }
            k += 1;
        }
        p += 1;
    }
    proof {
        assert(false);
    }
    board
}

/// Returns the value of a tile of exponent `val`: `2^val`, and 0 for an
/// empty cell.
pub fn get_tile(val: u8) -> (r: u64)
    requires
        val < 64,
    ensures
        r == if val == 0 {
            0
        } else {
            pow2(val as nat)
        },
{
    proof {
        lemma2_to64();
    }
    match val {
        0 => 0,
        1 => 2,
        x => {
            proof {
                lemma2_to64_rest();
                vstd::arithmetic::power2::lemma_pow2_strictly_increases(x as nat, 64);
                lemma_u64_shl_is_mul(1, x as u64);
            }
            1u64 << (x as u64)
        },
    }
}

/// Returns the exponent in row `r`, column `c` of `board`.
fn cell_value(board: u64, r: u64, c: u64) -> (v: u8)
    requires
        r < 4,
        c < 4,
    ensures
        v as u64 == cell(board, r, c),
{
    assert((board >> (16 * r + 4 * c)) & 0xF < 16) by (bit_vector);
    ((board >> (16 * r + 4 * c)) & 0xF) as u8
}

/// Returns the number of empty cells of `board`.
pub fn empty_count(board: u64) -> (r: u32)
    ensures
        r == empty_cells(board),
        r <= 16,
{
    let mut empty: u32 = 0;
    let mut i: u64 = 0;
    while i < 16
        invariant
            i <= 16,
            empty == empty_below(board, i as nat),
            empty <= i,
        decreases 16 - i,
    {
        if (board >> (4 * i)) & 0xF == 0 {
            empty += 1;
        }
        i += 1;
    }
    empty
}

/// A game: the board, the score of the board after the last accepted move,
/// and the tables that moves are made with.
pub struct Game {
    board: u64,
    score: u64,
    moves: Moves,
    two_percent: u32,
}

impl Game {
    /// The tables are complete and the spawn weight is a percentage.
    #[verifier::type_invariant]
    spec fn wf(&self) -> bool {
        self.moves.wf() && self.two_percent <= 100
    }

    /// The board.
    pub closed spec fn spec_board(&self) -> u64 {
        self.board
    }

    /// The score.
    pub closed spec fn spec_score(&self) -> u64 {
        self.score
    }

    /// The chance, in percent, that a new tile has exponent 2.
    pub closed spec fn spec_two_percent(&self) -> u32 {
        self.two_percent
    }

    /// Draws a tile exponent: 2 with the game's chance, else 1.
    fn random_tile(&self) -> (r: u64)
        ensures
            r == 1 || r == 2,
    {
        tile_for_roll(random_below(100), self.two_percent)
    }

    /// Adds a tile of exponent 1 or 2 to an empty cell picked at random.
    fn spawn_tile(&mut self)
        requires
            empty_cells(old(self).spec_board()) > 0,
        ensures
            one_tile_added(old(self).spec_board(), final(self).spec_board()),
            final(self).spec_score() == old(self).spec_score(),
            final(self).spec_two_percent() == old(self).spec_two_percent(),
    {
        proof {
            use_type_invariant(&*self);
        }
        let empty = self.count_empty();
        let idx = random_below(empty);
        let t = self.random_tile();
        self.board = place_tile(self.board, idx, t);
    }

    /// Puts two tiles on an empty board, and takes the score of the board.
    fn init(&mut self)
        ensures
            empty_cells(old(self).spec_board()) == 16 ==> two_tiles_added(
                old(self).spec_board(),
                final(self).spec_board(),
            ),
            empty_cells(old(self).spec_board()) != 16 ==> final(self).spec_board() == old(
                self,
            ).spec_board(),
            final(self).spec_score() == board_score(final(self).spec_board()),
            final(self).spec_two_percent() == old(self).spec_two_percent(),
    {
        if self.count_empty() == 16 {
            let ghost before = self.board;
            self.spawn_tile();
            let ghost mid = self.board;
            proof {
                lemma_fresh_board(before, mid);
            }
            self.spawn_tile();
        }
        proof {
            use_type_invariant(&*self);
        }
        self.score = self.moves.get_score(&self.board);
    }

    /// Starts a game on `board` with tables built beforehand, so that
    /// several games can be started from one build; an empty board gets two
    /// tiles.
    pub fn with_tables(moves: Moves, board: u64) -> (r: Game)
        requires
            moves.wf(),
        ensures
            empty_cells(board) == 16 ==> two_tiles_added(board, r.spec_board()),
            empty_cells(board) != 16 ==> r.spec_board() == board,
            r.spec_score() == board_score(r.spec_board()),
            r.spec_two_percent() == TWO_TILE_PERCENT,
    {
        let mut game = Game { board, score: 0, moves, two_percent: TWO_TILE_PERCENT };

        game.init();

        game
    }

    /// Starts a game on an empty board, with two tiles added.
    pub fn new() -> (r: Game)
        ensures
            two_tiles_added(0, r.spec_board()),
            r.spec_score() == board_score(r.spec_board()),
            r.spec_two_percent() == TWO_TILE_PERCENT,
    {
        proof {
            lemma_empty_cells_zero();
        }
        Game::with_tables(Moves::new(), 0x0000_0000_0000_0000_u64)
    }

    /// Starts a game on `board`; an empty board gets two tiles.
    pub fn with_board(board: u64) -> (r: Game)
        ensures
            empty_cells(board) == 16 ==> two_tiles_added(board, r.spec_board()),
            empty_cells(board) != 16 ==> r.spec_board() == board,
            r.spec_score() == board_score(r.spec_board()),
            r.spec_two_percent() == TWO_TILE_PERCENT,
    {
        Game::with_tables(Moves::new(), board)
    }

    /// Moves the tiles in `direction`. A move that changes the board takes the
    /// score of the moved board and then adds a tile; a move that changes
    /// nothing leaves the game as it was.
    pub fn execute(&mut self, direction: Direction)
        ensures
            moved(old(self).spec_board(), direction) == old(self).spec_board() ==> final(self).spec_board()
                == old(self).spec_board() && final(self).spec_score() == old(self).spec_score(),
            moved(old(self).spec_board(), direction) != old(self).spec_board() ==> {
                let m = moved(old(self).spec_board(), direction);
                &&& final(self).spec_score() == board_score(m)
                &&& one_tile_added(m, final(self).spec_board())
            },
            final(self).spec_two_percent() == old(self).spec_two_percent(),
    {
        proof {
            use_type_invariant(&*self);
        }
        let board = self.board;
        let result_board = match direction {
            Direction::Up => self.moves.up(board),
            Direction::Down => self.moves.down(board),
            Direction::Left => self.moves.left(board),
            Direction::Right => self.moves.right(board),
        };

        if board != result_board {
            self.board = result_board;
            self.score = self.moves.get_score(&self.board);
            proof {
                lemma_changing_move_frees_a_cell(board, direction);
            }
            self.spawn_tile();
        }
    }

    /// Empties the board and starts over with two new tiles.
    pub fn restart(&mut self)
        ensures
            two_tiles_added(0, final(self).spec_board()),
            final(self).spec_score() == board_score(final(self).spec_board()),
            final(self).spec_two_percent() == old(self).spec_two_percent(),
    {
        proof {
            use_type_invariant(&*self);
        }
        self.board = 0x0000_0000_0000_0000_u64;
        proof {
            lemma_empty_cells_zero();
        }
        self.init();
    }

    /// Sets the chance, in percent, that a new tile has exponent 2.
    pub fn set_two_percent(&mut self, percent: u32)
        requires
            percent <= 100,
        ensures
            final(self).spec_two_percent() == percent,
            final(self).spec_board() == old(self).spec_board(),
            final(self).spec_score() == old(self).spec_score(),
    {
        proof {
            use_type_invariant(&*self);
        }
        self.two_percent = percent;
    }

    /// The score of the board after the last accepted move.
    pub fn score(&self) -> (r: u64)
        ensures
            r == self.spec_score(),
    {
        self.score
    }

    /// Whether no move is left: no cell is empty and no direction changes
    /// the board.
    pub fn game_over(&self) -> (r: bool)
        ensures
            r == (empty_cells(self.spec_board()) == 0 && moved(self.spec_board(), Direction::Up)
                == self.spec_board() && moved(self.spec_board(), Direction::Down)
                == self.spec_board() && moved(self.spec_board(), Direction::Left)
                == self.spec_board() && moved(self.spec_board(), Direction::Right)
                == self.spec_board()),
    {
        proof {
            use_type_invariant(self);
        }
        if self.count_empty() > 0 {
            return false;
        }

        if self.moves.up(self.board) != self.board {
            return false;
        }

        if self.moves.down(self.board) != self.board {
            return false;
        }

        if self.moves.left(self.board) != self.board {
            return false;
        }

        if self.moves.right(self.board) != self.board {
            return false;
        }

        true
    }

    /// The board.
    pub fn board(&self) -> (r: u64)
        ensures
            r == self.spec_board(),
    {
        self.board
    }

    /// The board as a grid of exponents, top row first and each row from the
    /// left: entry `[i][j]` is cell `(3 - i, 3 - j)`.
    pub fn grid(&self) -> (r: [[u8; 4]; 4])
        ensures
            forall|i: int, j: int|
                0 <= i < 4 && 0 <= j < 4 ==> r@[i]@[j] as u64 == cell(
                    self.spec_board(),
                    (3 - i) as u64,
                    (3 - j) as u64,
                ),
    {
        let b = self.board;
        [
            [cell_value(b, 3, 3), cell_value(b, 3, 2), cell_value(b, 3, 1), cell_value(b, 3, 0)],
            [cell_value(b, 2, 3), cell_value(b, 2, 2), cell_value(b, 2, 1), cell_value(b, 2, 0)],
            [cell_value(b, 1, 3), cell_value(b, 1, 2), cell_value(b, 1, 1), cell_value(b, 1, 0)],
            [cell_value(b, 0, 3), cell_value(b, 0, 2), cell_value(b, 0, 1), cell_value(b, 0, 0)],
        ]
    }

    /// Returns the number of empty cells.
    pub fn count_empty(&self) -> (r: u32)
        ensures
            r == empty_cells(self.spec_board()),
            r <= 16,
    {
        empty_count(self.board)
    }
}

} // verus!

verus! {

impl Default for Game {
    fn default() -> (r: Self)
        ensures
            two_tiles_added(0, r.spec_board()),
            r.spec_score() == board_score(r.spec_board()),
            r.spec_two_percent() == TWO_TILE_PERCENT,
    {
        Game::new()
    }
}

} // verus!
