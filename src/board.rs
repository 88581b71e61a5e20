//! The board: sixteen 4-bit cells packed into a `u64`, row `r` and column
//! `c` at bits `16 * r + 4 * c`, and the ways rows and columns are moved
//! around inside it.
use crate::row::{row_score, slide_row, slide_row_high};
use vstd::prelude::*;

verus! {

/// The exponent held by the cell in row `r`, column `c` of board `b`.
pub open spec fn cell(b: u64, r: u64, c: u64) -> u64 {
    (b >> (16 * r + 4 * c)) & 0xF
}

/// Row `k` of board `b`, as a 16-bit value.
pub open spec fn row_at(b: u64, k: u64) -> u64 {
    (b >> (16 * k)) & 0xFFFF
}

/// Four 16-bit rows packed into a board, row 0 lowest.
pub open spec fn pack_rows(a0: u64, a1: u64, a2: u64, a3: u64) -> u64 {
    a0 | (a1 << 16u64) | (a2 << 32u64) | (a3 << 48u64)
}

/// The board whose cell `(r, c)` is cell `(c, r)` of `b`.
pub open spec fn transposed(b: u64) -> u64 {
    pack_rows(
        cell(b, 0, 0) | (cell(b, 1, 0) << 4u64) | (cell(b, 2, 0) << 8u64) | (cell(b, 3, 0) << 12u64),
        cell(b, 0, 1) | (cell(b, 1, 1) << 4u64) | (cell(b, 2, 1) << 8u64) | (cell(b, 3, 1) << 12u64),
        cell(b, 0, 2) | (cell(b, 1, 2) << 4u64) | (cell(b, 2, 2) << 8u64) | (cell(b, 3, 2) << 12u64),
        cell(b, 0, 3) | (cell(b, 1, 3) << 4u64) | (cell(b, 2, 3) << 8u64) | (cell(b, 3, 3) << 12u64),
    )
}

/// The four cells of a 16-bit row spread over one column of a board: cell
/// `k` of the row lands in row `k`, column 0.
pub open spec fn column_of(x: u64) -> u64 {
    (x | (x << 12u64) | (x << 24u64) | (x << 36u64)) & 0x000F_000F_000F_000F
}

/// Every row of `b` slid toward its low end and merged.
pub open spec fn moved_low(b: u64) -> u64 {
    pack_rows(
        slide_row(row_at(b, 0)),
        slide_row(row_at(b, 1)),
        slide_row(row_at(b, 2)),
        slide_row(row_at(b, 3)),
    )
}

/// Every row of `b` slid toward its high end and merged.
pub open spec fn moved_high(b: u64) -> u64 {
    pack_rows(
        slide_row_high(row_at(b, 0)),
        slide_row_high(row_at(b, 1)),
        slide_row_high(row_at(b, 2)),
        slide_row_high(row_at(b, 3)),
    )
}

/// The points of all tiles on the board.
pub open spec fn board_score(b: u64) -> nat {
    row_score(row_at(b, 0)) + row_score(row_at(b, 1)) + row_score(row_at(b, 2)) + row_score(
        row_at(b, 3),
    )
}

/// The exponent held by cell number `p` of `b`, counted from the lowest
/// nibble: cell `(r, c)` is number `4 * r + c`.
pub open spec fn nibble(b: u64, p: nat) -> u64 {
    (b >> (4 * p) as u64) & 0xF
}

/// The number of empty cells among the first `n` cells of `b`, counted
/// from the lowest nibble.
pub open spec fn empty_below(b: u64, n: nat) -> nat
    decreases n,
{
    if n == 0 {
        0
    } else {
        empty_below(b, (n - 1) as nat) + if nibble(b, (n - 1) as nat) == 0 {
            1nat
        } else {
            0
        }
    }
}

/// The number of empty cells of `b`.
pub open spec fn empty_cells(b: u64) -> nat {
    empty_below(b, 16)
}

/// A board with an empty cell among its first `n` cells has an empty cell.
pub proof fn lemma_empty_below_some(b: u64, q: nat, n: nat)
    requires
        q < n,
        nibble(b, q) == 0,
    ensures
        empty_below(b, n) >= 1,
    decreases n,
{
    if q < n - 1 {
        lemma_empty_below_some(b, q, (n - 1) as nat);
    }
}

/// Cell `(r, c)` is cell number `4 * r + c`.
pub proof fn lemma_nibble_is_cell(b: u64, r: u64, c: u64)
    requires
        r < 4,
        c < 4,
    ensures
        nibble(b, (4 * r + c) as nat) == cell(b, r, c),
{
}

/// The exec transposition agrees with `transposed`.
pub(crate) proof fn lemma_transpose_formula(b: u64)
    ensures
        ({
            let a = (b & 0xF0F0_0F0F_F0F0_0F0F) | ((b & 0x0000_F0F0_0000_F0F0) << 12u64) | ((b
                & 0x0F0F_0000_0F0F_0000) >> 12u64);
            (a & 0xFF00_FF00_00FF_00FF) | ((a & 0x00FF_00FF_0000_0000) >> 24u64) | ((a
                & 0x0000_0000_FF00_FF00) << 24u64)
        }) == transposed(b),
{
    assert(({
        let a = (b & 0xF0F0_0F0F_F0F0_0F0F) | ((b & 0x0000_F0F0_0000_F0F0) << 12u64) | ((b
            & 0x0F0F_0000_0F0F_0000) >> 12u64);
        (a & 0xFF00_FF00_00FF_00FF) | ((a & 0x00FF_00FF_0000_0000) >> 24u64) | ((a
            & 0x0000_0000_FF00_FF00) << 24u64)
    }) == transposed(b)) by (bit_vector);
}

/// Transposing twice gives back the board.
pub proof fn lemma_transpose_involution(b: u64)
    ensures
        transposed(transposed(b)) == b,
{
    assert(transposed(transposed(b)) == b) by (bit_vector);
}

/// Cell `(r, c)` of the transposed board is cell `(c, r)` of the board.
pub proof fn lemma_transposed_cell(b: u64, r: u64, c: u64)
    requires
        r < 4,
        c < 4,
    ensures
        cell(transposed(b), r, c) == cell(b, c, r),
{
    assert(r < 4 && c < 4 ==> cell(transposed(b), r, c) == cell(b, c, r)) by (bit_vector);
}

} // verus!
