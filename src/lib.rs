use vstd::prelude::*;

pub mod board;
pub mod game;
pub mod move_facts;
pub mod moves;
pub mod row;
pub mod state;
pub mod storage;

pub use game::Game;
pub use moves::{Direction, Moves};
pub use state::State;
pub use storage::{InMemoryStorage, Storage};

verus! {

/// Mask of one 16-bit row, the low one.
pub const ROW_MASK: u64 = 0xFFFF;

/// Mask of the low nibble of each of the four rows: one column of the board.
pub const COL_MASK: u64 = 0x000F_000F_000F_000F;

} // verus!
