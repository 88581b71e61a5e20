//! Where a session keeps its board and its best score.
use vstd::prelude::*;

verus! {

/// Keeps the current board and the best score.
pub trait Storage {
    fn board(&self) -> u64;

    fn set_board(&mut self, board: u64);

    fn best(&self) -> u64;

    fn set_best(&mut self, best: u64);
}

/// Keeps nothing: every read gives zero.
impl Storage for () {
    fn board(&self) -> (r: u64)
        ensures
            r == 0,
    {
        0
    }

    fn set_board(&mut self, _board: u64) {
    }

    fn best(&self) -> (r: u64)
        ensures
            r == 0,
    {
        0
    }

    fn set_best(&mut self, _best: u64) {
    }
}

/// Keeps the board and the best score in memory.
pub struct InMemoryStorage {
    board: u64,
    best: u64,
}

impl View for InMemoryStorage {
    /// The stored board and best score.
    type V = (u64, u64);

    closed spec fn view(&self) -> (u64, u64) {
        (self.board, self.best)
    }
}

impl InMemoryStorage {
    /// Storage holding an empty board and a best score of zero.
    pub fn new() -> (r: Self)
        ensures
            r@ == (0u64, 0u64),
    {
        InMemoryStorage { board: 0, best: 0 }
    }
}

impl Default for InMemoryStorage {
    fn default() -> (r: Self)
        ensures
            r@ == (0u64, 0u64),
    {
        Self::new()
    }
}

impl Storage for InMemoryStorage {
    fn board(&self) -> (r: u64)
        ensures
            r == self@.0,
    {
        self.board
    }

    fn set_board(&mut self, board: u64)
        ensures
            final(self)@ == (board, old(self)@.1),
    {
        self.board = board
    }

    fn best(&self) -> (r: u64)
        ensures
            r == self@.1,
    {
        self.best
    }

    fn set_best(&mut self, best: u64)
        ensures
            final(self)@ == (old(self)@.0, best),
    {
        self.best = best
    }
}

} // verus!
