//! The values a session keeps between moves.
use vstd::prelude::*;

verus! {

/// A session's board, its score and the best score seen.
pub struct State {
    pub board: u64,
    pub best_score: u32,
    pub score: u32,
}

impl State {
    /// An empty board with no score.
    pub fn new() -> (r: State)
        ensures
            r.board == 0,
            r.best_score == 0,
            r.score == 0,
    {
        State { board: 0x0000_0000_0000_0000_u64, best_score: 0, score: 0 }
    }
}

} // verus!
