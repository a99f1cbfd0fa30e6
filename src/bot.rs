use crate::board::{Board, COLS};
use crate::shape::Rotation;
use rand::Rng;
use vstd::prelude::*;

verus! {

/// The placement policy of a computer-controlled board. It reads the board
/// and proposes a target column and a rotation for the falling piece; the
/// present policy always proposes column 4 without a turn.
pub struct Bot {}

impl Bot {
    /// The column and rotation the bot proposes for the board.
    pub open spec fn proposal(self, board: Board) -> (usize, Rotation) {
        (4, Rotation::Rotate0)
    }

    pub fn new() -> Bot {
        Bot {  }
    }

    /// Asks the bot where the falling piece should go.
    pub fn ask(&self, board: &Board) -> (r: (usize, Rotation))
        ensures
            r == self.proposal(*board),
    {
        let position: usize = 4;
        let rotation = Rotation::Rotate0;
        (position, rotation)
    }
}

/// Relies on rand's `thread_rng().gen_range(1, hi)`: a value in `[1, hi)`
/// (the call panics when `hi <= 1`).
#[verifier::external_body]
fn random_column(hi: usize) -> (r: usize)
    requires
        hi > 1,
    ensures
        1 <= r < hi,
{
    rand::thread_rng().gen_range(1usize, hi)
}

/// A policy that proposes a random column at which the falling piece still
/// fits between the walls.
pub struct TetrisBot {}

impl TetrisBot {
    pub fn new() -> TetrisBot {
        TetrisBot {  }
    }

    /// A random target column in `[1, COLS - 1 - w)`, where `w` is the width
    /// of the falling piece.
    pub fn ask(&self, board: &Board) -> (r: usize)
        requires
            board.wf(),
        ensures
            1 <= r < COLS - 1 - board.current.shape.used_cols(board.current.shape.side()),
    {
        let w = board.current.shape.w();
        random_column(COLS - 1 - w)
    }
}

} // verus!
