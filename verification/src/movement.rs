//! The action a player takes on the board.

use vstd::prelude::*;

verus! {

/// One action on the board, named by the cell it starts from and the cell it
/// ends on. A movement is plain data: copying it has no effect on any game.
#[derive(Clone, Copy, Debug, PartialEq, Eq, Structural)]
pub struct Movement {
    /// Cell the moving piece starts from.
    pub origin: u8,
    /// Cell the moving piece ends on.
    pub target: u8,
}

impl Movement {
    /// The movement from `origin` to `target`.
    pub fn new(origin: u8, target: u8) -> (m: Movement)
        ensures
            m == (Movement { origin, target }),
    {
        Movement { origin, target }
    }
}

} // verus!
