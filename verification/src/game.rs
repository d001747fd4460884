//! What the search engines need to know about a game.

use vstd::prelude::*;
use crate::movement::Movement;

verus! {

/// A position of a two-player, zero-sum, perfect-information game, together
/// with whose turn it is.
///
/// The engines never look inside a position. They list its legal movements,
/// play one of them, and evaluate the position reached, nothing else. The
/// three spec functions are the mathematical game that the executable
/// methods compute; every contract of the engines is stated over them.
pub trait GameState: Sized {
    /// The legal movements of the player to move, in generation order. A
    /// position without any is terminal.
    spec fn legal_moves(&self) -> Seq<Movement>;

    /// The position reached by playing `movement`, with the turn passed on.
    spec fn successor(&self, movement: Movement) -> Self;

    /// The static evaluation of the position.
    spec fn evaluation(&self) -> i8;

    /// Lists the legal movements, always in the same order for one position.
    fn movements(&self) -> (moves: Vec<Movement>)
        ensures
            moves@ == self.legal_moves(),
    ;

    /// Plays a legal movement. The position itself is left as it was.
    fn play(&self, movement: &Movement) -> (next: Self)
        requires
            self.legal_moves().contains(*movement),
        ensures
            next == self.successor(*movement),
    ;

    /// Evaluates the position as it stands.
    fn value(&self) -> (v: i8)
        ensures
            v == self.evaluation(),
    ;
}

} // verus!
