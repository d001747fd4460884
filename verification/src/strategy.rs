//! What the code that runs a game asks of a player.

use vstd::prelude::*;
use crate::movement::Movement;
use crate::game::GameState;
use crate::alphabeta::AlphaBeta;
use crate::greedy::{immediate_values, Greedy};
use crate::minmax::MinMax;
use crate::minmax_par::MinMaxPar;
use crate::value::{best_move, better, first_best, lemma_first_best_exists};

verus! {

/// A way of selecting the movement to play at a position.
pub trait Strategy<G: GameState>: Sized {
    /// The movement that the strategy owes at `state`; none where it has
    /// none to offer.
    spec fn choice(&self, state: G) -> Option<Movement>;

    /// Selects the movement to play at `state`. Neither the position nor the
    /// strategy is changed by it.
    fn compute_next_move(&mut self, state: &G) -> (chosen: Option<Movement>)
        ensures
            chosen == old(self).choice(*state),
            *final(self) == *old(self),
    ;
}

/// The three searches are one strategy: at every position and for every
/// depth, alpha-beta pruning and the search by tasks select the movement
/// that exhaustive minimax selects.
pub proof fn lemma_searches_agree<G: GameState>(state: G, depth: u8)
    ensures
        AlphaBeta(depth).choice(state) == MinMax(depth).choice(state),
        MinMaxPar(depth).choice(state) == MinMax(depth).choice(state),
        MinMax(depth).choice(state) == best_move(state, depth as nat),
{
}

/// Where some successor evaluates above the lowest value, the greedy
/// strategy selects what a minimax search of depth zero selects.
pub proof fn lemma_greedy_is_one_ply<G: GameState>(state: G)
    requires
        exists|i: int|
            0 <= i < state.legal_moves().len() && (#[trigger] state.successor(
                state.legal_moves()[i],
            )).evaluation() > i8::MIN,
    ensures
        Greedy().choice(state) == MinMax(0).choice(state),
{
    let values = immediate_values(state);
    let k = choose|i: int|
        0 <= i < state.legal_moves().len() && (#[trigger] state.successor(
            state.legal_moves()[i],
        )).evaluation() > i8::MIN;
    lemma_first_best_exists(values, true);
    let at = first_best(values, true);
    assert(values[k] == state.successor(state.legal_moves()[k]).evaluation());
    assert(!better(values[k], values[at], true));
}

} // verus!
