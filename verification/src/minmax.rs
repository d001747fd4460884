//! Exhaustive minimax search to a fixed depth.

use vstd::prelude::*;
use crate::movement::Movement;
use crate::game::GameState;
use crate::label::{titled, with_level};
use crate::strategy::Strategy;
use crate::anytime::{Deepening, DEPTH_CEILING};
use crate::shmem::publication;
use crate::value::{
    best_move, best_of, child_scores, flips, is_first_best, lemma_first_best_is,
    lemma_first_best_step, minimax, orient, selection,
};

verus! {

/// Minimax search that looks `self.0` plies beyond the movement it selects.
pub struct MinMax(pub u8);

/// Searches `state` to `depth` plies for the player given by `player`
/// (`true`: the one who maximizes) and returns the score with the movement
/// that earns it. Evaluations are negated at the leaves when `reel_depth` is
/// odd.
///
/// Among movements of equal score the first one generated is kept. No
/// movement comes back at depth zero or at a terminal position.
pub fn search_next_move<G: GameState>(
    reel_depth: u8,
    state: &G,
    depth: u8,
    player: bool,
) -> (outcome: (i8, Option<Movement>))
    ensures
        outcome.0 == minimax(*state, depth as nat, flips(reel_depth as nat), player),
        outcome.1 == (if depth == 0 {
            None
        } else {
            selection(*state, (depth - 1) as nat, flips(reel_depth as nat), player)
        }),
    decreases depth, 0nat,
{
    if depth == 0 {
        return (orient(state.value(), reel_depth % 2 == 1), None);
    }
    search_successors(reel_depth, state, depth - 1, player)
}

/// Searches every successor of `state` to `depth` plies for the opponent of
/// `player`, and keeps the best score for `player` with the first movement
/// that earns it.
pub fn search_successors<G: GameState>(
    reel_depth: u8,
    state: &G,
    depth: u8,
    player: bool,
) -> (outcome: (i8, Option<Movement>))
    ensures
        outcome.0 == minimax(*state, depth as nat + 1, flips(reel_depth as nat), player),
        outcome.1 == selection(*state, depth as nat, flips(reel_depth as nat), player),
    decreases depth, 1nat,
{
    let moves = state.movements();
    let mut value: i8 = if player { i8::MIN } else { i8::MAX };
    let mut next_mov: Option<Movement> = None;
    let ghost flip = flips(reel_depth as nat);
    let ghost scores = child_scores(*state, depth as nat, flip, player);
    let ghost mut at: int = 0;
    let mut i: usize = 0;
    while i < moves.len()
        invariant
            i <= moves.len(),
            moves@ == state.legal_moves(),
            flip == flips(reel_depth as nat),
            scores == child_scores(*state, depth as nat, flip, player),
            value == best_of(*state, i as nat, depth as nat, flip, player),
            i == 0 ==> next_mov is None,
            i > 0 ==> is_first_best(scores.take(i as int), at, player),
            i > 0 ==> next_mov == Some(moves@[at]),
            i > 0 ==> value == scores[at],
        decreases moves.len() - i,
    {
        let new_state = state.play(&moves[i]);
        let new_value = search_next_move(reel_depth, &new_state, depth, !player);
        let improves = if player { new_value.0 > value } else { new_value.0 < value };
        proof {
            assert(scores[i as int] == new_value.0);
            lemma_first_best_step(scores, i as int, at, player);
        }
        if next_mov.is_none() || improves {
            value = new_value.0;
            next_mov = Some(moves[i]);
            proof {
                at = i as int;
            }
        }
        i += 1;
    }
    proof {
        if moves.len() > 0 {
            assert(scores.take(moves.len() as int) == scores);
            lemma_first_best_is(scores, at, player);
        }
    }
    (value, next_mov)
}

impl MinMax {
    /// The name under which the strategy is shown.
    pub fn to_string(&self) -> (label: String)
        ensures
            label@ == titled("Min - Max"@, self.0),
    {
        with_level("Min - Max", self.0)
    }
}

impl<G: GameState> Strategy<G> for MinMax {
    open spec fn choice(&self, state: G) -> Option<Movement> {
        best_move(state, self.0 as nat)
    }

    /// Selects the movement to play at `state`: the first one whose minimax
    /// score, searched `self.0` plies deep, no other movement exceeds. Only a
    /// terminal position yields none.
    fn compute_next_move(&mut self, state: &G) -> (chosen: Option<Movement>)
        ensures
            chosen == best_move(*state, old(self).0 as nat),
            chosen is None <==> state.legal_moves().len() == 0,
    {
        search_successors(self.0, state, self.0, true).1
    }
}

/// One step of anytime minimax: runs the search at the next depth of
/// `session` to its end, then publishes the movement selected in the slot of
/// the session. Nothing is published before the search has finished, so the
/// slot holds the result of the previous depth for as long as the step runs.
///
/// Returns `false`, with the session untouched, once the deepest search has
/// run. Depths go from 1 to 99.
pub fn min_max_anytime<G: GameState>(state: &G, session: &mut Deepening) -> (advanced: bool)
    ensures
        advanced <==> old(session).completed() + 1 < DEPTH_CEILING,
        advanced ==> final(session).completed() == old(session).completed() + 1,
        advanced ==> final(session).published() == publication(
            best_move(*state, final(session).completed()),
        ),
        !advanced ==> *final(session) == *old(session),
        old(session).tracks(*state) ==> final(session).tracks(*state),
{
    match session.next_depth() {
        None => false,
        Some(depth) => {
            let mut engine = MinMax(depth);
            let chosen = engine.compute_next_move(state);
            session.publish(chosen);
            true
        },
    }
}

} // verus!
