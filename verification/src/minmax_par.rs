//! Minimax search that treats each movement of the root as a task of its
//! own, and combines the results of the tasks in one ordered pass.

use vstd::prelude::*;
use crate::movement::Movement;
use crate::game::GameState;
use crate::label::{titled, with_level};
use crate::strategy::Strategy;
use crate::anytime::{Deepening, DEPTH_CEILING};
use crate::shmem::publication;
use crate::value::{
    best_move, best_of, child_scores, first_best, flips, is_first_best, lemma_first_best_exists,
    lemma_first_best_is, lemma_first_best_step, minimax, orient,
};

verus! {

/// Minimax search by independent tasks, looking `self.0` plies beyond the
/// movement it selects.
pub struct MinMaxPar(pub u8);

/// The scores of a sequence of task results, in the order of the sequence.
pub open spec fn outcome_scores(outcomes: Seq<(i8, Movement)>) -> Seq<int> {
    Seq::new(outcomes.len(), |i: int| outcomes[i].0 as int)
}

/// Searches `state` to `depth` plies for the player given by `max_player`
/// and returns its minimax score. Evaluations are negated at the leaves
/// unless `even_depth` is set.
///
/// The search shares nothing with any other: it reads `state` and returns
/// a number, so any number of them may run side by side.
pub fn min_max_par<G: GameState>(state: &G, depth: u8, even_depth: bool, max_player: bool) -> (score:
    i8)
    ensures
        score == minimax(*state, depth as nat, !even_depth, max_player),
    decreases depth,
{
    if depth == 0 {
        return orient(state.value(), !even_depth);
    }
    let moves = state.movements();
    let mut best_score: i8 = if max_player { i8::MIN } else { i8::MAX };
    let mut i: usize = 0;
    while i < moves.len()
        invariant
            i <= moves.len(),
            depth > 0,
            moves@ == state.legal_moves(),
            best_score == best_of(*state, i as nat, (depth - 1) as nat, !even_depth, max_player),
        decreases moves.len() - i,
    {
        let next_state = state.play(&moves[i]);
        let score = min_max_par(&next_state, depth - 1, even_depth, !max_player);
        if max_player {
            if score > best_score {
                best_score = score;
            }
        } else {
            if score < best_score {
                best_score = score;
            }
        }
        i += 1;
    }
    best_score
}

/// Combines the results of the tasks, given in the order in which their
/// movements were generated: the first result whose score no other result
/// exceeds, or nothing when there is no result at all.
///
/// The answer depends on the sequence alone, not on the order in which the
/// tasks finished.
pub fn combine_outcomes(outcomes: &Vec<(i8, Movement)>) -> (best: Option<(i8, Movement)>)
    ensures
        best is None <==> outcomes@.len() == 0,
        best matches Some(pair) ==> pair == outcomes@[first_best(outcome_scores(outcomes@), true)],
{
    let mut best: Option<(i8, Movement)> = None;
    let ghost scores = outcome_scores(outcomes@);
    let ghost mut at: int = 0;
    let mut i: usize = 0;
    while i < outcomes.len()
        invariant
            i <= outcomes.len(),
            scores == outcome_scores(outcomes@),
            i == 0 ==> best is None,
            i > 0 ==> is_first_best(scores.take(i as int), at, true),
            i > 0 ==> best == Some(outcomes@[at]),
        decreases outcomes.len() - i,
    {
        let candidate = outcomes[i];
        let improves = match best {
            None => true,
            Some(pair) => candidate.0 > pair.0,
        };
        proof {
            lemma_first_best_step(scores, i as int, at, true);
        }
        if improves {
            best = Some(candidate);
            proof {
                at = i as int;
            }
        }
        i += 1;
    }
    proof {
        if outcomes.len() > 0 {
            assert(scores.take(outcomes.len() as int) == scores);
            lemma_first_best_is(scores, at, true);
        }
    }
    best
}

impl MinMaxPar {
    /// The name under which the strategy is shown.
    pub fn to_string(&self) -> (label: String)
        ensures
            label@ == titled("Min - Max"@, self.0),
    {
        with_level("Min - Max", self.0)
    }

    /// The task of one movement of the root: plays it and searches the
    /// position reached `self.0` plies deep for the opponent.
    pub fn evaluate<G: GameState>(&self, state: &G, movement: Movement) -> (outcome: (i8, Movement))
        requires
            state.legal_moves().contains(movement),
        ensures
            outcome.0 == minimax(
                state.successor(movement),
                self.0 as nat,
                flips(self.0 as nat),
                false,
            ),
            outcome.1 == movement,
    {
        let next_state = state.play(&movement);
        let score = min_max_par(&next_state, self.0, self.0 % 2 == 0, false);
        (score, movement)
    }

}

impl<G: GameState> Strategy<G> for MinMaxPar {
    open spec fn choice(&self, state: G) -> Option<Movement> {
        best_move(state, self.0 as nat)
    }

    /// Selects the movement to play at `state`, the same one that the
    /// sequential minimax search of depth `self.0` selects. One task is run
    /// per movement, then the results are combined in generation order. Only
    /// a terminal position yields no movement.
    fn compute_next_move(&mut self, state: &G) -> (chosen: Option<Movement>)
        ensures
            chosen == best_move(*state, old(self).0 as nat),
            chosen is None <==> state.legal_moves().len() == 0,
    {
        let moves = state.movements();
        let mut outcomes: Vec<(i8, Movement)> = Vec::new();
        let ghost scores = child_scores(*state, self.0 as nat, flips(self.0 as nat), true);
        let mut i: usize = 0;
        while i < moves.len()
            invariant
                i <= moves.len(),
                moves@ == state.legal_moves(),
                *self == *old(self),
                scores == child_scores(*state, self.0 as nat, flips(self.0 as nat), true),
                outcomes@.len() == i,
                forall|j: int| 0 <= j < i ==> (#[trigger] outcomes@[j]).0 == scores[j],
                forall|j: int| 0 <= j < i ==> (#[trigger] outcomes@[j]).1 == moves@[j],
            decreases moves.len() - i,
        {
            let outcome = self.evaluate(state, moves[i]);
            outcomes.push(outcome);
            i += 1;
        }
        proof {
            assert(outcome_scores(outcomes@) == scores);
            if moves.len() > 0 {
                lemma_first_best_exists(scores, true);
            }
        }
        match combine_outcomes(&outcomes) {
            None => None,
            Some(pair) => Some(pair.1),
        }
    }
}

/// One step of anytime minimax by tasks: runs the search at the next depth of
/// `session` to its end, then publishes the movement selected in the slot of
/// the session. Nothing is published before the search has finished, so the
/// slot holds the result of the previous depth for as long as the step runs.
///
/// Returns `false`, with the session untouched, once the deepest search has
/// run. Depths go from 1 to 99.
pub fn min_max_par_anytime<G: GameState>(state: &G, session: &mut Deepening) -> (advanced: bool)
    ensures
        advanced <==> old(session).completed() + 1 < DEPTH_CEILING,
        advanced ==> final(session).completed() == old(session).completed() + 1,
        advanced ==> final(session).published() == publication(
            best_move(*state, final(session).completed()),
        ),
        !advanced ==> *final(session) == *old(session),
        old(session).tracks(*state) ==> final(session).tracks(*state),
{
    match session.next_depth() {
        None => false,
        Some(depth) => {
            let mut engine = MinMaxPar(depth);
            let chosen = engine.compute_next_move(state);
            session.publish(chosen);
            true
        },
    }
}

} // verus!
