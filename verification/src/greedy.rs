//! The strategy that looks one movement ahead and no further.

use vstd::prelude::*;
use crate::movement::Movement;
use crate::game::GameState;
use crate::label::plain;
use crate::strategy::Strategy;
use crate::value::{
    child_scores, first_best, is_first_best, lemma_first_best_is, lemma_first_best_step,
};

verus! {

/// Among all movements, takes the one that leads to the position with the
/// best immediate evaluation.
pub struct Greedy();

/// The evaluations of the successors of `s`, in generation order.
pub open spec fn immediate_values<G: GameState>(s: G) -> Seq<int> {
    child_scores(s, 0, false, true)
}

/// The movement that the greedy strategy owes at `s`: the first one whose
/// successor has the highest evaluation, provided that evaluation lies above
/// the lowest one there is. A position whose successors all evaluate to the
/// lowest value yields no movement, as a terminal position does.
pub open spec fn greedy_choice<G: GameState>(s: G) -> Option<Movement> {
    let values = immediate_values(s);
    let at = first_best(values, true);
    if s.legal_moves().len() > 0 && values[at] > i8::MIN {
        Some(s.legal_moves()[at])
    } else {
        None
    }
}

impl Greedy {
    /// The name under which the strategy is shown.
    pub fn to_string(&self) -> (label: String)
        ensures
            label@ == "Greedy"@,
    {
        plain("Greedy")
    }
}

impl<G: GameState> Strategy<G> for Greedy {
    open spec fn choice(&self, state: G) -> Option<Movement> {
        greedy_choice(state)
    }

    /// Selects the movement whose successor evaluates highest, the first of
    /// them where several do.
    fn compute_next_move(&mut self, state: &G) -> (chosen: Option<Movement>)
        ensures
            chosen == greedy_choice(*state),
    {
        let mut best_movement: Option<Movement> = None;
        let moves = state.movements();
        let mut max_value: i8 = i8::MIN;
        let ghost values = immediate_values(*state);
        let ghost mut at: int = 0;
        let mut i: usize = 0;
        while i < moves.len()
            invariant
                i <= moves.len(),
                moves@ == state.legal_moves(),
                values == immediate_values(*state),
                i > 0 ==> is_first_best(values.take(i as int), at, true),
                i > 0 ==> max_value == values[at],
                i == 0 ==> max_value == i8::MIN,
                best_movement is None ==> max_value == i8::MIN,
                best_movement is Some ==> i > 0 && max_value > i8::MIN && best_movement == Some(
                    moves@[at],
                ),
            decreases moves.len() - i,
        {
            let next_state = state.play(&moves[i]);
            let new_value = next_state.value();
            proof {
                assert(values[i as int] == new_value);
                lemma_first_best_step(values, i as int, at, true);
            }
            if new_value > max_value {
                max_value = new_value;
                best_movement = Some(moves[i]);
                proof {
                    at = i as int;
                }
            } else if i == 0 {
                proof {
                    at = 0;
                }
            }
            i += 1;
        }
        proof {
            if moves.len() > 0 {
                assert(values.take(moves.len() as int) == values);
                lemma_first_best_is(values, at, true);
            }
        }
        best_movement
    }
}

} // verus!
