//! Minimax search with alpha-beta pruning: the same answers for less work.

use vstd::prelude::*;
use crate::movement::Movement;
use crate::game::GameState;
use crate::label::{titled, with_level};
use crate::strategy::Strategy;
use crate::anytime::{Deepening, DEPTH_CEILING};
use crate::shmem::publication;
use crate::value::{
    best_move, best_of, better, child_scores, flips, is_first_best, lemma_best_of_is_extremum,
    lemma_first_best_is, lemma_first_best_step, lemma_minimax_bounds, minimax, orient, oriented,
    worst,
};

verus! {

/// Alpha-beta search that looks `self.0` plies beyond the movement it selects.
pub struct AlphaBeta(pub u8);

/// The score that a pruned search of `s` returns for the window from `alpha`
/// to `beta`: the oriented evaluation at depth zero, and above it the outcome
/// of walking the successors until the window closes.
pub open spec fn pruned<G: GameState>(
    s: G,
    depth: nat,
    flip: bool,
    maximizing: bool,
    alpha: int,
    beta: int,
) -> int
    decreases depth, 0nat,
{
    if depth == 0 {
        oriented(s.evaluation(), flip)
    } else {
        pruned_from(s, 0, (depth - 1) as nat, flip, maximizing, alpha, beta, worst(maximizing))
    }
}

/// The pruned walk over the successors of `s` from the `i`-th on, entered
/// with the window from `alpha` to `beta` and the best score so far `best`.
/// Each successor is searched `depth` plies deep within the current window;
/// its score improves `best` and narrows the window on the player's side, and
/// the walk stops as soon as the window is empty.
pub open spec fn pruned_from<G: GameState>(
    s: G,
    i: nat,
    depth: nat,
    flip: bool,
    maximizing: bool,
    alpha: int,
    beta: int,
    best: int,
) -> int
    decreases depth, 1 + s.legal_moves().len() - i,
{
    if i >= s.legal_moves().len() {
        best
    } else {
        let score = pruned(s.successor(s.legal_moves()[i as int]), depth, flip, !maximizing, alpha, beta);
        let best2 = if better(score, best, maximizing) { score } else { best };
        let alpha2 = if maximizing && best2 > alpha { best2 } else { alpha };
        let beta2 = if !maximizing && best2 < beta { best2 } else { beta };
        if alpha2 >= beta2 {
            best2
        } else {
            pruned_from(s, i + 1, depth, flip, maximizing, alpha2, beta2, best2)
        }
    }
}

/// What a score found within a window says of the exact score: inside the
/// window the two are equal, and an exact score at or beyond one edge is
/// reported at or beyond that edge.
pub open spec fn agrees_within(exact: int, found: int, alpha: int, beta: int) -> bool {
    &&& alpha < exact < beta ==> found == exact
    &&& exact <= alpha ==> found <= alpha
    &&& exact >= beta ==> found >= beta
}

/// Every pruned score fits eight signed bits.
pub proof fn lemma_pruned_bounds<G: GameState>(
    s: G,
    depth: nat,
    flip: bool,
    maximizing: bool,
    alpha: int,
    beta: int,
)
    ensures
        i8::MIN <= pruned(s, depth, flip, maximizing, alpha, beta) <= i8::MAX,
    decreases depth, 0nat,
{
    if depth > 0 {
        lemma_pruned_from_bounds(
            s,
            0,
            (depth - 1) as nat,
            flip,
            maximizing,
            alpha,
            beta,
            worst(maximizing),
        );
    }
}

/// A pruned walk entered with a best score of eight signed bits ends on one.
pub proof fn lemma_pruned_from_bounds<G: GameState>(
    s: G,
    i: nat,
    depth: nat,
    flip: bool,
    maximizing: bool,
    alpha: int,
    beta: int,
    best: int,
)
    requires
        i8::MIN <= best <= i8::MAX,
    ensures
        i8::MIN <= pruned_from(s, i, depth, flip, maximizing, alpha, beta, best) <= i8::MAX,
    decreases depth, 1 + s.legal_moves().len() - i,
{
    if i < s.legal_moves().len() {
        let child = s.successor(s.legal_moves()[i as int]);
        lemma_pruned_bounds(child, depth, flip, !maximizing, alpha, beta);
        let score = pruned(child, depth, flip, !maximizing, alpha, beta);
        let best2 = if better(score, best, maximizing) { score } else { best };
        let alpha2 = if maximizing && best2 > alpha { best2 } else { alpha };
        let beta2 = if !maximizing && best2 < beta { best2 } else { beta };
        if alpha2 < beta2 {
            lemma_pruned_from_bounds(s, i + 1, depth, flip, maximizing, alpha2, beta2, best2);
        }
    }
}

/// Pruning never changes the answer. Within a window that is not empty, the
/// pruned score of a position equals its minimax score wherever that score
/// lies inside the window, and lies at or beyond the edge that the minimax
/// score lies at or beyond.
pub proof fn lemma_pruning_is_sound<G: GameState>(
    s: G,
    depth: nat,
    flip: bool,
    maximizing: bool,
    alpha: int,
    beta: int,
)
    requires
        i8::MIN <= alpha < beta <= i8::MAX,
    ensures
        agrees_within(
            minimax(s, depth, flip, maximizing),
            pruned(s, depth, flip, maximizing, alpha, beta),
            alpha,
            beta,
        ),
    decreases depth, 0nat,
{
    if depth > 0 {
        lemma_pruned_walk_is_sound(
            s,
            0,
            (depth - 1) as nat,
            flip,
            maximizing,
            alpha,
            beta,
            alpha,
            beta,
            worst(maximizing),
        );
    }
}

/// The pruned walk is sound from any place it can reach. `alpha0` and
/// `beta0` are the window that the position was entered with; `alpha`,
/// `beta` and `best` are the window and the best score after `i` successors.
pub proof fn lemma_pruned_walk_is_sound<G: GameState>(
    s: G,
    i: nat,
    depth: nat,
    flip: bool,
    maximizing: bool,
    alpha0: int,
    beta0: int,
    alpha: int,
    beta: int,
    best: int,
)
    requires
        i8::MIN <= alpha0 < beta0 <= i8::MAX,
        i <= s.legal_moves().len(),
        alpha < beta,
        i8::MIN <= best <= i8::MAX,
        maximizing ==> beta == beta0 && alpha == vstd::math::max(alpha0, best) && alpha
            == vstd::math::max(alpha0, best_of(s, i, depth, flip, maximizing)),
        !maximizing ==> alpha == alpha0 && beta == vstd::math::min(beta0, best) && beta
            == vstd::math::min(beta0, best_of(s, i, depth, flip, maximizing)),
    ensures
        agrees_within(
            best_of(s, s.legal_moves().len(), depth, flip, maximizing),
            pruned_from(s, i, depth, flip, maximizing, alpha, beta, best),
            alpha0,
            beta0,
        ),
    decreases depth, 1 + s.legal_moves().len() - i,
{
    let len = s.legal_moves().len();
    if i < len {
        let child = s.successor(s.legal_moves()[i as int]);
        let exact = minimax(child, depth, flip, !maximizing);
        let score = pruned(child, depth, flip, !maximizing, alpha, beta);
        lemma_pruning_is_sound(child, depth, flip, !maximizing, alpha, beta);
        lemma_pruned_bounds(child, depth, flip, !maximizing, alpha, beta);
        lemma_minimax_bounds(child, depth, flip, !maximizing);
        let best2 = if better(score, best, maximizing) { score } else { best };
        let alpha2 = if maximizing && best2 > alpha { best2 } else { alpha };
        let beta2 = if !maximizing && best2 < beta { best2 } else { beta };
        assert(best_of(s, i + 1, depth, flip, maximizing) == if better(
            exact,
            best_of(s, i, depth, flip, maximizing),
            maximizing,
        ) {
            exact
        } else {
            best_of(s, i, depth, flip, maximizing)
        });
        if alpha2 >= beta2 {
            lemma_best_of_is_extremum(s, len, depth, flip, maximizing);
            assert(child_scores(s, depth, flip, maximizing)[i as int] == exact);
        } else {
            lemma_pruned_walk_is_sound(
                s,
                i + 1,
                depth,
                flip,
                maximizing,
                alpha0,
                beta0,
                alpha2,
                beta2,
                best2,
            );
        }
    }
}

/// With the widest window a pruned search returns the minimax score itself.
pub proof fn lemma_full_window_is_exact<G: GameState>(
    s: G,
    depth: nat,
    flip: bool,
    maximizing: bool,
)
    ensures
        pruned(s, depth, flip, maximizing, i8::MIN as int, i8::MAX as int) == minimax(
            s,
            depth,
            flip,
            maximizing,
        ),
{
    lemma_pruning_is_sound(s, depth, flip, maximizing, i8::MIN as int, i8::MAX as int);
    lemma_pruned_bounds(s, depth, flip, maximizing, i8::MIN as int, i8::MAX as int);
    lemma_minimax_bounds(s, depth, flip, maximizing);
}

/// Searches `state` to `depth` plies within the window from `alpha` to
/// `beta`, for the player given by `max_player`. Evaluations are negated at
/// the leaves unless `even_depth` is set.
///
/// The score is exact wherever the minimax score lies inside the window. A
/// minimax score at or beyond an edge is reported at or beyond that edge.
pub fn alpha_beta<G: GameState>(
    state: &G,
    depth: u8,
    even_depth: bool,
    max_player: bool,
    alpha: i8,
    beta: i8,
) -> (score: i8)
    ensures
        score == pruned(*state, depth as nat, !even_depth, max_player, alpha as int, beta as int),
        alpha < beta ==> agrees_within(
            minimax(*state, depth as nat, !even_depth, max_player),
            score as int,
            alpha as int,
            beta as int,
        ),
    decreases depth,
{
    proof {
        if alpha < beta {
            lemma_pruning_is_sound(
                *state,
                depth as nat,
                !even_depth,
                max_player,
                alpha as int,
                beta as int,
            );
        }
    }
    if depth == 0 {
        return orient(state.value(), !even_depth);
    }
    let moves = state.movements();
    let mut best_score: i8 = if max_player { i8::MIN } else { i8::MAX };
    let mut low: i8 = alpha;
    let mut high: i8 = beta;
    let ghost goal = pruned(
        *state,
        depth as nat,
        !even_depth,
        max_player,
        alpha as int,
        beta as int,
    );
    let mut i: usize = 0;
    while i < moves.len()
        invariant_except_break
            i <= moves.len(),
            goal == pruned_from(
                *state,
                i as nat,
                (depth - 1) as nat,
                !even_depth,
                max_player,
                low as int,
                high as int,
                best_score as int,
            ),
        invariant
            depth > 0,
            moves@ == state.legal_moves(),
        ensures
            best_score == goal,
        decreases moves.len() - i,
    {
        let next_state = state.play(&moves[i]);
        let score = alpha_beta(&next_state, depth - 1, even_depth, !max_player, low, high);
        if max_player {
            if score > best_score {
                best_score = score;
            }
            if best_score > low {
                low = best_score;
            }
        } else {
            if score < best_score {
                best_score = score;
            }
            if best_score < high {
                high = best_score;
            }
        }
        if low >= high {
            break ;
        }
        i += 1;
    }
    best_score
}

impl AlphaBeta {
    /// The name under which the strategy is shown.
    pub fn to_string(&self) -> (label: String)
        ensures
            label@ == titled("Alpha - Beta"@, self.0),
    {
        with_level("Alpha - Beta", self.0)
    }
}

impl<G: GameState> Strategy<G> for AlphaBeta {
    open spec fn choice(&self, state: G) -> Option<Movement> {
        best_move(state, self.0 as nat)
    }

    /// Selects the movement to play at `state`, the same one that an
    /// exhaustive minimax search of depth `self.0` selects: the first
    /// movement whose minimax score no other movement exceeds. Only a
    /// terminal position yields none.
    fn compute_next_move(&mut self, state: &G) -> (chosen: Option<Movement>)
        ensures
            chosen == best_move(*state, old(self).0 as nat),
            chosen is None <==> state.legal_moves().len() == 0,
    {
        let depth = self.0;
        let even_depth = depth % 2 == 0;
        let moves = state.movements();
        let mut best_move: Option<Movement> = None;
        let mut best_score: i8 = i8::MIN;
        let mut alpha: i8 = i8::MIN;
        let beta: i8 = i8::MAX;
        let ghost flip = flips(depth as nat);
        let ghost scores = child_scores(*state, depth as nat, flip, true);
        let ghost mut at: int = 0;
        let mut i: usize = 0;
        while i < moves.len()
            invariant
                i <= moves.len(),
                moves@ == state.legal_moves(),
                flip == flips(depth as nat),
                flip == !even_depth,
                beta == i8::MAX,
                scores == child_scores(*state, depth as nat, flip, true),
                i == 0 ==> best_move is None && alpha == i8::MIN,
                i > 0 ==> is_first_best(scores.take(i as int), at, true),
                i > 0 ==> best_move == Some(moves@[at]),
                i > 0 ==> best_score == scores[at] && alpha == best_score,
            decreases moves.len() - i,
        {
            let next_state = state.play(&moves[i]);
            let score = alpha_beta(&next_state, depth, even_depth, false, alpha, beta);
            proof {
                lemma_minimax_bounds(next_state, depth as nat, flip, false);
                assert(scores[i as int] == minimax(next_state, depth as nat, flip, false));
                lemma_first_best_step(scores, i as int, at, true);
            }
            if best_move.is_none() || score > best_score {
                best_score = score;
                best_move = Some(moves[i]);
                proof {
                    at = i as int;
                }
            }
            if best_score > alpha {
                alpha = best_score;
            }
            i += 1;
        }
        proof {
            if moves.len() > 0 {
                assert(scores.take(moves.len() as int) == scores);
                lemma_first_best_is(scores, at, true);
            }
        }
        best_move
    }
}

/// One step of anytime alpha-beta: runs the search at the next depth of
/// `session` to its end, then publishes the movement selected in the slot of
/// the session. Nothing is published before the search has finished, so the
/// slot holds the result of the previous depth for as long as the step runs.
///
/// Returns `false`, with the session untouched, once the deepest search has
/// run. Depths go from 1 to 99.
pub fn alpha_beta_anytime<G: GameState>(state: &G, session: &mut Deepening) -> (advanced: bool)
    ensures
        advanced <==> old(session).completed() + 1 < DEPTH_CEILING,
        advanced ==> final(session).completed() == old(session).completed() + 1,
        advanced ==> final(session).published() == publication(
            best_move(*state, final(session).completed()),
        ),
        !advanced ==> *final(session) == *old(session),
        old(session).tracks(*state) ==> final(session).tracks(*state),
{
    match session.next_depth() {
        None => false,
        Some(depth) => {
            let mut engine = AlphaBeta(depth);
            let chosen = engine.compute_next_move(state);
            session.publish(chosen);
            true
        },
    }
}

} // verus!
