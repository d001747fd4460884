//! The value of a position under depth-limited minimax, and the movement
//! that a search selects: the mathematics that every engine is held to.

use vstd::prelude::*;
use crate::movement::Movement;
use crate::game::GameState;

verus! {

/// A static evaluation as the search reads it at a leaf: unchanged, or
/// negated when `flip` is set. Negation saturates, so the lowest evaluation
/// becomes the highest one and the result always fits eight signed bits.
pub open spec fn oriented(v: i8, flip: bool) -> int {
    if !flip {
        v as int
    } else if v == i8::MIN {
        i8::MAX as int
    } else {
        -(v as int)
    }
}

/// Whether score `a` is strictly preferred to score `b` by the player who
/// maximizes, or by the one who minimizes.
pub open spec fn better(a: int, b: int, maximizing: bool) -> bool {
    if maximizing {
        a > b
    } else {
        a < b
    }
}

/// The score of a position that offers the player nothing to choose from.
pub open spec fn worst(maximizing: bool) -> int {
    if maximizing {
        i8::MIN as int
    } else {
        i8::MAX as int
    }
}

/// The minimax value of `s` searched `depth` plies deep. At depth zero it is
/// the oriented evaluation of `s`. Above, it is the best of the values of the
/// successors, each searched one ply less deep for the opponent.
pub open spec fn minimax<G: GameState>(s: G, depth: nat, flip: bool, maximizing: bool) -> int
    decreases depth, 0nat,
{
    if depth == 0 {
        oriented(s.evaluation(), flip)
    } else {
        best_of(s, s.legal_moves().len(), (depth - 1) as nat, flip, maximizing)
    }
}

/// The best score among the first `n` successors of `s`, each searched
/// `depth` plies deep; `worst(maximizing)` when `n` is zero.
pub open spec fn best_of<G: GameState>(
    s: G,
    n: nat,
    depth: nat,
    flip: bool,
    maximizing: bool,
) -> int
    decreases depth, 1 + n,
{
    if n == 0 {
        worst(maximizing)
    } else {
        let rest = best_of(s, (n - 1) as nat, depth, flip, maximizing);
        let child = minimax(s.successor(s.legal_moves()[n - 1]), depth, flip, !maximizing);
        if better(child, rest, maximizing) {
            child
        } else {
            rest
        }
    }
}

/// The scores of the successors of `s` in generation order, each searched
/// `depth` plies deep for the opponent of the player given by `maximizing`.
pub open spec fn child_scores<G: GameState>(
    s: G,
    depth: nat,
    flip: bool,
    maximizing: bool,
) -> Seq<int> {
    Seq::new(
        s.legal_moves().len(),
        |i: int| minimax(s.successor(s.legal_moves()[i]), depth, flip, !maximizing),
    )
}

/// Whether `i` is the place of the score that wins a first-seen-wins
/// selection: no score beats it, and it beats every score before it.
pub open spec fn is_first_best(scores: Seq<int>, i: int, maximizing: bool) -> bool {
    &&& 0 <= i < scores.len()
    &&& forall|j: int| 0 <= j < scores.len() ==> !better(#[trigger] scores[j], scores[i], maximizing)
    &&& forall|j: int| 0 <= j < i ==> better(scores[i], #[trigger] scores[j], maximizing)
}

/// The place of the winning score in a sequence that is not empty.
pub open spec fn first_best(scores: Seq<int>, maximizing: bool) -> int {
    choose|i: int| is_first_best(scores, i, maximizing)
}

/// The movement selected at `s` when each successor is searched `depth`
/// plies deep: none at a terminal position, else the first movement whose
/// score no other movement beats.
pub open spec fn selection<G: GameState>(
    s: G,
    depth: nat,
    flip: bool,
    maximizing: bool,
) -> Option<Movement> {
    if s.legal_moves().len() == 0 {
        None
    } else {
        Some(s.legal_moves()[first_best(child_scores(s, depth, flip, maximizing), maximizing)])
    }
}

/// Whether a search of the given depth negates the evaluations it reads:
/// it does at odd depths.
pub open spec fn flips(depth: nat) -> bool {
    depth % 2 == 1
}

/// The movement that a search of depth `depth` owes at `s`. The player to
/// move maximizes, the successors are searched `depth` plies deep.
pub open spec fn best_move<G: GameState>(s: G, depth: nat) -> Option<Movement> {
    selection(s, depth, flips(depth), true)
}

/// The score that goes with [`best_move`]: the value of `s` one ply deeper
/// than its successors are searched.
pub open spec fn best_score<G: GameState>(s: G, depth: nat) -> int {
    minimax(s, depth + 1, flips(depth), true)
}

/// The oriented evaluation, computed.
pub fn orient(v: i8, flip: bool) -> (r: i8)
    ensures
        r == oriented(v, flip),
{
    if !flip {
        v
    } else if v == i8::MIN {
        i8::MAX
    } else {
        -v
    }
}

/// Every minimax value fits eight signed bits.
pub proof fn lemma_minimax_bounds<G: GameState>(s: G, depth: nat, flip: bool, maximizing: bool)
    ensures
        i8::MIN <= minimax(s, depth, flip, maximizing) <= i8::MAX,
    decreases depth, 0nat,
{
    if depth > 0 {
        lemma_best_of_bounds(s, s.legal_moves().len(), (depth - 1) as nat, flip, maximizing);
    }
}

/// Every fold of successor values fits eight signed bits.
pub proof fn lemma_best_of_bounds<G: GameState>(
    s: G,
    n: nat,
    depth: nat,
    flip: bool,
    maximizing: bool,
)
    ensures
        i8::MIN <= best_of(s, n, depth, flip, maximizing) <= i8::MAX,
    decreases depth, 1 + n,
{
    if n > 0 {
        lemma_best_of_bounds(s, (n - 1) as nat, depth, flip, maximizing);
        lemma_minimax_bounds(s.successor(s.legal_moves()[n - 1]), depth, flip, !maximizing);
    }
}

/// The fold over the first `n` successors is their extremum: no successor
/// among them scores better, and one of them scores exactly that, unless
/// there is none.
pub proof fn lemma_best_of_is_extremum<G: GameState>(
    s: G,
    n: nat,
    depth: nat,
    flip: bool,
    maximizing: bool,
)
    requires
        n <= s.legal_moves().len(),
    ensures
        forall|i: int|
            0 <= i < n ==> !better(
                #[trigger] child_scores(s, depth, flip, maximizing)[i],
                best_of(s, n, depth, flip, maximizing),
                maximizing,
            ),
        n > 0 ==> exists|i: int|
            0 <= i < n && #[trigger] child_scores(s, depth, flip, maximizing)[i] == best_of(
                s,
                n,
                depth,
                flip,
                maximizing,
            ),
        n == 0 ==> best_of(s, n, depth, flip, maximizing) == worst(maximizing),
    decreases n,
{
    let scores = child_scores(s, depth, flip, maximizing);
    if n > 0 {
        lemma_best_of_is_extremum(s, (n - 1) as nat, depth, flip, maximizing);
        let rest = best_of(s, (n - 1) as nat, depth, flip, maximizing);
        let child = scores[n - 1];
        lemma_minimax_bounds(s.successor(s.legal_moves()[n - 1]), depth, flip, !maximizing);
        if n == 1 {
            assert(rest == worst(maximizing));
            if !better(child, rest, maximizing) {
                assert(child == rest);
            }
            assert(scores[0] == best_of(s, n, depth, flip, maximizing));
        } else if better(child, rest, maximizing) {
            assert(scores[n - 1] == best_of(s, n, depth, flip, maximizing));
        } else {
            let k = choose|i: int| 0 <= i < n - 1 && #[trigger] scores[i] == rest;
            assert(scores[k] == best_of(s, n, depth, flip, maximizing));
        }
    }
}

/// A sequence has at most one winning place.
pub proof fn lemma_first_best_unique(scores: Seq<int>, i: int, j: int, maximizing: bool)
    requires
        is_first_best(scores, i, maximizing),
        is_first_best(scores, j, maximizing),
    ensures
        i == j,
{
    if i < j {
        assert(better(scores[j], scores[i], maximizing));
        assert(!better(scores[j], scores[i], maximizing));
    } else if j < i {
        assert(better(scores[i], scores[j], maximizing));
        assert(!better(scores[i], scores[j], maximizing));
    }
}

/// A sequence that is not empty has a winning place, and `first_best` is it.
pub proof fn lemma_first_best_exists(scores: Seq<int>, maximizing: bool)
    requires
        scores.len() > 0,
    ensures
        is_first_best(scores, first_best(scores, maximizing), maximizing),
    decreases scores.len(),
{
    if scores.len() == 1 {
        assert(is_first_best(scores, 0, maximizing));
    } else {
        let front = scores.drop_last();
        lemma_first_best_exists(front, maximizing);
        let k = first_best(front, maximizing);
        let last = scores.len() - 1;
        if better(scores[last], front[k], maximizing) {
            assert forall|j: int| 0 <= j < scores.len() implies !better(
                #[trigger] scores[j],
                scores[last],
                maximizing,
            ) by {
                if j < last {
                    assert(!better(front[j], front[k], maximizing));
                }
            }
            assert forall|j: int| 0 <= j < last implies better(
                scores[last],
                #[trigger] scores[j],
                maximizing,
            ) by {
                assert(!better(front[j], front[k], maximizing));
            }
            assert(is_first_best(scores, last, maximizing));
        } else {
            assert forall|j: int| 0 <= j < scores.len() implies !better(
                #[trigger] scores[j],
                scores[k],
                maximizing,
            ) by {
                if j < last {
                    assert(!better(front[j], front[k], maximizing));
                }
            }
            assert forall|j: int| 0 <= j < k implies better(
                scores[k],
                #[trigger] scores[j],
                maximizing,
            ) by {
                assert(better(front[k], front[j], maximizing));
            }
            assert(is_first_best(scores, k, maximizing));
        }
    }
}

/// The winning place, once one is known, is the one that `first_best` names.
pub proof fn lemma_first_best_is(scores: Seq<int>, i: int, maximizing: bool)
    requires
        is_first_best(scores, i, maximizing),
    ensures
        first_best(scores, maximizing) == i,
{
    lemma_first_best_unique(scores, first_best(scores, maximizing), i, maximizing);
}

/// How the winning place moves when one more score is taken into account:
/// to the new score if it beats the winner so far or is the first score at
/// all, and not otherwise.
pub proof fn lemma_first_best_step(scores: Seq<int>, n: int, at: int, maximizing: bool)
    requires
        0 <= n < scores.len(),
        n > 0 ==> is_first_best(scores.take(n), at, maximizing),
    ensures
        n == 0 || better(scores[n], scores[at], maximizing) ==> is_first_best(
            scores.take(n + 1),
            n,
            maximizing,
        ),
        n > 0 && !better(scores[n], scores[at], maximizing) ==> is_first_best(
            scores.take(n + 1),
            at,
            maximizing,
        ),
{
    let before = scores.take(n);
    let after = scores.take(n + 1);
    if n == 0 || better(scores[n], scores[at], maximizing) {
        assert forall|j: int| 0 <= j < after.len() implies !better(
            #[trigger] after[j],
            after[n],
            maximizing,
        ) by {
            if j < n {
                assert(!better(before[j], before[at], maximizing));
            }
        }
        assert forall|j: int| 0 <= j < n implies better(after[n], #[trigger] after[j], maximizing) by {
            assert(!better(before[j], before[at], maximizing));
        }
    } else {
        assert forall|j: int| 0 <= j < after.len() implies !better(
            #[trigger] after[j],
            after[at],
            maximizing,
        ) by {
            if j < n {
                assert(!better(before[j], before[at], maximizing));
            }
        }
        assert forall|j: int| 0 <= j < at implies better(after[at], #[trigger] after[j], maximizing) by {
            assert(better(before[at], before[j], maximizing));
        }
    }
}

/// A search of depth zero reads the evaluations of the successors as they
/// stand and goes no further: the score of each movement is the evaluation
/// of the position it leads to, and the score of the position searched is
/// the highest of them, or the lowest score there is at a terminal position.
pub proof fn lemma_one_ply_reads_evaluations<G: GameState>(s: G)
    ensures
        forall|i: int|
            0 <= i < s.legal_moves().len() ==> #[trigger] child_scores(s, 0, false, true)[i]
                == s.successor(s.legal_moves()[i]).evaluation(),
        forall|i: int|
            0 <= i < s.legal_moves().len() ==> s.successor(
                #[trigger] s.legal_moves()[i],
            ).evaluation() <= best_score(s, 0),
        s.legal_moves().len() > 0 ==> exists|i: int|
            0 <= i < s.legal_moves().len() && best_score(s, 0) == s.successor(
                #[trigger] s.legal_moves()[i],
            ).evaluation(),
        s.legal_moves().len() == 0 ==> best_score(s, 0) == i8::MIN,
{
    let scores = child_scores(s, 0, false, true);
    let len = s.legal_moves().len();
    lemma_best_of_is_extremum(s, len, 0, false, true);
    assert forall|i: int| 0 <= i < len implies s.successor(
        #[trigger] s.legal_moves()[i],
    ).evaluation() <= best_score(s, 0) by {
        assert(!better(scores[i], best_of(s, len, 0, false, true), true));
    }
    if len > 0 {
        let k = choose|i: int| 0 <= i < len && #[trigger] scores[i] == best_of(s, len, 0, false, true);
        assert(best_score(s, 0) == s.successor(s.legal_moves()[k]).evaluation());
    }
}

/// The movement selected and the score of the position go together: at a
/// position that is not terminal, the score of the selected movement is the
/// minimax score of the position.
pub proof fn lemma_selected_score_is_best<G: GameState>(
    s: G,
    depth: nat,
    flip: bool,
    maximizing: bool,
)
    requires
        s.legal_moves().len() > 0,
    ensures
        is_first_best(
            child_scores(s, depth, flip, maximizing),
            first_best(child_scores(s, depth, flip, maximizing), maximizing),
            maximizing,
        ),
        child_scores(s, depth, flip, maximizing)[first_best(
            child_scores(s, depth, flip, maximizing),
            maximizing,
        )] == minimax(s, depth + 1, flip, maximizing),
{
    let scores = child_scores(s, depth, flip, maximizing);
    let len = s.legal_moves().len();
    lemma_first_best_exists(scores, maximizing);
    lemma_best_of_is_extremum(s, len, depth, flip, maximizing);
    let at = first_best(scores, maximizing);
    let k = choose|i: int|
        0 <= i < len && #[trigger] scores[i] == best_of(s, len, depth, flip, maximizing);
    assert(!better(scores[k], scores[at], maximizing));
    assert(!better(scores[at], best_of(s, len, depth, flip, maximizing), maximizing));
}

/// Ties keep the earlier movement: a score that also stands at an earlier
/// place never wins the selection.
pub proof fn lemma_ties_keep_the_earlier(scores: Seq<int>, i: int, j: int, maximizing: bool)
    requires
        0 <= i < j < scores.len(),
        scores[i] == scores[j],
    ensures
        first_best(scores, maximizing) != j,
{
    lemma_first_best_exists(scores, maximizing);
    if first_best(scores, maximizing) == j {
        assert(better(scores[j], scores[i], maximizing));
    }
}

/// A search selects no movement exactly at a terminal position, whatever
/// its depth.
pub proof fn lemma_none_only_at_terminal<G: GameState>(s: G, depth: nat)
    ensures
        best_move(s, depth) is None <==> s.legal_moves().len() == 0,
        best_move(s, depth) matches Some(movement) ==> s.legal_moves().contains(movement),
{
    if s.legal_moves().len() > 0 {
        lemma_selected_score_is_best(s, depth, flips(depth), true);
        let at = first_best(child_scores(s, depth, flips(depth), true), true);
        assert(s.legal_moves()[at] == s.legal_moves()[at]);
    }
}

} // verus!
