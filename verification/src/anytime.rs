//! Iterative deepening that can be stopped at any moment: one search per
//! depth, each result published whole as soon as its search has finished.

use vstd::prelude::*;
use crate::movement::Movement;
use crate::game::GameState;
use crate::shmem::{publication, Published, SharedSlot};
use crate::value::{best_move, child_scores, first_best, flips, lemma_first_best_exists};

verus! {

/// The depth that deepening stops short of: searches run at depths 1 to 99.
pub const DEPTH_CEILING: u8 = 100;

/// The progress of one deepening session: how many depths have been
/// searched to the end, and the slot with the result of the last of them.
///
/// Nothing else changes the slot, and a step changes it once, at its very
/// end. Whenever the session is abandoned, the slot therefore holds the
/// whole result of the deepest search that finished, or nothing if none did.
pub struct Deepening {
    completed: u8,
    slot: SharedSlot,
}

impl Deepening {
    /// The depth of the deepest search that has finished; 0 before the first.
    pub closed spec fn completed(&self) -> nat {
        self.completed as nat
    }

    /// What the slot of the session holds.
    pub closed spec fn published(&self) -> Published {
        self.slot@
    }

    /// Whether the session is one of searches at `state`: before the first
    /// search has finished its slot holds nothing, and after that it holds
    /// the movement owed at `state` for the depth completed last.
    pub open spec fn tracks<G: GameState>(&self, state: G) -> bool {
        &&& self.completed() < DEPTH_CEILING
        &&& self.completed() == 0 ==> self.published() == Published::Nothing
        &&& self.completed() > 0 ==> self.published() == publication(
            best_move(state, self.completed()),
        )
    }

    /// A session in which no search has run yet.
    pub fn new() -> (session: Self)
        ensures
            session.completed() == 0,
            session.published() == Published::Nothing,
    {
        Deepening { completed: 0, slot: SharedSlot::new() }
    }

    /// The depth of the deepest search that has finished; 0 before the first.
    pub fn completed_depth(&self) -> (depth: u8)
        ensures
            depth == self.completed(),
    {
        self.completed
    }

    /// The slot with the result published last.
    pub fn slot(&self) -> (slot: &SharedSlot)
        ensures
            slot@ == self.published(),
    {
        &self.slot
    }

    /// The depth of the next search, or none once the deepest one has run.
    pub fn next_depth(&self) -> (depth: Option<u8>)
        ensures
            depth is Some <==> self.completed() + 1 < DEPTH_CEILING,
            depth matches Some(d) ==> d == self.completed() + 1,
    {
        if self.completed < DEPTH_CEILING - 1 {
            Some(self.completed + 1)
        } else {
            None
        }
    }

    /// Publishes the result of the search at the next depth.
    pub(crate) fn publish(&mut self, chosen: Option<Movement>)
        requires
            old(self).completed() + 1 < DEPTH_CEILING,
        ensures
            final(self).completed() == old(self).completed() + 1,
            final(self).published() == publication(chosen),
    {
        self.slot.store(chosen);
        self.completed = self.completed + 1;
    }
}

/// What the slot holds after a search has finished is a whole answer: never
/// the empty slot, the result "no movement" exactly at a terminal position,
/// and otherwise a legal movement, the one owed for the depth completed.
pub proof fn lemma_published_is_an_answer<G: GameState>(session: Deepening, state: G)
    requires
        session.tracks(state),
        session.completed() > 0,
    ensures
        session.published() != Published::Nothing,
        session.published() == Published::NoMove <==> state.legal_moves().len() == 0,
        session.published() matches Published::Move(movement) ==> state.legal_moves().contains(
            movement,
        ) && best_move(state, session.completed()) == Some(movement),
{
    let depth = session.completed();
    if state.legal_moves().len() > 0 {
        let scores = child_scores(state, depth, flips(depth), true);
        lemma_first_best_exists(scores, true);
        let at = first_best(scores, true);
        assert(state.legal_moves()[at] == state.legal_moves()[at]);
    }
}

} // verus!
