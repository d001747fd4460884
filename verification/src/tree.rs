//! A game written out in full as a tree of positions.

use vstd::prelude::*;
use crate::movement::Movement;
use crate::game::GameState;

verus! {

/// A position written out with everything that can follow it.
pub struct GameTree {
    /// Static evaluation of this position.
    pub score: i8,
    /// The legal movements, each with the position it leads to.
    pub branches: Vec<Branch>,
}

/// One legal movement of a [`GameTree`] and the subtree it leads to.
pub struct Branch {
    /// The movement played.
    pub movement: Movement,
    /// The position reached, with everything that can follow it.
    pub subtree: GameTree,
}

/// A place in a [`GameTree`], borrowed from it. Its legal movements are the
/// labels of the branches that leave it. A movement that labels several
/// branches leads down the first of them.
pub struct Position<'a> {
    /// The subtree that starts at this place.
    pub node: &'a GameTree,
}

impl GameTree {
    /// A position with nothing to follow it.
    pub fn leaf(score: i8) -> (tree: GameTree)
        ensures
            tree.score == score,
            tree.branches@.len() == 0,
    {
        GameTree { score, branches: Vec::new() }
    }

    /// The same position with one more legal movement, generated after those
    /// it has, that leads to `subtree`.
    pub fn with_branch(self, movement: Movement, subtree: GameTree) -> (tree: GameTree)
        ensures
            tree.score == self.score,
            tree.branches@ == self.branches@.push(Branch { movement, subtree }),
    {
        let mut tree = self;
        tree.branches.push(Branch { movement, subtree });
        tree
    }

    /// The position at the root of the tree.
    pub fn position(&self) -> (position: Position<'_>)
        ensures
            position.node == self,
    {
        Position { node: self }
    }

    /// The movements of the branches, in order.
    pub open spec fn branch_moves(&self) -> Seq<Movement> {
        Seq::new(self.branches@.len(), |i: int| self.branches@[i].movement)
    }

    /// Index of the first branch labelled `movement`, or the number of
    /// branches when there is none.
    pub open spec fn branch_index(&self, movement: Movement) -> int {
        choose|i: int| self.is_first_branch(i, movement)
    }

    /// Whether branch `i` is the first one labelled `movement`.
    pub open spec fn is_first_branch(&self, i: int, movement: Movement) -> bool {
        &&& 0 <= i < self.branches@.len()
        &&& self.branches@[i].movement == movement
        &&& forall|j: int| 0 <= j < i ==> self.branches@[j].movement != movement
    }
}

impl<'a> GameState for Position<'a> {
    open spec fn legal_moves(&self) -> Seq<Movement> {
        self.node.branch_moves()
    }

    open spec fn successor(&self, movement: Movement) -> Self {
        Position { node: &self.node.branches@[self.node.branch_index(movement)].subtree }
    }

    open spec fn evaluation(&self) -> i8 {
        self.node.score
    }

    fn movements(&self) -> (moves: Vec<Movement>) {
        let mut moves: Vec<Movement> = Vec::new();
        let mut i: usize = 0;
        while i < self.node.branches.len()
            invariant
                i <= self.node.branches.len(),
                moves@ == self.node.branch_moves().take(i as int),
            decreases self.node.branches.len() - i,
        {
            moves.push(self.node.branches[i].movement);
            i += 1;
        }
        moves
    }

    fn play(&self, movement: &Movement) -> (next: Self) {
        let mut i: usize = 0;
        while i < self.node.branches.len()
            invariant
                i <= self.node.branches.len(),
                forall|j: int| 0 <= j < i ==> self.node.branches@[j].movement != *movement,
            decreases self.node.branches.len() - i,
        {
            if self.node.branches[i].movement == *movement {
                proof {
                    let first = self.node.branch_index(*movement);
                    assert(self.node.is_first_branch(i as int, *movement));
                    assert(first == i);
                }
                return Position { node: &self.node.branches[i].subtree };
            }
            i += 1;
        }
        proof {
            let k = self.node.branch_moves().index_of(*movement);
            assert(self.node.branch_moves()[k] == *movement);
            assert(false);
        }
        Position { node: self.node }
    }

    fn value(&self) -> (v: i8) {
        self.node.score
    }
}

} // verus!
