//! Depth-limited adversarial search for two-player, zero-sum board games,
//! with an anytime mode that deepens one ply at a time and publishes each
//! finished result through a slot of one fixed-size record.
//!
//! Three conventions hold throughout.
//!
//! *Depth.* A strategy of depth `d` plays each legal movement and searches
//! the position reached `d` plies deep. Depth 0 compares the evaluations of
//! the successors as they stand.
//!
//! *Sign.* Evaluations are read at the leaves only. A search whose depth is
//! odd negates them, and negation saturates: the lowest evaluation becomes
//! the highest. The player to move at the root maximizes, the opponent
//! minimizes, and so on in turn. A position without legal movements that is
//! reached above the leaves scores lowest for the one who maximizes there
//! and highest for the one who minimizes.
//!
//! *Ties.* Among movements of equal score the one generated first is kept.
//! A strategy that searches returns no movement at a terminal position and
//! nowhere else.

pub mod movement;
pub mod game;
pub mod strategy;
pub mod label;
pub mod tree;
pub mod value;
pub mod minmax;
pub mod alphabeta;
pub mod minmax_par;
pub mod greedy;
pub mod shmem;
pub mod anytime;
