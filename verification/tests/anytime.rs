use blobwar::alphabeta::{alpha_beta_anytime, AlphaBeta};
use blobwar::anytime::{Deepening, DEPTH_CEILING};
use blobwar::minmax::{min_max_anytime, MinMax};
use blobwar::minmax_par::{min_max_par_anytime, MinMaxPar};
use blobwar::movement::Movement;
use blobwar::shmem::Published;
use blobwar::strategy::Strategy;
use blobwar::tree::GameTree;

const A: Movement = Movement { origin: 0, target: 1 };
const B: Movement = Movement { origin: 0, target: 2 };

/// The better movement at one ply is the worse one at two.
fn trap() -> GameTree {
    GameTree::leaf(0)
        .with_branch(
            A,
            GameTree::leaf(9).with_branch(A, GameTree::leaf(50)).with_branch(B, GameTree::leaf(60)),
        )
        .with_branch(
            B,
            GameTree::leaf(1).with_branch(A, GameTree::leaf(-10)).with_branch(B, GameTree::leaf(-20)),
        )
}

fn expected(published: Option<Movement>) -> Published {
    match published {
        None => Published::NoMove,
        Some(movement) => Published::Move(movement),
    }
}

#[test]
fn a_new_session_has_published_nothing() {
    let session = Deepening::new();
    assert_eq!(session.completed_depth(), 0);
    assert_eq!(session.next_depth(), Some(1));
    assert_eq!(session.slot().published(), Published::Nothing);
    assert_eq!(DEPTH_CEILING, 100);
}

#[test]
fn each_step_publishes_the_result_of_its_depth() {
    let tree = trap();
    let state = tree.position();
    let mut session = Deepening::new();
    assert!(min_max_anytime(&state, &mut session));
    assert_eq!(session.completed_depth(), 1);
    // Depth 1: the replies are read negated and the opponent minimizes.
    assert_eq!(session.slot().load(), MinMax(1).compute_next_move(&state));
    assert_eq!(session.slot().load(), Some(B));
    assert!(alpha_beta_anytime(&state, &mut session));
    assert_eq!(session.completed_depth(), 2);
    assert_eq!(session.slot().published(), expected(AlphaBeta(2).compute_next_move(&state)));
    assert!(min_max_par_anytime(&state, &mut session));
    assert_eq!(session.completed_depth(), 3);
    assert_eq!(session.slot().published(), expected(MinMaxPar(3).compute_next_move(&state)));
}

#[test]
fn stopping_anywhere_leaves_a_whole_answer() {
    let tree = trap();
    let state = tree.position();
    for stop in 1..30u8 {
        let mut session = Deepening::new();
        for _ in 0..stop {
            assert!(alpha_beta_anytime(&state, &mut session));
        }
        assert_eq!(session.completed_depth(), stop);
        let published = session.slot().published();
        assert_eq!(published, expected(MinMax(stop).compute_next_move(&state)));
        match published {
            Published::Move(movement) => assert!(movement == A || movement == B),
            other => panic!("depth {} left {:?}", stop, other),
        }
    }
}

#[test]
fn deepening_stops_below_the_ceiling() {
    let tree = trap();
    let state = tree.position();
    let mut session = Deepening::new();
    let mut steps = 0;
    while min_max_anytime(&state, &mut session) {
        steps += 1;
        assert_eq!(session.completed_depth(), steps);
    }
    assert_eq!(steps, 99);
    assert_eq!(session.next_depth(), None);
    let before = session.slot().record();
    assert!(!alpha_beta_anytime(&state, &mut session));
    assert!(!min_max_par_anytime(&state, &mut session));
    assert_eq!(session.completed_depth(), 99);
    assert_eq!(session.slot().record(), before);
}

#[test]
fn a_terminal_position_publishes_no_move() {
    let tree = GameTree::leaf(3);
    let state = tree.position();
    let mut session = Deepening::new();
    assert_eq!(session.slot().published(), Published::Nothing);
    assert!(min_max_par_anytime(&state, &mut session));
    assert_eq!(session.slot().published(), Published::NoMove);
    assert_eq!(session.slot().load(), None);
    assert_eq!(session.slot().record(), 65536);
}

#[test]
fn the_three_engines_publish_the_same_records() {
    let tree = trap();
    let state = tree.position();
    let mut first = Deepening::new();
    let mut second = Deepening::new();
    let mut third = Deepening::new();
    for _ in 0..12 {
        assert!(min_max_anytime(&state, &mut first));
        assert!(alpha_beta_anytime(&state, &mut second));
        assert!(min_max_par_anytime(&state, &mut third));
        assert_eq!(first.slot().record(), second.slot().record());
        assert_eq!(first.slot().record(), third.slot().record());
    }
}
