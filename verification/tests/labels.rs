use blobwar::alphabeta::AlphaBeta;
use blobwar::greedy::Greedy;
use blobwar::label::{plain, with_level};
use blobwar::minmax::MinMax;
use blobwar::minmax_par::MinMaxPar;

#[test]
fn strategies_show_their_name_and_depth() {
    assert_eq!(MinMax(3).to_string(), "Min - Max (max level: 3)");
    assert_eq!(MinMaxPar(2).to_string(), "Min - Max (max level: 2)");
    assert_eq!(AlphaBeta(4).to_string(), "Alpha - Beta (max level: 4)");
    assert_eq!(Greedy().to_string(), "Greedy");
}

#[test]
fn depths_are_written_in_base_ten() {
    assert_eq!(AlphaBeta(0).to_string(), "Alpha - Beta (max level: 0)");
    assert_eq!(AlphaBeta(9).to_string(), "Alpha - Beta (max level: 9)");
    assert_eq!(AlphaBeta(10).to_string(), "Alpha - Beta (max level: 10)");
    assert_eq!(AlphaBeta(99).to_string(), "Alpha - Beta (max level: 99)");
    assert_eq!(AlphaBeta(100).to_string(), "Alpha - Beta (max level: 100)");
    assert_eq!(AlphaBeta(107).to_string(), "Alpha - Beta (max level: 107)");
    assert_eq!(AlphaBeta(255).to_string(), "Alpha - Beta (max level: 255)");
    for level in 0..=255u8 {
        assert_eq!(with_level("Depth", level), format!("Depth (max level: {})", level));
    }
}

#[test]
fn a_plain_label_is_its_title() {
    assert_eq!(plain("Greedy"), "Greedy");
    assert_eq!(plain(""), "");
    assert_eq!(with_level("", 5), " (max level: 5)");
}
