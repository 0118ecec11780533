use alpha_tak::analysis::{write_game, Mark};
use alpha_tak::bot::{choose_move, record_with_info, wait_for_message, MoveChoice};

#[test]
fn first_move_as_white_is_fixed() {
    assert_eq!(choose_move(0, "", true), MoveChoice::Fixed("e5".to_string()));
}

#[test]
fn instant_win_comes_before_the_book() {
    assert_eq!(choose_move(1, "a1", true), MoveChoice::InstantWin);
}

#[test]
fn book_replies_to_corner_openings() {
    assert_eq!(choose_move(1, "a1", false), MoveChoice::Fixed("e5".to_string()));
    assert_eq!(choose_move(1, "a5", false), MoveChoice::Fixed("e1".to_string()));
    assert_eq!(choose_move(1, "e1", false), MoveChoice::Fixed("a5".to_string()));
    assert_eq!(choose_move(1, "e5", false), MoveChoice::Fixed("a1".to_string()));
    assert_eq!(choose_move(1, "c3", false), MoveChoice::Search);
    assert_eq!(choose_move(3, "a1", false), MoveChoice::Search);
}

#[test]
fn only_searched_moves_after_the_opening_carry_info() {
    assert!(record_with_info(2, &MoveChoice::Search));
    assert!(!record_with_info(1, &MoveChoice::Search));
    assert!(!record_with_info(5, &MoveChoice::InstantWin));
}

#[test]
fn pondering_stops_at_the_limit() {
    assert!(!wait_for_message(9_999));
    assert!(wait_for_message(10_000));
}

#[test]
fn marks_as_ptn() {
    assert_eq!(Mark::Blunder.to_string(), "??");
    assert_eq!(Mark::Mistake.to_string(), "?");
    assert_eq!(Mark::Strong.to_string(), "!");
    assert_eq!(Mark::Brilliancy.to_string(), "!!");
}

#[test]
fn writes_a_finished_game() {
    let plies: Vec<String> = ["a1", "e5", "c3"].iter().map(|s| s.to_string()).collect();
    assert_eq!(
        write_game(5, 2, &plies),
        "[Size \"5\"]\n[Komi \"2\"]\n1. a1 e5\n2. c3 \n"
    );
    assert_eq!(write_game(6, -1, &vec![]), "[Size \"6\"]\n[Komi \"-1\"]\n");
}
