use alpha_tak::notation::{tps_board, tps_text_readable};
use alpha_tak::ptn::{
    parse_position, parse_ptn, PositionError, PositionField, PtnError, PtnOption, Reserves,
};

#[test]
fn reads_a_game_file() {
    let text = "[Size \"5\"]\n[Komi \"2\"]\n[Player1 \"a\"]\n\n1. a1 e5 {opening}\n2. Cc3 2a2>11 \n3. e4 -- 1-0\n";
    let (game, plies) = parse_ptn::<5>(text).unwrap();
    assert_eq!(game.half_komi, 4);
    assert_eq!(game.tps, None);
    assert_eq!(game.reserves, Some((21, 1)));
    assert_eq!(plies, vec!["a1", "e5", "Cc3", "2a2>11", "e4"]);
}

#[test]
fn reads_reserves_options() {
    let text = "[Flats '20'] [Caps \"2\"]\n1. a1";
    let (game, plies) = parse_ptn::<6>(text).unwrap();
    assert_eq!(game.half_komi, 0);
    assert_eq!(game.reserves, Some((20, 2)));
    assert_eq!(plies, vec!["a1"]);
}

#[test]
fn a_tps_option_leaves_reserves_to_the_position() {
    let text = "[TPS \"x5/x5/x5/x5/x5 1 1\"]\n[Komi \"-1\"]\n1. c3";
    let (game, plies) = parse_ptn::<5>(text).unwrap();
    assert_eq!(game.tps.as_deref(), Some("x5/x5/x5/x5/x5 1 1"));
    assert_eq!(game.reserves, None);
    assert_eq!(game.half_komi, -2);
    assert_eq!(plies, vec!["c3"]);
}

#[test]
fn size_mismatch_is_refused() {
    assert_eq!(
        parse_ptn::<5>("[Size \"6\"]\n1. a1").unwrap_err(),
        PtnError::SizeMismatch { expected: 5, found: 6 }
    );
}

#[test]
fn fractional_komi_is_refused() {
    assert_eq!(
        parse_ptn::<5>("[Komi \"2.5\"]").unwrap_err(),
        PtnError::InvalidNumber(PtnOption::Komi)
    );
}

#[test]
fn negative_flats_are_refused() {
    assert_eq!(
        parse_ptn::<5>("[Flats \"-3\"]").unwrap_err(),
        PtnError::InvalidNumber(PtnOption::Flats)
    );
}

#[test]
fn komi_beyond_half_komi_range_is_refused() {
    assert_eq!(parse_ptn::<5>("[Komi \"64\"]").unwrap_err(), PtnError::KomiOutOfRange);
    assert_eq!(parse_ptn::<5>("[Komi \"-64\"]").unwrap().0.half_komi, -128);
}

#[test]
fn first_bad_option_decides_the_error() {
    assert_eq!(
        parse_ptn::<5>("[Caps \"x\"] [Size \"4\"]").unwrap_err(),
        PtnError::InvalidNumber(PtnOption::Caps)
    );
}

#[test]
fn position_with_reserves() {
    let p = parse_position::<5>("x5/x5/x5/x5/x5 1 1;20;1;21;0;5").unwrap();
    assert_eq!(p.tps, "x5/x5/x5/x5/x5 1 1");
    assert_eq!(
        p.reserves,
        Some(Reserves {
            white_stones: 20,
            white_caps: 1,
            black_stones: 21,
            black_caps: 0
        })
    );
    assert_eq!(p.half_komi, 5);
}

#[test]
fn position_without_reserves_assumes_komi_two() {
    let p = parse_position::<5>("x5/x5/x5/x5/x5 1 1").unwrap();
    assert_eq!(p.reserves, None);
    assert_eq!(p.half_komi, 4);
}

#[test]
fn position_missing_fields() {
    assert_eq!(
        parse_position::<5>("x5/x5/x5/x5/x5 1 1;20").unwrap_err(),
        PositionError::Missing(PositionField::WhiteCaps)
    );
    assert_eq!(
        parse_position::<5>("x5/x5/x5/x5/x5 1 1;20;1;21;1").unwrap_err(),
        PositionError::Missing(PositionField::HalfKomi)
    );
}

#[test]
fn position_invalid_fields() {
    assert_eq!(
        parse_position::<5>("x5/x5/x5/x5/x5 1 1;x;1;21;1;4").unwrap_err(),
        PositionError::InvalidNumber(PositionField::WhiteStones)
    );
    assert_eq!(
        parse_position::<5>("x5/x5/x5/x5/x5 1 1;20;1;21;1;300").unwrap_err(),
        PositionError::InvalidNumber(PositionField::HalfKomi)
    );
}

#[test]
fn plies_are_read_as_moves_in_canonical_form() {
    let (_, plies) = parse_ptn::<5>("1. Fa1 e5'\n2. 1c3+1 Sd4!?").unwrap();
    assert_eq!(plies, vec!["a1", "e5", "c3+", "Sd4"]);
}

#[test]
fn a_ply_that_is_not_a_move_is_refused() {
    assert_eq!(parse_ptn::<5>("1. a1 e9x").unwrap_err(), PtnError::InvalidMove);
    assert_eq!(parse_ptn::<5>("1. a1 3a1+11").unwrap_err(), PtnError::InvalidMove);
}

#[test]
fn the_tps_option_must_hold_a_position() {
    assert_eq!(parse_ptn::<5>("[TPS \"x5/x5 1 1\"]").unwrap_err(), PtnError::InvalidTps);
    assert_eq!(parse_ptn::<5>("[TPS \"bad\"] [Komi \"x\"]").unwrap_err(), PtnError::InvalidTps);
    let (game, _) = parse_ptn::<3>("[TPS \"x,x,x/x3/1,2,x 1 2\"]").unwrap();
    assert_eq!(game.tps.as_deref(), Some("x3/x3/1,2,x 1 2"));
}

#[test]
fn a_position_must_start_with_tps() {
    assert_eq!(parse_position::<5>("nonsense").unwrap_err(), PositionError::InvalidTps);
    assert_eq!(parse_position::<5>("x5/x5/x5/x5/x5 1;20").unwrap_err(), PositionError::InvalidTps);
    assert_eq!(parse_position::<5>("x,x4/x5/x5/x5/x5 1 1").unwrap().tps, "x5/x5/x5/x5/x5 1 1");
}

#[test]
fn long_runs_of_empty_squares_are_refused_before_reading() {
    assert!(tps_text_readable("x5/x5/x5/x5/x5 1 1"));
    assert!(tps_text_readable("x,x4/x5/x5/x5/x5 2 10"));
    assert!(!tps_text_readable("x18446744073709551615,1 1 1"));
    assert!(!tps_text_readable("x10/x10 1 1"));
    assert!(!tps_text_readable("x5/x5/x5/x5/x5 1"));
    assert!(!tps_text_readable("x5/x5/x5/x5/x5 1 1 1"));
    assert!(!tps_text_readable("x5,1/x5/x5/x5/x5 1 1"));
    assert!(!tps_text_readable("xx/x5/x5/x5/x5 1 1"));
    assert!(tps_text_readable(" 1 1"));
    assert!(tps_text_readable("x4/x5/x5/x5/x5 1 1"));
    assert_eq!(
        parse_position::<5>("x18446744073709551615,1,x1 1 1").unwrap_err(),
        PositionError::InvalidTps
    );
    assert_eq!(
        parse_ptn::<5>("[TPS \"x18446744073709551615,1 1 1\"]").unwrap_err(),
        PtnError::InvalidTps
    );
    assert_eq!(tps_board("x18446744073709551615,1,x1 1 1", 3), None);
}

#[test]
fn runs_with_leading_zeros_or_a_sign_are_read() {
    assert!(tps_text_readable("x01,x2/x3/x3 1 1"));
    assert_eq!(parse_position::<3>("x01,x2/x3/x3 1 1").unwrap().tps, "x3/x3/x3 1 1");
    assert!(tps_text_readable("x+5/x5/x5/x5/x5 1 1"));
    let (game, _) = parse_ptn::<5>("[TPS \"x+5/x05/x5/x5/x5 2 3\"]").unwrap();
    assert_eq!(game.tps.as_deref(), Some("x5/x5/x5/x5/x5 2 3"));
    assert!(tps_board("x03/x3/x3 1 1", 3).is_some());
}
