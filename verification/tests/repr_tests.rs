use alpha_tak::repr::{
    board_channels, default_starting_stones, input_channels, moves_dims, possible_moves,
};

#[test]
fn board_channels_per_size() {
    assert_eq!(board_channels(3), 22);
    assert_eq!(board_channels(5), 26);
    assert_eq!(board_channels(8), 32);
}

#[test]
fn starting_stones_per_size() {
    assert_eq!(default_starting_stones(3), (10, 0));
    assert_eq!(default_starting_stones(4), (15, 0));
    assert_eq!(default_starting_stones(5), (21, 1));
    assert_eq!(default_starting_stones(6), (30, 1));
    assert_eq!(default_starting_stones(7), (40, 2));
    assert_eq!(default_starting_stones(8), (50, 2));
}

#[test]
fn input_channels_per_size() {
    // board, colour, flat count difference, reserves of both players
    assert_eq!(input_channels(5), 26 + 1 + 1 + 2 * 21 + 2 * 1);
    assert_eq!(input_channels(3), 22 + 1 + 1 + 2 * 10);
    assert_eq!(input_channels(6), 28 + 1 + 1 + 2 * 30 + 2 * 1);
}

#[test]
fn possible_moves_per_size() {
    assert_eq!(possible_moves(3), 126);
    assert_eq!(possible_moves(4), 480);
    assert_eq!(possible_moves(5), 1575);
    assert_eq!(possible_moves(6), 4572);
    assert_eq!(possible_moves(7), 12495);
    assert_eq!(possible_moves(8), 32704);
}

#[test]
fn moves_dims_agrees_with_possible_moves() {
    for n in 3..=8 {
        assert_eq!(moves_dims(n), possible_moves(n));
    }
}
