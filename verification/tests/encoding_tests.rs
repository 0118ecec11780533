use alpha_tak::colour::Colour;
use alpha_tak::encoding::{board_repr, create_reserves, reserves_repr};
use alpha_tak::notation::tps_board;
use alpha_tak::repr::board_channels;
use alpha_tak::tile::{Piece, Shape, Tile};

/// The board of a TPS string for a 5x5 board.
fn board_of(tps: &str) -> Vec<Option<Tile>> {
    tps_board(tps, 5).unwrap().0
}

#[test]
fn repr_empty_board() {
    let board = vec![None; 25];
    assert_eq!(board_repr(&board, 5, Colour::White), vec![false; board_channels(5) * 25]);
}

#[test]
fn tests_empty_board() {
    let board: Vec<Option<Tile>> = vec![None; 5 * 5];
    let bits = board_repr(&board, 5, Colour::White);
    assert_eq!(bits.len(), board_channels(5) * 5 * 5);
    assert!(bits.iter().all(|b| !b));
}

#[test]
fn repr_complicated_board() {
    let board = board_of("x2,1221,x,1S/2,2C,2,1,x/x,212,21C,2S,2/2211S,2,21,1,1/x2,221S,2,x 2 21");
    let (x, o) = (true, false);
    let mut handmade = vec![
        // my flats
        o, o, o, o, o,
        o, o, x, x, x,
        o, o, o, o, o,
        o, o, o, x, o,
        o, o, x, o, o,
        // en flats
        o, o, o, x, o,
        o, x, o, o, o,
        o, x, o, o, x,
        x, o, x, o, o,
        o, o, o, o, o,
        // my walls
        o, o, x, o, o,
        x, o, o, o, o,
        o, o, o, o, o,
        o, o, o, o, o,
        o, o, o, o, x,
        // en walls
        o, o, o, o, o,
        o, o, o, o, o,
        o, o, o, x, o,
        o, o, o, o, o,
        o, o, o, o, o,
        // my caps
        o, o, o, o, o,
        o, o, o, o, o,
        o, o, x, o, o,
        o, o, o, o, o,
        o, o, o, o, o,
        // en caps
        o, o, o, o, o,
        o, o, o, o, o,
        o, o, o, o, o,
        o, x, o, o, o,
        o, o, o, o, o,
        // my second layer
        o, o, o, o, o,
        x, o, o, o, o,
        o, x, o, o, o,
        o, o, o, o, o,
        o, o, o, o, o,
        // en second layer
        o, o, x, o, o,
        o, o, x, o, o,
        o, o, x, o, o,
        o, o, o, o, o,
        o, o, x, o, o,
        // my third layer
        o, o, o, o, o,
        o, o, o, o, o,
        o, o, o, o, o,
        o, o, o, o, o,
        o, o, o, o, o,
        // en third layer
        o, o, x, o, o,
        x, o, o, o, o,
        o, x, o, o, o,
        o, o, o, o, o,
        o, o, x, o, o,
        // my fourth layer
        o, o, o, o, o,
        o, o, o, o, o,
        o, o, o, o, o,
        o, o, o, o, o,
        o, o, x, o, o,
        // en fourth layer
        o, o, o, o, o,
        x, o, o, o, o,
        o, o, o, o, o,
        o, o, o, o, o,
        o, o, o, o, o,
    ];
    handmade.extend(vec![false; (board_channels(5) - 12) * 25]);
    let a: Vec<bool> = board_repr(&board, 5, Colour::White);
    assert_eq!(a, handmade);
}

#[test]
fn board_repr_is_colour_blind() {
    let board = board_of("x2,1221,x,1S/2,2C,2,1,x/x,212,21C,2S,2/2211S,2,21,1,1/x2,221S,2,x 2 21");
    let opposite = |c: Colour| if c == Colour::White { Colour::Black } else { Colour::White };
    let swapped: Vec<Option<Tile>> = board
        .iter()
        .map(|sq| {
            sq.as_ref().map(|t| Tile {
                top: Piece { colour: opposite(t.top.colour), shape: t.top.shape },
                stack: t.stack.iter().map(|&c| opposite(c)).collect(),
            })
        })
        .collect();
    assert_eq!(board_repr(&board, 5, Colour::White), board_repr(&swapped, 5, Colour::Black));
    assert_ne!(board_repr(&board, 5, Colour::White), board_repr(&board, 5, Colour::Black));
}

#[test]
fn reserves_are_one_hot() {
    let planes = create_reserves(2, 3, 4);
    assert_eq!(
        planes,
        vec![false, false, false, false, true, true, true, true, false, false, false, false]
    );
    assert_eq!(create_reserves(0, 2, 4), vec![false; 8]);
}

#[test]
fn reserves_from_the_side_to_move() {
    let (my_stones, en_stones, my_caps, en_caps) = reserves_repr(5, Colour::Black, 21, 20, 1, 0);
    assert_eq!(my_stones, create_reserves(20, 21, 25));
    assert_eq!(en_stones, create_reserves(21, 21, 25));
    assert_eq!(my_caps, create_reserves(0, 1, 25));
    assert_eq!(en_caps, create_reserves(1, 1, 25));
}

#[test]
fn tps_rows_run_from_the_top() {
    let (board, to_move) = tps_board("2,x2/x3/1S,x,12C 2 3", 3).unwrap();
    assert_eq!(to_move, Colour::Black);
    let flat = |colour| Piece { colour, shape: Shape::Flat };
    assert_eq!(board[0], Some(Tile { top: Piece { colour: Colour::White, shape: Shape::Wall }, stack: vec![] }));
    assert_eq!(board[1], None);
    assert_eq!(
        board[2],
        Some(Tile { top: Piece { colour: Colour::Black, shape: Shape::Capstone }, stack: vec![Colour::White] })
    );
    assert!(board[3..6].iter().all(|sq| sq.is_none()));
    assert_eq!(board[6], Some(Tile { top: flat(Colour::Black), stack: vec![] }));
    assert_eq!(board[7], None);
    assert_eq!(board[8], None);
}

#[test]
fn tps_of_another_size_or_not_tps_gives_no_board() {
    assert_eq!(tps_board("x3/x3/x3 1 1", 5), None);
    assert_eq!(tps_board("x3/x3 1 1", 3), None);
    assert_eq!(tps_board("x3/x3/x3 1", 3), None);
    assert!(tps_board("x3/x3/x3 1 1", 3).unwrap().0.iter().all(|sq| sq.is_none()));
}
