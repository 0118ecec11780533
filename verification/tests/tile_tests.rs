use alpha_tak::colour::Colour;
use alpha_tak::tile::{Piece, Shape, Tile};

fn piece(colour: Colour, shape: Shape) -> Piece {
    Piece { colour, shape }
}

#[test]
fn new_tile_holds_one_piece() {
    let tile = Tile::new(piece(Colour::White, Shape::Wall));
    assert_eq!(tile.size(), 1);
    assert_eq!(tile.top, piece(Colour::White, Shape::Wall));
    assert!(tile.stack.is_empty());
}

#[test]
fn stack_on_flat_grows_the_tile() {
    let tile = Tile::new(piece(Colour::White, Shape::Flat));
    let tile = tile.stack(piece(Colour::Black, Shape::Wall)).unwrap();
    assert_eq!(tile.size(), 2);
    assert_eq!(tile.top, piece(Colour::Black, Shape::Wall));
    assert_eq!(tile.stack, vec![Colour::White]);
}

#[test]
fn capstone_flattens_a_wall() {
    let tile = Tile::new(piece(Colour::Black, Shape::Wall));
    let tile = tile.stack(piece(Colour::White, Shape::Capstone)).unwrap();
    assert_eq!(tile.top, piece(Colour::White, Shape::Capstone));
    assert_eq!(tile.stack, vec![Colour::Black]);
}

#[test]
fn only_a_capstone_flattens_a_wall() {
    let tile = Tile::new(piece(Colour::Black, Shape::Wall));
    let err = tile.stack(piece(Colour::White, Shape::Flat)).unwrap_err();
    assert_eq!(err, "can only flatten a wall with a capstone");
}

#[test]
fn nothing_stacks_on_a_capstone() {
    let tile = Tile::new(piece(Colour::Black, Shape::Capstone));
    let err = tile.stack(piece(Colour::White, Shape::Capstone)).unwrap_err();
    assert_eq!(err, "cannot create a stack on top of a capstone");
}

fn three_stack() -> Tile {
    Tile {
        top: piece(Colour::White, Shape::Wall),
        stack: vec![Colour::Black, Colour::White],
    }
}

#[test]
fn take_zero_is_refused() {
    assert_eq!(three_stack().take::<5>(0).unwrap_err(), "cannot take 0 from a tile");
}

#[test]
fn take_beyond_carry_limit_is_refused() {
    assert_eq!(
        three_stack().take::<2>(3).unwrap_err(),
        "cannot take more than the carry limit, amount=3"
    );
}

#[test]
fn take_more_than_the_stack_is_refused() {
    assert_eq!(
        three_stack().take::<12>(11).unwrap_err(),
        "cannot take more pieces than there are on the tile, amount=11, count=3"
    );
}

#[test]
fn take_part_of_a_stack() {
    let (left, carry) = three_stack().take::<5>(2).unwrap();
    assert_eq!(
        carry,
        vec![piece(Colour::White, Shape::Wall), piece(Colour::White, Shape::Flat)]
    );
    assert_eq!(
        left,
        Some(Tile {
            top: piece(Colour::Black, Shape::Flat),
            stack: vec![]
        })
    );
}

#[test]
fn take_a_whole_stack() {
    let (left, carry) = three_stack().take::<3>(3).unwrap();
    assert_eq!(left, None);
    assert_eq!(
        carry,
        vec![
            piece(Colour::White, Shape::Wall),
            piece(Colour::White, Shape::Flat),
            piece(Colour::Black, Shape::Flat)
        ]
    );
}

#[test]
fn take_after_stack_returns_the_stacked_piece() {
    let before = Tile {
        top: piece(Colour::Black, Shape::Wall),
        stack: vec![Colour::White],
    };
    let cap = piece(Colour::White, Shape::Capstone);
    let stacked = before.clone().stack(cap).unwrap();
    let (left, carry) = stacked.take::<5>(1).unwrap();
    assert_eq!(carry, vec![cap]);
    assert_eq!(
        left,
        Some(Tile {
            top: piece(Colour::Black, Shape::Flat),
            stack: vec![Colour::White]
        })
    );
}

#[test]
fn take_conserves_pieces() {
    let tile = Tile {
        top: piece(Colour::Black, Shape::Capstone),
        stack: vec![Colour::White, Colour::White, Colour::Black, Colour::White],
    };
    for amount in 1..=5 {
        let (left, carry) = tile.clone().take::<5>(amount).unwrap();
        let mut pieces: Vec<Piece> = match left {
            Some(t) => {
                let mut v: Vec<Piece> = t.stack.iter().map(|&c| piece(c, Shape::Flat)).collect();
                v.push(t.top);
                v
            }
            None => vec![],
        };
        pieces.extend(carry.into_iter().rev());
        let mut expected: Vec<Piece> = tile.stack.iter().map(|&c| piece(c, Shape::Flat)).collect();
        expected.push(tile.top);
        assert_eq!(pieces, expected);
    }
}

#[test]
fn restacking_the_carried_pieces_rebuilds_the_tile() {
    let tile = Tile {
        top: piece(Colour::White, Shape::Capstone),
        stack: vec![Colour::Black, Colour::White, Colour::Black, Colour::Black],
    };
    for amount in 1..=5 {
        let (left, carry) = tile.clone().take::<5>(amount).unwrap();
        let rebuilt = carry.iter().rev().fold(left, |acc, &p| {
            Some(match acc {
                None => Tile::new(p),
                Some(l) => l.stack(p).unwrap(),
            })
        });
        assert_eq!(rebuilt, Some(tile.clone()));
    }
}
