use alpha_tak::colour::Colour;
use alpha_tak::pit::{tally_pairs, GameResult, PitResult};

#[test]
fn update_counts_from_the_given_side() {
    let mut r = PitResult::new();
    r.update(GameResult::Winner(Colour::White), Colour::White);
    r.update(GameResult::Winner(Colour::White), Colour::Black);
    r.update(GameResult::Draw, Colour::Black);
    r.update(GameResult::Ongoing, Colour::White);
    assert_eq!((r.wins(), r.draws(), r.losses()), (1, 1, 1));
}

#[test]
fn default_pit_result_is_empty() {
    let r = PitResult::default();
    assert_eq!((r.wins(), r.draws(), r.losses()), (0, 0, 0));
}

#[test]
fn tally_of_paired_games() {
    let games = vec![
        (GameResult::Winner(Colour::White), GameResult::Winner(Colour::Black)),
        (GameResult::Winner(Colour::Black), GameResult::Draw),
        (GameResult::Draw, GameResult::Winner(Colour::White)),
    ];
    let r = tally_pairs(&games);
    assert_eq!((r.wins(), r.draws(), r.losses()), (2, 2, 2));
}

#[test]
fn tally_is_zero_sum() {
    let games = vec![
        (GameResult::Winner(Colour::White), GameResult::Winner(Colour::White)),
        (GameResult::Winner(Colour::Black), GameResult::Draw),
        (GameResult::Winner(Colour::White), GameResult::Ongoing),
    ];
    let swapped: Vec<_> = games.iter().map(|&(a, b)| (b, a)).collect();
    let r = tally_pairs(&games);
    let s = tally_pairs(&swapped);
    assert_eq!((r.wins(), r.draws(), r.losses()), (s.losses(), s.draws(), s.wins()));
    assert_eq!(r.wins() + r.draws() + r.losses(), 5);
}
