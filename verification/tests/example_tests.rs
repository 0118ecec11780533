use alpha_tak::colour::Colour;
use alpha_tak::pit::GameResult;
use alpha_tak::example::{
    complete_for, complete_game, keep_latest, read_example, write_example, ExampleError, ExampleField, ExampleRecord,
    IncompleteExample, MAX_EXAMPLES, OPENING_PLIES,
};

fn record() -> ExampleRecord {
    ExampleRecord {
        tps: "x5/x5/x5/x5/x5 1 1".to_string(),
        white_stones: 21,
        white_caps: 1,
        black_stones: 20,
        black_caps: 1,
        half_komi: -3,
        result: "0.5".to_string(),
        policy: vec![("a1".to_string(), 10), ("Ce5".to_string(), 3)],
    }
}

#[test]
fn writes_the_line_format() {
    assert_eq!(
        write_example(&record()),
        "x5/x5/x5/x5/x5 1 1;21;1;20;1;-3;0.5;a1:10,Ce5:3"
    );
}

#[test]
fn reads_back_what_was_written() {
    let r = record();
    assert_eq!(read_example(&write_example(&r)), Ok(r));
}

#[test]
fn reads_a_line_with_surrounding_white_space() {
    let r = read_example("  x5/x5/x5/x5/x5 2 1;20;1;21;1;4;-1;c3:7\n").unwrap();
    assert_eq!(r.tps, "x5/x5/x5/x5/x5 2 1");
    assert_eq!((r.white_stones, r.white_caps, r.black_stones, r.black_caps), (20, 1, 21, 1));
    assert_eq!(r.half_komi, 4);
    assert_eq!(r.result, "-1");
    assert_eq!(r.policy, vec![("c3".to_string(), 7)]);
}

#[test]
fn fields_after_the_policy_are_ignored() {
    let r = read_example("x3/x3/x3 1 1;1;2;3;4;5;0;a1:1;extra").unwrap();
    assert_eq!(r.policy, vec![("a1".to_string(), 1)]);
}

#[test]
fn missing_fields_are_refused() {
    assert_eq!(
        read_example("x3/x3/x3 1 1;21"),
        Err(ExampleError::Missing(ExampleField::WhiteCaps))
    );
    assert_eq!(
        read_example("x3/x3/x3 1 1;21;1;21;1;4"),
        Err(ExampleError::Missing(ExampleField::Result))
    );
    assert_eq!(
        read_example("x3/x3/x3 1 1;21;1;21;1;4;1"),
        Err(ExampleError::Missing(ExampleField::Policy))
    );
}

#[test]
fn bad_numbers_are_refused() {
    assert_eq!(
        read_example("x3/x3/x3 1 1;21;1;x;1;4;1;a1:1"),
        Err(ExampleError::InvalidNumber(ExampleField::BlackStones))
    );
    assert_eq!(
        read_example("x3/x3/x3 1 1;21;1;21;1;200;1;a1:1"),
        Err(ExampleError::InvalidNumber(ExampleField::HalfKomi))
    );
}

#[test]
fn bad_pairs_are_refused() {
    assert_eq!(read_example("x3/x3/x3 1 1;21;1;21;1;4;1;a1"), Err(ExampleError::MissingDelimiter));
    assert_eq!(read_example("x3/x3/x3 1 1;21;1;21;1;4;1;a1:1,b2:-1"), Err(ExampleError::InvalidVisits));
    assert_eq!(read_example("x3/x3/x3 1 1;21;1;21;1;4;1;a1:x,b2"), Err(ExampleError::InvalidVisits));
    assert_eq!(read_example("x3/x3/x3 1 1;21;1;21;1;4;1;z9:1"), Err(ExampleError::InvalidMove));
    assert_eq!(read_example("x3/x3/x3 1 1;21;1;21;1;4;1;a1:1,9a1+:3"), Err(ExampleError::InvalidMove));
}

#[test]
fn the_position_must_be_tps() {
    assert_eq!(read_example("t;21;1;21;1;4;1;a1:1"), Err(ExampleError::InvalidTps));
    assert_eq!(read_example("x3/x3/x3 3 1;21;1;21;1;4;1;a1:1"), Err(ExampleError::InvalidTps));
    assert_eq!(read_example("x3/x3/x2 1 1;21"), Err(ExampleError::InvalidTps));
}

#[test]
fn position_and_moves_are_read_in_canonical_form() {
    let r = read_example("x,x,x/x3/x3 2 4;21;1;21;1;4;1;Fa1:1,1a1>1:2,b2!:3").unwrap();
    assert_eq!(r.tps, "x3/x3/x3 2 4");
    assert_eq!(
        r.policy,
        vec![("a1".to_string(), 1), ("a1>".to_string(), 2), ("b2".to_string(), 3)]
    );
}

#[test]
fn an_empty_policy_does_not_read_back() {
    let mut r = record();
    r.policy = vec![];
    let line = write_example(&r);
    assert!(line.ends_with(";0.5;"));
    assert_eq!(read_example(&line), Err(ExampleError::MissingDelimiter));
}

#[test]
fn completing_an_example_fills_in_the_result() {
    let incomplete = IncompleteExample {
        tps: "x5/x5/x5/x5/x5 1 1".to_string(),
        white_stones: 21,
        white_caps: 1,
        black_stones: 20,
        black_caps: 1,
        half_komi: -3,
        policy: vec![("a1".to_string(), 10), ("Ce5".to_string(), 3)],
    };
    assert_eq!(incomplete.complete("0.5".to_string()), record());
}

fn incomplete(visits: u32) -> IncompleteExample {
    IncompleteExample {
        tps: "x3/x3/x3 1 1".to_string(),
        white_stones: 10,
        white_caps: 0,
        black_stones: 10,
        black_caps: 0,
        half_komi: 4,
        policy: vec![("a1".to_string(), visits)],
    }
}

#[test]
fn finished_games_complete_examples_for_the_player_to_move() {
    let examples = || vec![incomplete(1), incomplete(2), incomplete(3)];
    let results = |r: &Vec<ExampleRecord>| r.iter().map(|e| e.result.clone()).collect::<Vec<_>>();
    let white = complete_game(examples(), GameResult::Winner(Colour::White), OPENING_PLIES);
    assert_eq!(results(&white), vec!["-1", "1", "-1"]);
    assert_eq!(white[1].policy, vec![("a1".to_string(), 2)]);
    let black = complete_game(examples(), GameResult::Winner(Colour::Black), 0);
    assert_eq!(results(&black), vec!["-1", "1", "-1"]);
    let draw = complete_game(examples(), GameResult::Draw, OPENING_PLIES);
    assert_eq!(results(&draw), vec!["-0", "0", "-0"]);
}

#[test]
fn result_texts_are_how_the_float_results_print() {
    let white_result: [f32; 3] = [1.0, -1.0, 0.0];
    let games = [GameResult::Winner(Colour::White), GameResult::Winner(Colour::Black), GameResult::Draw];
    for (value, game) in white_result.iter().zip(games) {
        let r = complete_game(vec![incomplete(1), incomplete(1)], game, 0);
        assert_eq!(r[0].result, format!("{}", value));
        assert_eq!(r[1].result, format!("{}", -value));
    }
}

#[test]
fn completing_for_the_side_to_move() {
    let win = GameResult::Winner(Colour::Black);
    assert_eq!(complete_for(incomplete(1), win, Colour::Black).result, "1");
    assert_eq!(complete_for(incomplete(1), win, Colour::White).result, "-1");
    assert_eq!(complete_for(incomplete(1), GameResult::Draw, Colour::White).result, "0");
    let r = complete_for(incomplete(7), GameResult::Draw, Colour::Black);
    assert_eq!(r.result, "-0");
    assert_eq!(write_example(&r), "x3/x3/x3 1 1;10;0;10;0;4;-0;a1:7");
}

#[test]
fn training_keeps_the_latest_examples() {
    let mut v: Vec<u32> = (0..10).collect();
    keep_latest(&mut v, 4);
    assert_eq!(v, vec![6, 7, 8, 9]);
    keep_latest(&mut v, 4);
    assert_eq!(v, vec![6, 7, 8, 9]);
    keep_latest(&mut v, 0);
    assert!(v.is_empty());
    let mut many: Vec<usize> = (0..MAX_EXAMPLES + 5).collect();
    keep_latest(&mut many, MAX_EXAMPLES);
    assert_eq!(many.len(), MAX_EXAMPLES);
    assert_eq!(many[0], 5);
}

#[test]
fn a_result_that_is_not_a_float_is_refused() {
    assert_eq!(
        read_example("x3/x3/x3 1 1;21;1;21;1;4;win;a1:1"),
        Err(ExampleError::InvalidNumber(ExampleField::Result))
    );
    assert_eq!(
        read_example("x3/x3/x3 1 1;21;1;21;1;4;x"),
        Err(ExampleError::InvalidNumber(ExampleField::Result))
    );
    assert_eq!(read_example("x3/x3/x3 1 1;21;1;21;1;4;-0;a1:1").unwrap().result, "-0");
    assert_eq!(read_example("x3/x3/x3 1 1;21;1;21;1;4;1e-2;a1:1").unwrap().result, "1e-2");
}
