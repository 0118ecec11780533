use alpha_tak::analysis::{format_branch, write_analysis, Mark};

fn strings(items: &[&str]) -> Vec<String> {
    items.iter().map(|s| s.to_string()).collect()
}

#[test]
fn branch_from_white_shows_the_well_visited_continuation() {
    let continuation = vec![
        ("c3".to_string(), 20_000),
        ("d3".to_string(), 10_000),
        ("c4".to_string(), 15_000),
        ("b4".to_string(), 10_001),
    ];
    let out = format_branch(4, "a1", "{w}", "{b}", &continuation);
    assert_eq!(out, "{4_a1}\n3. a1 {w} c3\n4. c4 b4\n");
}

#[test]
fn branch_from_black_starts_with_dashes() {
    let continuation = vec![("c3".to_string(), 20_000), ("d3".to_string(), 20_000), ("e3".to_string(), 20_000)];
    let out = format_branch(5, "a1", "{w}", "{b}", &continuation);
    assert_eq!(out, "{5_a1}\n3. -- a1 {b}\n4. c3 d3\n5. e3 \n");
}

#[test]
fn branch_without_continuation() {
    let out = format_branch(0, "e5", "{w}", "{b}", &Vec::new());
    assert_eq!(out, "{0_e5}\n1. e5 {w} \n");
}

#[test]
fn analysis_from_white() {
    let moves = strings(&["a1", "e5", "c3"]);
    let comments = vec![
        None,
        Some(("{cw1}".to_string(), "{cb1}".to_string())),
        Some(("{cw2}".to_string(), "{cb2}".to_string())),
    ];
    let evals = vec![
        ("{e0w}".to_string(), "{e0b}".to_string()),
        ("{e1w}".to_string(), "{e1b}".to_string()),
        ("{e2w}".to_string(), "{e2b}".to_string()),
    ];
    let marks = vec![(1u16, Mark::Blunder), (2u16, Mark::Strong)];
    let branches = strings(&["{1_a5}\n1. -- a5 {x}\n"]);
    let out = write_analysis("[Size \"5\"]\n", 0, &moves, &comments, &evals, &marks, &branches);
    assert_eq!(
        out,
        "[Size \"5\"]\n1. a1 e5??{e1b}{cb1}\n2. c3!{e2w}{cw2} \n\n{1_a5}\n1. -- a5 {x}\n"
    );
}

#[test]
fn analysis_from_black_numbers_the_next_white_move_alike() {
    let moves = strings(&["a1", "e5", "c3"]);
    let comments = vec![None, None, None];
    let out = write_analysis("", 1, &moves, &comments, &Vec::new(), &Vec::new(), &Vec::new());
    assert_eq!(out, "1. --a11. e5 c3\n");
}

#[test]
fn analysis_without_moves_is_the_header() {
    let out = write_analysis("[Komi \"2\"]\n", 0, &Vec::new(), &Vec::new(), &Vec::new(), &Vec::new(), &Vec::new());
    assert_eq!(out, "[Komi \"2\"]\n");
}

#[test]
fn a_comment_without_an_evaluation_left_stands_alone() {
    let moves = strings(&["a1", "e5"]);
    let comments = vec![Some(("{w}".to_string(), "{b}".to_string())), Some(("{w}".to_string(), "{b}".to_string()))];
    let evals = vec![("{e0w}".to_string(), "{e0b}".to_string()), ("{e1w}".to_string(), "{e1b}".to_string())];
    let out = write_analysis("", 0, &moves, &comments, &evals, &Vec::new(), &Vec::new());
    assert_eq!(out, "1. a1{e1w}{w} e5{b}\n");
}

#[test]
fn analysis_from_black_without_moves_keeps_its_move_number() {
    let out = write_analysis("S", 5, &Vec::new(), &Vec::new(), &Vec::new(), &Vec::new(), &Vec::new());
    assert_eq!(out, "S3. --");
}
