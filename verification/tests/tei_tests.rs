use alpha_tak::session::{read_command, SessionCommand, HELP_MESSAGE};
use alpha_tak::tei::{read_tei_command, search_time_is_up, tei_handshake, TeiCommand};

#[test]
fn handshake_is_tei_with_white_space_around() {
    assert!(tei_handshake("tei\n"));
    assert!(tei_handshake("  tei  "));
    assert!(!tei_handshake("tei 1\n"));
    assert!(!tei_handshake(""));
}

#[test]
fn end_and_blank_lines() {
    assert_eq!(read_tei_command("", true), TeiCommand::End);
    assert_eq!(read_tei_command("\n", true), TeiCommand::Blank);
    assert_eq!(read_tei_command(" \t \n", false), TeiCommand::Blank);
}

#[test]
fn new_game_only_on_size_five() {
    assert_eq!(read_tei_command("teinewgame 5\n", true), TeiCommand::NewGame);
    assert_eq!(read_tei_command("teinewgame 6\n", true), TeiCommand::UnsupportedSize);
    assert_eq!(read_tei_command("teinewgame\n", true), TeiCommand::UnsupportedSize);
}

#[test]
fn only_half_komi_four_is_an_option() {
    assert_eq!(read_tei_command("setoption name HalfKomi value 4\n", true), TeiCommand::SetOption);
    assert_eq!(read_tei_command("setoption name HalfKomi value 4 extra\n", true), TeiCommand::SetOption);
    assert_eq!(read_tei_command("setoption name HalfKomi value 0\n", true), TeiCommand::UnsupportedOption);
    assert_eq!(read_tei_command("setoption name HalfKomi\n", true), TeiCommand::UnsupportedOption);
}

#[test]
fn positions_from_the_start() {
    assert_eq!(read_tei_command("position startpos\n", true), TeiCommand::Position(vec![]));
    assert_eq!(read_tei_command("position startpos moves\n", true), TeiCommand::Position(vec![]));
    assert_eq!(
        read_tei_command("position  startpos moves a1 e5  c3\n", true),
        TeiCommand::Position(vec!["a1".to_string(), "e5".to_string(), "c3".to_string()])
    );
    assert_eq!(read_tei_command("position tps x5/x5/x5/x5/x5 1 1\n", true), TeiCommand::TpsPosition);
    assert_eq!(read_tei_command("position startpos a1\n", true), TeiCommand::UnexpectedPosition);
    assert_eq!(read_tei_command("position\n", true), TeiCommand::UnexpectedPosition);
}

#[test]
fn go_reads_the_clock_of_the_side_to_move() {
    let line = "go wtime 10000 btime 9000 winc 100 binc 50\n";
    assert_eq!(read_tei_command(line, true), TeiCommand::GoTimed(10000, 100));
    assert_eq!(read_tei_command(line, false), TeiCommand::GoTimed(9000, 50));
    assert_eq!(read_tei_command("go wtime 10000 btime 9000\n", true), TeiCommand::GoTimed(10000, 0));
    assert_eq!(read_tei_command("go wtime x btime 9000\n", true), TeiCommand::BadGoTime);
    assert_eq!(read_tei_command("go wtime 10000\n", false), TeiCommand::BadGoTime);
    assert_eq!(read_tei_command("go wtime 1 btime 2 winc -1 binc 3\n", true), TeiCommand::BadGoTime);
    assert_eq!(read_tei_command("go infinite\n", true), TeiCommand::GoInfinite);
    assert_eq!(read_tei_command("go\n", true), TeiCommand::BadGo);
    assert_eq!(read_tei_command("go movetime 5\n", true), TeiCommand::BadGo);
}

#[test]
fn ready_and_other_lines() {
    assert_eq!(read_tei_command("isready\n", true), TeiCommand::IsReady);
    assert_eq!(read_tei_command("quit\n", true), TeiCommand::Ignored);
    assert_eq!(read_tei_command("isready now\n", true), TeiCommand::IsReady);
}

#[test]
fn timed_search_stops_after_a_tenth_and_half_the_increment() {
    // 10 s left and 1 s increment: the budget is 1.5 s.
    let left: u128 = 10_000_000_000;
    let inc: u128 = 1_000_000_000;
    assert!(!search_time_is_up(1_500_000_000, left, inc));
    assert!(search_time_is_up(1_500_000_001, left, inc));
    assert!(!search_time_is_up(u128::MAX / 10, u128::MAX, 0));
}

#[test]
fn session_commands() {
    assert_eq!(read_command("\n"), SessionCommand::Evaluate);
    assert_eq!(read_command(""), SessionCommand::Evaluate);
    assert_eq!(read_command(" help \n"), SessionCommand::Help);
    assert_eq!(read_command("finish\n"), SessionCommand::Finish);
    assert_eq!(read_command("undo\n"), SessionCommand::Undo);
    assert_eq!(read_command("tps\n"), SessionCommand::Tps);
    assert_eq!(read_command("nps\n"), SessionCommand::Nps);
    assert_eq!(read_command("a1\n"), SessionCommand::Play);
    assert_eq!(read_command("help me\n"), SessionCommand::Play);
    assert!(HELP_MESSAGE.starts_with("help    - shows this message\n"));
    assert!(HELP_MESSAGE.ends_with("[move]  - plays the move\n"));
}
