//! The TEI protocol as the analysis engine speaks it: the handshake, what
//! each input line asks of the engine, and when a timed search stops.
use vstd::prelude::*;

use crate::text::{parse_integer, parsed_integer, same_text, split_words, trim, trim_text, words};

verus! {

/// What an input line of the TEI protocol asks of the engine.
#[derive(Clone, Debug, PartialEq, Eq)]
pub enum TeiCommand {
    /// The input has ended.
    End,
    /// A line without words, skipped.
    Blank,
    /// `teinewgame 5`: a new game on the one supported size.
    NewGame,
    /// `teinewgame` with any other size.
    UnsupportedSize,
    /// `setoption name HalfKomi value 4`: the one supported option.
    SetOption,
    /// Any other `setoption`.
    UnsupportedOption,
    /// `position startpos`, with the moves after `moves` when they follow.
    Position(Vec<String>),
    /// `position tps ...`, which is not supported.
    TpsPosition,
    /// Any other `position`.
    UnexpectedPosition,
    /// `go infinite`.
    GoInfinite,
    /// `go wtime ...`: the time left and the increment of the side to move,
    /// in milliseconds.
    GoTimed(u64, u64),
    /// `go wtime ...` whose time or increment is not a number.
    BadGoTime,
    /// Any other `go`.
    BadGo,
    /// `isready`.
    IsReady,
    /// Any other line, ignored.
    Ignored,
}

/// A TEI command as a mathematical value.
pub enum TeiAction {
    End,
    Blank,
    NewGame,
    UnsupportedSize,
    SetOption,
    UnsupportedOption,
    Position(Seq<Seq<char>>),
    TpsPosition,
    UnexpectedPosition,
    GoInfinite,
    GoTimed(u64, u64),
    BadGoTime,
    BadGo,
    IsReady,
    Ignored,
}

impl TeiCommand {
    pub open spec fn action(&self) -> TeiAction {
        match self {
            TeiCommand::End => TeiAction::End,
            TeiCommand::Blank => TeiAction::Blank,
            TeiCommand::NewGame => TeiAction::NewGame,
            TeiCommand::UnsupportedSize => TeiAction::UnsupportedSize,
            TeiCommand::SetOption => TeiAction::SetOption,
            TeiCommand::UnsupportedOption => TeiAction::UnsupportedOption,
            TeiCommand::Position(moves) => TeiAction::Position(moves.deep_view()),
            TeiCommand::TpsPosition => TeiAction::TpsPosition,
            TeiCommand::UnexpectedPosition => TeiAction::UnexpectedPosition,
            TeiCommand::GoInfinite => TeiAction::GoInfinite,
            TeiCommand::GoTimed(time, increment) => TeiAction::GoTimed(*time, *increment),
            TeiCommand::BadGoTime => TeiAction::BadGoTime,
            TeiCommand::BadGo => TeiAction::BadGo,
            TeiCommand::IsReady => TeiAction::IsReady,
            TeiCommand::Ignored => TeiAction::Ignored,
        }
    }
}

/// The `i`-th word, if there is one.
pub open spec fn word_at(ws: Seq<Seq<char>>, i: int) -> Option<Seq<char>> {
    if 0 <= i < ws.len() {
        Some(ws[i])
    } else {
        None
    }
}

/// `go wtime <w> btime <b> winc <wi> binc <bi>`: the time and increment of
/// the side to move, read by position; a missing increment counts as 0.
pub open spec fn go_time(ws: Seq<Seq<char>>, white_to_move: bool) -> TeiAction {
    let offset = if white_to_move {
        0int
    } else {
        2int
    };
    let time = match word_at(ws, 2 + offset) {
        Some(w) => parsed_integer(w, 0, u64::MAX as int),
        None => None,
    };
    let increment = parsed_integer(
        match word_at(ws, 6 + offset) {
            Some(w) => w,
            None => "0"@,
        },
        0,
        u64::MAX as int,
    );
    match (time, increment) {
        (Some(t), Some(i)) => TeiAction::GoTimed(t as u64, i as u64),
        _ => TeiAction::BadGoTime,
    }
}

/// What the input `line` asks of the engine, by its words, when the side to
/// move is white or black.
pub open spec fn tei_action(line: Seq<char>, white_to_move: bool) -> TeiAction {
    let ws = words(line);
    if line.len() == 0 {
        TeiAction::End
    } else if ws.len() == 0 {
        TeiAction::Blank
    } else if ws[0] == "teinewgame"@ {
        if word_at(ws, 1) == Some("5"@) {
            TeiAction::NewGame
        } else {
            TeiAction::UnsupportedSize
        }
    } else if ws[0] == "setoption"@ {
        if ws.len() >= 5 && ws[1] == "name"@ && ws[2] == "HalfKomi"@ && ws[3] == "value"@ && ws[4]
            == "4"@ {
            TeiAction::SetOption
        } else {
            TeiAction::UnsupportedOption
        }
    } else if ws[0] == "position"@ {
        if ws.len() == 2 && ws[1] == "startpos"@ {
            TeiAction::Position(Seq::empty())
        } else if ws.len() >= 3 && ws[1] == "startpos"@ && ws[2] == "moves"@ {
            TeiAction::Position(ws.skip(3))
        } else if word_at(ws, 1) == Some("tps"@) {
            TeiAction::TpsPosition
        } else {
            TeiAction::UnexpectedPosition
        }
    } else if ws[0] == "go"@ {
        if word_at(ws, 1) == Some("infinite"@) {
            TeiAction::GoInfinite
        } else if word_at(ws, 1) == Some("wtime"@) {
            go_time(ws, white_to_move)
        } else {
            TeiAction::BadGo
        }
    } else if ws[0] == "isready"@ {
        TeiAction::IsReady
    } else {
        TeiAction::Ignored
    }
}

/// Whether the first line of a session is the `tei` handshake.
pub fn tei_handshake(line: &str) -> (r: bool)
    ensures
        r == (trim(line@) == "tei"@),
{
    let t = trim_text(line);
    same_text(t.as_str(), "tei")
}

fn word_is(ws: &Vec<String>, i: usize, w: &str) -> (r: bool)
    ensures
        r == (word_at(ws.deep_view(), i as int) == Some(w@)),
{
    if i < ws.len() {
        assert(ws.deep_view()[i as int] == ws[i as int]@);
        same_text(ws[i].as_str(), w)
    } else {
        false
    }
}

fn read_millis(ws: &Vec<String>, i: usize, missing: &str) -> (r: Option<u64>)
    ensures
        r matches Some(v) ==> parsed_integer(
            match word_at(ws.deep_view(), i as int) {
                Some(w) => w,
                None => missing@,
            },
            0,
            u64::MAX as int,
        ) == Some(v as int),
        r is None ==> parsed_integer(
            match word_at(ws.deep_view(), i as int) {
                Some(w) => w,
                None => missing@,
            },
            0,
            u64::MAX as int,
        ) is None,
{
    let w: &str = if i < ws.len() {
        assert(ws.deep_view()[i as int] == ws[i as int]@);
        ws[i].as_str()
    } else {
        missing
    };
    match parse_integer(w, 0, 0xffff_ffff_ffff_ffff) {
        Some(v) => Some(v as u64),
        None => None,
    }
}

/// Read what an input line asks of the engine; `white_to_move` says whose
/// time a `go wtime ...` line gives.
pub fn read_tei_command(line: &str, white_to_move: bool) -> (r: TeiCommand)
    ensures
        r.action() == tei_action(line@, white_to_move),
{
    let ws = split_words(line);
    let ghost w = ws.deep_view();
    if line.is_empty() {
        return TeiCommand::End;
    }
    if ws.len() == 0 {
        return TeiCommand::Blank;
    }
    assert(w[0] == ws[0]@);
    let first = ws[0].as_str();
    if same_text(first, "teinewgame") {
        if word_is(&ws, 1, "5") {
            TeiCommand::NewGame
        } else {
            TeiCommand::UnsupportedSize
        }
    } else if same_text(first, "setoption") {
        if word_is(&ws, 1, "name") && word_is(&ws, 2, "HalfKomi") && word_is(&ws, 3, "value")
            && word_is(&ws, 4, "4") {
            TeiCommand::SetOption
        } else {
            TeiCommand::UnsupportedOption
        }
    } else if same_text(first, "position") {
        if ws.len() == 2 && word_is(&ws, 1, "startpos") {
            let none: Vec<String> = Vec::new();
            assert(none.deep_view() =~= Seq::<Seq<char>>::empty());
            TeiCommand::Position(none)
        } else if ws.len() >= 3 && word_is(&ws, 1, "startpos") && word_is(&ws, 2, "moves") {
            let mut moves: Vec<String> = Vec::new();
            let mut i: usize = 3;
            while i < ws.len()
                invariant
                    3 <= i <= ws@.len(),
                    w == ws.deep_view(),
                    moves.deep_view() == w.subrange(3, i as int),
                decreases ws@.len() - i,
            {
                let m = ws[i].clone();
                assert(w[i as int] == m@);
                moves.push(m);
                assert(moves.deep_view() =~= w.subrange(3, i as int).push(w[i as int]));
                assert(w.subrange(3, i as int).push(w[i as int]) =~= w.subrange(3, i + 1));
                i = i + 1;
            }
            assert(w.subrange(3, w.len() as int) =~= w.skip(3));
            TeiCommand::Position(moves)
        } else if word_is(&ws, 1, "tps") {
            TeiCommand::TpsPosition
        } else {
            TeiCommand::UnexpectedPosition
        }
    } else if same_text(first, "go") {
        if word_is(&ws, 1, "infinite") {
            TeiCommand::GoInfinite
        } else if word_is(&ws, 1, "wtime") {
            let offset: usize = if white_to_move {
                0
            } else {
                2
            };
            let time = if 2 + offset < ws.len() {
                read_millis(&ws, 2 + offset, "0")
            } else {
                None
            };
            let increment = read_millis(&ws, 6 + offset, "0");
            match (time, increment) {
                (Some(t), Some(i)) => TeiCommand::GoTimed(t, i),
                _ => TeiCommand::BadGoTime,
            }
        } else {
            TeiCommand::BadGo
        }
    } else if same_text(first, "isready") {
        TeiCommand::IsReady
    } else {
        TeiCommand::Ignored
    }
}

/// Whether a timed search has run long enough: past a tenth of the time
/// left plus half the increment (all in nanoseconds).
pub fn search_time_is_up(elapsed: u128, time_left: u128, increment: u128) -> (r: bool)
    ensures
        r == (elapsed > time_left / 10 + increment / 2),
{
    elapsed > time_left / 10 + increment / 2
}

} // verus!
