//! The commands of an interactive analysis session.
use vstd::prelude::*;

use crate::text::{is_white_space, same_text, trim, trim_text, white_space};

verus! {

/// What the session shows for `help`.
pub const HELP_MESSAGE: &'static str = "help    - shows this message\nfinish  - ends the game and creates an analysis file\nundo    - return to the previous position (resets nodes and analysis)\ntps     - shows the current board as TPS\nnps     - shows the nodes per second (since last move)\n[empty] - shows the network evaluation\n[move]  - plays the move\n";

/// What a line typed in an interactive analysis asks for.
#[derive(Clone, Copy, Debug, PartialEq, Eq, Structural)]
pub enum SessionCommand {
    /// A line of white space only: show the network's evaluation.
    Evaluate,
    /// `help`: show the commands.
    Help,
    /// `finish`: end the game and write the analysis.
    Finish,
    /// `undo`: go back to the previous position.
    Undo,
    /// `tps`: show the board as TPS.
    Tps,
    /// `nps`: show the nodes searched per second.
    Nps,
    /// Anything else: the line is a move to play.
    Play,
}

/// What `line` asks for: white space alone asks for the evaluation; the
/// command words are recognised with the white space around them trimmed;
/// any other line is taken for a move.
pub open spec fn session_command(line: Seq<char>) -> SessionCommand {
    let t = trim(line);
    if forall|i: int| 0 <= i < line.len() ==> is_white_space(#[trigger] line[i]) {
        SessionCommand::Evaluate
    } else if t == "help"@ {
        SessionCommand::Help
    } else if t == "finish"@ {
        SessionCommand::Finish
    } else if t == "undo"@ {
        SessionCommand::Undo
    } else if t == "tps"@ {
        SessionCommand::Tps
    } else if t == "nps"@ {
        SessionCommand::Nps
    } else {
        SessionCommand::Play
    }
}

fn all_white_space(s: &str) -> (r: bool)
    ensures
        r == (forall|i: int| 0 <= i < s@.len() ==> is_white_space(#[trigger] s@[i])),
{
    let n = s.unicode_len();
    let mut i: usize = 0;
    while i < n
        invariant
            i <= n,
            n == s@.len(),
            forall|j: int| 0 <= j < i ==> is_white_space(#[trigger] s@[j]),
        decreases n - i,
    {
        if !white_space(s.get_char(i)) {
            return false;
        }
        i = i + 1;
    }
    true
}

/// Read what a line typed in the session asks for.
pub fn read_command(line: &str) -> (r: SessionCommand)
    ensures
        r == session_command(line@),
{
    if all_white_space(line) {
        return SessionCommand::Evaluate;
    }
    let t = trim_text(line);
    let t = t.as_str();
    if same_text(t, "help") {
        SessionCommand::Help
    } else if same_text(t, "finish") {
        SessionCommand::Finish
    } else if same_text(t, "undo") {
        SessionCommand::Undo
    } else if same_text(t, "tps") {
        SessionCommand::Tps
    } else if same_text(t, "nps") {
        SessionCommand::Nps
    } else {
        SessionCommand::Play
    }
}

} // verus!
