//! How the PlayTak bot picks the source of its move and when it stops
//! pondering.
use vstd::prelude::*;

use crate::text::same_text;

verus! {

/// The bot's first move as white.
pub const WHITE_FIRST_MOVE: &'static str = "e5";

/// After this many pondering rollouts the bot waits for the next message
/// instead of pondering further.
pub const PONDER_ROLLOUT_LIMIT: u64 = 10_000;

/// The opening book: the reply to white's first move.
pub open spec fn book_reply(white_move: Seq<char>) -> Option<Seq<char>> {
    if white_move == "a1"@ {
        Some("e5"@)
    } else if white_move == "a5"@ {
        Some("e1"@)
    } else if white_move == "e1"@ {
        Some("a5"@)
    } else if white_move == "e5"@ {
        Some("a1"@)
    } else {
        None
    }
}

/// Where the bot's move comes from.
#[derive(Clone, Debug, PartialEq, Eq)]
pub enum MoveChoice {
    /// A fixed move: the first move as white, or the book reply to it.
    Fixed(String),
    /// A move that wins on the spot.
    InstantWin,
    /// The move that the search picks.
    Search,
}

/// Where the move at `ply` comes from, given the opponent's last move and
/// whether some move wins on the spot: the first move as white, then an
/// instant win, then the book reply at ply 1, then the search.
pub open spec fn move_source(ply: nat, last_move: Seq<char>, instant_win: bool) -> Option<
    Option<Seq<char>>,
> {
    if ply == 0 {
        Some(Some(WHITE_FIRST_MOVE@))
    } else if instant_win {
        Some(None)
    } else if ply == 1 && book_reply(last_move) is Some {
        Some(book_reply(last_move))
    } else {
        None
    }
}

/// Pick where the bot's move at `ply` comes from.
pub fn choose_move(ply: u64, last_move: &str, instant_win: bool) -> (r: MoveChoice)
    ensures
        move_source(ply as nat, last_move@, instant_win) matches Some(Some(m)) ==> r matches MoveChoice::Fixed(
            f,
        ) && f@ == m,
        move_source(ply as nat, last_move@, instant_win) matches Some(None) ==> r is InstantWin,
        move_source(ply as nat, last_move@, instant_win) is None ==> r is Search,
{
    if ply == 0 {
        return MoveChoice::Fixed(String::from_str(WHITE_FIRST_MOVE));
    }
    if instant_win {
        return MoveChoice::InstantWin;
    }
    if ply == 1 {
        if same_text(last_move, "a1") {
            return MoveChoice::Fixed(String::from_str("e5"));
        } else if same_text(last_move, "a5") {
            return MoveChoice::Fixed(String::from_str("e1"));
        } else if same_text(last_move, "e1") {
            return MoveChoice::Fixed(String::from_str("a5"));
        } else if same_text(last_move, "e5") {
            return MoveChoice::Fixed(String::from_str("a1"));
        }
    }
    MoveChoice::Search
}

/// Whether the bot's own move at `ply` is recorded with its search
/// information: only searched moves after the first two plies.
pub fn record_with_info(ply: u64, choice: &MoveChoice) -> (r: bool)
    ensures
        r == (ply > 1 && choice is Search),
{
    ply > 1 && matches!(choice, MoveChoice::Search)
}

/// Whether the bot waits for the next message rather than pondering.
pub fn wait_for_message(ponder_rollouts: u64) -> (r: bool)
    ensures
        r == (ponder_rollouts >= PONDER_ROLLOUT_LIMIT),
{
    ponder_rollouts >= PONDER_ROLLOUT_LIMIT
}

/// Where the bot's move comes from, over every ply and reply: its first move
/// as white is `e5`; after that a move that wins on the spot is always
/// taken; otherwise the opening book answers only at ply 1, with the corner
/// diagonally opposite the opponent's corner opening (and the search for
/// any other opening); from ply 2 on, the search always picks the move.
pub proof fn law_move_sources(ply: nat, last_move: Seq<char>, instant_win: bool)
    ensures
        ply == 0 ==> move_source(ply, last_move, instant_win) == Some(Some("e5"@)),
        ply > 0 && instant_win ==> move_source(ply, last_move, instant_win) == Some(
            None::<Seq<char>>,
        ),
        ply >= 2 && !instant_win ==> move_source(ply, last_move, instant_win) is None,
        ply == 1 && !instant_win ==> move_source(ply, last_move, instant_win) == (if last_move
            == "a1"@ {
            Some(Some("e5"@))
        } else if last_move == "e5"@ {
            Some(Some("a1"@))
        } else if last_move == "a5"@ {
            Some(Some("e1"@))
        } else if last_move == "e1"@ {
            Some(Some("a5"@))
        } else {
            None
        }),
{
    reveal_strlit("a1");
    reveal_strlit("a5");
    reveal_strlit("e1");
    reveal_strlit("e5");
    assert(WHITE_FIRST_MOVE@ == "e5"@);
    let (a1, a5, e1, e5) = ("a1"@, "a5"@, "e1"@, "e5"@);
    assert(a1[0] != e1[0] && a1[0] != e5[0] && a5[0] != e1[0] && a5[0] != e5[0]);
    assert(a1[1] != a5[1] && e1[1] != e5[1]);
    assert(a1 != a5 && a1 != e1 && a1 != e5 && a5 != e1 && a5 != e5 && e1 != e5);
}

} // verus!
