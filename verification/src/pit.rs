//! Bookkeeping of matches between two networks.
use vstd::prelude::*;

use crate::colour::Colour;

verus! {

/// The state of a game: won by a player, drawn, or still going.
#[derive(Clone, Copy, Debug, PartialEq, Eq, Structural)]
pub enum GameResult {
    Winner(Colour),
    Draw,
    Ongoing,
}

/// Wins, draws and losses of one network against another.
#[derive(Debug)]
pub struct PitResult {
    wins: u32,
    draws: u32,
    losses: u32,
}

/// The (wins, draws, losses) that one game adds for the player of `colour`.
pub open spec fn game_points(result: GameResult, colour: Colour) -> (nat, nat, nat) {
    match result {
        GameResult::Winner(winner) => if winner == colour {
            (1, 0, 0)
        } else {
            (0, 0, 1)
        },
        GameResult::Draw => (0, 1, 0),
        GameResult::Ongoing => (0, 0, 0),
    }
}

/// The tally of games played in pairs, the first of each pair as white and
/// the second as black.
pub open spec fn pair_tally(games: Seq<(GameResult, GameResult)>) -> (nat, nat, nat)
    decreases games.len(),
{
    if games.len() == 0 {
        (0, 0, 0)
    } else {
        let (w, d, l) = pair_tally(games.drop_last());
        let a = game_points(games.last().0, Colour::White);
        let b = game_points(games.last().1, Colour::Black);
        (w + a.0 + b.0, d + a.1 + b.1, l + a.2 + b.2)
    }
}

/// The number of finished games (not `Ongoing`) among the pairs.
pub open spec fn finished_games(games: Seq<(GameResult, GameResult)>) -> nat
    decreases games.len(),
{
    if games.len() == 0 {
        0
    } else {
        finished_games(games.drop_last()) + (if games.last().0 == GameResult::Ongoing {
            0nat
        } else {
            1nat
        }) + (if games.last().1 == GameResult::Ongoing {
            0nat
        } else {
            1nat
        })
    }
}

impl PitResult {
    /// (wins, draws, losses).
    pub closed spec fn view(&self) -> (nat, nat, nat) {
        (self.wins as nat, self.draws as nat, self.losses as nat)
    }

    /// No games played yet.
    pub fn new() -> (r: Self)
        ensures
            r.view() == (0nat, 0nat, 0nat),
    {
        PitResult { wins: 0, draws: 0, losses: 0 }
    }

    pub fn wins(&self) -> (r: u32)
        ensures
            r == self.view().0,
    {
        self.wins
    }

    pub fn draws(&self) -> (r: u32)
        ensures
            r == self.view().1,
    {
        self.draws
    }

    pub fn losses(&self) -> (r: u32)
        ensures
            r == self.view().2,
    {
        self.losses
    }

    /// Count one game played as `colour`: a win, a draw or a loss, and
    /// nothing for a game that is still going.
    pub fn update(&mut self, result: GameResult, colour: Colour)
        requires
            old(self).view().0 + game_points(result, colour).0 <= u32::MAX,
            old(self).view().1 + game_points(result, colour).1 <= u32::MAX,
            old(self).view().2 + game_points(result, colour).2 <= u32::MAX,
        ensures
            final(self).view() == (
                old(self).view().0 + game_points(result, colour).0,
                old(self).view().1 + game_points(result, colour).1,
                old(self).view().2 + game_points(result, colour).2,
            ),
    {
        match result {
            GameResult::Winner(winner) => {
                if winner == colour {
                    self.wins += 1
                } else {
                    self.losses += 1
                }
            },
            GameResult::Draw => self.draws += 1,
            GameResult::Ongoing => {},
        }
    }
}

impl Default for PitResult {
    fn default() -> (r: Self)
        ensures
            r.view() == (0nat, 0nat, 0nat),
    {
        PitResult::new()
    }
}

/// Tally the results of games played from both sides of each opening: the
/// first result of a pair as white, the second as black.
pub fn tally_pairs(games: &Vec<(GameResult, GameResult)>) -> (r: PitResult)
    requires
        2 * games@.len() <= u32::MAX,
    ensures
        r.view() == pair_tally(games@),
{
    let mut r = PitResult::new();
    let mut i: usize = 0;
    while i < games.len()
        invariant
            i <= games.len(),
            2 * games@.len() <= u32::MAX,
            r.view() == pair_tally(games@.take(i as int)),
            r.view().0 + r.view().1 + r.view().2 <= 2 * i,
        decreases games.len() - i,
    {
        proof {
            assert(games@.take(i + 1).drop_last() =~= games@.take(i as int));
        }
        let (as_white, as_black) = games[i];
        r.update(as_white, Colour::White);
        r.update(as_black, Colour::Black);
        i = i + 1;
    }
    assert(games@.take(games.len() as int) =~= games@);
    r
}

/// Every finished game is counted exactly once, as a win, a draw or a loss.
pub proof fn law_tally_counts_finished_games(games: Seq<(GameResult, GameResult)>)
    ensures
        pair_tally(games).0 + pair_tally(games).1 + pair_tally(games).2 == finished_games(games),
    decreases games.len(),
{
    if games.len() > 0 {
        law_tally_counts_finished_games(games.drop_last());
    }
}

/// Seen from the other network, which plays black where the first plays
/// white and white where it plays black, the wins and losses swap: what one
/// network wins, the other loses.
pub proof fn law_tally_is_zero_sum(
    games: Seq<(GameResult, GameResult)>,
    other: Seq<(GameResult, GameResult)>,
)
    requires
        other.len() == games.len(),
        forall|i: int| 0 <= i < games.len() ==> #[trigger] other[i] == (games[i].1, games[i].0),
    ensures
        pair_tally(other) == (pair_tally(games).2, pair_tally(games).1, pair_tally(games).0),
    decreases games.len(),
{
    if games.len() > 0 {
        law_tally_is_zero_sum(games.drop_last(), other.drop_last());
        assert(other.last() == (games.last().1, games.last().0));
    }
}

} // verus!
