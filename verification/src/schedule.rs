//! When the worker pool that plays games in parallel starts and replaces
//! workers, and when it stops.
use vstd::prelude::*;

verus! {

/// The pool of at most `workers` threads that plays `games` games: how many
/// workers were started and how many have finished.
pub struct WorkerSchedule {
    workers: usize,
    games: usize,
    started: usize,
    completed: usize,
}

pub open spec fn min(a: int, b: int) -> int {
    if a <= b {
        a
    } else {
        b
    }
}

/// (started, completed) after `finishes` workers have finished, when each
/// finished worker is replaced while `completed + workers <= games + 1`.
pub open spec fn schedule_after(workers: nat, games: nat, finishes: nat) -> (nat, nat)
    decreases finishes,
{
    if finishes == 0 {
        (min(workers as int, games as int) as nat, 0)
    } else {
        let (started, completed) = schedule_after(workers, games, (finishes - 1) as nat);
        let completed = completed + 1;
        if completed + workers <= games + 1 {
            (started + 1, completed)
        } else {
            (started, completed)
        }
    }
}

/// The number of games that the pool plays in all: one more than asked for
/// as soon as there are at least as many games as workers.
pub open spec fn games_played(workers: nat, games: nat) -> nat {
    if games >= workers {
        games + 1
    } else {
        games
    }
}

impl WorkerSchedule {
    /// (workers, games, started, completed).
    pub closed spec fn view(&self) -> (nat, nat, nat, nat) {
        (self.workers as nat, self.games as nat, self.started as nat, self.completed as nat)
    }

    /// A pool of `workers` threads for `games` games, none started yet.
    pub fn new(workers: usize, games: usize) -> (r: Self)
        ensures
            r.view() == (workers as nat, games as nat, 0nat, 0nat),
    {
        WorkerSchedule { workers, games, started: 0, completed: 0 }
    }

    /// How many workers to start at first: one per game, at most `workers`.
    pub fn initial_workers(&self) -> (r: usize)
        ensures
            r == min(self.view().0 as int, self.view().1 as int),
    {
        if self.workers < self.games {
            self.workers
        } else {
            self.games
        }
    }

    /// Start a worker; its index is the number of workers started before it.
    pub fn start(&mut self) -> (index: usize)
        requires
            old(self).view().2 < usize::MAX,
        ensures
            index == old(self).view().2,
            final(self).view() == (
                old(self).view().0,
                old(self).view().1,
                old(self).view().2 + 1,
                old(self).view().3,
            ),
    {
        let index = self.started;
        self.started = self.started + 1;
        index
    }

    /// A worker has finished; returns whether a new worker takes its place.
    pub fn finish(&mut self) -> (replace: bool)
        requires
            old(self).view().3 < old(self).view().2,
        ensures
            final(self).view() == (
                old(self).view().0,
                old(self).view().1,
                old(self).view().2,
                old(self).view().3 + 1,
            ),
            replace == (old(self).view().3 + 1 + old(self).view().0 <= old(self).view().1 + 1),
    {
        self.completed = self.completed + 1;
        (self.completed as u128) + (self.workers as u128) <= (self.games as u128) + 1
    }

    /// Whether the pool keeps going: until the asked-for games are done and
    /// no worker is left.
    pub fn keep_running(&self, any_worker_left: bool) -> (r: bool)
        ensures
            r == (self.view().3 < self.view().1 || any_worker_left),
    {
        self.completed < self.games || any_worker_left
    }
}

proof fn lemma_schedule_after(workers: nat, games: nat, finishes: nat)
    requires
        workers >= 1,
    ensures
        schedule_after(workers, games, finishes).1 == finishes,
        schedule_after(workers, games, finishes).0 == min(workers as int, games as int) + min(
            finishes as int,
            if games + 1 >= workers { games + 1 - workers } else { 0 },
        ),
    decreases finishes,
{
    if finishes > 0 {
        lemma_schedule_after(workers, games, (finishes - 1) as nat);
    }
}

/// Replacing each finished worker while `completed + workers <= games + 1`,
/// the pool stops after `games_played(workers, games)` games: every game
/// before that leaves a worker running, and then none is left. With at least
/// as many games as workers that is one game more than asked for.
pub proof fn law_pool_plays_games(workers: nat, games: nat, finishes: nat)
    requires
        workers >= 1,
        finishes <= games_played(workers, games),
    ensures
        schedule_after(workers, games, finishes).1 == finishes,
        finishes < games_played(workers, games) ==> schedule_after(workers, games, finishes).0
            > finishes,
        finishes == games_played(workers, games) ==> schedule_after(workers, games, finishes).0
            == finishes && finishes >= games,
{
    lemma_schedule_after(workers, games, finishes);
}

/// The workers that sent a game in this round, in order: the `j`-th
/// evaluation of the batch goes back to the `j`-th of them.
pub open spec fn senders(sent: Seq<bool>) -> Seq<usize>
    decreases sent.len(),
{
    if sent.len() == 0 {
        Seq::empty()
    } else if sent.last() {
        senders(sent.drop_last()).push((sent.len() - 1) as usize)
    } else {
        senders(sent.drop_last())
    }
}

/// The indices of the workers that sent a game, to hand the evaluations of
/// the batch back to.
pub fn batch_senders(sent: &Vec<bool>) -> (r: Vec<usize>)
    ensures
        r@ == senders(sent@),
{
    let mut r: Vec<usize> = Vec::new();
    let mut i: usize = 0;
    while i < sent.len()
        invariant
            i <= sent.len(),
            r@ == senders(sent@.take(i as int)),
        decreases sent.len() - i,
    {
        proof {
            assert(sent@.take(i + 1).drop_last() =~= sent@.take(i as int));
        }
        if sent[i] {
            r.push(i);
        }
        i = i + 1;
    }
    assert(sent@.take(sent.len() as int) =~= sent@);
    r
}

/// Each evaluation goes back to a worker that sent a game, every such worker
/// gets one, and in the order of the workers.
pub proof fn law_batch_senders(sent: Seq<bool>)
    requires
        sent.len() <= usize::MAX,
    ensures
        forall|j: int|
            0 <= j < senders(sent).len() ==> #[trigger] senders(sent)[j] < sent.len() && sent[senders(
                sent,
            )[j] as int],
        forall|j: int, k: int|
            0 <= j < k < senders(sent).len() ==> #[trigger] senders(sent)[j] < #[trigger] senders(
                sent,
            )[k],
        forall|i: int| 0 <= i < sent.len() && #[trigger] sent[i] ==> senders(sent).contains(i as usize),
    decreases sent.len(),
{
    if sent.len() > 0 {
        let rest = sent.drop_last();
        law_batch_senders(rest);
        let s = senders(rest);
        let t = senders(sent);
        let last = (sent.len() - 1) as usize;
        assert forall|i: int| 0 <= i < rest.len() implies rest[i] == sent[i] by {}
        if sent.last() {
            assert(t == s.push(last));
            assert forall|j: int| 0 <= j < t.len() implies #[trigger] t[j] < sent.len() && sent[t[j] as int] by {
                if j < s.len() {
                    assert(t[j] == s[j]);
                }
            }
            assert forall|j: int, k: int| 0 <= j < k < t.len() implies #[trigger] t[j] < #[trigger] t[k] by {
                if k < s.len() {
                    assert(t[j] == s[j] && t[k] == s[k]);
                } else {
                    assert(t[j] == s[j]);
                }
            }
            assert forall|i: int| 0 <= i < sent.len() && #[trigger] sent[i] implies t.contains(i as usize) by {
                if i < rest.len() {
                    assert(rest[i]);
                    let w = choose|w: int| 0 <= w < s.len() && s[w] == i as usize;
                    assert(t[w] == i as usize);
                } else {
                    assert(t[s.len() as int] == i as usize);
                }
            }
        } else {
            assert(t == s);
            assert forall|i: int| 0 <= i < sent.len() && #[trigger] sent[i] implies t.contains(i as usize) by {
                assert(i < rest.len());
                assert(rest[i]);
            }
        }
    }
}

} // verus!
