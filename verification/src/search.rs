//! The visit counts of a search tree: choosing a move, the principal
//! continuation, reusing the tree after a move, and counting the visits of
//! a rollout, first virtually and then for real.
use vstd::prelude::*;

use rand_distr::Distribution;

verus! {

/// The sum of the visit counts.
pub open spec fn total_visits(visits: Seq<u32>) -> int
    decreases visits.len(),
{
    if visits.len() == 0 {
        0
    } else {
        total_visits(visits.drop_last()) + visits.last()
    }
}

/// Whether `index` holds the last of the largest visit counts.
pub open spec fn is_last_most_visited(visits: Seq<u32>, index: int) -> bool {
    &&& 0 <= index < visits.len()
    &&& forall|j: int| 0 <= j < visits.len() ==> visits[j] <= visits[index]
    &&& forall|j: int| index < j < visits.len() ==> visits[j] < visits[index]
}

/// Calls `rand_distr::WeightedIndex::new(weights)` and samples it once with
/// `rand::thread_rng()`.
/// `new` refuses an empty list, and sums the weights in the weight type, so
/// the requires leave out an empty list, a zero total and a total beyond
/// `u32::MAX`. Sampling draws uniformly below the total and returns the
/// first index whose running total exceeds the draw, so the index is in
/// range and its weight is not zero; which index comes out is left unsaid.
#[verifier::external_body]
fn sample_weighted(weights: &Vec<u32>) -> (r: usize)
    requires
        weights@.len() > 0,
        0 < total_visits(weights@) <= u32::MAX,
    ensures
        r < weights@.len(),
        weights@[r as int] > 0,
{
    rand_distr::WeightedIndex::new(weights).unwrap().sample(&mut rand::thread_rng())
}

/// Select the child to play, given the visit counts of the children.
/// When exploitation is true, it returns the child with the most visits (the
/// last one among equals). When exploitation is false, it returns a random
/// child weighted by the number of visits.
pub fn pick_move(visits: &Vec<u32>, exploitation: bool) -> (r: usize)
    requires
        visits@.len() > 0,
        !exploitation ==> 0 < total_visits(visits@) <= u32::MAX,
    ensures
        r < visits@.len(),
        exploitation ==> is_last_most_visited(visits@, r as int),
        !exploitation ==> visits@[r as int] > 0,
{
    if exploitation {
        let mut best: usize = 0;
        let mut i: usize = 1;
        while i < visits.len()
            invariant
                1 <= i <= visits.len(),
                best < i,
                forall|j: int| 0 <= j < i ==> visits@[j] <= visits@[best as int],
                forall|j: int| best < j < i ==> visits@[j] < visits@[best as int],
            decreases visits.len() - i,
        {
            if visits[i] >= visits[best] {
                best = i;
            }
            i = i + 1;
        }
        best
    } else {
        sample_weighted(visits)
    }
}

/// A node of the search tree, with what move choice reads of it: its
/// visits, real and virtual, and its children, each behind the move (in PTN)
/// that leads to it.
#[derive(Debug)]
pub struct Node {
    pub visits: u32,
    pub virtual_visits: u32,
    pub children: Vec<(String, Node)>,
}

/// The visits of the children, in order.
pub open spec fn child_visits(children: Seq<(String, Node)>) -> Seq<u32> {
    children.map_values(|child: (String, Node)| child.1.visits)
}

/// The index of the last of the most visited children.
pub open spec fn best_child(children: Seq<(String, Node)>) -> int {
    choose|i: int| is_last_most_visited(child_visits(children), i)
}

/// The line of play that the search expects from `node`: the most visited
/// child (the last among equals), then its own line, for at most `depth`
/// moves; each move with the visits of the node it leads to.
pub open spec fn continuation_of(node: Node, depth: nat) -> Seq<(Seq<char>, u32)>
    decreases depth,
{
    if depth == 0 || node.children@.len() == 0 {
        Seq::empty()
    } else {
        let child = node.children@[best_child(node.children@)];
        seq![(child.0@, child.1.visits)] + continuation_of(child.1, (depth - 1) as nat)
    }
}

/// There is exactly one last most visited child.
proof fn lemma_best_child(children: Seq<(String, Node)>, i: int)
    requires
        is_last_most_visited(child_visits(children), i),
    ensures
        best_child(children) == i,
{
    let v = child_visits(children);
    let b = best_child(children);
    assert(is_last_most_visited(v, b));
    if b < i {
        assert(v[i] < v[b]);
        assert(v[b] <= v[i]);
    } else if i < b {
        assert(v[b] < v[i]);
        assert(v[i] <= v[b]);
    }
}

fn visits_of(children: &Vec<(String, Node)>) -> (r: Vec<u32>)
    ensures
        r@ == child_visits(children@),
{
    let mut r: Vec<u32> = Vec::new();
    let mut i: usize = 0;
    while i < children.len()
        invariant
            i <= children@.len(),
            r@ == child_visits(children@).take(i as int),
        decreases children@.len() - i,
    {
        r.push(children[i].1.visits);
        assert(r@ =~= child_visits(children@).take(i + 1));
        i = i + 1;
    }
    assert(child_visits(children@).take(children@.len() as int) =~= child_visits(children@));
    r
}

/// The first child behind `mov`.
fn find_child(children: &Vec<(String, Node)>, mov: &str) -> (r: usize)
    requires
        exists|i: int| 0 <= i < children@.len() && children@[i].0@ == mov@,
    ensures
        r < children@.len(),
        children@[r as int].0@ == mov@,
        forall|j: int| 0 <= j < r ==> children@[j].0@ != mov@,
{
    let n = children.len();
    let mut i: usize = 0;
    loop
        invariant
            n == children@.len(),
            i <= children@.len(),
            forall|j: int| 0 <= j < i ==> children@[j].0@ != mov@,
            exists|k: int| 0 <= k < children@.len() && children@[k].0@ == mov@,
        decreases children@.len() - i,
    {
        let ghost k = choose|k: int| 0 <= k < children@.len() && children@[k].0@ == mov@;
        assert(i <= k);
        if crate::text::same_text(children[i].0.as_str(), mov) {
            return i;
        }
        assert(i < k);
        i = i + 1;
    }
}

impl Node {
    /// Whether the node was visited, for real or virtually, so that its
    /// children are there.
    pub open spec fn initialized(&self) -> bool {
        self.visits != 0 || self.virtual_visits != 0
    }

    /// Check whether this node has been visited at least once and that the
    /// children are initialized.
    pub fn is_initialized(&self) -> (r: bool)
        ensures
            r == self.initialized(),
    {
        self.visits != 0 || self.virtual_visits != 0
    }

    /// The improved policy: the visits of each child, by its move.
    pub fn improved_policy(&self) -> (r: Vec<(String, u32)>)
        requires
            self.initialized(),
        ensures
            r.deep_view() == self.children@.map_values(
                |child: (String, Node)| (child.0@, child.1.visits),
            ),
    {
        let mut r: Vec<(String, u32)> = Vec::new();
        let ghost target = self.children@.map_values(
            |child: (String, Node)| (child.0@, child.1.visits),
        );
        let mut i: usize = 0;
        while i < self.children.len()
            invariant
                i <= self.children@.len(),
                target == self.children@.map_values(
                    |child: (String, Node)| (child.0@, child.1.visits),
                ),
                r.deep_view() == target.take(i as int),
            decreases self.children@.len() - i,
        {
            let mov = self.children[i].0.clone();
            let v = self.children[i].1.visits;
            let ghost before = r.deep_view();
            r.push((mov, v));
            proof {
                assert(r.deep_view() =~= before.push((mov@, v)));
                assert(target[i as int] == (mov@, v));
                assert(target.take(i + 1) =~= target.take(i as int).push(target[i as int]));
            }
            i = i + 1;
        }
        assert(target.take(self.children@.len() as int) =~= target);
        r
    }

    /// Select a move to play: with `exploitation`, the move with the most
    /// visits (the last among equals); otherwise a random move weighted by
    /// visits.
    pub fn pick_move(&self, exploitation: bool) -> (r: String)
        requires
            self.initialized(),
            self.children@.len() > 0,
            !exploitation ==> 0 < total_visits(child_visits(self.children@)) <= u32::MAX,
        ensures
            exists|i: int|
                0 <= i < self.children@.len() && r == self.children@[i].0 && (exploitation
                    ==> i == best_child(self.children@)) && (!exploitation
                    ==> self.children@[i].1.visits > 0),
    {
        let visits = visits_of(&self.children);
        let i = pick_move(&visits, exploitation);
        proof {
            if exploitation {
                lemma_best_child(self.children@, i as int);
            }
        }
        self.children[i].0.clone()
    }

    /// The sub-tree after `mov`, to reuse after the move is played: the
    /// first child behind that move.
    pub fn play(self, mov: &str) -> (r: Node)
        requires
            self.initialized(),
            exists|i: int| 0 <= i < self.children@.len() && self.children@[i].0@ == mov@,
        ensures
            exists|i: int|
                0 <= i < self.children@.len() && self.children@[i].0@ == mov@ && (forall|j: int|
                    0 <= j < i ==> self.children@[j].0@ != mov@) && r == self.children@[i].1,
    {
        let ghost children = self.children@;
        let i = find_child(&self.children, mov);
        let mut all = self.children;
        let (_, child) = all.swap_remove(i);
        assert(child == children[i as int].1);
        child
    }

    /// The line of play that the search expects from this node, at most
    /// `depth` moves long, each move with the visits of the node it leads to.
    pub fn continuation(&self, depth: usize) -> (r: Vec<(String, u32)>)
        ensures
            r.deep_view() == continuation_of(*self, depth as nat),
    {
        let mut out: Vec<(String, u32)> = Vec::new();
        let mut node = self;
        let mut left = depth;
        while left > 0 && node.children.len() > 0
            invariant
                left <= depth,
                out.deep_view() + continuation_of(*node, left as nat) == continuation_of(
                    *self,
                    depth as nat,
                ),
            decreases left,
        {
            let visits = visits_of(&node.children);
            let i = pick_move(&visits, true);
            proof {
                lemma_best_child(node.children@, i as int);
            }
            let (mov, child) = &node.children[i];
            let ghost before = out.deep_view();
            out.push((mov.clone(), child.visits));
            proof {
                assert(out.deep_view() =~= before.push((mov@, child.visits)));
                assert(continuation_of(*node, left as nat) == seq![(mov@, child.visits)]
                    + continuation_of(*child, (left - 1) as nat));
                assert(out.deep_view() + continuation_of(*child, (left - 1) as nat) =~= before
                    + continuation_of(*node, left as nat));
            }
            node = child;
            left = left - 1;
        }
        assert(continuation_of(*node, left as nat) =~= Seq::<(Seq<char>, u32)>::empty());
        assert(out.deep_view() + Seq::<(Seq<char>, u32)>::empty() =~= out.deep_view());
        out
    }
}

impl Node {
    /// The children in the order of their visits, most visited first, as
    /// indices; the order among equal visits is left open.
    pub fn moves_by_visits(&self) -> (r: Vec<usize>)
        ensures
            r@.len() == self.children@.len(),
            forall|a: int| 0 <= a < r@.len() ==> #[trigger] r@[a] < self.children@.len(),
            forall|a: int, b: int| 0 <= a < b < r@.len() ==> #[trigger] r@[a] != #[trigger] r@[b],
            forall|a: int, b: int|
                0 <= a < b < r@.len() ==> self.children@[#[trigger] r@[a] as int].1.visits
                    >= self.children@[#[trigger] r@[b] as int].1.visits,
    {
        let visits = visits_of(&self.children);
        let ghost vis = visits@;
        let n = visits.len();
        let mut order: Vec<usize> = Vec::new();
        let mut i: usize = 0;
        while i < n
            invariant
                i <= n,
                order@.len() == i,
                forall|a: int| 0 <= a < i ==> order@[a] == a,
            decreases n - i,
        {
            order.push(i);
            i = i + 1;
        }
        let mut p: usize = 0;
        while p < n
            invariant
                p <= n,
                n == vis.len(),
                vis == visits@,
                order@.len() == n,
                forall|a: int| 0 <= a < n ==> #[trigger] order@[a] < n,
                forall|a: int, b: int| 0 <= a < b < n ==> #[trigger] order@[a] != #[trigger] order@[b],
                forall|a: int, b: int|
                    0 <= a < b < n && a < p ==> vis[#[trigger] order@[a] as int] >= vis[#[trigger] order@[b] as int],
            decreases n - p,
        {
            let mut best = p;
            let mut q = p + 1;
            while q < n
                invariant
                    p < n,
                    p <= best < q <= n,
                    n == vis.len(),
                    vis == visits@,
                    order@.len() == n,
                    forall|a: int| 0 <= a < n ==> #[trigger] order@[a] < n,
                    forall|b: int| p <= b < q ==> vis[order@[best as int] as int] >= vis[#[trigger] order@[b] as int],
                decreases n - q,
            {
                if visits[order[q]] > visits[order[best]] {
                    best = q;
                }
                q = q + 1;
            }
            let top = order[best];
            let here = order[p];
            let ghost before = order@;
            order.set(p, top);
            order.set(best, here);
            proof {
                assert forall|a: int| 0 <= a < n implies #[trigger] order@[a] < n by {
                    if a != p && a != best {
                        assert(order@[a] == before[a]);
                    }
                }
                assert forall|a: int, b: int| 0 <= a < b < n implies #[trigger] order@[a] != #[trigger] order@[b] by {
                    let oa = if a == p { best as int } else if a == best { p as int } else { a };
                    let ob = if b == p { best as int } else if b == best { p as int } else { b };
                    assert(order@[a] == before[oa]);
                    assert(order@[b] == before[ob]);
                    assert(oa != ob);
                }
                assert forall|a: int, b: int|
                    0 <= a < b < n && a < p + 1 implies vis[#[trigger] order@[a] as int] >= vis[#[trigger] order@[b] as int] by {
                    let ob = if b == p { best as int } else if b == best { p as int } else { b };
                    assert(order@[b] == before[ob]);
                    if a < p {
                        assert(order@[a] == before[a]);
                        assert(a < ob);
                    } else {
                        assert(order@[a] == before[best as int]);
                        assert(p <= ob);
                    }
                }
            }
            p = p + 1;
        }
        proof {
            assert forall|a: int, b: int|
                0 <= a < b < order@.len() implies self.children@[#[trigger] order@[a] as int].1.visits
                    >= self.children@[#[trigger] order@[b] as int].1.visits by {
                assert(vis[order@[a] as int] == self.children@[order@[a] as int].1.visits);
                assert(vis[order@[b] as int] == self.children@[order@[b] as int].1.visits);
            }
        }
        order
    }
}

/// Whether a rollout that went down `path` (a child index per step, from
/// step `depth` on) can be made real: every node on it holds a virtual
/// visit and has room for one more real visit, and every step names a
/// child.
pub open spec fn path_devirtualizable(node: Node, path: Seq<usize>, depth: int) -> bool
    decreases path.len() - depth,
{
    &&& node.virtual_visits > 0
    &&& node.visits < u32::MAX
    &&& (0 <= depth < path.len() ==> {
        &&& path[depth] < node.children@.len()
        &&& path_devirtualizable(node.children@[path[depth] as int].1, path, depth + 1)
    })
}

/// Whether `after` is `before` with the rollout down `path` (from step
/// `depth` on) made real: each node on it trades a virtual visit for a real
/// one, and nothing else changes.
pub open spec fn devirtualized(before: Node, after: Node, path: Seq<usize>, depth: int) -> bool
    decreases path.len() - depth,
{
    &&& after.visits == before.visits + 1
    &&& after.virtual_visits == before.virtual_visits - 1
    &&& after.children@.len() == before.children@.len()
    &&& forall|j: int|
        0 <= j < before.children@.len() && !(0 <= depth < path.len() && j == path[depth])
            ==> #[trigger] after.children@[j] == before.children@[j]
    &&& (0 <= depth < path.len() ==> {
        let i = path[depth] as int;
        &&& after.children@[i].0 == before.children@[i].0
        &&& devirtualized(before.children@[i].1, after.children@[i].1, path, depth + 1)
    })
}

impl Node {
    /// Make the rollout that went down `path`, from step `depth` on, real:
    /// once the network has evaluated the position it reached, every node
    /// on the path trades its virtual visit for a real one.
    pub fn devirtualize_path(&mut self, path: &Vec<usize>, depth: usize)
        requires
            depth <= path@.len(),
            path_devirtualizable(*old(self), path@, depth as int),
        ensures
            devirtualized(*old(self), *final(self), path@, depth as int),
        decreases path@.len() - depth,
    {
        self.virtual_visits = self.virtual_visits - 1;
        self.visits = self.visits + 1;
        if depth < path.len() {
            let i = path[depth];
            let mut children: Vec<(String, Node)> = Vec::new();
            core::mem::swap(&mut children, &mut self.children);
            let ghost before = children@;
            let (mov, mut child) = children.remove(i);
            let ghost child_before = child;
            assert(child_before == before[i as int].1);
            child.devirtualize_path(path, depth + 1);
            children.insert(i, (mov, child));
            proof {
                assert(children@ =~= before.update(i as int, (mov, child)));
            }
            self.children = children;
        }
    }
}

/// Whether a rollout down `path` (from step `depth` on) can count a
/// virtual visit on every node it passes: each has room for one more, and
/// every step names a child.
pub open spec fn path_virtualizable(node: Node, path: Seq<usize>, depth: int) -> bool
    decreases path.len() - depth,
{
    &&& node.virtual_visits < u32::MAX
    &&& (0 <= depth < path.len() ==> {
        &&& path[depth] < node.children@.len()
        &&& path_virtualizable(node.children@[path[depth] as int].1, path, depth + 1)
    })
}

/// Whether every node on `path` (from step `depth` on) has room for one
/// more real visit.
pub open spec fn visits_room(node: Node, path: Seq<usize>, depth: int) -> bool
    decreases path.len() - depth,
{
    &&& node.visits < u32::MAX
    &&& (0 <= depth < path.len() && path[depth] < node.children@.len() ==> visits_room(
        node.children@[path[depth] as int].1,
        path,
        depth + 1,
    ))
}

/// Whether `after` is `before` with one more virtual visit on every node of
/// `path` (from step `depth` on), and nothing else changed.
pub open spec fn virtualized(before: Node, after: Node, path: Seq<usize>, depth: int) -> bool
    decreases path.len() - depth,
{
    &&& after.visits == before.visits
    &&& after.virtual_visits == before.virtual_visits + 1
    &&& after.children@.len() == before.children@.len()
    &&& forall|j: int|
        0 <= j < before.children@.len() && !(0 <= depth < path.len() && j == path[depth])
            ==> #[trigger] after.children@[j] == before.children@[j]
    &&& (0 <= depth < path.len() ==> {
        let i = path[depth] as int;
        &&& after.children@[i].0 == before.children@[i].0
        &&& virtualized(before.children@[i].1, after.children@[i].1, path, depth + 1)
    })
}

/// Whether `after` is `before` with one more real visit on every node of
/// `path` (from step `depth` on), and nothing else changed.
pub open spec fn visited(before: Node, after: Node, path: Seq<usize>, depth: int) -> bool
    decreases path.len() - depth,
{
    &&& after.visits == before.visits + 1
    &&& after.virtual_visits == before.virtual_visits
    &&& after.children@.len() == before.children@.len()
    &&& forall|j: int|
        0 <= j < before.children@.len() && !(0 <= depth < path.len() && j == path[depth])
            ==> #[trigger] after.children@[j] == before.children@[j]
    &&& (0 <= depth < path.len() ==> {
        let i = path[depth] as int;
        &&& after.children@[i].0 == before.children@[i].0
        &&& visited(before.children@[i].1, after.children@[i].1, path, depth + 1)
    })
}

impl Node {
    /// Count a virtual visit on every node of `path`, from step `depth` on:
    /// the rollout went down it and waits for the network's evaluation of
    /// where it ended.
    pub fn virtualize_path(&mut self, path: &Vec<usize>, depth: usize)
        requires
            depth <= path@.len(),
            path_virtualizable(*old(self), path@, depth as int),
        ensures
            virtualized(*old(self), *final(self), path@, depth as int),
        decreases path@.len() - depth,
    {
        self.virtual_visits = self.virtual_visits + 1;
        if depth < path.len() {
            let i = path[depth];
            let mut children: Vec<(String, Node)> = Vec::new();
            core::mem::swap(&mut children, &mut self.children);
            let ghost before = children@;
            let (mov, mut child) = children.remove(i);
            assert(child == before[i as int].1);
            child.virtualize_path(path, depth + 1);
            children.insert(i, (mov, child));
            proof {
                assert(children@ =~= before.update(i as int, (mov, child)));
            }
            self.children = children;
        }
    }
}

/// A rollout that counts virtual visits down a path and is then made real
/// leaves one more real visit on every node of the path and the virtual
/// visits as they were: after the virtual visits, making them real is
/// always possible where the real visits have room.
pub proof fn law_rollout_counts_one_visit(
    before: Node,
    pending: Node,
    after: Node,
    path: Seq<usize>,
    depth: int,
)
    requires
        0 <= depth <= path.len(),
        path_virtualizable(before, path, depth),
        visits_room(before, path, depth),
        virtualized(before, pending, path, depth),
    ensures
        path_devirtualizable(pending, path, depth),
        devirtualized(pending, after, path, depth) ==> visited(before, after, path, depth),
    decreases path.len() - depth,
{
    if depth < path.len() {
        let i = path[depth] as int;
        law_rollout_counts_one_visit(
            before.children@[i].1,
            pending.children@[i].1,
            after.children@[i].1,
            path,
            depth + 1,
        );
        if devirtualized(pending, after, path, depth) {
            assert forall|j: int|
                0 <= j < before.children@.len() && !(0 <= depth < path.len() && j == path[depth])
                    implies #[trigger] after.children@[j] == before.children@[j] by {
                assert(after.children@[j] == pending.children@[j]);
                assert(pending.children@[j] == before.children@[j]);
            }
        }
    }
}

} // verus!
