//! The order of evaluation: which nodes have to be computed for a release,
//! and in which order.
//!
//! The nodes to compute are the release nodes and what they read, directly
//! or through other nodes, as far as no value is at hand yet. A node whose
//! value the incoming release holds is not computed again, and nothing is
//! computed for its sake.

use vstd::prelude::*;
use crate::graph::{Analysis, Component, NodeKind};
use crate::reach::explore;
use crate::release::Release;
use crate::traversal::{lemma_short_list, lists};
use crate::validator::get_release_nodes;
use crate::checks::Check;

verus! {

broadcast use vstd::std_specs::hash::group_hash_axioms;

impl Analysis {
    /// Whether the release holds the value of the node at position `i`.
    pub open spec fn seeded(self, release: Release, i: int) -> bool {
        release.has(self.graph[i].id)
    }

    /// Whether the node at position `i` is a release node.
    pub open spec fn released_at(self, i: int) -> bool {
        0 <= i < self.graph.len() && self.graph[i].privatizer() && self.exposed(i)
    }

    /// A walk from a release node through nodes whose values are not at
    /// hand.
    pub open spec fn pending_walk(self, release: Release, path: Seq<int>) -> bool {
        &&& self.walk(path)
        &&& path.len() >= 1
        &&& self.released_at(path[0])
        &&& forall|k: int| 0 <= k < path.len() ==> !self.seeded(release, #[trigger] path[k])
    }

    /// Whether the node at position `i` has to be computed: a release node
    /// reads it, directly or through other nodes, and no value is at hand
    /// for it or for a node in between.
    pub open spec fn needed(self, release: Release, i: int) -> bool {
        exists|path: Seq<int>|
            #![trigger self.pending_walk(release, path)]
            self.pending_walk(release, path) && path[path.len() - 1] == i
    }

    /// Whether the node at position `i` reads data in.
    pub open spec fn ingests(self, i: int) -> bool {
        self.graph[i].operation.kind_of() == NodeKind::DataSource
    }

    /// Whether the node at position `i` can be computed next: it has to be
    /// computed, is not done yet, and each of its sources is at hand or
    /// done.
    pub open spec fn ready(self, release: Release, done: Seq<usize>, i: int) -> bool {
        &&& 0 <= i < self.graph.len()
        &&& self.needed(release, i)
        &&& !lists(done, i)
        &&& forall|j: int| #[trigger] self.arc(i, j) ==> self.seeded(release, j) || lists(done, j)
    }

    /// The first position at or after `from` of a node that can be computed
    /// next.
    pub open spec fn first_ready(self, release: Release, done: Seq<usize>, from: int) -> Option<int>
        decreases self.graph.len() - from,
    {
        if from < 0 || from >= self.graph.len() {
            None
        } else if self.ready(release, done, from) {
            Some(from)
        } else {
            self.first_ready(release, done, from + 1)
        }
    }

    /// The nodes before position `k` that read data in and have to be
    /// computed, in the order of the graph.
    pub open spec fn ingesting_upto(self, release: Release, k: int) -> Seq<usize>
        decreases k,
    {
        if k <= 0 {
            Seq::empty()
        } else if self.needed(release, k - 1) && self.ingests(k - 1) {
            self.ingesting_upto(release, k - 1).push((k - 1) as usize)
        } else {
            self.ingesting_upto(release, k - 1)
        }
    }

    /// The order after `rounds` rounds: first the nodes that read data in;
    /// then, round by round, the first node of the graph that can be
    /// computed next.
    pub open spec fn rounds(self, release: Release, rounds: nat) -> Seq<usize>
        decreases rounds,
    {
        if rounds == 0 {
            self.ingesting_upto(release, self.graph.len() as int)
        } else {
            let done = self.rounds(release, (rounds - 1) as nat);
            match self.first_ready(release, done, 0) {
                Some(i) => done.push(i as usize),
                None => done,
            }
        }
    }

    /// The order of evaluation: as many rounds as the graph has nodes.
    pub open spec fn evaluation_order(self, release: Release) -> Seq<usize> {
        self.rounds(release, self.graph.len() as nat)
    }

    /// Whether `order` is an order of evaluation: it lists the nodes to
    /// compute, each once and after those of its sources that are to be
    /// computed, the nodes that read data in before all others.
    pub open spec fn scheduled(self, release: Release, order: Seq<usize>) -> bool {
        &&& forall|k: int|
            0 <= k < order.len() ==> (#[trigger] order[k]) < self.graph.len() && self.needed(
                release,
                order[k] as int,
            )
        &&& forall|k: int, l: int| 0 <= k < l < order.len() ==> order[k] != order[l]
        &&& forall|i: int| self.needed(release, i) ==> #[trigger] lists(order, i)
        &&& forall|k: int, j: int|
            0 <= k < order.len() && #[trigger] self.arc(order[k] as int, j) ==> self.seeded(release, j)
                || exists|l: int| 0 <= l < k && #[trigger] order[l] == j
        &&& forall|k: int, l: int|
            0 <= k < l < order.len() && self.ingests((#[trigger] order[l]) as int) ==> self.ingests(
                (#[trigger] order[k]) as int,
            )
    }
}

/// With the release nodes that are not at hand for roots and the nodes at
/// hand for stops, the search reaches the nodes to compute, and beyond them
/// only nodes at hand.
proof fn lemma_needed_is_reached(
    analysis: Analysis,
    release: Release,
    roots: Seq<bool>,
    stops: Seq<bool>,
    i: int,
)
    requires
        roots.len() == analysis.graph.len(),
        stops.len() == analysis.graph.len(),
        forall|j: int|
            0 <= j < roots.len() ==> (#[trigger] roots[j] <==> analysis.released_at(j)
                && !analysis.seeded(release, j)),
        forall|j: int| 0 <= j < stops.len() ==> (#[trigger] stops[j] <==> analysis.seeded(release, j)),
        0 <= i < analysis.graph.len(),
    ensures
        analysis.needed(release, i) <==> analysis.reached(roots, stops, i) && !stops[i],
{
    if analysis.needed(release, i) {
        let path = choose|path: Seq<int>|
            #![trigger analysis.pending_walk(release, path)]
            analysis.pending_walk(release, path) && path[path.len() - 1] == i;
        assert forall|k: int| 0 <= k < path.len() - 1 implies !stops[#[trigger] path[k]] by {
            assert(!analysis.seeded(release, path[k]));
        }
        assert(analysis.open_path(stops, path));
        assert(!analysis.seeded(release, path[0]));
        assert(!analysis.seeded(release, path[path.len() - 1]));
    }
    if analysis.reached(roots, stops, i) && !stops[i] {
        let path = choose|path: Seq<int>|
            #![trigger analysis.open_path(stops, path)]
            analysis.open_path(stops, path) && path.len() >= 1 && roots[path[0]] && path[path.len() - 1]
                == i;
        assert(0 <= path[0] < roots.len());
        assert forall|k: int| 0 <= k < path.len() implies !analysis.seeded(
            release,
            #[trigger] path[k],
        ) by {
            if k < path.len() - 1 {
                assert(!stops[path[k]]);
            }
        }
        assert(analysis.pending_walk(release, path));
    }
}

/// A source of a node to compute is at hand or to be computed itself.
proof fn lemma_needed_step(analysis: Analysis, release: Release, i: int, j: int)
    requires
        analysis.needed(release, i),
        analysis.arc(i, j),
    ensures
        analysis.seeded(release, j) || analysis.needed(release, j),
{
    if !analysis.seeded(release, j) {
        let path = choose|path: Seq<int>|
            #![trigger analysis.pending_walk(release, path)]
            analysis.pending_walk(release, path) && path[path.len() - 1] == i;
        let longer = path.push(j);
        assert forall|k: int| 0 <= k < longer.len() - 1 implies #[trigger] analysis.step(longer, k) by {
            if k < path.len() - 1 {
                assert(analysis.step(path, k));
                assert(longer[k] == path[k] && longer[k + 1] == path[k + 1]);
            }
        }
        assert forall|k: int| 0 <= k < longer.len() implies !analysis.seeded(
            release,
            #[trigger] longer[k],
        ) by {
            if k < path.len() {
                assert(longer[k] == path[k]);
            }
        }
        assert(longer[0] == path[0]);
        assert(analysis.pending_walk(release, longer));
        assert(longer[longer.len() - 1] == j);
    }
}

/// `first_ready` finds a node that can be computed next with none before
/// it, or there is none from `from` on.
pub proof fn lemma_first_ready(analysis: Analysis, release: Release, done: Seq<usize>, from: int)
    requires
        0 <= from,
    ensures
        match analysis.first_ready(release, done, from) {
            Some(i) => from <= i < analysis.graph.len() && analysis.ready(release, done, i)
                && forall|k: int| from <= k < i ==> !analysis.ready(release, done, k),
            None => forall|k: int| from <= k ==> !analysis.ready(release, done, k),
        },
    decreases analysis.graph.len() - from,
{
    if from < analysis.graph.len() && !analysis.ready(release, done, from) {
        lemma_first_ready(analysis, release, done, from + 1);
    }
}

/// Once no node can be computed next, further rounds change nothing.
proof fn lemma_rounds_settle(analysis: Analysis, release: Release, r: nat, m: nat)
    requires
        r <= m,
        analysis.first_ready(release, analysis.rounds(release, r), 0) is None,
    ensures
        analysis.rounds(release, m) == analysis.rounds(release, r),
    decreases m,
{
    if m > r {
        lemma_rounds_settle(analysis, release, r, (m - 1) as nat);
    }
}

/// Where no node can be computed next, a node that has to be computed and
/// is not done starts a walk of any length through such nodes.
proof fn lemma_stuck_walk(analysis: Analysis, release: Release, done: Seq<usize>, i: int, steps: nat) -> (path:
    Seq<int>)
    requires
        0 <= i < analysis.graph.len(),
        analysis.needed(release, i),
        !lists(done, i),
        forall|x: int| !analysis.ready(release, done, x),
    ensures
        analysis.walk(path),
        path.len() == steps + 1,
        path[0] == i,
        forall|k: int|
            0 <= k < path.len() ==> analysis.needed(release, #[trigger] path[k]) && !lists(
                done,
                path[k],
            ),
    decreases steps,
{
    if steps == 0 {
        let path = seq![i];
        assert(analysis.walk(path));
        path
    } else {
        let shorter = lemma_stuck_walk(analysis, release, done, i, (steps - 1) as nat);
        let last = shorter[shorter.len() - 1];
        assert(analysis.needed(release, last) && !lists(done, last));
        assert(!analysis.ready(release, done, last));
        let j = choose|j: int|
            #[trigger] analysis.arc(last, j) && !(analysis.seeded(release, j) || lists(done, j));
        lemma_needed_step(analysis, release, last, j);
        let path = shorter.push(j);
        assert forall|k: int| 0 <= k < path.len() - 1 implies #[trigger] analysis.step(path, k) by {
            if k < shorter.len() - 1 {
                assert(analysis.step(shorter, k));
                assert(path[k] == shorter[k] && path[k + 1] == shorter[k + 1]);
            }
        }
        assert forall|k: int| 0 <= k < path.len() implies 0 <= #[trigger] path[k]
            < analysis.graph.len() by {
            if k < shorter.len() {
                assert(path[k] == shorter[k]);
            }
        }
        assert forall|k: int| 0 <= k < path.len() implies analysis.needed(release, #[trigger] path[k])
            && !lists(done, path[k]) by {
            if k < shorter.len() {
                assert(path[k] == shorter[k]);
            }
        }
        path
    }
}

/// In a graph without a cycle, once no node can be computed next every node
/// that has to be computed is done: a node left over would start a walk
/// longer than the graph, and such a walk passes some node twice.
proof fn lemma_all_done(analysis: Analysis, release: Release, done: Seq<usize>, i: int)
    requires
        !analysis.cyclic(),
        0 <= i < analysis.graph.len(),
        analysis.needed(release, i),
        forall|x: int| !analysis.ready(release, done, x),
    ensures
        lists(done, i),
{
    if !lists(done, i) {
        let n = analysis.graph.len() as nat;
        let path = lemma_stuck_walk(analysis, release, done, i, n);
        let places = Seq::new(path.len(), |k: int| path[k] as usize);
        if forall|a: int, b: int| 0 <= a < b < places.len() ==> places[a] != places[b] {
            assert forall|k: int| 0 <= k < places.len() implies (#[trigger] places[k]) < n by {
                assert(0 <= path[k] < n);
            }
            lemma_short_list(places, n);
        } else {
            let (a, b) = choose|a: int, b: int| 0 <= a < b < places.len() && places[a] == places[b];
            assert(0 <= path[a] < n && 0 <= path[b] < n);
            let ring = path.subrange(a, b + 1);
            assert forall|k: int| 0 <= k < ring.len() - 1 implies #[trigger] analysis.step(ring, k) by {
                assert(analysis.step(path, a + k));
                assert(ring[k] == path[a + k] && ring[k + 1] == path[a + k + 1]);
            }
            assert forall|k: int| 0 <= k < ring.len() implies 0 <= #[trigger] ring[k]
                < analysis.graph.len() by {
                assert(ring[k] == path[a + k]);
            }
            assert(ring[0] == path[a] && ring[ring.len() - 1] == path[b]);
            assert(analysis.cycle(ring));
        }
    }
}

/// Whether the node at position `i` can be computed next. `marks` says which
/// nodes have to be computed, `at_hand` which values are at hand, and
/// `flags` which nodes are done.
fn is_ready(
    analysis: &Analysis,
    i: usize,
    marks: &Vec<bool>,
    at_hand: &Vec<bool>,
    flags: &Vec<bool>,
    Ghost(release): Ghost<Release>,
    Ghost(done): Ghost<Seq<usize>>,
) -> (r: bool)
    requires
        analysis.wf(),
        i < analysis.graph.len(),
        marks.len() == analysis.graph.len(),
        at_hand.len() == analysis.graph.len(),
        flags.len() == analysis.graph.len(),
        forall|j: int| 0 <= j < marks.len() ==> (#[trigger] marks[j] <==> analysis.needed(release, j)),
        forall|j: int| 0 <= j < at_hand.len() ==> (#[trigger] at_hand[j] <==> analysis.seeded(release, j)),
        forall|j: int| 0 <= j < flags.len() ==> (#[trigger] flags[j] <==> lists(done, j)),
    ensures
        r == analysis.ready(release, done, i as int),
{
    if !marks[i] || flags[i] {
        return false;
    }
    let node: &Component = &analysis.graph[i];
    let mut k: usize = 0;
    while k < node.arguments.len()
        invariant
            k <= node.arguments.len(),
            analysis.wf(),
            i < analysis.graph.len(),
            node == &analysis.graph[i as int],
            at_hand.len() == analysis.graph.len(),
            flags.len() == analysis.graph.len(),
            forall|j: int|
                0 <= j < at_hand.len() ==> (#[trigger] at_hand[j] <==> analysis.seeded(release, j)),
            forall|j: int| 0 <= j < flags.len() ==> (#[trigger] flags[j] <==> lists(done, j)),
            forall|b: int, j: int|
                0 <= b < k && 0 <= j < analysis.graph.len() && (
                #[trigger] node.arguments[b]).field.source_node_id == (#[trigger] analysis.graph[j]).id
                    ==> analysis.seeded(release, j) || lists(done, j),
        decreases node.arguments.len() - k,
    {
        match analysis.position(node.arguments[k].field.source_node_id) {
            Some(j) => {
                if !at_hand[j] && !flags[j] {
                    proof {
                        assert(node.arguments[k as int].field.source_node_id == analysis.graph[j as int].id);
                        assert(node.reads(analysis.graph[j as int].id));
                        assert(analysis.arc(i as int, j as int));
                    }
                    return false;
                }
                proof {
                    assert forall|b: int, y: int|
                        0 <= b < k + 1 && 0 <= y < analysis.graph.len() && (
                        #[trigger] node.arguments[b]).field.source_node_id == (
                        #[trigger] analysis.graph[y]).id implies analysis.seeded(release, y) || lists(
                        done,
                        y,
                    ) by {
                        if b == k {
                            assert(y == j);
                        }
                    }
                }
            },
            None => {
                proof {
                    assert forall|b: int, y: int|
                        0 <= b < k + 1 && 0 <= y < analysis.graph.len() && (
                        #[trigger] node.arguments[b]).field.source_node_id == (
                        #[trigger] analysis.graph[y]).id implies analysis.seeded(release, y) || lists(
                        done,
                        y,
                    ) by {
                        if b == k {
                            assert(analysis.has(node.arguments[k as int].field.source_node_id));
                        }
                    }
                }
            },
        }
        k += 1;
    }
    proof {
        assert forall|j: int| #[trigger] analysis.arc(i as int, j) implies analysis.seeded(release, j)
            || lists(done, j) by {
            let b = choose|b: int|
                0 <= b < node.arguments.len() && (#[trigger] node.arguments[b]).field.source_node_id
                    == analysis.graph[j].id;
            assert(node.arguments[b].field.source_node_id == analysis.graph[j].id);
        }
    }
    true
}

/// What holds of the order while it grows.
spec fn growing(analysis: Analysis, release: Release, order: Seq<usize>, flags: Seq<bool>) -> bool {
    &&& flags.len() == analysis.graph.len()
    &&& forall|j: int| 0 <= j < flags.len() ==> (#[trigger] flags[j] <==> lists(order, j))
    &&& forall|k: int|
        0 <= k < order.len() ==> (#[trigger] order[k]) < analysis.graph.len() && analysis.needed(
            release,
            order[k] as int,
        )
    &&& forall|k: int, l: int| 0 <= k < l < order.len() ==> order[k] != order[l]
    &&& forall|k: int, j: int|
        0 <= k < order.len() && #[trigger] analysis.arc(order[k] as int, j) ==> analysis.seeded(
            release,
            j,
        ) || exists|l: int| 0 <= l < k && #[trigger] order[l] == j
    &&& forall|k: int, l: int|
        0 <= k < l < order.len() && analysis.ingests((#[trigger] order[l]) as int) ==> analysis.ingests(
            (#[trigger] order[k]) as int,
        )
    &&& forall|i: int|
        0 <= i < analysis.graph.len() && analysis.needed(release, i) && analysis.ingests(i)
            ==> #[trigger] lists(order, i)
}

/// The order of evaluation for a valid analysis: the positions of the nodes
/// to compute. The nodes that read data in come first, in the order of the
/// graph; after them comes, again and again, the first node of the graph
/// whose sources are all at hand or computed. Every node to compute is
/// listed once, after those of its sources that are to be computed.
pub fn evaluation_order(analysis: &Analysis, release_in: &Release) -> (r: Vec<usize>)
    requires
        analysis.valid(),
    ensures
        r@ == analysis.evaluation_order(*release_in),
        analysis.scheduled(*release_in, r@),
{
    let n: usize = analysis.graph.len();
    let release_ids = get_release_nodes(analysis);
    let mut roots: Vec<bool> = Vec::new();
    let mut stops: Vec<bool> = Vec::new();
    let mut i: usize = 0;
    while i < n
        invariant
            i <= n,
            n == analysis.graph.len(),
            release_ids@ == analysis.release_nodes(),
            analysis.wf(),
            roots.len() == i,
            stops.len() == i,
            forall|j: int|
                0 <= j < i ==> (#[trigger] roots[j] <==> analysis.released_at(j) && !analysis.seeded(
                    *release_in,
                    j,
                )),
            forall|j: int| 0 <= j < i ==> (#[trigger] stops[j] <==> analysis.seeded(*release_in, j)),
        decreases n - i,
    {
        let node: &Component = &analysis.graph[i];
        let at_hand: bool = release_in.contains(node.id);
        let released: bool = release_ids.contains(&node.id);
        proof {
            if released {
                let j = choose|j: int|
                    0 <= j < analysis.graph.len() && (#[trigger] analysis.graph[j]).id == node.id
                        && analysis.graph[j].privatizer() && analysis.exposed(j);
                assert(j == i);
            }
            if analysis.released_at(i as int) {
                assert(analysis.graph[i as int].id == node.id);
            }
        }
        roots.push(released && !at_hand);
        stops.push(at_hand);
        i += 1;
    }
    let reached: Vec<bool> = explore(analysis, &roots, &stops);
    let mut marks: Vec<bool> = Vec::new();
    let mut i: usize = 0;
    while i < n
        invariant
            i <= n,
            n == analysis.graph.len(),
            reached.len() == n,
            stops.len() == n,
            marks.len() == i,
            forall|j: int| 0 <= j < i ==> (#[trigger] marks[j] <==> reached[j] && !stops[j]),
        decreases n - i,
    {
        marks.push(reached[i] && !stops[i]);
        i += 1;
    }
    proof {
        assert forall|j: int| 0 <= j < n implies (#[trigger] marks[j] <==> analysis.needed(
            *release_in,
            j,
        )) by {
            lemma_needed_is_reached(*analysis, *release_in, roots@, stops@, j);
        }
    }
    let ghost release = *release_in;
    let mut order: Vec<usize> = Vec::new();
    let mut flags: Vec<bool> = Vec::new();
    let mut i: usize = 0;
    while i < n
        invariant
            i <= n,
            n == analysis.graph.len(),
            analysis.valid(),
            release == *release_in,
            marks.len() == n,
            forall|j: int| 0 <= j < n ==> (#[trigger] marks[j] <==> analysis.needed(release, j)),
            order@ == analysis.ingesting_upto(release, i as int),
            flags.len() == i,
            forall|j: int| 0 <= j < i ==> (#[trigger] flags[j] <==> lists(order@, j)),
            forall|k: int|
                0 <= k < order.len() ==> (#[trigger] order[k]) < i && analysis.needed(
                    release,
                    order[k] as int,
                ) && analysis.ingests(order[k] as int),
            forall|k: int, l: int| 0 <= k < l < order.len() ==> order[k] != order[l],
            forall|j: int|
                0 <= j < i && analysis.needed(release, j) && analysis.ingests(j) ==> #[trigger] lists(
                    order@,
                    j,
                ),
        decreases n - i,
    {
        let reads_in: bool = analysis.graph[i].operation.kind() == NodeKind::DataSource;
        let ghost before = order@;
        if marks[i] && reads_in {
            order.push(i);
            flags.push(true);
            proof {
                assert(order@[order@.len() - 1] == i);
            }
        } else {
            flags.push(false);
        }
        proof {
            assert forall|j: int| 0 <= j < i + 1 implies (#[trigger] flags[j] <==> lists(order@, j)) by {
                if lists(before, j) {
                    let k = choose|k: int| 0 <= k < before.len() && #[trigger] before[k] == j;
                    assert(order@[k] == j);
                }
                if lists(order@, j) && !lists(before, j) {
                    let k = choose|k: int| 0 <= k < order@.len() && #[trigger] order@[k] == j;
                    if k < before.len() {
                        assert(before[k] == j);
                    }
                }
            }
            assert forall|j: int|
                0 <= j < i + 1 && analysis.needed(release, j) && analysis.ingests(j)
                implies #[trigger] lists(order@, j) by {
                if j < i {
                    assert(lists(before, j));
                    let k = choose|k: int| 0 <= k < before.len() && #[trigger] before[k] == j;
                    assert(order@[k] == j);
                } else {
                    assert(order@[order@.len() - 1] == j);
                }
            }
        }
        i += 1;
    }
    proof {
        assert(order@ == analysis.rounds(release, 0));
        assert forall|k: int, j: int|
            0 <= k < order.len() && #[trigger] analysis.arc(order[k] as int, j)
            implies analysis.seeded(release, j) || exists|l: int|
            0 <= l < k && #[trigger] order[l] == j by {
            // A node that reads data in has no argument.
            let at = order[k] as int;
            assert(analysis.passes(at, Check::Arity));
            let b = choose|b: int|
                0 <= b < analysis.graph[at].arguments.len() && (
                #[trigger] analysis.graph[at].arguments[b]).field.source_node_id == analysis.graph[j].id;
            assert(analysis.graph[at].operation.kind_of().required().contains(
                analysis.graph[at].arguments[b].name@,
            ));
        }
        assert(growing(*analysis, release, order@, flags@));
    }
    let mut round: usize = 0;
    let mut open: bool = true;
    while open
        invariant
            n == analysis.graph.len(),
            analysis.valid(),
            release == *release_in,
            marks.len() == n,
            stops.len() == n,
            forall|j: int| 0 <= j < n ==> (#[trigger] marks[j] <==> analysis.needed(release, j)),
            forall|j: int| 0 <= j < n ==> (#[trigger] stops[j] <==> analysis.seeded(release, j)),
            growing(*analysis, release, order@, flags@),
            round <= n,
            order@ == analysis.rounds(release, round as nat),
            order.len() >= round,
            !open ==> analysis.first_ready(release, order@, 0) is None,
        decreases n - order.len() + (if open { 1int } else { 0int }),
    {
        proof {
            lemma_short_list(order@, n as nat);
        }
        let mut found: Option<usize> = None;
        let mut i: usize = 0;
        while i < n && found.is_none()
            invariant
                i <= n,
                n == analysis.graph.len(),
                analysis.valid(),
                marks.len() == n,
                stops.len() == n,
                flags.len() == n,
                forall|j: int| 0 <= j < n ==> (#[trigger] marks[j] <==> analysis.needed(release, j)),
                forall|j: int| 0 <= j < n ==> (#[trigger] stops[j] <==> analysis.seeded(release, j)),
                forall|j: int| 0 <= j < n ==> (#[trigger] flags[j] <==> lists(order@, j)),
                match found {
                    Some(at) => at < n && analysis.ready(release, order@, at as int) && forall|k: int|
                        0 <= k < at ==> !analysis.ready(release, order@, k),
                    None => forall|k: int| 0 <= k < i ==> !analysis.ready(release, order@, k),
                },
            decreases n - i + (if found is None { 1int } else { 0int }),
        {
            if is_ready(analysis, i, &marks, &stops, &flags, Ghost(release), Ghost(order@)) {
                found = Some(i);
            } else {
                i += 1;
            }
        }
        proof {
            lemma_first_ready(*analysis, release, order@, 0);
        }
        match found {
            Some(at) => {
                let ghost before = order@;
                proof {
                    assert(analysis.first_ready(release, before, 0) == Some(at as int));
                    if round == n {
                        lemma_full(before, n as nat, at as int);
                    }
                }
                order.push(at);
                flags.set(at, true);
                round = round + 1;
                proof {
                    assert(order@[order@.len() - 1] == at);
                    assert forall|j: int| 0 <= j < n implies (#[trigger] flags[j] <==> lists(
                        order@,
                        j,
                    )) by {
                        if lists(before, j) {
                            let k = choose|k: int| 0 <= k < before.len() && #[trigger] before[k] == j;
                            assert(order@[k] == j);
                        }
                        if lists(order@, j) && j != at {
                            let k = choose|k: int| 0 <= k < order@.len() && #[trigger] order@[k] == j;
                            assert(before[k] == j);
                        }
                    }
                    assert forall|k: int, l: int| 0 <= k < l < order@.len() implies order@[k]
                        != order@[l] by {
                        if l == before.len() {
                            assert(before[k] == order@[k]);
                        }
                    }
                    assert forall|k: int, j: int|
                        0 <= k < order@.len() && #[trigger] analysis.arc(order@[k] as int, j)
                        implies analysis.seeded(release, j) || exists|l: int|
                        0 <= l < k && #[trigger] order@[l] == j by {
                        if k < before.len() {
                            assert(order@[k] == before[k]);
                            if !analysis.seeded(release, j) {
                                let l = choose|l: int| 0 <= l < k && #[trigger] before[l] == j;
                                assert(order@[l] == j);
                            }
                        } else {
                            if !analysis.seeded(release, j) {
                                assert(lists(before, j));
                                let l = choose|l: int| 0 <= l < before.len() && #[trigger] before[l] == j;
                                assert(order@[l] == j);
                            }
                        }
                    }
                    assert forall|k: int, l: int|
                        0 <= k < l < order@.len() && analysis.ingests((#[trigger] order@[l]) as int)
                        implies analysis.ingests((#[trigger] order@[k]) as int) by {
                        if l == before.len() {
                            assert(lists(before, at as int));
                        } else {
                            assert(order@[k] == before[k] && order@[l] == before[l]);
                        }
                    }
                    assert forall|i: int|
                        0 <= i < n && analysis.needed(release, i) && analysis.ingests(i)
                        implies #[trigger] lists(order@, i) by {
                        assert(lists(before, i));
                        let k = choose|k: int| 0 <= k < before.len() && #[trigger] before[k] == i;
                        assert(order@[k] == i);
                    }
                    assert forall|k: int| 0 <= k < order@.len() implies (#[trigger] order@[k]) < n
                        && analysis.needed(release, order@[k] as int) by {
                        if k < before.len() {
                            assert(order@[k] == before[k]);
                        }
                    }
                    lemma_short_list(order@, n as nat);
                }
            },
            None => {
                open = false;
            },
        }
    }
    proof {
        lemma_rounds_settle(*analysis, release, round as nat, n as nat);
        lemma_first_ready(*analysis, release, order@, 0);
        assert forall|i: int| analysis.needed(release, i) implies #[trigger] lists(order@, i) by {
            let path = choose|path: Seq<int>|
                #![trigger analysis.pending_walk(release, path)]
                analysis.pending_walk(release, path) && path[path.len() - 1] == i;
            assert(0 <= path[path.len() - 1] < n);
            lemma_all_done(*analysis, release, order@, i);
        }
    }
    order
}

/// A list without repeats of numbers below `n` that has `n` entries or more
/// lists every number below `n`.
proof fn lemma_full(order: Seq<usize>, n: nat, i: int)
    requires
        forall|k: int| 0 <= k < order.len() ==> (#[trigger] order[k]) < n,
        forall|k: int, l: int| 0 <= k < l < order.len() ==> order[k] != order[l],
        order.len() >= n,
        0 <= i < n,
        n <= usize::MAX,
    ensures
        lists(order, i),
{
    if !lists(order, i) {
        let longer = order.push(i as usize);
        assert forall|k: int, l: int| 0 <= k < l < longer.len() implies longer[k] != longer[l] by {
            if l == order.len() {
                assert(order[k] == longer[k]);
                if order[k] == i {
                    assert(lists(order, i));
                }
            }
        }
        assert forall|k: int| 0 <= k < longer.len() implies (#[trigger] longer[k]) < n by {
            if k < order.len() {
                assert(longer[k] == order[k]);
            }
        }
        lemma_short_list(longer, n);
    }
}

} // verus!
