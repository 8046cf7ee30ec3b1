//! Depth-first search of the analysis graph: whether it has a directed
//! cycle, and, where it has none, an order in which every node comes after
//! its sources.

use vstd::prelude::*;
use crate::graph::{Analysis, Component};

verus! {

/// The state of a node during the search: not yet met, on the current
/// branch, or done with.
#[derive(Clone, Copy, Debug, PartialEq, Eq, Structural)]
pub enum Color {
    White,
    Grey,
    Black,
}

impl Analysis {
    /// Whether the edge from `consumer` to `source` closes a directed cycle.
    pub open spec fn closes_cycle(self, consumer: int, source: int) -> bool {
        exists|path: Seq<int>|
            #![trigger self.cycle(path)]
            self.cycle(path) && path[path.len() - 2] == consumer && path[path.len() - 1] == source
    }

    /// Whether `order` lists every position of the graph once, each after
    /// the positions of its sources.
    pub open spec fn sorted(self, order: Seq<usize>) -> bool {
        &&& forall|k: int| 0 <= k < order.len() ==> (#[trigger] order[k]) < self.graph.len()
        &&& forall|k: int, l: int| 0 <= k < l < order.len() ==> order[k] != order[l]
        &&& forall|i: int| 0 <= i < self.graph.len() ==> #[trigger] lists(order, i)
        &&& self.sources_first(order)
    }

    /// Every source of a listed node is listed before it.
    pub open spec fn sources_first(self, order: Seq<usize>) -> bool {
        forall|k: int, j: int|
            0 <= k < order.len() && #[trigger] self.arc(order[k] as int, j) ==> exists|l: int|
                0 <= l < k && #[trigger] order[l] == j
    }
}

/// Whether `order` lists position `i`.
pub open spec fn lists(order: Seq<usize>, i: int) -> bool {
    exists|k: int| 0 <= k < order.len() && #[trigger] order[k] == i
}

spec fn whites(colors: Seq<Color>) -> nat
    decreases colors.len(),
{
    if colors.len() == 0 {
        0
    } else if colors.last() == Color::White {
        whites(colors.drop_last()) + 1
    } else {
        whites(colors.drop_last())
    }
}

proof fn lemma_whites_update(colors: Seq<Color>, i: int, c: Color)
    requires
        0 <= i < colors.len(),
        c != Color::White,
    ensures
        colors[i] == Color::White ==> whites(colors.update(i, c)) + 1 == whites(colors),
        colors[i] != Color::White ==> whites(colors.update(i, c)) == whites(colors),
    decreases colors.len(),
{
    let after = colors.update(i, c);
    if i == colors.len() - 1 {
        assert(after.drop_last() =~= colors.drop_last());
    } else {
        assert(after.drop_last() =~= colors.drop_last().update(i, c));
        lemma_whites_update(colors.drop_last(), i, c);
    }
}

/// What holds throughout the search: the grey nodes are those of the
/// current branch, which is a walk, and the black nodes are listed in
/// `order`, each after its sources.
spec fn searching(analysis: Analysis, colors: Seq<Color>, order: Seq<usize>, branch: Seq<int>) -> bool {
    let n = analysis.graph.len();
    &&& colors.len() == n
    &&& analysis.walk(branch)
    &&& forall|i: int| 0 <= i < n ==> (#[trigger] colors[i] == Color::Grey <==> branch.contains(i))
    &&& forall|k: int|
        0 <= k < order.len() ==> (#[trigger] order[k]) < n && colors[order[k] as int] == Color::Black
    &&& forall|i: int|
        0 <= i < n && #[trigger] colors[i] == Color::Black ==> exists|k: int|
            0 <= k < order.len() && #[trigger] order[k] == i
    &&& forall|k: int, l: int| 0 <= k < l < order.len() ==> order[k] != order[l]
    &&& analysis.sources_first(order)
}

spec fn extends(longer: Seq<usize>, shorter: Seq<usize>) -> bool {
    &&& shorter.len() <= longer.len()
    &&& forall|k: int| 0 <= k < shorter.len() ==> longer[k] == shorter[k]
}

proof fn lemma_walk_push(analysis: Analysis, branch: Seq<int>, next: int)
    requires
        analysis.walk(branch),
        0 <= next < analysis.graph.len(),
        branch.len() > 0 ==> analysis.arc(branch[branch.len() - 1], next),
    ensures
        analysis.walk(branch.push(next)),
{
    let longer = branch.push(next);
    assert forall|k: int| 0 <= k < longer.len() - 1 implies #[trigger] analysis.step(longer, k) by {
        if k < branch.len() - 1 {
            assert(analysis.step(branch, k));
            assert(longer[k] == branch[k] && longer[k + 1] == branch[k + 1]);
        }
    }
    assert forall|k: int| 0 <= k < longer.len() implies 0 <= #[trigger] longer[k]
        < analysis.graph.len() by {
        if k < branch.len() {
            assert(longer[k] == branch[k]);
        }
    }
}

/// An edge from the end of a walk back to a node of the walk closes a cycle.
proof fn lemma_back_edge(analysis: Analysis, branch: Seq<int>, t: int)
    requires
        analysis.walk(branch),
        0 <= t < branch.len(),
        analysis.arc(branch[branch.len() - 1], branch[t]),
    ensures
        analysis.closes_cycle(branch[branch.len() - 1], branch[t]),
{
    let tail = branch.subrange(t, branch.len() as int);
    let path = tail.push(branch[t]);
    assert forall|k: int| 0 <= k < path.len() implies 0 <= #[trigger] path[k]
        < analysis.graph.len() by {
        if k < tail.len() {
            assert(path[k] == branch[t + k]);
        }
    }
    assert forall|k: int| 0 <= k < path.len() - 1 implies #[trigger] analysis.step(path, k) by {
        assert(path[k] == branch[t + k]);
        if k < tail.len() - 1 {
            assert(path[k + 1] == branch[t + k + 1]);
            assert(analysis.step(branch, t + k));
        }
    }
    assert(analysis.cycle(path));
    assert(path[path.len() - 2] == branch[branch.len() - 1]);
}

/// Along a walk through listed nodes, each node is listed before the one it
/// was reached from.
proof fn lemma_walk_descends(analysis: Analysis, order: Seq<usize>, path: Seq<int>, k: int) -> (at: int)
    requires
        analysis.sorted(order),
        analysis.walk(path),
        0 <= k < path.len(),
    ensures
        0 <= at < order.len(),
        order[at] == path[k],
        k > 0 ==> exists|before: int| at < before < order.len() && order[before] == path[0],
        k == 0 ==> order[at] == path[0],
    decreases k,
{
    if k == 0 {
        assert(lists(order, path[0]));
        let at = choose|at: int| 0 <= at < order.len() && #[trigger] order[at] == path[0];
        at
    } else {
        let prev = lemma_walk_descends(analysis, order, path, k - 1);
        assert(analysis.step(path, k - 1));
        assert(analysis.arc(order[prev] as int, path[k]));
        let at = choose|at: int| 0 <= at < prev && #[trigger] order[at] == path[k];
        if k - 1 > 0 {
            let before = choose|before: int|
                prev < before < order.len() && order[before] == path[0];
            assert(at < before < order.len() && order[before] == path[0]);
        } else {
            assert(at < prev < order.len() && order[prev] == path[0]);
        }
        at
    }
}

/// A graph whose nodes can be listed each after its sources has no cycle.
pub proof fn lemma_sorted_is_acyclic(analysis: Analysis, order: Seq<usize>)
    requires
        analysis.sorted(order),
    ensures
        !analysis.cyclic(),
{
    if analysis.cyclic() {
        let path = choose|path: Seq<int>| analysis.cycle(path);
        let at = lemma_walk_descends(analysis, order, path, path.len() - 1);
        let before = choose|before: int| at < before < order.len() && order[before] == path[0];
        assert(order[at] == order[before]);
    }
}

/// A list without repeats of numbers below `n` has at most `n` entries.
pub proof fn lemma_short_list(order: Seq<usize>, n: nat)
    requires
        forall|k: int| 0 <= k < order.len() ==> (#[trigger] order[k]) < n,
        forall|k: int, l: int| 0 <= k < l < order.len() ==> order[k] != order[l],
    ensures
        order.len() <= n,
    decreases n,
{
    if order.len() == 0 {
    } else if n == 0 {
        assert(order[0] < n);
    } else {
        let top = (n - 1) as usize;
        if exists|t: int| 0 <= t < order.len() && order[t] == top {
            let t = choose|t: int| 0 <= t < order.len() && order[t] == top;
            let rest = order.remove(t);
            assert forall|k: int| 0 <= k < rest.len() implies (#[trigger] rest[k]) < n - 1 by {
                if k < t {
                    assert(rest[k] == order[k]);
                } else {
                    assert(rest[k] == order[k + 1]);
                }
            }
            assert forall|k: int, l: int| 0 <= k < l < rest.len() implies rest[k] != rest[l] by {
                let a = if k < t { k } else { k + 1 };
                let b = if l < t { l } else { l + 1 };
                assert(rest[k] == order[a] && rest[l] == order[b]);
            }
            lemma_short_list(rest, (n - 1) as nat);
        } else {
            assert forall|k: int| 0 <= k < order.len() implies (#[trigger] order[k]) < n - 1 by {
                assert(order[k] != top);
            }
            lemma_short_list(order, (n - 1) as nat);
        }
    }
}

/// Searches from the white node `cur`. Without a cycle below it, `cur` and
/// all that it reaches end up black and listed; otherwise the result is an
/// edge that closes a cycle.
fn visit(
    analysis: &Analysis,
    cur: usize,
    colors: &mut Vec<Color>,
    order: &mut Vec<usize>,
    Ghost(branch): Ghost<Seq<int>>,
) -> (r: Option<(usize, usize)>)
    requires
        analysis.wf(),
        cur < analysis.graph.len(),
        searching(*analysis, old(colors)@, old(order)@, branch),
        old(colors)@[cur as int] == Color::White,
        branch.len() > 0 ==> analysis.arc(branch[branch.len() - 1], cur as int),
    ensures
        match r {
            None => {
                &&& searching(*analysis, final(colors)@, final(order)@, branch)
                &&& final(colors)@[cur as int] == Color::Black
                &&& extends(final(order)@, old(order)@)
                &&& whites(final(colors)@) < whites(old(colors)@)
                &&& forall|i: int|
                    0 <= i < old(colors)@.len() && old(colors)@[i] != Color::White
                        ==> final(colors)@[i] == old(colors)@[i]
            },
            Some((a, b)) => analysis.closes_cycle(a as int, b as int),
        },
    decreases whites(old(colors)@),
{
    let ghost n = analysis.graph.len();
    let ghost colors0 = colors@;
    let ghost order0 = order@;
    let ghost deeper = branch.push(cur as int);
    proof {
        lemma_whites_update(colors@, cur as int, Color::Grey);
        lemma_walk_push(*analysis, branch, cur as int);
    }
    colors.set(cur, Color::Grey);
    proof {
        assert forall|i: int| 0 <= i < n implies (#[trigger] colors@[i] == Color::Grey
            <==> deeper.contains(i)) by {
            if i == cur {
                assert(deeper[deeper.len() - 1] == i);
            } else {
                if branch.contains(i) {
                    let t = choose|t: int| 0 <= t < branch.len() && branch[t] == i;
                    assert(deeper[t] == i);
                }
                if deeper.contains(i) {
                    let t = choose|t: int| 0 <= t < deeper.len() && deeper[t] == i;
                    assert(branch[t] == i);
                }
            }
        }
        assert(searching(*analysis, colors@, order@, deeper));
    }
    let node: &Component = &analysis.graph[cur];
    let m: usize = node.arguments.len();
    let mut k: usize = 0;
    while k < m
        invariant
            k <= m,
            n == analysis.graph.len(),
            cur < n,
            analysis.wf(),
            node == &analysis.graph[cur as int],
            m == node.arguments.len(),
            deeper == branch.push(cur as int),
            searching(*analysis, colors@, order@, deeper),
            colors0 == old(colors)@,
            colors0.len() == n,
            colors0[cur as int] == Color::White,
            extends(order@, order0),
            whites(colors@) < whites(colors0),
            forall|i: int|
                0 <= i < n && i != cur && colors0[i] != Color::White ==> colors@[i] == colors0[i],
            forall|b: int, j: int|
                0 <= b < k && 0 <= j < n && (#[trigger] node.arguments[b]).field.source_node_id == (
                #[trigger] analysis.graph[j]).id ==> colors@[j] == Color::Black,
        decreases m - k,
    {
        let source: u32 = node.arguments[k].field.source_node_id;
        match analysis.position(source) {
            Some(j) => {
                proof {
                    assert(analysis.graph[cur as int].arguments[k as int].field.source_node_id
                        == analysis.graph[j as int].id);
                    assert(analysis.graph[cur as int].reads(analysis.graph[j as int].id));
                    assert(analysis.arc(cur as int, j as int));
                    assert(deeper[deeper.len() - 1] == cur);
                }
                let c: Color = colors[j];
                if c == Color::Grey {
                    proof {
                        assert(deeper.contains(j as int));
                        let t = choose|t: int| 0 <= t < deeper.len() && deeper[t] == j;
                        lemma_back_edge(*analysis, deeper, t);
                    }
                    return Some((cur, j));
                } else if c == Color::White {
                    let ghost colors1 = colors@;
                    let ghost order1 = order@;
                    let found = visit(analysis, j, colors, order, Ghost(deeper));
                    if found.is_some() {
                        return found;
                    }
                    proof {
                        assert forall|b: int, y: int|
                            0 <= b < k + 1 && 0 <= y < n && (
                            #[trigger] node.arguments[b]).field.source_node_id == (
                            #[trigger] analysis.graph[y]).id implies colors@[y] == Color::Black by {
                            if b == k {
                                assert(y == j);
                            } else {
                                assert(colors1[y] == Color::Black);
                            }
                        }
                    }
                } else {
                    proof {
                        assert forall|b: int, y: int|
                            0 <= b < k + 1 && 0 <= y < n && (
                            #[trigger] node.arguments[b]).field.source_node_id == (
                            #[trigger] analysis.graph[y]).id implies colors@[y] == Color::Black by {
                            if b == k {
                                assert(y == j);
                            }
                        }
                    }
                }
            },
            None => {
                proof {
                    assert forall|b: int, y: int|
                        0 <= b < k + 1 && 0 <= y < n && (
                        #[trigger] node.arguments[b]).field.source_node_id == (
                        #[trigger] analysis.graph[y]).id implies colors@[y] == Color::Black by {
                        if b == k {
                            assert(analysis.has(source));
                        }
                    }
                }
            },
        }
        k += 1;
    }
    let ghost colors2 = colors@;
    let ghost order2 = order@;
    proof {
        lemma_whites_update(colors@, cur as int, Color::Black);
        assert(colors@[cur as int] == Color::Grey) by {
            assert(deeper[deeper.len() - 1] == cur);
            assert(deeper.contains(cur as int));
        }
    }
    colors.set(cur, Color::Black);
    order.push(cur);
    proof {
        assert(!branch.contains(cur as int)) by {
            if branch.contains(cur as int) {
                assert(colors0[cur as int] == Color::Grey);
            }
        }
        assert forall|i: int| 0 <= i < n implies (#[trigger] colors@[i] == Color::Grey
            <==> branch.contains(i)) by {
            if i != cur {
                if branch.contains(i) {
                    let t = choose|t: int| 0 <= t < branch.len() && branch[t] == i;
                    assert(deeper[t] == i);
                    assert(deeper.contains(i));
                }
                if deeper.contains(i) {
                    let t = choose|t: int| 0 <= t < deeper.len() && deeper[t] == i;
                    assert(branch[t] == i);
                }
            }
        }
        assert forall|i: int| 0 <= i < n && #[trigger] colors@[i] == Color::Black implies exists|
            l: int,
        |
            0 <= l < order@.len() && #[trigger] order@[l] == i by {
            if i == cur {
                assert(order@[order2.len() as int] == i);
            } else {
                let l = choose|l: int| 0 <= l < order2.len() && #[trigger] order2[l] == i;
                assert(order@[l] == i);
            }
        }
        assert forall|a: int, j: int|
            0 <= a < order@.len() && #[trigger] analysis.arc(order@[a] as int, j) implies exists|
            l: int,
        |
            0 <= l < a && #[trigger] order@[l] == j by {
            if a < order2.len() {
                assert(order@[a] == order2[a]);
                let l = choose|l: int| 0 <= l < a && #[trigger] order2[l] == j;
                assert(order@[l] == j);
            } else {
                let b = choose|b: int|
                    0 <= b < node.arguments.len() && (
                    #[trigger] node.arguments[b]).field.source_node_id == analysis.graph[j].id;
                assert(node.arguments[b].field.source_node_id == analysis.graph[j].id);
                assert(colors2[j] == Color::Black);
                let l = choose|l: int| 0 <= l < order2.len() && #[trigger] order2[l] == j;
                assert(order@[l] == j);
            }
        }
        assert forall|a: int, l: int| 0 <= a < l < order@.len() implies order@[a] != order@[l] by {
            if l == order2.len() {
                assert(colors2[order2[a] as int] == Color::Black);
            }
        }
        assert(searching(*analysis, colors@, order@, branch));
    }
    None
}

/// Searches the whole graph. The result is an order in which every node
/// comes after its sources, as positions in the graph, or an edge that
/// closes a directed cycle, as the positions of its consumer and its source.
pub fn sort_nodes(analysis: &Analysis) -> (r: Result<Vec<usize>, (usize, usize)>)
    requires
        analysis.wf(),
    ensures
        r is Ok <==> !analysis.cyclic(),
        r matches Ok(order) ==> analysis.sorted(order@),
        r matches Err((a, b)) ==> analysis.closes_cycle(a as int, b as int),
{
    let n: usize = analysis.graph.len();
    let mut colors: Vec<Color> = Vec::new();
    let mut order: Vec<usize> = Vec::new();
    let mut i: usize = 0;
    while i < n
        invariant
            i <= n,
            colors.len() == i,
            forall|j: int| 0 <= j < i ==> colors[j] == Color::White,
        decreases n - i,
    {
        colors.push(Color::White);
        i += 1;
    }
    let ghost empty: Seq<int> = Seq::empty();
    assert(searching(*analysis, colors@, order@, empty));
    let mut i: usize = 0;
    while i < n
        invariant
            i <= n,
            n == analysis.graph.len(),
            analysis.wf(),
            empty == Seq::<int>::empty(),
            searching(*analysis, colors@, order@, empty),
            forall|j: int| 0 <= j < i ==> colors[j] == Color::Black,
        decreases n - i,
    {
        if colors[i] == Color::White {
            let ghost before = colors@;
            match visit(analysis, i, &mut colors, &mut order, Ghost(empty)) {
                Some(edge) => {
                    proof {
                        let path = choose|path: Seq<int>|
                            #![trigger analysis.cycle(path)]
                            analysis.cycle(path) && path[path.len() - 2] == edge.0 && path[path.len()
                                - 1] == edge.1;
                        assert(analysis.cycle(path));
                    }
                    return Err(edge);
                },
                None => {},
            }
        } else {
            assert(!empty.contains(i as int));
        }
        i += 1;
    }
    proof {
        assert forall|j: int| 0 <= j < n implies #[trigger] lists(order@, j) by {
            assert(colors[j] == Color::Black);
        }
        assert(analysis.sorted(order@));
        lemma_sorted_is_acyclic(*analysis, order@);
    }
    Ok(order)
}

/// Whether the graph has a directed cycle.
pub fn is_cyclic(analysis: &Analysis) -> (r: bool)
    requires
        analysis.wf(),
    ensures
        r == analysis.cyclic(),
{
    sort_nodes(analysis).is_err()
}

} // verus!
