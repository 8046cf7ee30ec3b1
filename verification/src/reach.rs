//! Search along the edges of the graph: which nodes are reached from a set
//! of roots when the search does not go beyond certain nodes.

use vstd::prelude::*;
use crate::graph::{Analysis, Component};

verus! {

impl Analysis {
    /// A walk that passes through no stop: only its last node may be one.
    pub open spec fn open_path(self, stops: Seq<bool>, path: Seq<int>) -> bool {
        &&& self.walk(path)
        &&& forall|k: int| 0 <= k < path.len() - 1 ==> !stops[#[trigger] path[k]]
    }

    /// Whether the node at position `i` is reached from a root by a walk
    /// that passes through no stop.
    pub open spec fn reached(self, roots: Seq<bool>, stops: Seq<bool>, i: int) -> bool {
        exists|path: Seq<int>|
            #![trigger self.open_path(stops, path)]
            self.open_path(stops, path) && path.len() >= 1 && roots[path[0]] && path[path.len() - 1]
                == i
    }
}

/// How many entries of `marks` are still false.
spec fn unmarked(marks: Seq<bool>) -> nat
    decreases marks.len(),
{
    if marks.len() == 0 {
        0
    } else if marks.last() {
        unmarked(marks.drop_last())
    } else {
        unmarked(marks.drop_last()) + 1
    }
}

proof fn lemma_mark(marks: Seq<bool>, j: int)
    requires
        0 <= j < marks.len(),
        !marks[j],
    ensures
        unmarked(marks.update(j, true)) + 1 == unmarked(marks),
    decreases marks.len(),
{
    let after = marks.update(j, true);
    if j == marks.len() - 1 {
        assert(after.drop_last() =~= marks.drop_last());
    } else {
        assert(after.drop_last() =~= marks.drop_last().update(j, true));
        lemma_mark(marks.drop_last(), j);
    }
}

proof fn lemma_root_reached(analysis: Analysis, roots: Seq<bool>, stops: Seq<bool>, i: int)
    requires
        0 <= i < analysis.graph.len(),
        roots[i],
    ensures
        analysis.reached(roots, stops, i),
{
    let path = seq![i];
    assert(analysis.open_path(stops, path));
    assert(path[path.len() - 1] == i);
}

proof fn lemma_reached_step(analysis: Analysis, roots: Seq<bool>, stops: Seq<bool>, i: int, j: int)
    requires
        analysis.reached(roots, stops, i),
        !stops[i],
        analysis.arc(i, j),
    ensures
        analysis.reached(roots, stops, j),
{
    let path = choose|path: Seq<int>|
        #![trigger analysis.open_path(stops, path)]
        analysis.open_path(stops, path) && path.len() >= 1 && roots[path[0]] && path[path.len() - 1]
            == i;
    let longer = path.push(j);
    assert forall|k: int| 0 <= k < longer.len() - 1 implies #[trigger] analysis.step(longer, k) by {
        if k < path.len() - 1 {
            assert(analysis.step(path, k));
            assert(longer[k] == path[k] && longer[k + 1] == path[k + 1]);
        }
    }
    assert forall|k: int| 0 <= k < longer.len() - 1 implies !stops[#[trigger] longer[k]] by {
        if k < path.len() - 1 {
            assert(longer[k] == path[k]);
        }
    }
    assert(analysis.open_path(stops, longer));
    assert(longer[longer.len() - 1] == j);
}

/// A set of marks that holds every root, and with each node that is no stop
/// also its sources, holds every node of an open walk from a root.
proof fn lemma_marks_hold_walk(
    analysis: Analysis,
    roots: Seq<bool>,
    stops: Seq<bool>,
    marks: Seq<bool>,
    path: Seq<int>,
    k: int,
)
    requires
        marks.len() == analysis.graph.len(),
        analysis.open_path(stops, path),
        path.len() >= 1,
        roots[path[0]],
        0 <= k < path.len(),
        forall|i: int| 0 <= i < marks.len() && roots[i] ==> marks[i],
        forall|i: int, j: int|
            0 <= i < marks.len() && marks[i] && !stops[i] && #[trigger] analysis.arc(i, j)
                ==> marks[j],
    ensures
        marks[path[k]],
    decreases k,
{
    if k > 0 {
        lemma_marks_hold_walk(analysis, roots, stops, marks, path, k - 1);
        assert(analysis.step(path, k - 1));
        assert(!stops[path[k - 1]]);
    }
}

/// Whether `i` is waiting in the work list.
spec fn waiting(work: Seq<usize>, i: int) -> bool {
    exists|w: int| 0 <= w < work.len() && #[trigger] work[w] == i
}

/// Marks the nodes that are reached from the roots, going from each node to
/// its sources and not beyond a stop.
pub fn explore(analysis: &Analysis, roots: &Vec<bool>, stops: &Vec<bool>) -> (r: Vec<bool>)
    requires
        analysis.wf(),
        roots.len() == analysis.graph.len(),
        stops.len() == analysis.graph.len(),
    ensures
        r.len() == analysis.graph.len(),
        forall|i: int|
            0 <= i < analysis.graph.len() ==> (#[trigger] r[i] <==> analysis.reached(
                roots@,
                stops@,
                i,
            )),
{
    let n: usize = analysis.graph.len();
    let mut seen: Vec<bool> = Vec::new();
    let mut work: Vec<usize> = Vec::new();
    let mut i: usize = 0;
    while i < n
        invariant
            i <= n,
            n == analysis.graph.len(),
            roots.len() == n,
            seen.len() == i,
            forall|w: int| 0 <= w < work.len() ==> (#[trigger] work[w]) < i && seen[work[w] as int],
            forall|j: int| 0 <= j < i ==> (#[trigger] seen[j] <==> roots[j]),
            forall|j: int| 0 <= j < i && seen[j] ==> waiting(work@, j),
        decreases n - i,
    {
        let is_root: bool = roots[i];
        let ghost work_before = work@;
        seen.push(is_root);
        if is_root {
            work.push(i);
        }
        proof {
            assert forall|j: int| 0 <= j < i + 1 && seen[j] implies waiting(work@, j) by {
                if j < i {
                    let w = choose|w: int| 0 <= w < work_before.len() && #[trigger] work_before[w] == j;
                    assert(work@[w] == j);
                } else {
                    assert(work@[work@.len() - 1] == j);
                }
            }
        }
        i += 1;
    }
    proof {
        assert forall|j: int| 0 <= j < n && seen[j] implies analysis.reached(roots@, stops@, j) by {
            lemma_root_reached(*analysis, roots@, stops@, j);
        }
    }
    while work.len() > 0
        invariant
            n == analysis.graph.len(),
            analysis.wf(),
            roots.len() == n,
            stops.len() == n,
            seen.len() == n,
            forall|w: int| 0 <= w < work.len() ==> (#[trigger] work[w]) < n && seen[work[w] as int],
            forall|j: int| 0 <= j < n && seen[j] ==> analysis.reached(roots@, stops@, j),
            forall|j: int| 0 <= j < n && roots[j] ==> seen[j],
            forall|x: int, j: int|
                0 <= x < n && seen[x] && !stops[x] && !waiting(work@, x) && #[trigger] analysis.arc(
                    x,
                    j,
                ) ==> seen[j],
        decreases unmarked(seen@), work.len(),
    {
        let ghost marks0 = unmarked(seen@);
        let ghost len0 = work.len();
        let ghost work0 = work@;
        let cur: usize = work.pop().unwrap();
        let node: &Component = &analysis.graph[cur];
        proof {
            assert(work0[work0.len() - 1] == cur);
            assert forall|x: int| x != cur && !waiting(work@, x) implies !waiting(work0, x) by {
                if waiting(work0, x) {
                    let w = choose|w: int| 0 <= w < work0.len() && #[trigger] work0[w] == x;
                    assert(w < work0.len() - 1);
                    assert(work@[w] == x);
                }
            }
        }
        if !stops[cur] {
            let m: usize = node.arguments.len();
            let mut k: usize = 0;
            while k < m
                invariant
                    k <= m,
                    cur < n,
                    n == analysis.graph.len(),
                    analysis.wf(),
                    node == &analysis.graph[cur as int],
                    m == node.arguments.len(),
                    roots.len() == n,
                    stops.len() == n,
                    !stops[cur as int],
                    seen.len() == n,
                    seen[cur as int],
                    forall|w: int|
                        0 <= w < work.len() ==> (#[trigger] work[w]) < n && seen[work[w] as int],
                    forall|j: int| 0 <= j < n && seen[j] ==> analysis.reached(roots@, stops@, j),
                    forall|j: int| 0 <= j < n && roots[j] ==> seen[j],
                    forall|x: int, j: int|
                        0 <= x < n && x != cur && seen[x] && !stops[x] && !waiting(work@, x)
                            && #[trigger] analysis.arc(x, j) ==> seen[j],
                    forall|b: int, j: int|
                        0 <= b < k && 0 <= j < n && (#[trigger] node.arguments[b]).field.source_node_id
                            == (#[trigger] analysis.graph[j]).id ==> seen[j],
                    unmarked(seen@) < marks0 || (unmarked(seen@) == marks0 && work.len() == len0 - 1),
                decreases m - k,
            {
                let source: u32 = node.arguments[k].field.source_node_id;
                match analysis.position(source) {
                    Some(j) => {
                        proof {
                            assert(analysis.graph[cur as int].arguments[k as int].field.source_node_id
                                == analysis.graph[j as int].id);
                            assert(analysis.graph[cur as int].reads(analysis.graph[j as int].id));
                            assert(analysis.arc(cur as int, j as int));
                            lemma_reached_step(*analysis, roots@, stops@, cur as int, j as int);
                        }
                        if !seen[j] {
                            let ghost work_before = work@;
                            proof {
                                lemma_mark(seen@, j as int);
                            }
                            seen.set(j, true);
                            work.push(j);
                            proof {
                                assert forall|x: int| !waiting(work@, x) implies !waiting(
                                    work_before,
                                    x,
                                ) by {
                                    if waiting(work_before, x) {
                                        let w = choose|w: int|
                                            0 <= w < work_before.len() && #[trigger] work_before[w]
                                                == x;
                                        assert(work@[w] == x);
                                    }
                                }
                                assert(work@[work@.len() - 1] == j);
                                assert(waiting(work@, j as int));
                            }
                        }
                        proof {
                            assert forall|b: int, y: int|
                                0 <= b < k + 1 && 0 <= y < n && (
                                #[trigger] node.arguments[b]).field.source_node_id == (
                                #[trigger] analysis.graph[y]).id implies seen[y] by {
                                if b == k {
                                    assert(y == j);
                                }
                            }
                        }
                    },
                    None => {
                        proof {
                            assert forall|b: int, y: int|
                                0 <= b < k + 1 && 0 <= y < n && (
                                #[trigger] node.arguments[b]).field.source_node_id == (
                                #[trigger] analysis.graph[y]).id implies seen[y] by {
                                if b == k {
                                    assert(analysis.has(source));
                                }
                            }
                        }
                    },
                }
                k += 1;
            }
            proof {
                assert forall|j: int| #[trigger] analysis.arc(cur as int, j) implies seen[j] by {
                    let b = choose|b: int|
                        0 <= b < node.arguments.len() && (
                        #[trigger] node.arguments[b]).field.source_node_id == analysis.graph[j].id;
                    assert(node.arguments[b].field.source_node_id == analysis.graph[j].id);
                }
            }
        }
    }
    proof {
        assert forall|i: int| 0 <= i < n && analysis.reached(roots@, stops@, i) implies seen[i] by {
            let path = choose|path: Seq<int>|
                #![trigger analysis.open_path(stops@, path)]
                analysis.open_path(stops@, path) && path.len() >= 1 && roots[path[0]] && path[path.len()
                    - 1] == i;
            assert forall|x: int, y: int|
                0 <= x < seen@.len() && seen@[x] && !stops@[x] && #[trigger] analysis.arc(
                    x,
                    y,
                ) implies seen@[y] by {
                assert(!waiting(work@, x));
            }
            lemma_marks_hold_walk(*analysis, roots@, stops@, seen@, path, path.len() - 1);
        }
    }
    seen
}

} // verus!
