//! The static checks on an analysis graph, and what they derive from it:
//! the sinks, the release nodes, and whether the graph has a cycle.

use std::collections::HashSet;
use vstd::prelude::*;
use vstd::string::*;
use crate::checks::{Check, ErrorKind};
use crate::text::{decimal_digits, decimal_text};
use crate::graph::{is_privatizer, Analysis, Component};
use crate::reach::explore;
use crate::traversal::sort_nodes;
use crate::typing::{infer_signatures, shapes_hold, types_hold, Signature};

verus! {

broadcast use vstd::std_specs::hash::group_hash_axioms;

impl Analysis {
    /// Whether some node of the graph reads node `id`.
    pub open spec fn referenced(self, id: u32) -> bool {
        exists|i: int| 0 <= i < self.graph.len() && (#[trigger] self.graph[i]).reads(id)
    }

    /// The sinks: the ids of the nodes that no node reads.
    pub open spec fn sinks(self) -> Set<u32> {
        Set::new(|id: u32| self.has(id) && !self.referenced(id))
    }

    /// Whether `id` is the source of an argument before argument `k` of the
    /// node at position `i`, in the order of the graph.
    spec fn read_before(self, id: u32, i: int, k: int) -> bool {
        exists|a: int, b: int|
            0 <= a < self.graph.len() && 0 <= b < self.graph[a].arguments.len() && (a < i || (a == i
                && b < k)) && (#[trigger] self.graph[a].arguments[b]).field.source_node_id == id
    }

    /// Whether the graph has a node with this id before position `i`.
    spec fn has_before(self, id: u32, i: int) -> bool {
        exists|j: int| 0 <= j < i && j < self.graph.len() && (#[trigger] self.graph[j]).id == id
    }
}

/// The sinks of the graph: the ids of the nodes that are not the source of
/// any argument.
pub fn get_sinks(analysis: &Analysis) -> (r: HashSet<u32>)
    ensures
        r@ == analysis.sinks(),
{
    let mut node_ids: HashSet<u32> = HashSet::new();
    let n: usize = analysis.graph.len();
    let mut i: usize = 0;
    while i < n
        invariant
            i <= n,
            n == analysis.graph.len(),
            forall|id: u32| node_ids@.contains(id) <==> analysis.has_before(id, i as int),
        decreases n - i,
    {
        let id: u32 = analysis.graph[i].id;
        node_ids.insert(id);
        assert forall|x: u32| node_ids@.contains(x) <==> analysis.has_before(x, i + 1) by {
            if analysis.has_before(x, i as int) {
                let j = choose|j: int| 0 <= j < i && j < n && (#[trigger] analysis.graph[j]).id == x;
                assert(0 <= j < i + 1 && analysis.graph[j].id == x);
            }
            if x == id {
                assert(0 <= i < i + 1 && analysis.graph[i as int].id == x);
            }
        }
        i += 1;
    }
    let mut i: usize = 0;
    while i < n
        invariant
            i <= n,
            n == analysis.graph.len(),
            forall|id: u32|
                node_ids@.contains(id) <==> analysis.has_before(id, n as int)
                    && !analysis.read_before(id, i as int, 0),
        decreases n - i,
    {
        let node: &Component = &analysis.graph[i];
        let m: usize = node.arguments.len();
        let mut k: usize = 0;
        while k < m
            invariant
                k <= m,
                i < n,
                n == analysis.graph.len(),
                node == &analysis.graph[i as int],
                m == node.arguments.len(),
                forall|id: u32|
                    node_ids@.contains(id) <==> analysis.has_before(id, n as int)
                        && !analysis.read_before(id, i as int, k as int),
            decreases m - k,
        {
            let source: u32 = node.arguments[k].field.source_node_id;
            node_ids.remove(&source);
            assert forall|x: u32|
                node_ids@.contains(x) <==> analysis.has_before(x, n as int) && !analysis.read_before(
                    x,
                    i as int,
                    k + 1,
                ) by {
                if analysis.read_before(x, i as int, k as int) {
                    let (a, b) = choose|a: int, b: int|
                        0 <= a < analysis.graph.len() && 0 <= b < analysis.graph[a].arguments.len()
                            && (a < i || (a == i && b < k)) && (
                        #[trigger] analysis.graph[a].arguments[b]).field.source_node_id == x;
                    assert(a < i || (a == i && b < k + 1));
                }
                if x == source {
                    assert(analysis.graph[i as int].arguments[k as int].field.source_node_id == x);
                }
            }
            k += 1;
        }
        assert forall|x: u32|
            analysis.read_before(x, i as int, m as int) <==> analysis.read_before(x, i + 1, 0) by {
            if analysis.read_before(x, i as int, m as int) {
                let (a, b) = choose|a: int, b: int|
                    0 <= a < analysis.graph.len() && 0 <= b < analysis.graph[a].arguments.len() && (a
                        < i || (a == i && b < m)) && (
                    #[trigger] analysis.graph[a].arguments[b]).field.source_node_id == x;
                assert(a < i + 1);
            }
            if analysis.read_before(x, i + 1, 0) {
                let (a, b) = choose|a: int, b: int|
                    0 <= a < analysis.graph.len() && 0 <= b < analysis.graph[a].arguments.len() && (a
                        < i + 1 || (a == i + 1 && b < 0)) && (
                    #[trigger] analysis.graph[a].arguments[b]).field.source_node_id == x;
                assert(a < i || (a == i && b < m));
            }
        }
        i += 1;
    }
    proof {
        assert forall|x: u32| node_ids@.contains(x) <==> analysis.sinks().contains(x) by {
            lemma_read_before_all(*analysis, x);
            lemma_has_before_all(*analysis, x);
        }
        assert(node_ids@ =~= analysis.sinks());
    }
    node_ids
}

proof fn lemma_has_before_all(analysis: Analysis, id: u32)
    ensures
        analysis.has_before(id, analysis.graph.len() as int) <==> analysis.has(id),
{
    if analysis.has(id) {
        let j = choose|j: int| 0 <= j < analysis.graph.len() && (#[trigger] analysis.graph[j]).id == id;
        assert(0 <= j < analysis.graph.len() && analysis.graph[j].id == id);
    }
}

proof fn lemma_read_before_all(analysis: Analysis, id: u32)
    ensures
        analysis.read_before(id, analysis.graph.len() as int, 0) <==> analysis.referenced(id),
{
    let n = analysis.graph.len() as int;
    if analysis.read_before(id, n, 0) {
        let (a, b) = choose|a: int, b: int|
            0 <= a < analysis.graph.len() && 0 <= b < analysis.graph[a].arguments.len() && (a < n || (a
                == n && b < 0)) && (#[trigger] analysis.graph[a].arguments[b]).field.source_node_id
                == id;
        assert(analysis.graph[a].arguments[b].field.source_node_id == id);
        assert(analysis.graph[a].reads(id));
    }
    if analysis.referenced(id) {
        let a = choose|a: int| 0 <= a < analysis.graph.len() && (#[trigger] analysis.graph[a]).reads(id);
        let b = choose|b: int|
            0 <= b < analysis.graph[a].arguments.len() && (
            #[trigger] analysis.graph[a].arguments[b]).field.source_node_id == id;
        assert(analysis.graph[a].arguments[b].field.source_node_id == id);
    }
}


impl Analysis {
    /// Whether the node at position `i` is a sink.
    pub open spec fn sink_at(self, i: int) -> bool {
        0 <= i < self.graph.len() && !self.referenced(self.graph[i].id)
    }

    /// A walk that passes through no privatizer: only its last node may be
    /// one.
    pub open spec fn open_walk(self, path: Seq<int>) -> bool {
        &&& self.walk(path)
        &&& forall|k: int| 0 <= k < path.len() - 1 ==> !self.graph[#[trigger] path[k]].privatizer()
    }

    /// Whether the node at position `i` is reached from a sink by a walk
    /// that passes through no privatizer.
    pub open spec fn exposed(self, i: int) -> bool {
        exists|path: Seq<int>|
            #![trigger self.open_walk(path)]
            self.open_walk(path) && path.len() >= 1 && self.sink_at(path[0]) && path[path.len() - 1]
                == i
    }

    /// The release nodes: the ids of the privatizers that a sink reaches
    /// without passing through another privatizer.
    pub open spec fn release_nodes(self) -> Set<u32> {
        Set::new(
            |id: u32|
                exists|i: int|
                    0 <= i < self.graph.len() && (#[trigger] self.graph[i]).id == id
                        && self.graph[i].privatizer() && self.exposed(i),
        )
    }
}

/// The release nodes of the graph: starting at the sinks and going from each
/// node to its sources, the privatizers that are met. The search does not go
/// beyond a privatizer.
pub fn get_release_nodes(analysis: &Analysis) -> (r: HashSet<u32>)
    requires
        analysis.wf(),
    ensures
        r@ == analysis.release_nodes(),
{
    let n: usize = analysis.graph.len();
    let sink_ids: HashSet<u32> = get_sinks(analysis);
    let mut roots: Vec<bool> = Vec::new();
    let mut stops: Vec<bool> = Vec::new();
    let mut i: usize = 0;
    while i < n
        invariant
            i <= n,
            n == analysis.graph.len(),
            sink_ids@ == analysis.sinks(),
            roots.len() == i,
            stops.len() == i,
            forall|j: int| 0 <= j < i ==> (#[trigger] roots[j] <==> analysis.sink_at(j)),
            forall|j: int| 0 <= j < i ==> (#[trigger] stops[j] <==> analysis.graph[j].privatizer()),
        decreases n - i,
    {
        let node: &Component = &analysis.graph[i];
        let is_sink: bool = sink_ids.contains(&node.id);
        proof {
            assert(analysis.has(node.id));
            assert(is_sink <==> analysis.sink_at(i as int));
        }
        roots.push(is_sink);
        stops.push(is_privatizer(node));
        i += 1;
    }
    let seen: Vec<bool> = explore(analysis, &roots, &stops);
    proof {
        assert forall|j: int| 0 <= j < n implies (analysis.exposed(j) <==> analysis.reached(
            roots@,
            stops@,
            j,
        )) by {
            lemma_exposed_is_reached(*analysis, roots@, stops@, j);
        }
    }
    let mut release: HashSet<u32> = HashSet::new();
    let mut i: usize = 0;
    while i < n
        invariant
            i <= n,
            n == analysis.graph.len(),
            seen.len() == n,
            forall|id: u32|
                release@.contains(id) <==> exists|j: int|
                    0 <= j < i && (#[trigger] analysis.graph[j]).id == id
                        && analysis.graph[j].privatizer() && seen[j],
        decreases n - i,
    {
        let node: &Component = &analysis.graph[i];
        if seen[i] && is_privatizer(node) {
            release.insert(node.id);
        }
        proof {
            let me = node.id;
            assert forall|id: u32|
                release@.contains(id) <==> exists|j: int|
                    0 <= j < i + 1 && (#[trigger] analysis.graph[j]).id == id
                        && analysis.graph[j].privatizer() && seen[j] by {
                if exists|j: int|
                    0 <= j < i + 1 && (#[trigger] analysis.graph[j]).id == id
                        && analysis.graph[j].privatizer() && seen[j] {
                    let j = choose|j: int|
                        0 <= j < i + 1 && (#[trigger] analysis.graph[j]).id == id
                            && analysis.graph[j].privatizer() && seen[j];
                    if j < i {
                        assert(0 <= j < i && analysis.graph[j].id == id);
                    }
                }
                if release@.contains(id) && id == me && seen[i as int] && node.privatizer() {
                    assert(0 <= i < i + 1 && analysis.graph[i as int].id == id);
                }
            }
        }
        i += 1;
    }
    proof {
        assert forall|id: u32| release@.contains(id) <==> analysis.release_nodes().contains(id) by {
            if release@.contains(id) {
                let j = choose|j: int|
                    0 <= j < n && (#[trigger] analysis.graph[j]).id == id
                        && analysis.graph[j].privatizer() && seen[j];
                assert(analysis.exposed(j));
            }
            if analysis.release_nodes().contains(id) {
                let j = choose|j: int|
                    0 <= j < analysis.graph.len() && (#[trigger] analysis.graph[j]).id == id
                        && analysis.graph[j].privatizer() && analysis.exposed(j);
                assert(seen[j]);
            }
        }
        assert(release@ =~= analysis.release_nodes());
    }
    release
}

/// With the sinks for roots and the privatizers for stops, the nodes that
/// the search reaches are the exposed ones.
proof fn lemma_exposed_is_reached(analysis: Analysis, roots: Seq<bool>, stops: Seq<bool>, i: int)
    requires
        roots.len() == analysis.graph.len(),
        stops.len() == analysis.graph.len(),
        forall|j: int| 0 <= j < roots.len() ==> (#[trigger] roots[j] <==> analysis.sink_at(j)),
        forall|j: int| 0 <= j < stops.len() ==> (#[trigger] stops[j] <==> analysis.graph[j].privatizer()),
    ensures
        analysis.exposed(i) <==> analysis.reached(roots, stops, i),
{
    if analysis.exposed(i) {
        let path = choose|path: Seq<int>|
            #![trigger analysis.open_walk(path)]
            analysis.open_walk(path) && path.len() >= 1 && analysis.sink_at(path[0]) && path[path.len()
                - 1] == i;
        assert forall|k: int| 0 <= k < path.len() - 1 implies !stops[#[trigger] path[k]] by {
            assert(!analysis.graph[path[k]].privatizer());
        }
        assert(analysis.open_path(stops, path));
    }
    if analysis.reached(roots, stops, i) {
        let path = choose|path: Seq<int>|
            #![trigger analysis.open_path(stops, path)]
            analysis.open_path(stops, path) && path.len() >= 1 && roots[path[0]] && path[path.len() - 1]
                == i;
        assert forall|k: int| 0 <= k < path.len() - 1 implies !analysis.graph[#[trigger] path[k]].privatizer() by {
            assert(!stops[path[k]]);
        }
        assert(analysis.open_walk(path));
        assert(0 <= path[0] < roots.len());
    }
}

/// What the validator holds against a graph.
#[derive(Clone, Copy, Debug, PartialEq, Eq, Structural)]
pub enum Finding {
    /// Two nodes have this id.
    DuplicateId { id: u32 },
    /// The edge from node `consumer` to its source `source` closes a cycle.
    Cycle { consumer: u32, source: u32 },
    /// Node `node` fails a check.
    Node { node: u32, check: Check },
}

impl Finding {
    pub open spec fn kind_of(self) -> ErrorKind {
        match self {
            Finding::DuplicateId { .. } => ErrorKind::GraphStructure,
            Finding::Cycle { .. } => ErrorKind::GraphStructure,
            Finding::Node { check, .. } => check.kind_of(),
        }
    }

    /// The kind of error that the finding is.
    pub fn kind(&self) -> (r: ErrorKind)
        ensures
            r == self.kind_of(),
    {
        match self {
            Finding::DuplicateId { .. } => ErrorKind::GraphStructure,
            Finding::Cycle { .. } => ErrorKind::GraphStructure,
            Finding::Node { check, .. } => check.kind(),
        }
    }
}

/// What a failed check is held to say.
pub open spec fn check_text(check: Check) -> Seq<char> {
    match check {
        Check::Closure => "an argument comes from a node that is not in the graph"@,
        Check::Arity => "the arguments are not those of the kind"@,
        Check::Type => "the element types of the arguments do not fit"@,
        Check::Shape => "the shapes of the arguments do not conform"@,
        Check::Bounds => "a lower bound is not below its upper bound"@,
        Check::Epsilon => "epsilon is not positive"@,
        Check::Delta => "delta is not between zero and one"@,
    }
}

impl Finding {
    /// The finding in words: the node it is about, by its id, and what is
    /// wrong with it.
    pub open spec fn text(self) -> Seq<char> {
        match self {
            Finding::DuplicateId { id } => "node "@ + decimal_digits(id as nat)
                + ": the id occurs more than once"@,
            Finding::Cycle { consumer, source } => "node "@ + decimal_digits(consumer as nat)
                + ": the argument from node "@ + decimal_digits(source as nat)
                + " closes a cycle"@,
            Finding::Node { node, check } => "node "@ + decimal_digits(node as nat) + ": "@
                + check_text(check),
        }
    }

    /// The finding in words.
    pub fn message(&self) -> (r: String)
        ensures
            r@ == self.text(),
    {
        let mut s: String = String::from_str("node ");
        match self {
            Finding::DuplicateId { id } => {
                let digits: String = decimal_text(*id);
                s.append(digits.as_str());
                s.append(": the id occurs more than once");
            },
            Finding::Cycle { consumer, source } => {
                let first: String = decimal_text(*consumer);
                let second: String = decimal_text(*source);
                s.append(first.as_str());
                s.append(": the argument from node ");
                s.append(second.as_str());
                s.append(" closes a cycle");
            },
            Finding::Node { node, check } => {
                let digits: String = decimal_text(*node);
                s.append(digits.as_str());
                s.append(": ");
                let words: &'static str = match check {
                    Check::Closure => "an argument comes from a node that is not in the graph",
                    Check::Arity => "the arguments are not those of the kind",
                    Check::Type => "the element types of the arguments do not fit",
                    Check::Shape => "the shapes of the arguments do not conform",
                    Check::Bounds => "a lower bound is not below its upper bound",
                    Check::Epsilon => "epsilon is not positive",
                    Check::Delta => "delta is not between zero and one",
                };
                s.append(words);
            },
        }
        assert(s@ =~= self.text());
        s
    }
}

/// The verdict of the validator.
#[derive(Debug)]
pub struct Validated {
    pub valid: bool,
    pub errors: Vec<Finding>,
}

impl Validated {
    /// The errors in words, in their order.
    pub fn messages(&self) -> (r: Vec<String>)
        ensures
            r.len() == self.errors.len(),
            forall|k: int| 0 <= k < r.len() ==> (#[trigger] r[k])@ == self.errors[k].text(),
    {
        let mut out: Vec<String> = Vec::new();
        let mut k: usize = 0;
        while k < self.errors.len()
            invariant
                k <= self.errors.len(),
                out.len() == k,
                forall|l: int| 0 <= l < k ==> (#[trigger] out[l])@ == self.errors[l].text(),
            decreases self.errors.len() - k,
        {
            out.push(self.errors[k].message());
            k += 1;
        }
        out
    }
}

/// The checks in the order in which their findings are listed.
pub open spec fn check_order() -> Seq<Check> {
    seq![
        Check::Closure,
        Check::Arity,
        Check::Type,
        Check::Shape,
        Check::Bounds,
        Check::Epsilon,
        Check::Delta,
    ]
}

impl Analysis {
    /// Whether the node at position `i` passes a check. Element types and
    /// shapes follow the edges, so they are judged only in a graph whose ids
    /// are distinct and which has no cycle.
    pub open spec fn passes(self, i: int, check: Check) -> bool {
        match check {
            Check::Closure => self.closure_at(i),
            Check::Arity => self.graph[i].arity_met(),
            Check::Type => self.wf() && !self.cyclic() ==> self.types_at(i),
            Check::Shape => self.wf() && !self.cyclic() ==> self.shapes_at(i),
            Check::Bounds => self.bounds_at(i),
            Check::Epsilon => self.graph[i].epsilon_met(),
            Check::Delta => self.graph[i].delta_met(),
        }
    }

    /// The graph passes every check: its ids are distinct, it has no cycle,
    /// and each node passes each check.
    pub open spec fn valid(self) -> bool {
        &&& self.wf()
        &&& !self.cyclic()
        &&& forall|i: int, check: Check| 0 <= i < self.graph.len() ==> #[trigger] self.passes(i, check)
    }

    /// The finding that a check gives at position `i`, if it gives one.
    pub open spec fn finding(self, i: int, check: Check) -> Seq<Finding> {
        if self.passes(i, check) {
            Seq::empty()
        } else {
            seq![Finding::Node { node: self.graph[i].id, check }]
        }
    }

    /// The findings at position `i`, over the first `c` checks.
    pub open spec fn findings_at(self, i: int, c: int) -> Seq<Finding>
        decreases c,
    {
        if c <= 0 {
            Seq::empty()
        } else {
            self.findings_at(i, c - 1) + self.finding(i, check_order()[c - 1])
        }
    }

    /// The findings at the first `k` positions, in the order of the graph.
    pub open spec fn findings_upto(self, k: int) -> Seq<Finding>
        decreases k,
    {
        if k <= 0 {
            Seq::empty()
        } else {
            self.findings_upto(k - 1) + self.findings_at(k - 1, 7)
        }
    }

    /// The findings at all nodes.
    pub open spec fn node_findings(self) -> Seq<Finding> {
        self.findings_upto(self.graph.len() as int)
    }

    /// Whether the id at position `j` occurs before it.
    pub open spec fn repeated_at(self, j: int) -> bool {
        exists|i: int| 0 <= i < j && (#[trigger] self.graph[i]).id == self.graph[j].id
    }

    /// One finding for each of the first `k` positions whose id occurs
    /// before it.
    pub open spec fn repeats_upto(self, k: int) -> Seq<Finding>
        decreases k,
    {
        if k <= 0 {
            Seq::empty()
        } else if self.repeated_at(k - 1) {
            self.repeats_upto(k - 1).push(Finding::DuplicateId { id: self.graph[k - 1].id })
        } else {
            self.repeats_upto(k - 1)
        }
    }

    /// Whether the edge from node `consumer` to node `source` closes a
    /// directed cycle.
    pub open spec fn edge_closes_cycle(self, consumer: u32, source: u32) -> bool {
        exists|a: int, b: int|
            0 <= a < self.graph.len() && 0 <= b < self.graph.len() && (#[trigger] self.graph[a]).id
                == consumer && (#[trigger] self.graph[b]).id == source && self.closes_cycle(a, b)
    }

    /// Whether `verdict` is the verdict on this graph: valid exactly when
    /// the graph passes every check and then without an error; else with
    /// the findings in their order, the repeated ids or the edge that
    /// closes a cycle first, then those at the nodes.
    pub open spec fn judged(self, verdict: Validated) -> bool {
        &&& verdict.valid == self.valid()
        &&& verdict.valid <==> verdict.errors.len() == 0
        &&& !self.wf() ==> verdict.errors@ == self.repeats_upto(self.graph.len() as int)
            + self.node_findings()
        &&& self.wf() && !self.cyclic() ==> verdict.errors@ == self.node_findings()
        &&& self.wf() && self.cyclic() ==> {
            &&& verdict.errors.len() >= 1
            &&& verdict.errors[0] matches Finding::Cycle { consumer, source }
            &&& self.edge_closes_cycle(consumer, source)
            &&& verdict.errors@.skip(1) == self.node_findings()
        }
    }

    /// The nodes have findings exactly where a node fails a check.
    pub proof fn lemma_findings_empty(self, k: int)
        requires
            0 <= k <= self.graph.len(),
        ensures
            self.findings_upto(k).len() == 0 <==> forall|i: int, check: Check|
                0 <= i < k ==> #[trigger] self.passes(i, check),
        decreases k,
    {
        if k > 0 {
            self.lemma_findings_empty(k - 1);
            let i = k - 1;
            reveal_with_fuel(Analysis::findings_at, 8);
            if self.findings_at(i, 7).len() == 0 {
                assert forall|check: Check| #[trigger] self.passes(i, check) by {
                    assert(self.finding(i, check_order()[0]).len() == 0);
                    assert(self.finding(i, check_order()[1]).len() == 0);
                    assert(self.finding(i, check_order()[2]).len() == 0);
                    assert(self.finding(i, check_order()[3]).len() == 0);
                    assert(self.finding(i, check_order()[4]).len() == 0);
                    assert(self.finding(i, check_order()[5]).len() == 0);
                    assert(self.finding(i, check_order()[6]).len() == 0);
                }
            } else {
                let c = choose|c: int| 0 <= c < 7 && self.finding(i, #[trigger] check_order()[c]).len() > 0;
                assert(!self.passes(i, check_order()[c]));
            }
        }
    }

    /// A graph in which an id occurs twice has a finding that says so.
    pub proof fn lemma_repeats_found(self, k: int)
        requires
            0 <= k <= self.graph.len(),
        ensures
            self.repeats_upto(k).len() == 0 <==> forall|i: int, j: int|
                0 <= i < j < k ==> (#[trigger] self.graph[i]).id != (#[trigger] self.graph[j]).id,
        decreases k,
    {
        if k > 0 {
            self.lemma_repeats_found(k - 1);
            if self.repeated_at(k - 1) {
                let i = choose|i: int| 0 <= i < k - 1 && (#[trigger] self.graph[i]).id == self.graph[k - 1].id;
                assert(self.graph[i].id == self.graph[k - 1].id);
            }
        }
    }
}

/// Adds the finding of a check unless the node passes it.
fn note(errors: &mut Vec<Finding>, ok: bool, node: u32, check: Check)
    ensures
        ok ==> final(errors)@ == old(errors)@,
        !ok ==> final(errors)@ == old(errors)@.push(Finding::Node { node, check }),
{
    if !ok {
        errors.push(Finding::Node { node, check });
    }
}

/// Whether the node at position `i` passes a check.
fn judge(
    analysis: &Analysis,
    signatures: &Option<Vec<Option<Signature>>>,
    i: usize,
    check: Check,
) -> (ok: bool)
    requires
        i < analysis.graph.len(),
        signatures is Some <==> analysis.wf() && !analysis.cyclic(),
        signatures matches Some(s) ==> analysis.inferred(s@),
    ensures
        ok == analysis.passes(i as int, check),
{
    match check {
        Check::Closure => analysis.has_closure(i),
        Check::Arity => analysis.graph[i].has_arity(),
        Check::Type => match signatures {
            Some(s) => types_hold(analysis, s, i),
            None => true,
        },
        Check::Shape => match signatures {
            Some(s) => shapes_hold(analysis, s, i),
            None => true,
        },
        Check::Bounds => analysis.has_bounds(i),
        Check::Epsilon => analysis.graph[i].has_epsilon(),
        Check::Delta => analysis.graph[i].has_delta(),
    }
}

/// Makes every check on the node at position `i` and adds its findings.
fn check_node(
    analysis: &Analysis,
    signatures: &Option<Vec<Option<Signature>>>,
    i: usize,
    errors: &mut Vec<Finding>,
)
    requires
        i < analysis.graph.len(),
        signatures is Some <==> analysis.wf() && !analysis.cyclic(),
        signatures matches Some(s) ==> analysis.inferred(s@),
    ensures
        final(errors)@ == old(errors)@ + analysis.findings_at(i as int, 7),
{
    let id: u32 = analysis.graph[i].id;
    let checks: Vec<Check> = vec![
        Check::Closure,
        Check::Arity,
        Check::Type,
        Check::Shape,
        Check::Bounds,
        Check::Epsilon,
        Check::Delta,
    ];
    assert(checks@ =~= check_order());
    let ghost start = errors@;
    let mut c: usize = 0;
    assert(errors@ =~= start + analysis.findings_at(i as int, 0));
    while c < 7
        invariant
            c <= 7,
            i < analysis.graph.len(),
            id == analysis.graph[i as int].id,
            checks@ == check_order(),
            signatures is Some <==> analysis.wf() && !analysis.cyclic(),
            signatures matches Some(s) ==> analysis.inferred(s@),
            errors@ == start + analysis.findings_at(i as int, c as int),
        decreases 7 - c,
    {
        let check: Check = checks[c];
        let ok: bool = judge(analysis, signatures, i, check);
        note(errors, ok, id, check);
        proof {
            let at = i as int;
            assert(analysis.findings_at(at, c + 1) == analysis.findings_at(at, c as int)
                + analysis.finding(at, check_order()[c as int]));
            assert(errors@ =~= start + analysis.findings_at(at, c + 1));
        }
        c += 1;
    }
}

/// Validates an analysis. The verdict is `valid` exactly when the ids are
/// distinct, the graph has no cycle and every node passes every check. The
/// errors come in this order: repeated ids, or else the edge that closes a
/// cycle; then the findings at each node in the order of the graph, the
/// checks of one node in their fixed order. Nothing stops at the first
/// error.
pub fn validate_analysis(analysis: &Analysis) -> (r: Validated)
    ensures
        analysis.judged(r),
{
    let n: usize = analysis.graph.len();
    let mut errors: Vec<Finding> = Vec::new();
    let distinct: bool = analysis.is_well_formed();
    let mut signatures: Option<Vec<Option<Signature>>> = None;
    if !distinct {
        let mut j: usize = 0;
        while j < n
            invariant
                j <= n,
                n == analysis.graph.len(),
                errors@ == analysis.repeats_upto(j as int),
            decreases n - j,
        {
            let mut repeated: bool = false;
            let mut i: usize = 0;
            while i < j
                invariant
                    i <= j,
                    j < n,
                    n == analysis.graph.len(),
                    repeated <==> exists|a: int|
                        0 <= a < i && (#[trigger] analysis.graph[a]).id == analysis.graph[j as int].id,
                decreases j - i,
            {
                if analysis.graph[i].id == analysis.graph[j].id {
                    repeated = true;
                }
                i += 1;
            }
            if repeated {
                errors.push(Finding::DuplicateId { id: analysis.graph[j].id });
            }
            j += 1;
        }
        proof {
            analysis.lemma_repeats_found(n as int);
        }
    } else {
        match sort_nodes(analysis) {
            Ok(order) => {
                signatures = Some(infer_signatures(analysis, &order));
            },
            Err((a, b)) => {
                errors.push(Finding::Cycle { consumer: analysis.graph[a].id, source: analysis.graph[b].id });
                proof {
                    let path = choose|path: Seq<int>|
                        #![trigger analysis.cycle(path)]
                        analysis.cycle(path) && path[path.len() - 2] == a && path[path.len() - 1] == b;
                    assert(0 <= path[path.len() - 2] < n);
                    assert(0 <= path[path.len() - 1] < n);
                    assert(analysis.graph[a as int].id == analysis.graph[a as int].id);
                    assert(analysis.edge_closes_cycle(
                        analysis.graph[a as int].id,
                        analysis.graph[b as int].id,
                    ));
                }
            },
        }
    }
    let ghost head = errors@;
    let mut i: usize = 0;
    while i < n
        invariant
            i <= n,
            n == analysis.graph.len(),
            errors@ == head + analysis.findings_upto(i as int),
            signatures is Some <==> analysis.wf() && !analysis.cyclic(),
            signatures matches Some(s) ==> analysis.inferred(s@),
        decreases n - i,
    {
        check_node(analysis, &signatures, i, &mut errors);
        proof {
            let at = i as int;
            assert(analysis.findings_upto(i + 1) == analysis.findings_upto(at) + analysis.findings_at(
                at,
                7,
            ));
            assert(errors@ =~= head + analysis.findings_upto(i + 1));
        }
        i += 1;
    }
    proof {
        analysis.lemma_findings_empty(n as int);
        if analysis.wf() && analysis.cyclic() {
            assert(errors@.skip(1) =~= analysis.node_findings());
        }
    }
    let valid: bool = errors.len() == 0;
    Validated { valid, errors }
}

} // verus!
