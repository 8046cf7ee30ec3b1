//! The evaluation of an analysis, one node at a time.
//!
//! The evaluator decides; it does not compute. It hands out the kernel to
//! run for the next node of the order, takes the value that came of it, and
//! at the end keeps of all values those of the release nodes. Every fault
//! ends the evaluation at the node where it occurs.

use std::collections::HashSet;
use vstd::prelude::*;
use crate::dispatch::{plan, Fault, Kernel};
use crate::arithmetic::{combines, integer_arithmetic, integer_negation, negates};
use crate::checks::Check;
use crate::graph::{Analysis, NodeKind, Operation};
use crate::release::{Entry, Release};
use crate::schedule::evaluation_order;
use crate::validator::{get_release_nodes, validate_analysis, Validated};
use crate::value::{ElementType, Value};

verus! {

broadcast use vstd::std_specs::hash::group_hash_axioms;

/// An evaluation under way: the order of the nodes to compute, how many of
/// them are done, and the values at hand.
#[derive(Debug)]
pub struct Evaluation {
    pub order: Vec<usize>,
    pub next: usize,
    pub evaluated: Release,
}

/// What to do next.
#[derive(Clone, Copy, Debug)]
pub enum Step {
    /// Run this kernel for the node at this position, then record its value.
    Run { position: usize, node_id: u32, kernel: Kernel },
    /// The node cannot be run: the evaluation has failed.
    Failed { node_id: u32, fault: Fault },
    /// Every node has its value.
    Done,
}

impl Evaluation {
    /// Every source of a node that is still to be computed is at hand or
    /// comes before it among the nodes still to be computed.
    pub open spec fn wf(self, analysis: Analysis) -> bool {
        &&& self.next <= self.order.len()
        &&& forall|k: int| 0 <= k < self.order.len() ==> (#[trigger] self.order[k]) < analysis.graph.len()
        &&& forall|k: int, j: int|
            self.next <= k < self.order.len() && #[trigger] analysis.arc(self.order[k] as int, j)
                ==> self.evaluated.has(analysis.graph[j].id) || exists|l: int|
                self.next <= l < k && #[trigger] self.order[l] == j
    }

    /// What the evaluation does next: nothing once the order is exhausted,
    /// else what the next node is dispatched to.
    pub open spec fn upcoming(self, analysis: Analysis) -> Step {
        if self.next >= self.order.len() {
            Step::Done
        } else {
            let position = self.order[self.next as int];
            let node_id = analysis.graph[position as int].id;
            match analysis.planned(position as int, self.evaluated) {
                Ok(kernel) => Step::Run { position, node_id, kernel },
                Err(fault) => Step::Failed { node_id, fault },
            }
        }
    }

    /// Whether every node of the order has its value.
    pub fn is_done(&self) -> (r: bool)
        ensures
            r == (self.next >= self.order.len()),
    {
        self.next >= self.order.len()
    }

    /// What to do next.
    pub fn step(&self, analysis: &Analysis) -> (r: Step)
        requires
            self.wf(*analysis),
        ensures
            r == self.upcoming(*analysis),
    {
        if self.next >= self.order.len() {
            return Step::Done;
        }
        let position: usize = self.order[self.next];
        let node_id: u32 = analysis.graph[position].id;
        match plan(analysis, position, &self.evaluated) {
            Ok(kernel) => Step::Run { position, node_id, kernel },
            Err(fault) => Step::Failed { node_id, fault },
        }
    }

    /// Runs a kernel that needs no floating point and reads nothing in:
    /// the value of a literal, and arithmetic on integers. The result is
    /// `None` for every other kernel, which is then run outside.
    pub fn compute(&self, analysis: &Analysis, position: usize, kernel: &Kernel) -> (r: Option<
        Result<Value, Fault>,
    >)
        requires
            position < analysis.graph.len(),
        ensures
            match *kernel {
                Kernel::Literal => match analysis.graph[position as int].operation {
                    Operation::Literal { value } => r matches Some(Ok(v)) && v.alike(value),
                    _ => r is None,
                },
                Kernel::Arithmetic { operation, element_type, left, right } => if element_type
                    == ElementType::I64 && self.evaluated.has(left) && self.evaluated.has(right) {
                    r matches Some(result) && combines(
                        operation,
                        self.evaluated.value_of(left)->0,
                        self.evaluated.value_of(right)->0,
                        result,
                    )
                } else {
                    r is None
                },
                Kernel::Negate { element_type, data } => if element_type == ElementType::I64
                    && self.evaluated.has(data) {
                    r matches Some(result) && negates(self.evaluated.value_of(data)->0, result)
                } else {
                    r is None
                },
                _ => r is None,
            },
    {
        match kernel {
            Kernel::Literal => match &analysis.graph[position].operation {
                Operation::Literal { value } => Some(Ok(value.copy())),
                _ => None,
            },
            Kernel::Arithmetic { operation, element_type, left, right } => {
                if *element_type != ElementType::I64 {
                    return None;
                }
                match (self.evaluated.get(*left), self.evaluated.get(*right)) {
                    (Some(l), Some(r)) => Some(integer_arithmetic(*operation, l, r)),
                    _ => None,
                }
            },
            Kernel::Negate { element_type, data } => {
                if *element_type != ElementType::I64 {
                    return None;
                }
                match self.evaluated.get(*data) {
                    Some(d) => Some(integer_negation(d)),
                    None => None,
                }
            },
            _ => None,
        }
    }

    /// Takes the value of the next node and moves on. A value whose shape
    /// does not account for its elements is refused, and nothing changes.
    pub fn record(&mut self, analysis: &Analysis, value: Value) -> (r: Result<(), Fault>)
        requires
            old(self).wf(*analysis),
            old(self).next < old(self).order.len(),
        ensures
            final(self).wf(*analysis),
            final(self).order == old(self).order,
            match r {
                Ok(_) => {
                    &&& value.wf()
                    &&& final(self).next == old(self).next + 1
                    &&& final(self).evaluated.values@ == old(self).evaluated.values@.push(
                        Entry {
                            node_id: analysis.graph[old(self).order[old(self).next as int] as int].id,
                            value,
                        },
                    )
                },
                Err(fault) => !value.wf() && fault == Fault::Shape && *final(self) == *old(self),
            },
    {
        if !value.is_well_formed() {
            return Err(Fault::Shape);
        }
        let position: usize = self.order[self.next];
        let node_id: u32 = analysis.graph[position].id;
        let ghost before = self.evaluated;
        self.evaluated.insert(node_id, value);
        self.next = self.next + 1;
        proof {
            let after = self.evaluated;
            assert forall|id: u32| before.has(id) implies after.has(id) by {
                let k = choose|k: int| 0 <= k < before.values.len() && (#[trigger] before.values[k]).node_id == id;
                assert(after.values[k].node_id == id);
            }
            assert(after.values[after.values.len() - 1].node_id == node_id);
            assert(after.has(node_id));
            assert forall|k: int, j: int|
                self.next <= k < self.order.len() && #[trigger] analysis.arc(
                    self.order[k] as int,
                    j,
                ) implies self.evaluated.has(analysis.graph[j].id) || exists|l: int|
                self.next <= l < k && #[trigger] self.order[l] == j by {
                if !before.has(analysis.graph[j].id) {
                    let l = choose|l: int| self.next - 1 <= l < k && #[trigger] self.order[l] == j;
                    if l == self.next - 1 {
                        assert(analysis.graph[j].id == node_id);
                    }
                }
            }
        }
        Ok(())
    }

    /// Ends the evaluation: of the values at hand, those of the release
    /// nodes, in the order in which they were added.
    pub fn finish(self, analysis: &Analysis) -> (r: Release)
        requires
            analysis.wf(),
        ensures
            r.values@ == projected(self.evaluated.values@, analysis.release_nodes()),
    {
        let keep: HashSet<u32> = get_release_nodes(analysis);
        project_release(self.evaluated, &keep)
    }
}

/// An argument whose source is a node of the graph is resolved once the
/// values of all such sources are at hand.
proof fn lemma_resolves(analysis: Analysis, i: int, name: Seq<char>, evaluated: Release)
    requires
        0 <= i < analysis.graph.len(),
        analysis.graph[i].names(name),
        analysis.closure_at(i),
        forall|k: int|
            0 <= k < analysis.graph[i].arguments.len() ==> evaluated.has(
                (#[trigger] analysis.graph[i].arguments[k]).field.source_node_id,
            ),
    ensures
        analysis.resolved(i, name, evaluated) is Some,
        !(analysis.number(i, name, evaluated) matches Err(Fault::MissingArgument)),
        !(analysis.numbers(i, name, evaluated) matches Err(Fault::MissingArgument)),
{
    let node = analysis.graph[i];
    node.lemma_argument_at(name, 0);
    let k = node.argument_index(name)->0;
    assert(evaluated.has(node.arguments[k].field.source_node_id));
}

impl Evaluation {
    /// The value of every source of the next node is at hand.
    pub proof fn lemma_sources_at_hand(self, analysis: Analysis)
        requires
            self.wf(analysis),
            self.next < self.order.len(),
        ensures
            forall|k: int|
                0 <= k < analysis.graph[self.order[self.next as int] as int].arguments.len()
                    && analysis.has(
                    (#[trigger] analysis.graph[self.order[self.next as int] as int].arguments[k]).field.source_node_id,
                ) ==> self.evaluated.has(
                    analysis.graph[self.order[self.next as int] as int].arguments[k].field.source_node_id,
                ),
    {
        let i = self.order[self.next as int] as int;
        let node = analysis.graph[i];
        assert forall|k: int|
            0 <= k < node.arguments.len() && analysis.has(
                (#[trigger] node.arguments[k]).field.source_node_id,
            ) implies self.evaluated.has(node.arguments[k].field.source_node_id) by {
            let id = node.arguments[k].field.source_node_id;
            let j = choose|j: int| 0 <= j < analysis.graph.len() && (#[trigger] analysis.graph[j]).id == id;
            assert(node.reads(analysis.graph[j].id));
            assert(analysis.arc(self.order[self.next as int] as int, j));
        }
    }

    /// In a valid analysis the next node never fails for want of an
    /// argument: each one that its kind asks for is there, and the value of
    /// its source is at hand.
    pub proof fn lemma_no_argument_missing(self, analysis: Analysis)
        requires
            analysis.valid(),
            self.wf(analysis),
            self.next < self.order.len(),
        ensures
            !(analysis.planned(self.order[self.next as int] as int, self.evaluated) matches Err(
                Fault::MissingArgument,
            )),
    {
        let i = self.order[self.next as int] as int;
        let node = analysis.graph[i];
        let evaluated = self.evaluated;
        let required = node.operation.kind_of().required();
        self.lemma_sources_at_hand(analysis);
        assert(analysis.passes(i, Check::Arity));
        assert(analysis.passes(i, Check::Closure));
        assert forall|k: int| 0 <= k < node.arguments.len() implies evaluated.has(
            (#[trigger] node.arguments[k]).field.source_node_id,
        ) by {}
        match node.operation.kind_of() {
            NodeKind::Literal => {},
            NodeKind::DataSource => {},
            NodeKind::Negate => {
                assert(required[0] == "data"@);
                lemma_resolves(analysis, i, "data"@, evaluated);
            },
            NodeKind::DpMean | NodeKind::DpVariance | NodeKind::DpMomentRaw => {
                assert(required[0] == "data"@);
                assert(required[1] == "num_records"@);
                assert(required[2] == "minimum"@);
                assert(required[3] == "maximum"@);
                lemma_resolves(analysis, i, "data"@, evaluated);
                lemma_resolves(analysis, i, "num_records"@, evaluated);
                lemma_resolves(analysis, i, "minimum"@, evaluated);
                lemma_resolves(analysis, i, "maximum"@, evaluated);
            },
            NodeKind::DpHistogram => {
                assert(required[0] == "data"@);
                assert(required[1] == "minimum"@);
                assert(required[2] == "maximum"@);
                lemma_resolves(analysis, i, "data"@, evaluated);
                lemma_resolves(analysis, i, "minimum"@, evaluated);
                lemma_resolves(analysis, i, "maximum"@, evaluated);
            },
            NodeKind::DpCovariance => {
                assert(required[0] == "data_x"@);
                assert(required[1] == "data_y"@);
                assert(required[2] == "num_records"@);
                assert(required[3] == "minimum_x"@);
                assert(required[4] == "minimum_y"@);
                assert(required[5] == "maximum_x"@);
                assert(required[6] == "maximum_y"@);
                lemma_resolves(analysis, i, "data_x"@, evaluated);
                lemma_resolves(analysis, i, "data_y"@, evaluated);
                lemma_resolves(analysis, i, "num_records"@, evaluated);
                lemma_resolves(analysis, i, "minimum_x"@, evaluated);
                lemma_resolves(analysis, i, "minimum_y"@, evaluated);
                lemma_resolves(analysis, i, "maximum_x"@, evaluated);
                lemma_resolves(analysis, i, "maximum_y"@, evaluated);
            },
            _ => {
                assert(required[0] == "left"@);
                assert(required[1] == "right"@);
                lemma_resolves(analysis, i, "left"@, evaluated);
                lemma_resolves(analysis, i, "right"@, evaluated);
            },
        }
    }
}

/// The entries of nodes in `keep`, in their order.
pub open spec fn projected(entries: Seq<Entry>, keep: Set<u32>) -> Seq<Entry>
    decreases entries.len(),
{
    if entries.len() == 0 {
        Seq::empty()
    } else if keep.contains(entries.last().node_id) {
        projected(entries.drop_last(), keep).push(entries.last())
    } else {
        projected(entries.drop_last(), keep)
    }
}

/// What is kept are entries of nodes in `keep`, and each such entry is kept.
pub proof fn lemma_projected(entries: Seq<Entry>, keep: Set<u32>)
    ensures
        forall|k: int|
            0 <= k < projected(entries, keep).len() ==> keep.contains(
                (#[trigger] projected(entries, keep)[k]).node_id,
            ) && entries.contains(projected(entries, keep)[k]),
        forall|k: int|
            0 <= k < entries.len() && keep.contains((#[trigger] entries[k]).node_id) ==> projected(
                entries,
                keep,
            ).contains(entries[k]),
    decreases entries.len(),
{
    if entries.len() > 0 {
        let rest = entries.drop_last();
        lemma_projected(rest, keep);
        let out = projected(entries, keep);
        let inner = projected(rest, keep);
        assert forall|k: int| 0 <= k < out.len() implies keep.contains((#[trigger] out[k]).node_id)
            && entries.contains(out[k]) by {
            if k < inner.len() {
                assert(out[k] == inner[k]);
                assert(rest.contains(inner[k]));
                let at = choose|at: int| 0 <= at < rest.len() && rest[at] == inner[k];
                assert(entries[at] == inner[k]);
            } else {
                assert(out[k] == entries.last());
                assert(entries[entries.len() - 1] == out[k]);
            }
        }
        assert forall|k: int|
            0 <= k < entries.len() && keep.contains((#[trigger] entries[k]).node_id) implies out.contains(
            entries[k],
        ) by {
            if k < rest.len() {
                assert(rest[k] == entries[k]);
                assert(inner.contains(rest[k]));
                let at = choose|at: int| 0 <= at < inner.len() && inner[at] == rest[k];
                assert(out[at] == entries[k]);
            } else {
                assert(out[out.len() - 1] == entries[k]);
            }
        }
    }
}

/// Keeps of a release the values of the nodes in `keep` and drops the rest.
pub fn project_release(release: Release, keep: &HashSet<u32>) -> (r: Release)
    ensures
        r.values@ == projected(release.values@, keep@),
{
    let ghost all = release.values@;
    let mut values: Vec<Entry> = release.values;
    let mut kept: Vec<Entry> = Vec::new();
    // The entries are taken from the end, so what is kept comes out
    // backwards.
    while values.len() > 0
        invariant
            values@.len() <= all.len(),
            values@ == all.take(values@.len() as int),
            projected(all, keep@) == projected(values@, keep@) + kept@.reverse(),
        decreases values.len(),
    {
        let ghost before = values@;
        let ghost kept_before = kept@;
        let entry: Entry = values.pop().unwrap();
        proof {
            assert(values@ =~= before.drop_last());
            assert(values@ =~= all.take(values@.len() as int));
            assert(entry == before.last());
        }
        if keep.contains(&entry.node_id) {
            kept.push(entry);
            proof {
                assert(kept@.reverse() =~= seq![entry] + kept_before.reverse());
                assert(projected(before, keep@) == projected(values@, keep@).push(entry));
                assert(projected(values@, keep@).push(entry) + kept_before.reverse() =~= projected(
                    values@,
                    keep@,
                ) + kept@.reverse());
            }
        }
    }
    let mut out: Vec<Entry> = Vec::new();
    let ghost backwards = kept@;
    while kept.len() > 0
        invariant
            kept@.len() <= backwards.len(),
            kept@ == backwards.take(kept@.len() as int),
            out@ == backwards.skip(kept@.len() as int).reverse(),
        decreases kept.len(),
    {
        let ghost before = kept@;
        let ghost out_before = out@;
        let entry: Entry = kept.pop().unwrap();
        out.push(entry);
        proof {
            assert(kept@ =~= before.drop_last());
            assert(kept@ =~= backwards.take(kept@.len() as int));
            assert(entry == backwards[kept@.len() as int]);
            assert(out@ =~= backwards.skip(kept@.len() as int).reverse());
        }
    }
    proof {
        assert(backwards.skip(0) =~= backwards);
        assert(projected(values@, keep@) =~= Seq::<Entry>::empty());
        assert(out@ =~= projected(all, keep@));
    }
    Release { values: out }
}

/// Starts the evaluation of an analysis on an incoming release. An analysis
/// that the validator refuses is not evaluated: the verdict comes back.
pub fn start(analysis: &Analysis, release_in: Release) -> (r: Result<Evaluation, Validated>)
    ensures
        match r {
            Ok(evaluation) => {
                &&& analysis.valid()
                &&& evaluation.wf(*analysis)
                &&& evaluation.next == 0
                &&& evaluation.evaluated == release_in
                &&& evaluation.order@ == analysis.evaluation_order(release_in)
                &&& analysis.scheduled(release_in, evaluation.order@)
            },
            Err(verdict) => !analysis.valid() && analysis.judged(verdict),
        },
{
    let verdict: Validated = validate_analysis(analysis);
    if !verdict.valid {
        return Err(verdict);
    }
    let order: Vec<usize> = evaluation_order(analysis, &release_in);
    Ok(Evaluation { order, next: 0, evaluated: release_in })
}

} // verus!
