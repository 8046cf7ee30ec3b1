//! Element types and shapes, inferred along the graph.
//!
//! The signature of a node says what its output is known to be before
//! anything is computed: its element type, and its shape where that does not
//! depend on the data. A node has no signature where an argument that it
//! needs has none or where its own arguments do not fit together.

use vstd::prelude::*;
use crate::graph::{Analysis, Component, NodeKind, Operation};
use crate::traversal::{lemma_short_list, lists};
use crate::value::{broadcast, broadcast_shape, conformable, copy_shape, ElementType};

verus! {

/// What is known of an output: its element type, and its shape unless that
/// depends on the data.
#[derive(Debug)]
pub struct Signature {
    pub element_type: ElementType,
    pub shape: Option<Vec<usize>>,
}

/// The mathematical model of a [`Signature`].
pub struct Sig {
    pub kind: ElementType,
    pub shape: Option<Seq<usize>>,
}

impl View for Signature {
    type V = Sig;

    open spec fn view(&self) -> Sig {
        Sig {
            kind: self.element_type,
            shape: match self.shape {
                Some(s) => Some(s@),
                None => None,
            },
        }
    }
}

/// The model of a signature that may be missing.
pub open spec fn model(o: Option<Signature>) -> Option<Sig> {
    match o {
        Some(s) => Some(s@),
        None => None,
    }
}

/// The model of a borrowed signature that may be missing.
pub open spec fn model_of(o: Option<&Signature>) -> Option<Sig> {
    match o {
        Some(s) => Some(s@),
        None => None,
    }
}

/// The element types of two operands fit the arithmetic node: both numbers
/// for a power, otherwise the same numeric type on both sides.
pub open spec fn operands_typed(kind: NodeKind, l: Sig, r: Sig) -> bool {
    if kind == NodeKind::Power {
        l.kind == ElementType::F64 && r.kind == ElementType::F64
    } else {
        l.kind == r.kind && l.kind.numeric()
    }
}

/// The shapes of two operands conform, as far as they are known.
pub open spec fn operands_shaped(l: Sig, r: Sig) -> bool {
    match (l.shape, r.shape) {
        (Some(a), Some(b)) => conformable(a, b),
        _ => true,
    }
}

/// The signature of an arithmetic node with two operands.
pub open spec fn binary_output(kind: NodeKind, l: Option<Sig>, r: Option<Sig>) -> Option<Sig> {
    match (l, r) {
        (Some(l), Some(r)) => if operands_typed(kind, l, r) && operands_shaped(l, r) {
            Some(
                Sig {
                    kind: l.kind,
                    shape: match (l.shape, r.shape) {
                        (Some(a), Some(b)) => Some(broadcast(a, b)),
                        _ => None,
                    },
                },
            )
        } else {
            None
        },
        _ => None,
    }
}

/// The signature of a negation.
pub open spec fn negate_output(d: Option<Sig>) -> Option<Sig> {
    match d {
        Some(d) => if d.kind.numeric() {
            Some(d)
        } else {
            None
        },
        None => None,
    }
}

/// An argument that has a signature holds numbers.
pub open spec fn holds_numbers(o: Option<Sig>) -> bool {
    o matches Some(s) ==> s.kind == ElementType::F64
}

/// Two data arguments of a covariance are lists of the same length, as far
/// as their shapes are known.
pub open spec fn paired(x: Option<Sig>, y: Option<Sig>) -> bool {
    match (x, y) {
        (Some(x), Some(y)) => match (x.shape, y.shape) {
            (Some(a), Some(b)) => a.len() == 1 && b.len() == 1 && a[0] == b[0],
            _ => true,
        },
        _ => true,
    }
}

impl Analysis {
    /// The signature of the node at position `i`, found in at most `fuel`
    /// steps from a node to its sources.
    pub open spec fn signature(self, i: int, fuel: nat) -> Option<Sig>
        decreases fuel, 0nat,
    {
        if fuel == 0 {
            None
        } else {
            let rest = (fuel - 1) as nat;
            match self.graph[i].operation {
                Operation::Literal { value } => Some(
                    Sig { kind: value.data.kind(), shape: Some(value.shape@) },
                ),
                Operation::DataSource { datatype, .. } => Some(Sig { kind: datatype, shape: None }),
                Operation::Negate => negate_output(self.input(i, "data"@, rest)),
                Operation::DpHistogram { num_bins, .. } => Some(
                    Sig { kind: ElementType::F64, shape: Some(seq![num_bins as usize]) },
                ),
                Operation::DpMean { .. } => Some(Sig { kind: ElementType::F64, shape: Some(seq![]) }),
                Operation::DpVariance { .. } => Some(
                    Sig { kind: ElementType::F64, shape: Some(seq![]) },
                ),
                Operation::DpMomentRaw { .. } => Some(
                    Sig { kind: ElementType::F64, shape: Some(seq![]) },
                ),
                Operation::DpCovariance { .. } => Some(
                    Sig { kind: ElementType::F64, shape: Some(seq![]) },
                ),
                _ => binary_output(
                    self.graph[i].operation.kind_of(),
                    self.input(i, "left"@, rest),
                    self.input(i, "right"@, rest),
                ),
            }
        }
    }

    /// The signature of what argument `name` of the node at position `i`
    /// reads.
    pub open spec fn input(self, i: int, name: Seq<char>, fuel: nat) -> Option<Sig>
        decreases fuel, 1nat,
    {
        match self.graph[i].source_of(name) {
            Some(id) => match self.index_of(id) {
                Some(j) => self.signature(j, fuel),
                None => None,
            },
            None => None,
        }
    }

    /// The signature of what argument `name` of the node at position `i`
    /// reads; in a graph without a cycle no path is longer than the graph.
    pub open spec fn argument_signature(self, i: int, name: Seq<char>) -> Option<Sig> {
        self.input(i, name, self.graph.len() as nat)
    }

    /// The element types of the arguments of the node at position `i` are
    /// those its kind accepts. An argument without a signature is not held
    /// against the node.
    pub open spec fn types_at(self, i: int) -> bool {
        let kind = self.graph[i].operation.kind_of();
        match kind {
            NodeKind::Literal => true,
            NodeKind::DataSource => true,
            NodeKind::Negate => match self.argument_signature(i, "data"@) {
                Some(d) => d.kind.numeric(),
                None => true,
            },
            NodeKind::DpMean => self.statistic_typed(i),
            NodeKind::DpVariance => self.statistic_typed(i),
            NodeKind::DpMomentRaw => self.statistic_typed(i),
            NodeKind::DpHistogram => holds_numbers(self.argument_signature(i, "data"@))
                && holds_numbers(self.argument_signature(i, "minimum"@)) && holds_numbers(
                self.argument_signature(i, "maximum"@),
            ),
            NodeKind::DpCovariance => holds_numbers(self.argument_signature(i, "data_x"@))
                && holds_numbers(self.argument_signature(i, "data_y"@)) && holds_numbers(
                self.argument_signature(i, "num_records"@),
            ) && holds_numbers(self.argument_signature(i, "minimum_x"@)) && holds_numbers(
                self.argument_signature(i, "minimum_y"@),
            ) && holds_numbers(self.argument_signature(i, "maximum_x"@)) && holds_numbers(
                self.argument_signature(i, "maximum_y"@),
            ),
            _ => match (
                self.argument_signature(i, "left"@),
                self.argument_signature(i, "right"@),
            ) {
                (Some(l), Some(r)) => operands_typed(kind, l, r),
                _ => true,
            },
        }
    }

    /// The four arguments of a statistic over one column hold numbers.
    pub open spec fn statistic_typed(self, i: int) -> bool {
        holds_numbers(self.argument_signature(i, "data"@)) && holds_numbers(
            self.argument_signature(i, "num_records"@),
        ) && holds_numbers(self.argument_signature(i, "minimum"@)) && holds_numbers(
            self.argument_signature(i, "maximum"@),
        )
    }

    /// The shapes at the node at position `i` conform: a literal holds as
    /// many elements as its shape says, the operands of an arithmetic node
    /// can be broadcast to one shape, and the two columns of a covariance
    /// are lists of one length.
    pub open spec fn shapes_at(self, i: int) -> bool {
        match self.graph[i].operation {
            Operation::Literal { value } => value.wf(),
            Operation::DataSource { .. } => true,
            Operation::Negate => true,
            Operation::DpMean { .. } => true,
            Operation::DpVariance { .. } => true,
            Operation::DpMomentRaw { .. } => true,
            Operation::DpHistogram { .. } => true,
            Operation::DpCovariance { .. } => paired(
                self.argument_signature(i, "data_x"@),
                self.argument_signature(i, "data_y"@),
            ),
            _ => match (
                self.argument_signature(i, "left"@),
                self.argument_signature(i, "right"@),
            ) {
                (Some(l), Some(r)) => operands_shaped(l, r),
                _ => true,
            },
        }
    }

    /// What `signatures` holds for the source of argument `name` of the
    /// node at position `i`.
    pub open spec fn looked_up(
        self,
        signatures: Seq<Option<Signature>>,
        i: int,
        name: Seq<char>,
    ) -> Option<Sig> {
        match self.graph[i].source_of(name) {
            Some(id) => match self.index_of(id) {
                Some(j) => model(signatures[j]),
                None => None,
            },
            None => None,
        }
    }

    /// In a sorted graph, more fuel than a node's place in the order changes
    /// nothing of its signature.
    pub proof fn lemma_signature_settles(self, order: Seq<usize>, l: int, f1: nat, f2: nat)
        requires
            self.wf(),
            self.sorted(order),
            0 <= l < order.len(),
            f1 > l,
            f2 > l,
        ensures
            self.signature(order[l] as int, f1) == self.signature(order[l] as int, f2),
        decreases l, 1nat,
    {
        let i = order[l] as int;
        let r1 = (f1 - 1) as nat;
        let r2 = (f2 - 1) as nat;
        self.lemma_input_settles(order, l, "data"@, r1, r2);
        self.lemma_input_settles(order, l, "left"@, r1, r2);
        self.lemma_input_settles(order, l, "right"@, r1, r2);
    }

    /// In a sorted graph, what an argument reads settles with its source.
    pub proof fn lemma_input_settles(self, order: Seq<usize>, l: int, name: Seq<char>, f1: nat, f2: nat)
        requires
            self.wf(),
            self.sorted(order),
            0 <= l < order.len(),
            f1 >= l,
            f2 >= l,
        ensures
            self.input(order[l] as int, name, f1) == self.input(order[l] as int, name, f2),
        decreases l, 0nat,
    {
        let i = order[l] as int;
        let node = self.graph[i];
        node.lemma_argument_at(name, 0);
        match node.source_of(name) {
            Some(id) => {
                self.lemma_position_from(id, 0);
                match self.index_of(id) {
                    Some(j) => {
                        let k = node.argument_index(name)->0;
                        assert(node.arguments[k].field.source_node_id == self.graph[j].id);
                        assert(node.reads(self.graph[j].id));
                        assert(self.arc(order[l] as int, j));
                        let before = choose|before: int| 0 <= before < l && #[trigger] order[before] == j;
                        self.lemma_signature_settles(order, before, f1, f2);
                    },
                    None => {},
                }
            },
            None => {},
        }
    }
}

/// Whether the element types of two operands fit the arithmetic node.
pub fn operands_are_typed(kind: NodeKind, l: &Signature, r: &Signature) -> (ok: bool)
    ensures
        ok == operands_typed(kind, l@, r@),
{
    if kind == NodeKind::Power {
        l.element_type == ElementType::F64 && r.element_type == ElementType::F64
    } else {
        l.element_type == r.element_type && l.element_type.is_numeric()
    }
}

/// Whether the shapes of two operands conform, as far as they are known.
pub fn operands_are_shaped(l: &Signature, r: &Signature) -> (ok: bool)
    ensures
        ok == operands_shaped(l@, r@),
{
    match (&l.shape, &r.shape) {
        (Some(a), Some(b)) => broadcast_shape(a, b).is_some(),
        _ => true,
    }
}

/// The signature of an arithmetic node with two operands.
pub fn binary_signature(kind: NodeKind, l: Option<&Signature>, r: Option<&Signature>) -> (out: Option<
    Signature,
>)
    ensures
        model(out) == binary_output(kind, model_of(l), model_of(r)),
{
    match (l, r) {
        (Some(l), Some(r)) => {
            if !operands_are_typed(kind, l, r) {
                return None;
            }
            match (&l.shape, &r.shape) {
                (Some(a), Some(b)) => match broadcast_shape(a, b) {
                    Some(s) => Some(Signature { element_type: l.element_type, shape: Some(s) }),
                    None => None,
                },
                _ => Some(Signature { element_type: l.element_type, shape: None }),
            }
        },
        _ => None,
    }
}

/// The signature of a negation.
pub fn negate_signature(d: Option<&Signature>) -> (out: Option<Signature>)
    ensures
        model(out) == negate_output(model_of(d)),
{
    match d {
        Some(d) => {
            if d.element_type.is_numeric() {
                let shape: Option<Vec<usize>> = match &d.shape {
                    Some(s) => Some(copy_shape(s)),
                    None => None,
                };
                Some(Signature { element_type: d.element_type, shape })
            } else {
                None
            }
        },
        None => None,
    }
}

/// Whether an argument that has a signature holds numbers.
pub fn is_number_input(o: Option<&Signature>) -> (ok: bool)
    ensures
        ok == holds_numbers(model_of(o)),
{
    match o {
        Some(s) => s.element_type == ElementType::F64,
        None => true,
    }
}

/// Whether two data arguments are lists of one length, as far as their
/// shapes are known.
pub fn is_paired(x: Option<&Signature>, y: Option<&Signature>) -> (ok: bool)
    ensures
        ok == paired(model_of(x), model_of(y)),
{
    match (x, y) {
        (Some(x), Some(y)) => match (&x.shape, &y.shape) {
            (Some(a), Some(b)) => a.len() == 1 && b.len() == 1 && a[0] == b[0],
            _ => true,
        },
        _ => true,
    }
}

/// What `signatures` holds for the source of an argument.
pub fn look_up<'a>(
    analysis: &Analysis,
    signatures: &'a Vec<Option<Signature>>,
    i: usize,
    name: &str,
) -> (r: Option<&'a Signature>)
    requires
        i < analysis.graph.len(),
        signatures.len() == analysis.graph.len(),
    ensures
        model_of(r) == analysis.looked_up(signatures@, i as int, name@),
{
    match analysis.graph[i].argument(name) {
        Some(field) => match analysis.position(field.source_node_id) {
            Some(j) => match &signatures[j] {
                Some(s) => Some(s),
                None => None,
            },
            None => None,
        },
        None => None,
    }
}


impl Analysis {
    /// The signature of the node at position `i` as it follows from the
    /// signatures that `signatures` holds for its sources.
    pub open spec fn derived(self, signatures: Seq<Option<Signature>>, i: int) -> Option<Sig> {
        match self.graph[i].operation {
            Operation::Literal { value } => Some(
                Sig { kind: value.data.kind(), shape: Some(value.shape@) },
            ),
            Operation::DataSource { datatype, .. } => Some(Sig { kind: datatype, shape: None }),
            Operation::Negate => negate_output(self.looked_up(signatures, i, "data"@)),
            Operation::DpHistogram { num_bins, .. } => Some(
                Sig { kind: ElementType::F64, shape: Some(seq![num_bins as usize]) },
            ),
            Operation::DpMean { .. } => Some(Sig { kind: ElementType::F64, shape: Some(seq![]) }),
            Operation::DpVariance { .. } => Some(Sig { kind: ElementType::F64, shape: Some(seq![]) }),
            Operation::DpMomentRaw { .. } => Some(
                Sig { kind: ElementType::F64, shape: Some(seq![]) },
            ),
            Operation::DpCovariance { .. } => Some(
                Sig { kind: ElementType::F64, shape: Some(seq![]) },
            ),
            _ => binary_output(
                self.graph[i].operation.kind_of(),
                self.looked_up(signatures, i, "left"@),
                self.looked_up(signatures, i, "right"@),
            ),
        }
    }

    /// `signatures` holds the signature of every node.
    pub open spec fn inferred(self, signatures: Seq<Option<Signature>>) -> bool {
        &&& signatures.len() == self.graph.len()
        &&& forall|j: int|
            0 <= j < self.graph.len() ==> model(#[trigger] signatures[j]) == self.signature(
                j,
                self.graph.len() as nat,
            )
    }

    /// Once the sources of a node have their signatures, looking one up
    /// gives what the argument reads.
    proof fn lemma_looked_up(
        self,
        order: Seq<usize>,
        k: int,
        signatures: Seq<Option<Signature>>,
        name: Seq<char>,
    )
        requires
            self.wf(),
            self.sorted(order),
            0 <= k < order.len(),
            signatures.len() == self.graph.len(),
            forall|l: int|
                0 <= l < k ==> model(signatures[(#[trigger] order[l]) as int]) == self.signature(
                    order[l] as int,
                    self.graph.len() as nat,
                ),
        ensures
            self.graph.len() >= 1,
            self.looked_up(signatures, order[k] as int, name) == self.input(
                order[k] as int,
                name,
                (self.graph.len() - 1) as nat,
            ),
    {
        let n = self.graph.len() as nat;
        lemma_short_list(order, n);
        let node = self.graph[order[k] as int];
        node.lemma_argument_at(name, 0);
        match node.source_of(name) {
            Some(id) => {
                self.lemma_position_from(id, 0);
                match self.index_of(id) {
                    Some(j) => {
                        let a = node.argument_index(name)->0;
                        assert(node.arguments[a].field.source_node_id == self.graph[j].id);
                        assert(node.reads(self.graph[j].id));
                        assert(self.arc(order[k] as int, j));
                        let l = choose|l: int| 0 <= l < k && #[trigger] order[l] == j;
                        self.lemma_signature_settles(order, l, n, (n - 1) as nat);
                    },
                    None => {},
                }
            },
            None => {},
        }
    }

    /// Once the sources of a node have their signatures, its own follows
    /// from them.
    proof fn lemma_derived(self, order: Seq<usize>, k: int, signatures: Seq<Option<Signature>>)
        requires
            self.wf(),
            self.sorted(order),
            0 <= k < order.len(),
            signatures.len() == self.graph.len(),
            forall|l: int|
                0 <= l < k ==> model(signatures[(#[trigger] order[l]) as int]) == self.signature(
                    order[l] as int,
                    self.graph.len() as nat,
                ),
        ensures
            self.derived(signatures, order[k] as int) == self.signature(
                order[k] as int,
                self.graph.len() as nat,
            ),
    {
        self.lemma_looked_up(order, k, signatures, "data"@);
        self.lemma_looked_up(order, k, signatures, "left"@);
        self.lemma_looked_up(order, k, signatures, "right"@);
    }
}

/// The signature of a node from those of its sources.
pub fn derive_signature(analysis: &Analysis, signatures: &Vec<Option<Signature>>, i: usize) -> (r:
    Option<Signature>)
    requires
        i < analysis.graph.len(),
        signatures.len() == analysis.graph.len(),
    ensures
        model(r) == analysis.derived(signatures@, i as int),
{
    let node: &Component = &analysis.graph[i];
    match &node.operation {
        Operation::Literal { value } => Some(
            Signature { element_type: value.element_type(), shape: Some(copy_shape(&value.shape)) },
        ),
        Operation::DataSource { datatype, .. } => Some(
            Signature { element_type: *datatype, shape: None },
        ),
        Operation::Negate => negate_signature(look_up(analysis, signatures, i, "data")),
        Operation::DpHistogram { num_bins, .. } => {
            let mut shape: Vec<usize> = Vec::new();
            shape.push(*num_bins as usize);
            assert(shape@ =~= seq![*num_bins as usize]);
            Some(Signature { element_type: ElementType::F64, shape: Some(shape) })
        },
        Operation::DpMean { .. } => Some(scalar_number()),
        Operation::DpVariance { .. } => Some(scalar_number()),
        Operation::DpMomentRaw { .. } => Some(scalar_number()),
        Operation::DpCovariance { .. } => Some(scalar_number()),
        _ => binary_signature(
            node.operation.kind(),
            look_up(analysis, signatures, i, "left"),
            look_up(analysis, signatures, i, "right"),
        ),
    }
}

/// The signature of a single number.
pub fn scalar_number() -> (r: Signature)
    ensures
        r@ == (Sig { kind: ElementType::F64, shape: Some(Seq::<usize>::empty()) }),
{
    let shape: Vec<usize> = Vec::new();
    Signature { element_type: ElementType::F64, shape: Some(shape) }
}

/// The signature of every node of a graph without a cycle, by position.
pub fn infer_signatures(analysis: &Analysis, order: &Vec<usize>) -> (r: Vec<Option<Signature>>)
    requires
        analysis.wf(),
        analysis.sorted(order@),
    ensures
        analysis.inferred(r@),
{
    let n: usize = analysis.graph.len();
    let mut signatures: Vec<Option<Signature>> = Vec::new();
    let mut i: usize = 0;
    while i < n
        invariant
            i <= n,
            signatures.len() == i,
        decreases n - i,
    {
        signatures.push(None);
        i += 1;
    }
    let mut k: usize = 0;
    while k < order.len()
        invariant
            k <= order.len(),
            n == analysis.graph.len(),
            analysis.wf(),
            analysis.sorted(order@),
            signatures.len() == n,
            forall|l: int|
                0 <= l < k ==> model(signatures[(#[trigger] order[l]) as int]) == analysis.signature(
                    order[l] as int,
                    n as nat,
                ),
        decreases order.len() - k,
    {
        let at: usize = order[k];
        let found: Option<Signature> = derive_signature(analysis, &signatures, at);
        proof {
            analysis.lemma_derived(order@, k as int, signatures@);
        }
        let ghost before = signatures@;
        signatures.set(at, found);
        proof {
            assert forall|l: int| 0 <= l < k + 1 implies model(
                signatures[(#[trigger] order[l]) as int],
            ) == analysis.signature(order[l] as int, n as nat) by {
                if l < k {
                    assert(order[l] != order[k as int]);
                    assert(signatures[order[l] as int] == before[order[l] as int]);
                }
            }
        }
        k += 1;
    }
    proof {
        assert forall|j: int| 0 <= j < n implies model(#[trigger] signatures[j])
            == analysis.signature(j, n as nat) by {
            assert(lists(order@, j));
            let l = choose|l: int| 0 <= l < order.len() && #[trigger] order[l] == j;
            assert(model(signatures[order[l] as int]) == analysis.signature(order[l] as int, n as nat));
        }
    }
    signatures
}

/// The signature of what an argument reads, once every node has its
/// signature.
pub fn read_signature<'a>(
    analysis: &Analysis,
    signatures: &'a Vec<Option<Signature>>,
    i: usize,
    name: &str,
) -> (r: Option<&'a Signature>)
    requires
        i < analysis.graph.len(),
        analysis.inferred(signatures@),
    ensures
        model_of(r) == analysis.argument_signature(i as int, name@),
{
    proof {
        match analysis.graph[i as int].source_of(name@) {
            Some(id) => {
                analysis.lemma_position_from(id, 0);
            },
            None => {},
        }
    }
    look_up(analysis, signatures, i, name)
}

/// Whether the element types of the arguments of a node are those its kind
/// accepts.
pub fn types_hold(analysis: &Analysis, signatures: &Vec<Option<Signature>>, i: usize) -> (r: bool)
    requires
        i < analysis.graph.len(),
        analysis.inferred(signatures@),
    ensures
        r == analysis.types_at(i as int),
{
    let kind: NodeKind = analysis.graph[i].operation.kind();
    match kind {
        NodeKind::Literal => true,
        NodeKind::DataSource => true,
        NodeKind::Negate => match read_signature(analysis, signatures, i, "data") {
            Some(d) => d.element_type.is_numeric(),
            None => true,
        },
        NodeKind::DpMean => statistic_is_typed(analysis, signatures, i),
        NodeKind::DpVariance => statistic_is_typed(analysis, signatures, i),
        NodeKind::DpMomentRaw => statistic_is_typed(analysis, signatures, i),
        NodeKind::DpHistogram => is_number_input(read_signature(analysis, signatures, i, "data"))
            && is_number_input(read_signature(analysis, signatures, i, "minimum")) && is_number_input(
            read_signature(analysis, signatures, i, "maximum"),
        ),
        NodeKind::DpCovariance => is_number_input(read_signature(analysis, signatures, i, "data_x"))
            && is_number_input(read_signature(analysis, signatures, i, "data_y")) && is_number_input(
            read_signature(analysis, signatures, i, "num_records"),
        ) && is_number_input(read_signature(analysis, signatures, i, "minimum_x")) && is_number_input(
            read_signature(analysis, signatures, i, "minimum_y"),
        ) && is_number_input(read_signature(analysis, signatures, i, "maximum_x")) && is_number_input(
            read_signature(analysis, signatures, i, "maximum_y"),
        ),
        _ => match (
            read_signature(analysis, signatures, i, "left"),
            read_signature(analysis, signatures, i, "right"),
        ) {
            (Some(l), Some(r)) => operands_are_typed(kind, l, r),
            _ => true,
        },
    }
}

/// Whether the four arguments of a statistic over one column hold numbers.
pub fn statistic_is_typed(analysis: &Analysis, signatures: &Vec<Option<Signature>>, i: usize) -> (r:
    bool)
    requires
        i < analysis.graph.len(),
        analysis.inferred(signatures@),
    ensures
        r == analysis.statistic_typed(i as int),
{
    is_number_input(read_signature(analysis, signatures, i, "data")) && is_number_input(
        read_signature(analysis, signatures, i, "num_records"),
    ) && is_number_input(read_signature(analysis, signatures, i, "minimum")) && is_number_input(
        read_signature(analysis, signatures, i, "maximum"),
    )
}

/// Whether the shapes at a node conform.
pub fn shapes_hold(analysis: &Analysis, signatures: &Vec<Option<Signature>>, i: usize) -> (r: bool)
    requires
        i < analysis.graph.len(),
        analysis.inferred(signatures@),
    ensures
        r == analysis.shapes_at(i as int),
{
    match &analysis.graph[i].operation {
        Operation::Literal { value } => value.is_well_formed(),
        Operation::DataSource { .. } => true,
        Operation::Negate => true,
        Operation::DpMean { .. } => true,
        Operation::DpVariance { .. } => true,
        Operation::DpMomentRaw { .. } => true,
        Operation::DpHistogram { .. } => true,
        Operation::DpCovariance { .. } => is_paired(
            read_signature(analysis, signatures, i, "data_x"),
            read_signature(analysis, signatures, i, "data_y"),
        ),
        _ => match (
            read_signature(analysis, signatures, i, "left"),
            read_signature(analysis, signatures, i, "right"),
        ) {
            (Some(l), Some(r)) => operands_are_shaped(l, r),
            _ => true,
        },
    }
}

} // verus!
