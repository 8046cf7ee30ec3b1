//! The analysis graph: typed computation nodes joined by named argument
//! edges.
//!
//! A graph is a list of nodes with distinct ids. An argument of a node names
//! the node whose output it reads, so the edges run from a consumer to its
//! sources. Positions in the list stand for the nodes in the specifications.

use vstd::prelude::*;
use vstd::string::*;
use crate::number::Binary64;
use crate::value::{ElementType, Value};

verus! {

/// Where an argument comes from: a node and one of its outputs.
#[derive(Debug)]
pub struct Field {
    pub source_node_id: u32,
    pub source_field: String,
}

/// A named argument edge.
#[derive(Debug)]
pub struct Argument {
    pub name: String,
    pub field: Field,
}

impl Argument {
    /// An argument called `name` that reads output `source_field` of node
    /// `source_node_id`.
    pub fn new(name: String, source_node_id: u32, source_field: String) -> (r: Argument)
        ensures
            r.name == name,
            r.field.source_node_id == source_node_id,
            r.field.source_field == source_field,
    {
        Argument { name, field: Field { source_node_id, source_field } }
    }
}

/// The noise mechanism that a private kernel is asked for.
#[derive(Clone, Copy, Debug, PartialEq, Eq, Structural)]
pub enum Mechanism {
    Laplace,
    Gaussian,
    Unknown,
}

impl Mechanism {
    pub open spec fn of_tag(tag: i32) -> Mechanism {
        if tag == 0 {
            Mechanism::Laplace
        } else if tag == 1 {
            Mechanism::Gaussian
        } else {
            Mechanism::Unknown
        }
    }

    /// The mechanism that a tag stands for: 0 is Laplace, 1 is Gaussian.
    pub fn from_i32(tag: i32) -> (r: Mechanism)
        ensures
            r == Mechanism::of_tag(tag),
    {
        if tag == 0 {
            Mechanism::Laplace
        } else if tag == 1 {
            Mechanism::Gaussian
        } else {
            Mechanism::Unknown
        }
    }
}

/// The closed set of node kinds.
#[derive(Clone, Copy, Debug, PartialEq, Eq, Structural)]
pub enum NodeKind {
    Literal,
    DataSource,
    Add,
    Subtract,
    Multiply,
    Divide,
    Power,
    Negate,
    DpMean,
    DpVariance,
    DpMomentRaw,
    DpCovariance,
    DpHistogram,
}

impl NodeKind {
    /// A privatizer adds calibrated noise: its output may be released.
    pub open spec fn privatizer(self) -> bool {
        self == NodeKind::DpMean || self == NodeKind::DpVariance || self == NodeKind::DpMomentRaw
            || self == NodeKind::DpCovariance || self == NodeKind::DpHistogram
    }

    /// The argument names that a node of this kind has, no more and no less.
    pub open spec fn required(self) -> Seq<Seq<char>> {
        match self {
            NodeKind::Literal => seq![],
            NodeKind::DataSource => seq![],
            NodeKind::Add => seq!["left"@, "right"@],
            NodeKind::Subtract => seq!["left"@, "right"@],
            NodeKind::Multiply => seq!["left"@, "right"@],
            NodeKind::Divide => seq!["left"@, "right"@],
            NodeKind::Power => seq!["left"@, "right"@],
            NodeKind::Negate => seq!["data"@],
            NodeKind::DpMean => seq!["data"@, "num_records"@, "minimum"@, "maximum"@],
            NodeKind::DpVariance => seq!["data"@, "num_records"@, "minimum"@, "maximum"@],
            NodeKind::DpMomentRaw => seq!["data"@, "num_records"@, "minimum"@, "maximum"@],
            NodeKind::DpCovariance => seq![
                "data_x"@,
                "data_y"@,
                "num_records"@,
                "minimum_x"@,
                "minimum_y"@,
                "maximum_x"@,
                "maximum_y"@,
            ],
            NodeKind::DpHistogram => seq!["data"@, "minimum"@, "maximum"@],
        }
    }

    pub fn is_privatizer(self) -> (r: bool)
        ensures
            r == self.privatizer(),
    {
        match self {
            NodeKind::DpMean => true,
            NodeKind::DpVariance => true,
            NodeKind::DpMomentRaw => true,
            NodeKind::DpCovariance => true,
            NodeKind::DpHistogram => true,
            _ => false,
        }
    }

    /// The argument names that a node of this kind has.
    pub fn required_arguments(self) -> (r: Vec<&'static str>)
        ensures
            r.len() == self.required().len(),
            forall|i: int| 0 <= i < r.len() ==> (#[trigger] r[i])@ == self.required()[i],
    {
        match self {
            NodeKind::Literal => Vec::new(),
            NodeKind::DataSource => Vec::new(),
            NodeKind::Add => vec!["left", "right"],
            NodeKind::Subtract => vec!["left", "right"],
            NodeKind::Multiply => vec!["left", "right"],
            NodeKind::Divide => vec!["left", "right"],
            NodeKind::Power => vec!["left", "right"],
            NodeKind::Negate => vec!["data"],
            NodeKind::DpMean => vec!["data", "num_records", "minimum", "maximum"],
            NodeKind::DpVariance => vec!["data", "num_records", "minimum", "maximum"],
            NodeKind::DpMomentRaw => vec!["data", "num_records", "minimum", "maximum"],
            NodeKind::DpCovariance => vec![
                "data_x",
                "data_y",
                "num_records",
                "minimum_x",
                "minimum_y",
                "maximum_x",
                "maximum_y",
            ],
            NodeKind::DpHistogram => vec!["data", "minimum", "maximum"],
        }
    }
}

/// What a node computes, with the static parameters of its kind.
#[derive(Debug)]
pub enum Operation {
    Literal { value: Value },
    DataSource { dataset_id: String, column_id: String, datatype: ElementType },
    Add,
    Subtract,
    Multiply,
    Divide,
    Power,
    Negate,
    DpMean { epsilon: Binary64, mechanism: Mechanism },
    DpVariance { epsilon: Binary64, mechanism: Mechanism },
    DpMomentRaw { epsilon: Binary64, mechanism: Mechanism, order: u32 },
    DpCovariance { epsilon: Binary64, mechanism: Mechanism },
    /// `stability` holds delta where the stability release is asked for.
    DpHistogram {
        epsilon: Binary64,
        mechanism: Mechanism,
        stability: Option<Binary64>,
        num_bins: u32,
        inclusive_left: bool,
    },
}

impl Operation {
    pub open spec fn kind_of(self) -> NodeKind {
        match self {
            Operation::Literal { .. } => NodeKind::Literal,
            Operation::DataSource { .. } => NodeKind::DataSource,
            Operation::Add => NodeKind::Add,
            Operation::Subtract => NodeKind::Subtract,
            Operation::Multiply => NodeKind::Multiply,
            Operation::Divide => NodeKind::Divide,
            Operation::Power => NodeKind::Power,
            Operation::Negate => NodeKind::Negate,
            Operation::DpMean { .. } => NodeKind::DpMean,
            Operation::DpVariance { .. } => NodeKind::DpVariance,
            Operation::DpMomentRaw { .. } => NodeKind::DpMomentRaw,
            Operation::DpCovariance { .. } => NodeKind::DpCovariance,
            Operation::DpHistogram { .. } => NodeKind::DpHistogram,
        }
    }

    pub fn kind(&self) -> (r: NodeKind)
        ensures
            r == self.kind_of(),
    {
        match self {
            Operation::Literal { .. } => NodeKind::Literal,
            Operation::DataSource { .. } => NodeKind::DataSource,
            Operation::Add => NodeKind::Add,
            Operation::Subtract => NodeKind::Subtract,
            Operation::Multiply => NodeKind::Multiply,
            Operation::Divide => NodeKind::Divide,
            Operation::Power => NodeKind::Power,
            Operation::Negate => NodeKind::Negate,
            Operation::DpMean { .. } => NodeKind::DpMean,
            Operation::DpVariance { .. } => NodeKind::DpVariance,
            Operation::DpMomentRaw { .. } => NodeKind::DpMomentRaw,
            Operation::DpCovariance { .. } => NodeKind::DpCovariance,
            Operation::DpHistogram { .. } => NodeKind::DpHistogram,
        }
    }
}

/// A node of the graph.
#[derive(Debug)]
pub struct Component {
    pub id: u32,
    pub arguments: Vec<Argument>,
    pub operation: Operation,
}

impl Component {
    /// Whether some argument of the node comes from node `id`.
    pub open spec fn reads(self, id: u32) -> bool {
        exists|k: int|
            0 <= k < self.arguments.len() && (#[trigger] self.arguments[k]).field.source_node_id
                == id
    }

    /// Whether the node is a privatizer.
    pub open spec fn privatizer(self) -> bool {
        self.operation.kind_of().privatizer()
    }

    /// The first argument called `name`, if there is one.
    pub open spec fn argument_at(self, name: Seq<char>, from: int) -> Option<int>
        decreases self.arguments.len() - from,
    {
        if from < 0 || from >= self.arguments.len() {
            None
        } else if self.arguments[from].name@ == name {
            Some(from)
        } else {
            self.argument_at(name, from + 1)
        }
    }

    /// Whether the node has an argument called `name`.
    pub open spec fn names(self, name: Seq<char>) -> bool {
        exists|k: int| 0 <= k < self.arguments.len() && (#[trigger] self.arguments[k]).name@ == name
    }

    /// A node with this id, this operation and these arguments.
    pub fn new(id: u32, operation: Operation, arguments: Vec<Argument>) -> (r: Component)
        ensures
            r.id == id,
            r.operation == operation,
            r.arguments == arguments,
    {
        Component { id, arguments, operation }
    }

    pub fn kind(&self) -> (r: NodeKind)
        ensures
            r == self.operation.kind_of(),
    {
        self.operation.kind()
    }

    /// The argument edges of the node.
    pub fn arguments(&self) -> (r: &Vec<Argument>)
        ensures
            r == &self.arguments,
    {
        &self.arguments
    }

    /// The position of the first argument called `name`.
    pub open spec fn argument_index(self, name: Seq<char>) -> Option<int> {
        self.argument_at(name, 0)
    }

    /// The source of the first argument called `name`.
    pub open spec fn source_of(self, name: Seq<char>) -> Option<u32> {
        match self.argument_index(name) {
            Some(k) => Some(self.arguments[k].field.source_node_id),
            None => None,
        }
    }

    /// `argument_at` finds an argument called `name` with none before it,
    /// or there is none from `from` on.
    pub proof fn lemma_argument_at(self, name: Seq<char>, from: int)
        requires
            0 <= from,
        ensures
            match self.argument_at(name, from) {
                Some(k) => from <= k < self.arguments.len() && self.arguments[k].name@ == name
                    && forall|l: int| from <= l < k ==> self.arguments[l].name@ != name,
                None => forall|l: int|
                    from <= l < self.arguments.len() ==> self.arguments[l].name@ != name,
            },
        decreases self.arguments.len() - from,
    {
        if from < self.arguments.len() && self.arguments[from].name@ != name {
            self.lemma_argument_at(name, from + 1);
        }
    }

    /// The position of the first argument called `name`.
    pub fn find_argument(&self, name: &str) -> (r: Option<usize>)
        ensures
            r is Some <==> self.names(name@),
            match r {
                Some(k) => self.argument_index(name@) == Some(k as int) && k < self.arguments.len()
                    && self.arguments[k as int].name@ == name@,
                None => self.argument_index(name@) is None,
            },
    {
        proof {
            self.lemma_argument_at(name@, 0);
        }
        let wanted: String = String::from_str(name);
        let mut k: usize = 0;
        while k < self.arguments.len()
            invariant
                k <= self.arguments.len(),
                wanted@ == name@,
                forall|l: int| 0 <= l < k ==> (#[trigger] self.arguments[l]).name@ != name@,
            decreases self.arguments.len() - k,
        {
            if self.arguments[k].name == wanted {
                proof {
                    self.lemma_argument_at(name@, 0);
                }
                return Some(k);
            }
            k += 1;
        }
        proof {
            self.lemma_argument_at(name@, 0);
        }
        None
    }

    /// The source of the first argument called `name`.
    pub fn argument(&self, name: &str) -> (r: Option<&Field>)
        ensures
            r is Some <==> self.names(name@),
            match r {
                Some(f) => self.argument_index(name@) matches Some(k) && self.arguments[k].field
                    == *f,
                None => self.argument_index(name@) is None,
            },
    {
        match self.find_argument(name) {
            Some(k) => Some(&self.arguments[k].field),
            None => None,
        }
    }
}

/// Whether a node is a privatizer: one of the private kernels.
pub fn is_privatizer(component: &Component) -> (r: bool)
    ensures
        r == component.privatizer(),
{
    component.operation.kind().is_privatizer()
}

/// An analysis: the graph of its nodes.
#[derive(Debug)]
pub struct Analysis {
    pub graph: Vec<Component>,
}

impl Analysis {
    /// No two nodes share an id.
    pub open spec fn wf(self) -> bool {
        forall|i: int, j: int|
            0 <= i < j < self.graph.len() ==> (#[trigger] self.graph[i]).id != (
            #[trigger] self.graph[j]).id
    }

    /// Whether the graph has a node with this id.
    pub open spec fn has(self, id: u32) -> bool {
        exists|i: int| 0 <= i < self.graph.len() && (#[trigger] self.graph[i]).id == id
    }

    /// An edge: the node at position `consumer` reads the node at position
    /// `source`.
    pub open spec fn arc(self, consumer: int, source: int) -> bool {
        &&& 0 <= consumer < self.graph.len()
        &&& 0 <= source < self.graph.len()
        &&& self.graph[consumer].reads(self.graph[source].id)
    }

    /// Step `k` of a path follows an edge.
    pub open spec fn step(self, path: Seq<int>, k: int) -> bool {
        self.arc(path[k], path[k + 1])
    }

    /// A walk along edges, from each node to one of its sources.
    pub open spec fn walk(self, path: Seq<int>) -> bool {
        &&& forall|k: int| 0 <= k < path.len() ==> 0 <= #[trigger] path[k] < self.graph.len()
        &&& forall|k: int| 0 <= k < path.len() - 1 ==> #[trigger] self.step(path, k)
    }

    /// A directed cycle: a walk of at least one edge that ends where it
    /// started.
    pub open spec fn cycle(self, path: Seq<int>) -> bool {
        &&& self.walk(path)
        &&& path.len() >= 2
        &&& path[0] == path[path.len() - 1]
    }

    /// Whether the graph has a directed cycle.
    pub open spec fn cyclic(self) -> bool {
        exists|path: Seq<int>| self.cycle(path)
    }

    /// The graph without a node.
    pub fn new() -> (r: Analysis)
        ensures
            r.graph@.len() == 0,
            r.wf(),
    {
        Analysis { graph: Vec::new() }
    }

    /// Adds a node at the end, unless the graph has a node with its id
    /// already: then the graph stays as it is.
    pub fn insert(&mut self, component: Component) -> (r: bool)
        ensures
            r == !old(self).has(component.id),
            r ==> final(self).graph@ == old(self).graph@.push(component),
            !r ==> *final(self) == *old(self),
            old(self).wf() ==> final(self).wf(),
    {
        if self.position(component.id).is_some() {
            return false;
        }
        let ghost before = self.graph@;
        self.graph.push(component);
        proof {
            if old(self).wf() {
                assert forall|i: int, j: int| 0 <= i < j < self.graph.len() implies (
                #[trigger] self.graph[i]).id != (#[trigger] self.graph[j]).id by {
                    assert(self.graph[i] == before[i]);
                    if j < before.len() {
                        assert(self.graph[j] == before[j]);
                    }
                }
            }
        }
        true
    }

    /// The nodes of the graph, in their order.
    pub fn nodes(&self) -> (r: &Vec<Component>)
        ensures
            r == &self.graph,
    {
        &self.graph
    }

    /// The first position at or after `from` of a node with this id.
    pub open spec fn position_from(self, id: u32, from: int) -> Option<int>
        decreases self.graph.len() - from,
    {
        if from < 0 || from >= self.graph.len() {
            None
        } else if self.graph[from].id == id {
            Some(from)
        } else {
            self.position_from(id, from + 1)
        }
    }

    /// The position of the node with this id.
    pub open spec fn index_of(self, id: u32) -> Option<int> {
        self.position_from(id, 0)
    }

    /// `position_from` finds a node with this id with none before it, or
    /// there is none from `from` on.
    pub proof fn lemma_position_from(self, id: u32, from: int)
        requires
            0 <= from,
        ensures
            match self.position_from(id, from) {
                Some(i) => from <= i < self.graph.len() && self.graph[i].id == id && forall|j: int|
                    from <= j < i ==> self.graph[j].id != id,
                None => forall|j: int| from <= j < self.graph.len() ==> self.graph[j].id != id,
            },
        decreases self.graph.len() - from,
    {
        if from < self.graph.len() && self.graph[from].id != id {
            self.lemma_position_from(id, from + 1);
        }
    }

    /// The position of the node with this id.
    pub fn position(&self, id: u32) -> (r: Option<usize>)
        ensures
            r is Some <==> self.has(id),
            match r {
                Some(i) => self.index_of(id) == Some(i as int) && i < self.graph.len()
                    && self.graph[i as int].id == id,
                None => self.index_of(id) is None,
            },
            r matches Some(i) ==> forall|j: int| 0 <= j < i ==> self.graph[j].id != id,
    {
        proof {
            self.lemma_position_from(id, 0);
        }
        let mut i: usize = 0;
        while i < self.graph.len()
            invariant
                i <= self.graph.len(),
                forall|j: int| 0 <= j < i ==> (#[trigger] self.graph[j]).id != id,
            decreases self.graph.len() - i,
        {
            if self.graph[i].id == id {
                proof {
                    self.lemma_position_from(id, 0);
                }
                return Some(i);
            }
            i += 1;
        }
        proof {
            self.lemma_position_from(id, 0);
        }
        None
    }

    /// The node with this id.
    pub fn get(&self, id: u32) -> (r: Option<&Component>)
        ensures
            r is Some <==> self.has(id),
            match r {
                Some(c) => c.id == id && self.index_of(id) is Some && self.graph[self.index_of(
                    id,
                )->0] == *c,
                None => self.index_of(id) is None,
            },
    {
        match self.position(id) {
            Some(i) => Some(&self.graph[i]),
            None => None,
        }
    }

    /// Whether no two nodes share an id.
    pub fn is_well_formed(&self) -> (r: bool)
        ensures
            r == self.wf(),
    {
        let mut j: usize = 0;
        while j < self.graph.len()
            invariant
                j <= self.graph.len(),
                forall|a: int, b: int|
                    0 <= a < b < j ==> (#[trigger] self.graph[a]).id != (#[trigger] self.graph[b]).id,
            decreases self.graph.len() - j,
        {
            let mut i: usize = 0;
            while i < j
                invariant
                    i <= j,
                    j < self.graph.len(),
                    forall|a: int| 0 <= a < i ==> (#[trigger] self.graph[a]).id != self.graph[j as int].id,
                decreases j - i,
            {
                if self.graph[i].id == self.graph[j].id {
                    return false;
                }
                i += 1;
            }
            j += 1;
        }
        true
    }
}

} // verus!
