//! The checks that the validator makes on each node by itself: that its
//! arguments come from nodes of the graph, that it has the arguments of its
//! kind, and that its privacy parameters and declared bounds are in range.

use vstd::prelude::*;
use vstd::string::*;
use crate::graph::{Analysis, Component, NodeKind, Operation};
use crate::number::Binary64;

verus! {

/// The bit pattern of the number one.
pub const ONE_BITS: u64 = 0x3ff0_0000_0000_0000;

/// A check that is made on each node.
#[derive(Clone, Copy, Debug, PartialEq, Eq, Structural)]
pub enum Check {
    /// Every argument comes from a node of the graph.
    Closure,
    /// The node has exactly the arguments of its kind.
    Arity,
    /// The element types of the arguments are those the kind accepts.
    Type,
    /// The shapes of the arguments conform.
    Shape,
    /// Every declared lower bound is below its upper bound.
    Bounds,
    /// Epsilon is positive.
    Epsilon,
    /// Delta lies strictly between zero and one.
    Delta,
}

/// The kinds of error.
#[derive(Clone, Copy, Debug, PartialEq, Eq, Structural)]
pub enum ErrorKind {
    GraphStructure,
    Type,
    Shape,
    Domain,
}

impl Check {
    pub open spec fn kind_of(self) -> ErrorKind {
        match self {
            Check::Closure => ErrorKind::GraphStructure,
            Check::Arity => ErrorKind::GraphStructure,
            Check::Type => ErrorKind::Type,
            Check::Shape => ErrorKind::Shape,
            Check::Bounds => ErrorKind::Domain,
            Check::Epsilon => ErrorKind::Domain,
            Check::Delta => ErrorKind::Domain,
        }
    }

    /// The kind of error that a failure of this check is.
    pub fn kind(self) -> (r: ErrorKind)
        ensures
            r == self.kind_of(),
    {
        match self {
            Check::Closure => ErrorKind::GraphStructure,
            Check::Arity => ErrorKind::GraphStructure,
            Check::Type => ErrorKind::Type,
            Check::Shape => ErrorKind::Shape,
            Check::Bounds => ErrorKind::Domain,
            Check::Epsilon => ErrorKind::Domain,
            Check::Delta => ErrorKind::Domain,
        }
    }
}

impl Operation {
    /// Epsilon, where the kind has one.
    pub open spec fn epsilon_of(self) -> Option<Binary64> {
        match self {
            Operation::DpMean { epsilon, .. } => Some(epsilon),
            Operation::DpVariance { epsilon, .. } => Some(epsilon),
            Operation::DpMomentRaw { epsilon, .. } => Some(epsilon),
            Operation::DpCovariance { epsilon, .. } => Some(epsilon),
            Operation::DpHistogram { epsilon, .. } => Some(epsilon),
            _ => None,
        }
    }

    /// Delta, where the node asks for the stability release.
    pub open spec fn delta_of(self) -> Option<Binary64> {
        match self {
            Operation::DpHistogram { stability, .. } => stability,
            _ => None,
        }
    }

    pub fn epsilon(&self) -> (r: Option<Binary64>)
        ensures
            r == self.epsilon_of(),
    {
        match self {
            Operation::DpMean { epsilon, .. } => Some(*epsilon),
            Operation::DpVariance { epsilon, .. } => Some(*epsilon),
            Operation::DpMomentRaw { epsilon, .. } => Some(*epsilon),
            Operation::DpCovariance { epsilon, .. } => Some(*epsilon),
            Operation::DpHistogram { epsilon, .. } => Some(*epsilon),
            _ => None,
        }
    }

    pub fn delta(&self) -> (r: Option<Binary64>)
        ensures
            r == self.delta_of(),
    {
        match self {
            Operation::DpHistogram { stability, .. } => *stability,
            _ => None,
        }
    }
}

/// Epsilon is in range: finite and above zero.
pub open spec fn epsilon_in_range(epsilon: Binary64) -> bool {
    epsilon.finite() && epsilon.place() > 0
}

/// Delta is in range: strictly between zero and one.
pub open spec fn delta_in_range(delta: Binary64) -> bool {
    !delta.nan() && 0 < delta.place() < ONE_BITS
}

/// A lower and an upper bound are in range: both finite, the lower one
/// strictly below the upper one.
pub open spec fn bounds_in_range(lo: Binary64, hi: Binary64) -> bool {
    lo.finite() && hi.finite() && lo.below(hi)
}

/// Whether epsilon is finite and above zero.
pub fn check_epsilon(epsilon: Binary64) -> (r: bool)
    ensures
        r == epsilon_in_range(epsilon),
{
    epsilon.is_positive()
}

/// Whether delta lies strictly between zero and one.
pub fn check_delta(delta: Binary64) -> (r: bool)
    ensures
        r == delta_in_range(delta),
{
    let one: Binary64 = Binary64::from_bits(ONE_BITS);
    delta.is_positive() && delta.is_below(one)
}

/// Whether both bounds are finite and the lower one is strictly below the
/// upper one.
pub fn check_bounds(lo: Binary64, hi: Binary64) -> (r: bool)
    ensures
        r == bounds_in_range(lo, hi),
{
    lo.is_finite() && hi.is_finite() && lo.is_below(hi)
}

impl Component {
    /// The node has an argument for each name of its kind, none under
    /// another name, and none twice.
    pub open spec fn arity_met(self) -> bool {
        let required = self.operation.kind_of().required();
        &&& forall|r: int| 0 <= r < required.len() ==> self.names(#[trigger] required[r])
        &&& forall|k: int|
            0 <= k < self.arguments.len() ==> required.contains((#[trigger] self.arguments[k]).name@)
        &&& forall|k: int, l: int|
            0 <= k < l < self.arguments.len() ==> (#[trigger] self.arguments[k]).name@ != (
            #[trigger] self.arguments[l]).name@
    }

    /// Epsilon is in range, where the kind has one.
    pub open spec fn epsilon_met(self) -> bool {
        match self.operation.epsilon_of() {
            Some(epsilon) => epsilon_in_range(epsilon),
            None => true,
        }
    }

    /// Delta is in range, where the node has one.
    pub open spec fn delta_met(self) -> bool {
        match self.operation.delta_of() {
            Some(delta) => delta_in_range(delta),
            None => true,
        }
    }

    /// Whether the node has exactly the arguments of its kind.
    pub fn has_arity(&self) -> (r: bool)
        ensures
            r == self.arity_met(),
    {
        let required: Vec<&'static str> = self.operation.kind().required_arguments();
        let ghost names = self.operation.kind_of().required();
        let mut r: usize = 0;
        while r < required.len()
            invariant
                r <= required.len(),
                required.len() == names.len(),
                names == self.operation.kind_of().required(),
                forall|i: int| 0 <= i < required.len() ==> (#[trigger] required[i])@ == names[i],
                forall|i: int| 0 <= i < r ==> self.names(#[trigger] names[i]),
            decreases required.len() - r,
        {
            if self.find_argument(required[r]).is_none() {
                assert(!self.names(names[r as int]));
                return false;
            }
            r += 1;
        }
        let mut k: usize = 0;
        while k < self.arguments.len()
            invariant
                k <= self.arguments.len(),
                required.len() == names.len(),
                names == self.operation.kind_of().required(),
                forall|i: int| 0 <= i < required.len() ==> (#[trigger] required[i])@ == names[i],
                forall|i: int| 0 <= i < names.len() ==> self.names(#[trigger] names[i]),
                forall|a: int| 0 <= a < k ==> names.contains((#[trigger] self.arguments[a]).name@),
                forall|a: int, b: int|
                    0 <= a < b < k ==> (#[trigger] self.arguments[a]).name@ != (
                    #[trigger] self.arguments[b]).name@,
            decreases self.arguments.len() - k,
        {
            let mut known: bool = false;
            let mut q: usize = 0;
            while q < required.len()
                invariant
                    q <= required.len(),
                    k < self.arguments.len(),
                    required.len() == names.len(),
                    forall|i: int| 0 <= i < required.len() ==> (#[trigger] required[i])@ == names[i],
                    known <==> exists|i: int|
                        0 <= i < q && #[trigger] names[i] == self.arguments[k as int].name@,
                decreases required.len() - q,
            {
                let wanted: String = String::from_str(required[q]);
                if self.arguments[k].name == wanted {
                    assert(names[q as int] == self.arguments[k as int].name@);
                    known = true;
                }
                q += 1;
            }
            if !known {
                assert(!names.contains(self.arguments[k as int].name@));
                return false;
            }
            let mut a: usize = 0;
            while a < k
                invariant
                    a <= k,
                    k < self.arguments.len(),
                    forall|b: int|
                        0 <= b < a ==> (#[trigger] self.arguments[b]).name@
                            != self.arguments[k as int].name@,
                decreases k - a,
            {
                if self.arguments[a].name == self.arguments[k].name {
                    return false;
                }
                a += 1;
            }
            k += 1;
        }
        true
    }

    /// Whether epsilon is in range, where the kind has one.
    pub fn has_epsilon(&self) -> (r: bool)
        ensures
            r == self.epsilon_met(),
    {
        match self.operation.epsilon() {
            Some(epsilon) => check_epsilon(epsilon),
            None => true,
        }
    }

    /// Whether delta is in range, where the node has one.
    pub fn has_delta(&self) -> (r: bool)
        ensures
            r == self.delta_met(),
    {
        match self.operation.delta() {
            Some(delta) => check_delta(delta),
            None => true,
        }
    }
}

impl Analysis {
    /// Every argument of the node at position `i` comes from a node of the
    /// graph.
    pub open spec fn closure_at(self, i: int) -> bool {
        forall|k: int|
            0 <= k < self.graph[i].arguments.len() ==> self.has(
                (#[trigger] self.graph[i].arguments[k]).field.source_node_id,
            )
    }

    /// The number that argument `name` of the node at position `i` declares:
    /// the first number of the literal that the argument comes from.
    pub open spec fn declared(self, i: int, name: Seq<char>) -> Option<Binary64> {
        match self.graph[i].source_of(name) {
            Some(id) => match self.index_of(id) {
                Some(j) => match self.graph[j].operation {
                    Operation::Literal { value } => value.leading_number(),
                    _ => None,
                },
                None => None,
            },
            None => None,
        }
    }

    /// Where the node at position `i` declares both bounds of a pair, they
    /// are in range.
    pub open spec fn pair_met(self, i: int, lower: Seq<char>, upper: Seq<char>) -> bool {
        match (self.declared(i, lower), self.declared(i, upper)) {
            (Some(lo), Some(hi)) => bounds_in_range(lo, hi),
            _ => true,
        }
    }

    /// Every pair of bounds that the node at position `i` declares is in
    /// range.
    pub open spec fn bounds_at(self, i: int) -> bool {
        match self.graph[i].operation.kind_of() {
            NodeKind::DpMean => self.pair_met(i, "minimum"@, "maximum"@),
            NodeKind::DpVariance => self.pair_met(i, "minimum"@, "maximum"@),
            NodeKind::DpMomentRaw => self.pair_met(i, "minimum"@, "maximum"@),
            NodeKind::DpHistogram => self.pair_met(i, "minimum"@, "maximum"@),
            NodeKind::DpCovariance => self.pair_met(i, "minimum_x"@, "maximum_x"@) && self.pair_met(
                i,
                "minimum_y"@,
                "maximum_y"@,
            ),
            _ => true,
        }
    }

    /// Whether every argument of the node at position `i` comes from a node
    /// of the graph.
    pub fn has_closure(&self, i: usize) -> (r: bool)
        requires
            i < self.graph.len(),
        ensures
            r == self.closure_at(i as int),
    {
        let node: &Component = &self.graph[i];
        let mut k: usize = 0;
        while k < node.arguments.len()
            invariant
                k <= node.arguments.len(),
                i < self.graph.len(),
                node == &self.graph[i as int],
                forall|l: int|
                    0 <= l < k ==> self.has((#[trigger] node.arguments[l]).field.source_node_id),
            decreases node.arguments.len() - k,
        {
            if self.position(node.arguments[k].field.source_node_id).is_none() {
                return false;
            }
            k += 1;
        }
        true
    }

    /// The number that argument `name` of the node at position `i` declares.
    pub fn declared_number(&self, i: usize, name: &str) -> (r: Option<Binary64>)
        requires
            i < self.graph.len(),
        ensures
            r == self.declared(i as int, name@),
    {
        match self.graph[i].argument(name) {
            Some(field) => match self.position(field.source_node_id) {
                Some(j) => match &self.graph[j].operation {
                    Operation::Literal { value } => value.first_number(),
                    _ => None,
                },
                None => None,
            },
            None => None,
        }
    }

    /// Whether a pair of bounds is in range where the node declares both.
    pub fn has_pair(&self, i: usize, lower: &str, upper: &str) -> (r: bool)
        requires
            i < self.graph.len(),
        ensures
            r == self.pair_met(i as int, lower@, upper@),
    {
        match (self.declared_number(i, lower), self.declared_number(i, upper)) {
            (Some(lo), Some(hi)) => check_bounds(lo, hi),
            _ => true,
        }
    }

    /// Whether every pair of bounds that the node at position `i` declares
    /// is in range.
    pub fn has_bounds(&self, i: usize) -> (r: bool)
        requires
            i < self.graph.len(),
        ensures
            r == self.bounds_at(i as int),
    {
        match self.graph[i].operation.kind() {
            NodeKind::DpMean => self.has_pair(i, "minimum", "maximum"),
            NodeKind::DpVariance => self.has_pair(i, "minimum", "maximum"),
            NodeKind::DpMomentRaw => self.has_pair(i, "minimum", "maximum"),
            NodeKind::DpHistogram => self.has_pair(i, "minimum", "maximum"),
            NodeKind::DpCovariance => self.has_pair(i, "minimum_x", "maximum_x") && self.has_pair(
                i,
                "minimum_y",
                "maximum_y",
            ),
            _ => true,
        }
    }
}

} // verus!
