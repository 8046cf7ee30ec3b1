//! The rest of the validator's surface: the sensitivities of the private
//! nodes, and entry points that hand back their input or an answer that
//! carries nothing.
//!
//! A sensitivity bounds how far one record can move a statistic. It follows
//! from the bounds and the number of records that the node declares. The
//! arithmetic on them is not done here: a sensitivity is given as the
//! formula that applies with the numbers that go into it, and as a number
//! only where it is a constant.

use vstd::prelude::*;
use vstd::string::*;
use crate::checks::{bounds_in_range, check_bounds};
use crate::dispatch::{check_records, records_in_range};
use crate::graph::{is_privatizer, Analysis, Component, Operation};
use crate::number::Binary64;
use crate::release::Release;

verus! {

/// The privacy that an analysis uses up.
#[derive(Debug)]
pub struct PrivacyUsage {}

/// The privacy that one node uses up.
#[derive(Debug)]
pub struct PrivacyUsageNode {}

/// A report on a release.
#[derive(Debug)]
pub struct Report {
    pub value: String,
}

/// What is known of the data beforehand.
#[derive(Debug)]
pub struct Constraints {}

/// The bit pattern of the number two.
pub const TWO_BITS: u64 = 0x4000_0000_0000_0000;

/// The sensitivity of a private statistic: the formula that applies, with
/// the numbers that go into it.
#[derive(Clone, Copy, Debug)]
pub enum Sensitivity {
    /// The width of the bounds, divided by the number of records.
    Mean { num_records: Binary64, minimum: Binary64, maximum: Binary64 },
    /// The square of the width of the bounds over the number of records,
    /// times the number of records less one.
    Variance { num_records: Binary64, minimum: Binary64, maximum: Binary64 },
    /// The width of the bounds to the power of the order, divided by the
    /// number of records.
    MomentRaw { num_records: Binary64, minimum: Binary64, maximum: Binary64, order: u32 },
    /// Twice the number of records less one over the number of records,
    /// times the widths of both pairs of bounds.
    Covariance {
        num_records: Binary64,
        minimum_x: Binary64,
        minimum_y: Binary64,
        maximum_x: Binary64,
        maximum_y: Binary64,
    },
    /// Two, whatever the data: one record changes the counts of two bins,
    /// each by one.
    Histogram { value: Binary64 },
}

/// The sensitivity of one private node. There is none where the node does
/// not declare a number that the formula needs, or declares one out of
/// range.
#[derive(Clone, Copy, Debug)]
pub struct NodeSensitivity {
    pub node_id: u32,
    pub sensitivity: Option<Sensitivity>,
}

/// The sensitivities of the private nodes of an analysis, in the order of
/// the graph.
#[derive(Debug)]
pub struct Sensitivities {
    pub nodes: Vec<NodeSensitivity>,
}

impl Analysis {
    /// The number of records and the bounds that the node at position `i`
    /// declares, where it declares all three and they are in range: the
    /// number of records finite and above zero, the bounds finite and in
    /// order.
    pub open spec fn column_terms(self, i: int) -> Option<(Binary64, Binary64, Binary64)> {
        match (
            self.declared(i, "num_records"@),
            self.declared(i, "minimum"@),
            self.declared(i, "maximum"@),
        ) {
            (Some(n), Some(lo), Some(hi)) => if records_in_range(n) && bounds_in_range(lo, hi) {
                Some((n, lo, hi))
            } else {
                None
            },
            _ => None,
        }
    }

    /// The sensitivity of a covariance at position `i`, where the node
    /// declares the number of records and both pairs of bounds, all in
    /// range.
    pub open spec fn covariance_terms(self, i: int) -> Option<Sensitivity> {
        match (
            self.declared(i, "num_records"@),
            self.declared(i, "minimum_x"@),
            self.declared(i, "minimum_y"@),
            self.declared(i, "maximum_x"@),
            self.declared(i, "maximum_y"@),
        ) {
            (Some(n), Some(lo_x), Some(lo_y), Some(hi_x), Some(hi_y)) => if records_in_range(n)
                && bounds_in_range(lo_x, hi_x) && bounds_in_range(lo_y, hi_y) {
                Some(
                    Sensitivity::Covariance {
                        num_records: n,
                        minimum_x: lo_x,
                        minimum_y: lo_y,
                        maximum_x: hi_x,
                        maximum_y: hi_y,
                    },
                )
            } else {
                None
            },
            _ => None,
        }
    }

    /// The sensitivity of the node at position `i`: the formula of its
    /// statistic with the numbers that the node declares.
    pub open spec fn sensitivity_at(self, i: int) -> Option<Sensitivity> {
        match self.graph[i].operation {
            Operation::DpMean { .. } => match self.column_terms(i) {
                Some((num_records, minimum, maximum)) => Some(
                    Sensitivity::Mean { num_records, minimum, maximum },
                ),
                None => None,
            },
            Operation::DpVariance { .. } => match self.column_terms(i) {
                Some((num_records, minimum, maximum)) => Some(
                    Sensitivity::Variance { num_records, minimum, maximum },
                ),
                None => None,
            },
            Operation::DpMomentRaw { order, .. } => match self.column_terms(i) {
                Some((num_records, minimum, maximum)) => Some(
                    Sensitivity::MomentRaw { num_records, minimum, maximum, order },
                ),
                None => None,
            },
            Operation::DpCovariance { .. } => self.covariance_terms(i),
            Operation::DpHistogram { .. } => Some(
                Sensitivity::Histogram { value: Binary64 { bits: TWO_BITS } },
            ),
            _ => None,
        }
    }

    /// The sensitivities of the private nodes before position `k`, in the
    /// order of the graph.
    pub open spec fn sensitivities_upto(self, k: int) -> Seq<NodeSensitivity>
        decreases k,
    {
        if k <= 0 {
            Seq::empty()
        } else if self.graph[k - 1].privatizer() {
            self.sensitivities_upto(k - 1).push(
                NodeSensitivity {
                    node_id: self.graph[k - 1].id,
                    sensitivity: self.sensitivity_at(k - 1),
                },
            )
        } else {
            self.sensitivities_upto(k - 1)
        }
    }

    /// The number of records and the bounds that the node at position `i`
    /// declares, where it declares all three and they are in range.
    pub fn declared_column(&self, i: usize) -> (r: Option<(Binary64, Binary64, Binary64)>)
        requires
            i < self.graph.len(),
        ensures
            r == self.column_terms(i as int),
    {
        match (
            self.declared_number(i, "num_records"),
            self.declared_number(i, "minimum"),
            self.declared_number(i, "maximum"),
        ) {
            (Some(n), Some(lo), Some(hi)) => if check_records(n) && check_bounds(lo, hi) {
                Some((n, lo, hi))
            } else {
                None
            },
            _ => None,
        }
    }

    /// The sensitivity of a covariance at position `i`.
    pub fn declared_covariance(&self, i: usize) -> (r: Option<Sensitivity>)
        requires
            i < self.graph.len(),
        ensures
            r == self.covariance_terms(i as int),
    {
        match (
            self.declared_number(i, "num_records"),
            self.declared_number(i, "minimum_x"),
            self.declared_number(i, "minimum_y"),
            self.declared_number(i, "maximum_x"),
            self.declared_number(i, "maximum_y"),
        ) {
            (Some(n), Some(lo_x), Some(lo_y), Some(hi_x), Some(hi_y)) => if check_records(n)
                && check_bounds(lo_x, hi_x) && check_bounds(lo_y, hi_y) {
                Some(
                    Sensitivity::Covariance {
                        num_records: n,
                        minimum_x: lo_x,
                        minimum_y: lo_y,
                        maximum_x: hi_x,
                        maximum_y: hi_y,
                    },
                )
            } else {
                None
            },
            _ => None,
        }
    }

    /// The sensitivity of the node at position `i`.
    pub fn sensitivity(&self, i: usize) -> (r: Option<Sensitivity>)
        requires
            i < self.graph.len(),
        ensures
            r == self.sensitivity_at(i as int),
    {
        match &self.graph[i].operation {
            Operation::DpMean { .. } => match self.declared_column(i) {
                Some((num_records, minimum, maximum)) => Some(
                    Sensitivity::Mean { num_records, minimum, maximum },
                ),
                None => None,
            },
            Operation::DpVariance { .. } => match self.declared_column(i) {
                Some((num_records, minimum, maximum)) => Some(
                    Sensitivity::Variance { num_records, minimum, maximum },
                ),
                None => None,
            },
            Operation::DpMomentRaw { order, .. } => match self.declared_column(i) {
                Some((num_records, minimum, maximum)) => Some(
                    Sensitivity::MomentRaw { num_records, minimum, maximum, order: *order },
                ),
                None => None,
            },
            Operation::DpCovariance { .. } => self.declared_covariance(i),
            Operation::DpHistogram { .. } => Some(
                Sensitivity::Histogram { value: Binary64::from_bits(TWO_BITS) },
            ),
            _ => None,
        }
    }
}

/// The accuracies of the nodes of an analysis.
#[derive(Debug)]
pub struct Accuracies {}

/// The privacy usage of an analysis: an answer that carries nothing.
pub fn compute_privacy(analysis: Analysis, release: Release) -> (r: PrivacyUsage)
    ensures
        r == (PrivacyUsage {  }),
{
    PrivacyUsage {  }
}

/// The report on a release: the same fixed text for every release.
pub fn generate_report(analysis: Analysis, release: Release) -> (r: Report)
    ensures
        r.value@ == "{\"key\": \"value\"}"@,
{
    Report { value: String::from_str("{\"key\": \"value\"}") }
}

/// The analysis with its constraints filled in: the analysis as it came.
pub fn infer_constraints(analysis: Analysis, release: Release, constraints: Constraints) -> (r:
    Analysis)
    ensures
        r == analysis,
{
    analysis
}

/// The sensitivities of an analysis: one entry for each private node, in
/// the order of the graph, with the formula of its statistic and the
/// numbers that the node declares for it. The release is not consulted:
/// a sensitivity rests on what is declared, not on what was computed.
pub fn compute_sensitivities(analysis: Analysis, release: Release) -> (r: Sensitivities)
    ensures
        r.nodes@ == analysis.sensitivities_upto(analysis.graph.len() as int),
{
    let n: usize = analysis.graph.len();
    let mut nodes: Vec<NodeSensitivity> = Vec::new();
    let mut i: usize = 0;
    while i < n
        invariant
            i <= n,
            n == analysis.graph.len(),
            nodes@ == analysis.sensitivities_upto(i as int),
        decreases n - i,
    {
        let node: &Component = &analysis.graph[i];
        if is_privatizer(node) {
            let sensitivity: Option<Sensitivity> = analysis.sensitivity(i);
            nodes.push(NodeSensitivity { node_id: node.id, sensitivity });
        }
        i += 1;
    }
    Sensitivities { nodes }
}

/// The privacy usage that given accuracies call for: an answer that carries
/// nothing.
pub fn from_accuracy(analysis: Analysis, release: Release, accuracies: Accuracies) -> (r:
    PrivacyUsageNode)
    ensures
        r == (PrivacyUsageNode {  }),
{
    PrivacyUsageNode {  }
}

/// The accuracies of an analysis: an answer that carries nothing.
pub fn to_accuracy(analysis: Analysis, release: Release) -> (r: Accuracies)
    ensures
        r == (Accuracies {  }),
{
    Accuracies {  }
}

} // verus!
