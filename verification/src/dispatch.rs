//! The dispatch of a node to its kernel: which computation a node asks for,
//! on which values, and with which parameters, or why it cannot be run.

use vstd::prelude::*;
use crate::checks::{
    bounds_in_range, check_bounds, check_delta, check_epsilon, delta_in_range, epsilon_in_range,
};
use crate::graph::{Analysis, Component, Mechanism, NodeKind, Operation};
use crate::number::Binary64;
use crate::release::Release;
use crate::typing::{operands_typed, Sig};
use crate::value::{broadcast_shape, conformable, ElementType, Value};

verus! {

/// Why a node cannot be run.
#[derive(Clone, Copy, Debug, PartialEq, Eq, Structural)]
pub enum Fault {
    /// An argument is missing, or its source has no value yet.
    MissingArgument,
    /// An argument has an element type that the kernel does not accept.
    Type,
    /// The shapes of the arguments do not conform.
    Shape,
    /// A parameter is out of range.
    Domain,
    /// The node asks for a mechanism other than Laplace.
    UnsupportedMechanism,
}

/// The arguments of a statistic over one column.
#[derive(Clone, Copy, Debug)]
pub struct Column {
    /// The node whose value is the data.
    pub data: u32,
    pub num_records: Binary64,
    pub minimum: Binary64,
    pub maximum: Binary64,
}

/// The computation that a node asks for. A value to work on is named by the
/// node that it is the value of.
#[derive(Clone, Copy, Debug)]
pub enum Kernel {
    /// The value that the node holds.
    Literal,
    /// A column of a table, read under an element type.
    Ingest { datatype: ElementType },
    /// An element-wise operation on two arrays of one element type.
    Arithmetic { operation: NodeKind, element_type: ElementType, left: u32, right: u32 },
    /// The element-wise negation of an array.
    Negate { element_type: ElementType, data: u32 },
    Mean { epsilon: Binary64, column: Column },
    Variance { epsilon: Binary64, column: Column },
    MomentRaw { epsilon: Binary64, column: Column, order: u32 },
    Covariance {
        epsilon: Binary64,
        data_x: u32,
        data_y: u32,
        num_records: Binary64,
        minimum_x: Binary64,
        minimum_y: Binary64,
        maximum_x: Binary64,
        maximum_y: Binary64,
    },
    /// `stability` holds delta where the stability release is asked for.
    Histogram {
        epsilon: Binary64,
        data: u32,
        minimum: Binary64,
        maximum: Binary64,
        num_bins: u32,
        inclusive_left: bool,
        stability: Option<Binary64>,
    },
}

/// A count of records is in range: finite and above zero.
pub open spec fn records_in_range(num_records: Binary64) -> bool {
    num_records.finite() && num_records.place() > 0
}

impl Analysis {
    /// The node that argument `name` of the node at position `i` reads,
    /// where its value is at hand.
    pub open spec fn resolved(self, i: int, name: Seq<char>, evaluated: Release) -> Option<u32> {
        match self.graph[i].source_of(name) {
            Some(id) => if evaluated.has(id) {
                Some(id)
            } else {
                None
            },
            None => None,
        }
    }

    /// The number that argument `name` hands to the kernel: the first number
    /// of its value.
    pub open spec fn number(self, i: int, name: Seq<char>, evaluated: Release) -> Result<
        Binary64,
        Fault,
    > {
        match self.resolved(i, name, evaluated) {
            Some(id) => match evaluated.value_of(id)->0.leading_number() {
                Some(x) => Ok(x),
                None => Err(Fault::Type),
            },
            None => Err(Fault::MissingArgument),
        }
    }

    /// The array of numbers that argument `name` hands to the kernel, as the
    /// node that it is the value of.
    pub open spec fn numbers(self, i: int, name: Seq<char>, evaluated: Release) -> Result<u32, Fault> {
        match self.resolved(i, name, evaluated) {
            Some(id) => if evaluated.value_of(id)->0.data.kind() == ElementType::F64 {
                Ok(id)
            } else {
                Err(Fault::Type)
            },
            None => Err(Fault::MissingArgument),
        }
    }

    /// The arguments of a statistic over one column. The first argument
    /// that fails decides the fault, in the order `num_records`, `data`,
    /// `minimum`, `maximum`; bounds or a count out of range come after.
    pub open spec fn column(self, i: int, evaluated: Release) -> Result<Column, Fault> {
        let num_records = self.number(i, "num_records"@, evaluated);
        let data = self.numbers(i, "data"@, evaluated);
        let minimum = self.number(i, "minimum"@, evaluated);
        let maximum = self.number(i, "maximum"@, evaluated);
        if num_records is Err {
            Err(num_records->Err_0)
        } else if data is Err {
            Err(data->Err_0)
        } else if minimum is Err {
            Err(minimum->Err_0)
        } else if maximum is Err {
            Err(maximum->Err_0)
        } else if !records_in_range(num_records->Ok_0) || !bounds_in_range(
            minimum->Ok_0,
            maximum->Ok_0,
        ) {
            Err(Fault::Domain)
        } else {
            Ok(
                Column {
                    data: data->Ok_0,
                    num_records: num_records->Ok_0,
                    minimum: minimum->Ok_0,
                    maximum: maximum->Ok_0,
                },
            )
        }
    }

    /// The kernel of a covariance.
    pub open spec fn covariance(self, i: int, epsilon: Binary64, evaluated: Release) -> Result<
        Kernel,
        Fault,
    > {
        let num_records = self.number(i, "num_records"@, evaluated);
        let data_x = self.numbers(i, "data_x"@, evaluated);
        let data_y = self.numbers(i, "data_y"@, evaluated);
        let minimum_x = self.number(i, "minimum_x"@, evaluated);
        let minimum_y = self.number(i, "minimum_y"@, evaluated);
        let maximum_x = self.number(i, "maximum_x"@, evaluated);
        let maximum_y = self.number(i, "maximum_y"@, evaluated);
        if num_records is Err {
            Err(num_records->Err_0)
        } else if data_x is Err {
            Err(data_x->Err_0)
        } else if data_y is Err {
            Err(data_y->Err_0)
        } else if minimum_x is Err {
            Err(minimum_x->Err_0)
        } else if minimum_y is Err {
            Err(minimum_y->Err_0)
        } else if maximum_x is Err {
            Err(maximum_x->Err_0)
        } else if maximum_y is Err {
            Err(maximum_y->Err_0)
        } else if !paired_columns(
            evaluated.value_of(data_x->Ok_0)->0,
            evaluated.value_of(data_y->Ok_0)->0,
        ) {
            Err(Fault::Shape)
        } else if !records_in_range(num_records->Ok_0) || !bounds_in_range(
            minimum_x->Ok_0,
            maximum_x->Ok_0,
        ) || !bounds_in_range(minimum_y->Ok_0, maximum_y->Ok_0) {
            Err(Fault::Domain)
        } else {
            Ok(
                Kernel::Covariance {
                    epsilon,
                    data_x: data_x->Ok_0,
                    data_y: data_y->Ok_0,
                    num_records: num_records->Ok_0,
                    minimum_x: minimum_x->Ok_0,
                    minimum_y: minimum_y->Ok_0,
                    maximum_x: maximum_x->Ok_0,
                    maximum_y: maximum_y->Ok_0,
                },
            )
        }
    }

    /// The kernel of a histogram.
    pub open spec fn histogram(
        self,
        i: int,
        epsilon: Binary64,
        stability: Option<Binary64>,
        num_bins: u32,
        inclusive_left: bool,
        evaluated: Release,
    ) -> Result<Kernel, Fault> {
        let data = self.numbers(i, "data"@, evaluated);
        let minimum = self.number(i, "minimum"@, evaluated);
        let maximum = self.number(i, "maximum"@, evaluated);
        if data is Err {
            Err(data->Err_0)
        } else if minimum is Err {
            Err(minimum->Err_0)
        } else if maximum is Err {
            Err(maximum->Err_0)
        } else if !bounds_in_range(minimum->Ok_0, maximum->Ok_0) || (stability matches Some(delta)
            && !delta_in_range(delta)) {
            Err(Fault::Domain)
        } else {
            Ok(
                Kernel::Histogram {
                    epsilon,
                    data: data->Ok_0,
                    minimum: minimum->Ok_0,
                    maximum: maximum->Ok_0,
                    num_bins,
                    inclusive_left,
                    stability,
                },
            )
        }
    }

    /// The kernel of an arithmetic node with two operands.
    pub open spec fn arithmetic(self, i: int, evaluated: Release) -> Result<Kernel, Fault> {
        let kind = self.graph[i].operation.kind_of();
        match (self.resolved(i, "left"@, evaluated), self.resolved(i, "right"@, evaluated)) {
            (Some(left), Some(right)) => {
                let l = evaluated.value_of(left)->0;
                let r = evaluated.value_of(right)->0;
                if !operands_typed(
                    kind,
                    Sig { kind: l.data.kind(), shape: None },
                    Sig { kind: r.data.kind(), shape: None },
                ) {
                    Err(Fault::Type)
                } else if !conformable(l.shape@, r.shape@) {
                    Err(Fault::Shape)
                } else {
                    Ok(
                        Kernel::Arithmetic {
                            operation: kind,
                            element_type: l.data.kind(),
                            left,
                            right,
                        },
                    )
                }
            },
            _ => Err(Fault::MissingArgument),
        }
    }

    /// The kernel of a negation.
    pub open spec fn negation(self, i: int, evaluated: Release) -> Result<Kernel, Fault> {
        match self.resolved(i, "data"@, evaluated) {
            Some(data) => {
                let kind = evaluated.value_of(data)->0.data.kind();
                if kind.numeric() {
                    Ok(Kernel::Negate { element_type: kind, data })
                } else {
                    Err(Fault::Type)
                }
            },
            None => Err(Fault::MissingArgument),
        }
    }

    /// The kernel that the node at position `i` is dispatched to, given the
    /// values at hand. A private kernel is refused first for a mechanism
    /// other than Laplace, then for an epsilon out of range, then for its
    /// arguments.
    pub open spec fn planned(self, i: int, evaluated: Release) -> Result<Kernel, Fault> {
        match self.graph[i].operation {
            Operation::Literal { .. } => Ok(Kernel::Literal),
            Operation::DataSource { datatype, .. } => Ok(Kernel::Ingest { datatype }),
            Operation::Negate => self.negation(i, evaluated),
            Operation::DpMean { epsilon, mechanism } => if mechanism != Mechanism::Laplace {
                Err(Fault::UnsupportedMechanism)
            } else if !epsilon_in_range(epsilon) {
                Err(Fault::Domain)
            } else {
                match self.column(i, evaluated) {
                    Ok(column) => Ok(Kernel::Mean { epsilon, column }),
                    Err(fault) => Err(fault),
                }
            },
            Operation::DpVariance { epsilon, mechanism } => if mechanism != Mechanism::Laplace {
                Err(Fault::UnsupportedMechanism)
            } else if !epsilon_in_range(epsilon) {
                Err(Fault::Domain)
            } else {
                match self.column(i, evaluated) {
                    Ok(column) => Ok(Kernel::Variance { epsilon, column }),
                    Err(fault) => Err(fault),
                }
            },
            Operation::DpMomentRaw { epsilon, mechanism, order } => if mechanism
                != Mechanism::Laplace {
                Err(Fault::UnsupportedMechanism)
            } else if !epsilon_in_range(epsilon) {
                Err(Fault::Domain)
            } else {
                match self.column(i, evaluated) {
                    Ok(column) => Ok(Kernel::MomentRaw { epsilon, column, order }),
                    Err(fault) => Err(fault),
                }
            },
            Operation::DpCovariance { epsilon, mechanism } => if mechanism != Mechanism::Laplace {
                Err(Fault::UnsupportedMechanism)
            } else if !epsilon_in_range(epsilon) {
                Err(Fault::Domain)
            } else {
                self.covariance(i, epsilon, evaluated)
            },
            Operation::DpHistogram { epsilon, mechanism, stability, num_bins, inclusive_left } => if mechanism
                != Mechanism::Laplace {
                Err(Fault::UnsupportedMechanism)
            } else if !epsilon_in_range(epsilon) {
                Err(Fault::Domain)
            } else {
                self.histogram(i, epsilon, stability, num_bins, inclusive_left, evaluated)
            },
            _ => self.arithmetic(i, evaluated),
        }
    }
}

/// Two columns are lists of one length.
pub open spec fn paired_columns(x: Value, y: Value) -> bool {
    x.shape@.len() == 1 && y.shape@.len() == 1 && x.shape@[0] == y.shape@[0]
}

/// Whether a count of records is finite and above zero.
pub fn check_records(num_records: Binary64) -> (r: bool)
    ensures
        r == records_in_range(num_records),
{
    num_records.is_positive()
}

/// The value at hand for argument `name` of the node at position `i`, with
/// the node that it is the value of.
pub fn resolve<'a>(analysis: &Analysis, i: usize, name: &str, evaluated: &'a Release) -> (r: Option<
    (u32, &'a Value),
>)
    requires
        i < analysis.graph.len(),
    ensures
        match r {
            Some((id, value)) => analysis.resolved(i as int, name@, *evaluated) == Some(id)
                && evaluated.value_of(id) == Some(*value),
            None => analysis.resolved(i as int, name@, *evaluated) is None,
        },
{
    match analysis.graph[i].argument(name) {
        Some(field) => match evaluated.get(field.source_node_id) {
            Some(value) => Some((field.source_node_id, value)),
            None => None,
        },
        None => None,
    }
}

/// The number that argument `name` hands to the kernel.
pub fn number_argument(analysis: &Analysis, i: usize, name: &str, evaluated: &Release) -> (r: Result<
    Binary64,
    Fault,
>)
    requires
        i < analysis.graph.len(),
    ensures
        r == analysis.number(i as int, name@, *evaluated),
{
    match resolve(analysis, i, name, evaluated) {
        Some((_, value)) => match value.first_number() {
            Some(x) => Ok(x),
            None => Err(Fault::Type),
        },
        None => Err(Fault::MissingArgument),
    }
}

/// The array of numbers that argument `name` hands to the kernel.
pub fn numbers_argument(analysis: &Analysis, i: usize, name: &str, evaluated: &Release) -> (r: Result<
    u32,
    Fault,
>)
    requires
        i < analysis.graph.len(),
    ensures
        r == analysis.numbers(i as int, name@, *evaluated),
{
    match resolve(analysis, i, name, evaluated) {
        Some((id, value)) => if value.element_type() == ElementType::F64 {
            Ok(id)
        } else {
            Err(Fault::Type)
        },
        None => Err(Fault::MissingArgument),
    }
}

/// The arguments of a statistic over one column.
pub fn column_arguments(analysis: &Analysis, i: usize, evaluated: &Release) -> (r: Result<
    Column,
    Fault,
>)
    requires
        i < analysis.graph.len(),
    ensures
        r == analysis.column(i as int, *evaluated),
{
    let num_records: Binary64 = match number_argument(analysis, i, "num_records", evaluated) {
        Ok(x) => x,
        Err(fault) => {
            return Err(fault);
        },
    };
    let data: u32 = match numbers_argument(analysis, i, "data", evaluated) {
        Ok(x) => x,
        Err(fault) => {
            return Err(fault);
        },
    };
    let minimum: Binary64 = match number_argument(analysis, i, "minimum", evaluated) {
        Ok(x) => x,
        Err(fault) => {
            return Err(fault);
        },
    };
    let maximum: Binary64 = match number_argument(analysis, i, "maximum", evaluated) {
        Ok(x) => x,
        Err(fault) => {
            return Err(fault);
        },
    };
    if !check_records(num_records) || !check_bounds(minimum, maximum) {
        return Err(Fault::Domain);
    }
    Ok(Column { data, num_records, minimum, maximum })
}

/// The kernel of a covariance.
pub fn plan_covariance(analysis: &Analysis, i: usize, epsilon: Binary64, evaluated: &Release) -> (r:
    Result<Kernel, Fault>)
    requires
        i < analysis.graph.len(),
    ensures
        r == analysis.covariance(i as int, epsilon, *evaluated),
{
    let num_records: Binary64 = match number_argument(analysis, i, "num_records", evaluated) {
        Ok(x) => x,
        Err(fault) => {
            return Err(fault);
        },
    };
    let (data_x, x): (u32, &Value) = match resolve(analysis, i, "data_x", evaluated) {
        Some((id, value)) => if value.element_type() == ElementType::F64 {
            (id, value)
        } else {
            return Err(Fault::Type);
        },
        None => {
            return Err(Fault::MissingArgument);
        },
    };
    let (data_y, y): (u32, &Value) = match resolve(analysis, i, "data_y", evaluated) {
        Some((id, value)) => if value.element_type() == ElementType::F64 {
            (id, value)
        } else {
            return Err(Fault::Type);
        },
        None => {
            return Err(Fault::MissingArgument);
        },
    };
    let minimum_x: Binary64 = match number_argument(analysis, i, "minimum_x", evaluated) {
        Ok(v) => v,
        Err(fault) => {
            return Err(fault);
        },
    };
    let minimum_y: Binary64 = match number_argument(analysis, i, "minimum_y", evaluated) {
        Ok(v) => v,
        Err(fault) => {
            return Err(fault);
        },
    };
    let maximum_x: Binary64 = match number_argument(analysis, i, "maximum_x", evaluated) {
        Ok(v) => v,
        Err(fault) => {
            return Err(fault);
        },
    };
    let maximum_y: Binary64 = match number_argument(analysis, i, "maximum_y", evaluated) {
        Ok(v) => v,
        Err(fault) => {
            return Err(fault);
        },
    };
    if !(x.shape.len() == 1 && y.shape.len() == 1 && x.shape[0] == y.shape[0]) {
        return Err(Fault::Shape);
    }
    if !check_records(num_records) || !check_bounds(minimum_x, maximum_x) || !check_bounds(
        minimum_y,
        maximum_y,
    ) {
        return Err(Fault::Domain);
    }
    Ok(
        Kernel::Covariance {
            epsilon,
            data_x,
            data_y,
            num_records,
            minimum_x,
            minimum_y,
            maximum_x,
            maximum_y,
        },
    )
}

/// The kernel of a histogram.
pub fn plan_histogram(
    analysis: &Analysis,
    i: usize,
    epsilon: Binary64,
    stability: Option<Binary64>,
    num_bins: u32,
    inclusive_left: bool,
    evaluated: &Release,
) -> (r: Result<Kernel, Fault>)
    requires
        i < analysis.graph.len(),
    ensures
        r == analysis.histogram(
            i as int,
            epsilon,
            stability,
            num_bins,
            inclusive_left,
            *evaluated,
        ),
{
    let data: u32 = match numbers_argument(analysis, i, "data", evaluated) {
        Ok(x) => x,
        Err(fault) => {
            return Err(fault);
        },
    };
    let minimum: Binary64 = match number_argument(analysis, i, "minimum", evaluated) {
        Ok(x) => x,
        Err(fault) => {
            return Err(fault);
        },
    };
    let maximum: Binary64 = match number_argument(analysis, i, "maximum", evaluated) {
        Ok(x) => x,
        Err(fault) => {
            return Err(fault);
        },
    };
    if !check_bounds(minimum, maximum) {
        return Err(Fault::Domain);
    }
    match stability {
        Some(delta) => {
            if !check_delta(delta) {
                return Err(Fault::Domain);
            }
        },
        None => {},
    }
    Ok(Kernel::Histogram { epsilon, data, minimum, maximum, num_bins, inclusive_left, stability })
}

/// The kernel of an arithmetic node with two operands.
pub fn plan_arithmetic(analysis: &Analysis, i: usize, evaluated: &Release) -> (r: Result<
    Kernel,
    Fault,
>)
    requires
        i < analysis.graph.len(),
    ensures
        r == analysis.arithmetic(i as int, *evaluated),
{
    let kind: NodeKind = analysis.graph[i].operation.kind();
    match (resolve(analysis, i, "left", evaluated), resolve(analysis, i, "right", evaluated)) {
        (Some((left, l)), Some((right, r))) => {
            let lt: ElementType = l.element_type();
            let rt: ElementType = r.element_type();
            let typed: bool = if kind == NodeKind::Power {
                lt == ElementType::F64 && rt == ElementType::F64
            } else {
                lt == rt && lt.is_numeric()
            };
            if !typed {
                Err(Fault::Type)
            } else if broadcast_shape(&l.shape, &r.shape).is_none() {
                Err(Fault::Shape)
            } else {
                Ok(Kernel::Arithmetic { operation: kind, element_type: lt, left, right })
            }
        },
        _ => Err(Fault::MissingArgument),
    }
}

/// The kernel of a negation.
pub fn plan_negation(analysis: &Analysis, i: usize, evaluated: &Release) -> (r: Result<Kernel, Fault>)
    requires
        i < analysis.graph.len(),
    ensures
        r == analysis.negation(i as int, *evaluated),
{
    match resolve(analysis, i, "data", evaluated) {
        Some((data, value)) => {
            let kind: ElementType = value.element_type();
            if kind.is_numeric() {
                Ok(Kernel::Negate { element_type: kind, data })
            } else {
                Err(Fault::Type)
            }
        },
        None => Err(Fault::MissingArgument),
    }
}

/// Dispatches the node at position `i`: the kernel to run on the values at
/// hand, or the fault that stops the evaluation.
pub fn plan(analysis: &Analysis, i: usize, evaluated: &Release) -> (r: Result<Kernel, Fault>)
    requires
        i < analysis.graph.len(),
    ensures
        r == analysis.planned(i as int, *evaluated),
{
    let node: &Component = &analysis.graph[i];
    match &node.operation {
        Operation::Literal { .. } => Ok(Kernel::Literal),
        Operation::DataSource { datatype, .. } => Ok(Kernel::Ingest { datatype: *datatype }),
        Operation::Negate => plan_negation(analysis, i, evaluated),
        Operation::DpMean { epsilon, mechanism } => {
            if *mechanism != Mechanism::Laplace {
                Err(Fault::UnsupportedMechanism)
            } else if !check_epsilon(*epsilon) {
                Err(Fault::Domain)
            } else {
                match column_arguments(analysis, i, evaluated) {
                    Ok(column) => Ok(Kernel::Mean { epsilon: *epsilon, column }),
                    Err(fault) => Err(fault),
                }
            }
        },
        Operation::DpVariance { epsilon, mechanism } => {
            if *mechanism != Mechanism::Laplace {
                Err(Fault::UnsupportedMechanism)
            } else if !check_epsilon(*epsilon) {
                Err(Fault::Domain)
            } else {
                match column_arguments(analysis, i, evaluated) {
                    Ok(column) => Ok(Kernel::Variance { epsilon: *epsilon, column }),
                    Err(fault) => Err(fault),
                }
            }
        },
        Operation::DpMomentRaw { epsilon, mechanism, order } => {
            if *mechanism != Mechanism::Laplace {
                Err(Fault::UnsupportedMechanism)
            } else if !check_epsilon(*epsilon) {
                Err(Fault::Domain)
            } else {
                match column_arguments(analysis, i, evaluated) {
                    Ok(column) => Ok(Kernel::MomentRaw { epsilon: *epsilon, column, order: *order }),
                    Err(fault) => Err(fault),
                }
            }
        },
        Operation::DpCovariance { epsilon, mechanism } => {
            if *mechanism != Mechanism::Laplace {
                Err(Fault::UnsupportedMechanism)
            } else if !check_epsilon(*epsilon) {
                Err(Fault::Domain)
            } else {
                plan_covariance(analysis, i, *epsilon, evaluated)
            }
        },
        Operation::DpHistogram { epsilon, mechanism, stability, num_bins, inclusive_left } => {
            if *mechanism != Mechanism::Laplace {
                Err(Fault::UnsupportedMechanism)
            } else if !check_epsilon(*epsilon) {
                Err(Fault::Domain)
            } else {
                plan_histogram(
                    analysis,
                    i,
                    *epsilon,
                    *stability,
                    *num_bins,
                    *inclusive_left,
                    evaluated,
                )
            }
        },
        _ => plan_arithmetic(analysis, i, evaluated),
    }
}

} // verus!
