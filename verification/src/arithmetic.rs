//! Element-wise arithmetic on arrays of integers.
//!
//! The arrays are combined by `ndarray`, which broadcasts two shapes to one
//! where they differ. Before it is called, everything that would make it
//! fail is ruled out here: shapes that do not conform, a result too large to
//! allocate, a sum, difference or product that does not fit in sixty-four
//! bits, a division by zero.

use vstd::prelude::*;
use crate::dispatch::Fault;
use crate::graph::NodeKind;
use crate::value::{
    broadcast, broadcast_shape, conformable, copy_shape, joint_rank, lemma_volume_grows,
    lemma_volume_zero, padded_dim, same_shape, volume, volume_of, Payload, Value,
};

verus! {

/// Whether the operation is one of the four that are defined on integers.
pub open spec fn on_integers(op: NodeKind) -> bool {
    op == NodeKind::Add || op == NodeKind::Subtract || op == NodeKind::Multiply || op
        == NodeKind::Divide
}

/// The quotient of two integers, rounded towards zero.
pub open spec fn truncated(a: int, b: int) -> int {
    if a >= 0 && b > 0 {
        a / b
    } else if a >= 0 && b < 0 {
        -(a / (-b))
    } else if a < 0 && b > 0 {
        -((-a) / b)
    } else {
        (-a) / (-b)
    }
}

/// What the operation makes of two elements.
pub open spec fn combined(op: NodeKind, a: i64, b: i64) -> int {
    match op {
        NodeKind::Add => a + b,
        NodeKind::Subtract => a - b,
        NodeKind::Multiply => a * b,
        _ => truncated(a as int, b as int),
    }
}

/// Whether the operation on two elements has a result in sixty-four bits:
/// no overflow, and no division by zero.
pub open spec fn fits(op: NodeKind, a: i64, b: i64) -> bool {
    match op {
        NodeKind::Divide => b != 0 && !(a == i64::MIN && b == -1),
        _ => i64::MIN <= combined(op, a, b) <= i64::MAX,
    }
}

/// Whether every pair of elements that may meet has a result: the elements
/// at the same place where the shapes are the same, and else every element
/// of one array with every element of the other.
pub open spec fn pairs_fit(
    op: NodeKind,
    ls: Seq<usize>,
    ld: Seq<i64>,
    rs: Seq<usize>,
    rd: Seq<i64>,
) -> bool {
    if ls == rs {
        forall|i: int| 0 <= i < ld.len() && i < rd.len() ==> fits(op, #[trigger] ld[i], rd[i])
    } else {
        forall|i: int, j: int|
            0 <= i < ld.len() && 0 <= j < rd.len() ==> fits(op, #[trigger] ld[i], #[trigger] rd[j])
    }
}

/// No dimension is zero.
pub open spec fn no_zero(shape: Seq<usize>) -> bool {
    forall|k: int| 0 <= k < shape.len() ==> #[trigger] shape[k] != 0
}

/// What has to hold for two arrays to be combined: each shape accounts for
/// its elements and has no zero dimension, the shapes conform, the result
/// can be allocated, and every pair of elements that may meet has a result.
pub open spec fn runs(op: NodeKind, ls: Seq<usize>, ld: Seq<i64>, rs: Seq<usize>, rd: Seq<i64>) -> bool {
    &&& on_integers(op)
    &&& volume(ls) == ld.len()
    &&& volume(rs) == rd.len()
    &&& no_zero(ls)
    &&& no_zero(rs)
    &&& conformable(ls, rs)
    &&& volume(broadcast(ls, rs)) * 8 <= isize::MAX
    &&& pairs_fit(op, ls, ld, rs, rd)
}

/// What is known of the combined array whatever the shapes: it fills the
/// shape that the two are broadcast to; with the same shape on both sides
/// the elements meet place by place; and a single element meets every
/// element of the other side, in order.
pub open spec fn agrees(
    op: NodeKind,
    ls: Seq<usize>,
    ld: Seq<i64>,
    rs: Seq<usize>,
    rd: Seq<i64>,
    out: Seq<i64>,
) -> bool {
    &&& out.len() == volume(broadcast(ls, rs))
    &&& ls == rs ==> forall|i: int|
        0 <= i < out.len() ==> #[trigger] out[i] == combined(op, ld[i], rd[i])
    &&& rd.len() == 1 ==> out.len() == ld.len() && forall|i: int|
        0 <= i < out.len() ==> #[trigger] out[i] == combined(op, ld[i], rd[0])
    &&& ld.len() == 1 ==> out.len() == rd.len() && forall|i: int|
        0 <= i < out.len() ==> #[trigger] out[i] == combined(op, ld[0], rd[i])
}

/// The elements of the sum of two arrays, in row-major order.
pub uninterp spec fn sum_of(ls: Seq<usize>, ld: Seq<i64>, rs: Seq<usize>, rd: Seq<i64>) -> Seq<i64>;

/// The elements of the difference of two arrays, in row-major order.
pub uninterp spec fn difference_of(ls: Seq<usize>, ld: Seq<i64>, rs: Seq<usize>, rd: Seq<i64>) -> Seq<
    i64,
>;

/// The elements of the product of two arrays, in row-major order.
pub uninterp spec fn product_of(ls: Seq<usize>, ld: Seq<i64>, rs: Seq<usize>, rd: Seq<i64>) -> Seq<
    i64,
>;

/// The elements of the quotient of two arrays, in row-major order.
pub uninterp spec fn quotient_of(ls: Seq<usize>, ld: Seq<i64>, rs: Seq<usize>, rd: Seq<i64>) -> Seq<
    i64,
>;

/// The elements of two arrays combined, in row-major order.
pub open spec fn result_of(
    op: NodeKind,
    ls: Seq<usize>,
    ld: Seq<i64>,
    rs: Seq<usize>,
    rd: Seq<i64>,
) -> Seq<i64> {
    match op {
        NodeKind::Add => sum_of(ls, ld, rs, rd),
        NodeKind::Subtract => difference_of(ls, ld, rs, rd),
        NodeKind::Multiply => product_of(ls, ld, rs, rd),
        _ => quotient_of(ls, ld, rs, rd),
    }
}

/// `+` on two `ndarray` arrays of dynamic dimension: the arrays are
/// broadcast to one shape by the NumPy rules and added element by element.
/// It panics where the shapes do not conform, and the addition of two
/// elements may panic on overflow; the `requires` leaves both out.
#[verifier::external_body]
fn array_sum(ls: &Vec<usize>, ld: &Vec<i64>, rs: &Vec<usize>, rd: &Vec<i64>) -> (out: Vec<i64>)
    requires
        runs(NodeKind::Add, ls@, ld@, rs@, rd@),
    ensures
        out@ == sum_of(ls@, ld@, rs@, rd@),
        agrees(NodeKind::Add, ls@, ld@, rs@, rd@, out@),
{
    let l = ndarray::ArrayD::from_shape_vec(ndarray::IxDyn(ls), ld.clone()).unwrap();
    let r = ndarray::ArrayD::from_shape_vec(ndarray::IxDyn(rs), rd.clone()).unwrap();
    (&l + &r).iter().cloned().collect()
}

/// `-` on two `ndarray` arrays of dynamic dimension: broadcast, then
/// subtracted element by element. Panics as `+` does.
#[verifier::external_body]
fn array_difference(ls: &Vec<usize>, ld: &Vec<i64>, rs: &Vec<usize>, rd: &Vec<i64>) -> (out: Vec<i64>)
    requires
        runs(NodeKind::Subtract, ls@, ld@, rs@, rd@),
    ensures
        out@ == difference_of(ls@, ld@, rs@, rd@),
        agrees(NodeKind::Subtract, ls@, ld@, rs@, rd@, out@),
{
    let l = ndarray::ArrayD::from_shape_vec(ndarray::IxDyn(ls), ld.clone()).unwrap();
    let r = ndarray::ArrayD::from_shape_vec(ndarray::IxDyn(rs), rd.clone()).unwrap();
    (&l - &r).iter().cloned().collect()
}

/// `*` on two `ndarray` arrays of dynamic dimension: broadcast, then
/// multiplied element by element. Panics as `+` does.
#[verifier::external_body]
fn array_product(ls: &Vec<usize>, ld: &Vec<i64>, rs: &Vec<usize>, rd: &Vec<i64>) -> (out: Vec<i64>)
    requires
        runs(NodeKind::Multiply, ls@, ld@, rs@, rd@),
    ensures
        out@ == product_of(ls@, ld@, rs@, rd@),
        agrees(NodeKind::Multiply, ls@, ld@, rs@, rd@, out@),
{
    let l = ndarray::ArrayD::from_shape_vec(ndarray::IxDyn(ls), ld.clone()).unwrap();
    let r = ndarray::ArrayD::from_shape_vec(ndarray::IxDyn(rs), rd.clone()).unwrap();
    (&l * &r).iter().cloned().collect()
}

/// `/` on two `ndarray` arrays of dynamic dimension: broadcast, then
/// divided element by element, each quotient rounded towards zero. It
/// panics where the shapes do not conform, on a division by zero and on the
/// one quotient that overflows; the `requires` leaves them out.
#[verifier::external_body]
fn array_quotient(ls: &Vec<usize>, ld: &Vec<i64>, rs: &Vec<usize>, rd: &Vec<i64>) -> (out: Vec<i64>)
    requires
        runs(NodeKind::Divide, ls@, ld@, rs@, rd@),
    ensures
        out@ == quotient_of(ls@, ld@, rs@, rd@),
        agrees(NodeKind::Divide, ls@, ld@, rs@, rd@, out@),
{
    let l = ndarray::ArrayD::from_shape_vec(ndarray::IxDyn(ls), ld.clone()).unwrap();
    let r = ndarray::ArrayD::from_shape_vec(ndarray::IxDyn(rs), rd.clone()).unwrap();
    (&l / &r).iter().cloned().collect()
}

/// Whether the operation on two elements has a result.
pub fn pair_fits(op: NodeKind, a: i64, b: i64) -> (r: bool)
    requires
        on_integers(op),
    ensures
        r == fits(op, a, b),
{
    match op {
        NodeKind::Add => a.checked_add(b).is_some(),
        NodeKind::Subtract => a.checked_sub(b).is_some(),
        NodeKind::Multiply => a.checked_mul(b).is_some(),
        _ => b != 0 && !(a == i64::MIN && b == -1),
    }
}

/// The least and the greatest element.
fn extremes(data: &Vec<i64>) -> (r: (i64, i64))
    requires
        data.len() > 0,
    ensures
        forall|i: int| 0 <= i < data.len() ==> r.0 <= #[trigger] data[i] <= r.1,
        exists|i: int| 0 <= i < data.len() && #[trigger] data[i] == r.0,
        exists|i: int| 0 <= i < data.len() && #[trigger] data[i] == r.1,
{
    let mut lo: i64 = data[0];
    let mut hi: i64 = data[0];
    let mut k: usize = 1;
    while k < data.len()
        invariant
            1 <= k <= data.len(),
            forall|i: int| 0 <= i < k ==> lo <= #[trigger] data[i] <= hi,
            exists|i: int| 0 <= i < k && #[trigger] data[i] == lo,
            exists|i: int| 0 <= i < k && #[trigger] data[i] == hi,
        decreases data.len() - k,
    {
        if data[k] < lo {
            lo = data[k];
        }
        if data[k] > hi {
            hi = data[k];
        }
        k += 1;
    }
    (lo, hi)
}

/// Whether the array holds the element.
fn holds(data: &Vec<i64>, x: i64) -> (r: bool)
    ensures
        r == exists|i: int| 0 <= i < data.len() && #[trigger] data[i] == x,
{
    let mut k: usize = 0;
    while k < data.len()
        invariant
            k <= data.len(),
            forall|i: int| 0 <= i < k ==> #[trigger] data[i] != x,
        decreases data.len() - k,
    {
        if data[k] == x {
            return true;
        }
        k += 1;
    }
    false
}

/// A product lies between the products with the two ends of a range.
proof fn lemma_product_between(x: int, lo: int, hi: int, y: int)
    requires
        lo <= x <= hi,
    ensures
        (lo * y <= x * y <= hi * y) || (hi * y <= x * y <= lo * y),
{
    assert((lo * y <= x * y <= hi * y) || (hi * y <= x * y <= lo * y)) by (nonlinear_arith)
        requires
            lo <= x <= hi,
    ;
}

/// Whether every element of one array with every element of the other has
/// a result.
fn all_pairs_fit(op: NodeKind, ld: &Vec<i64>, rd: &Vec<i64>) -> (r: bool)
    requires
        on_integers(op),
        ld.len() > 0,
        rd.len() > 0,
    ensures
        r == forall|i: int, j: int|
            0 <= i < ld.len() && 0 <= j < rd.len() ==> fits(op, #[trigger] ld[i], #[trigger] rd[j]),
{
    let (a, b) = extremes(ld);
    let (c, d) = extremes(rd);
    let ghost ia = choose|i: int| 0 <= i < ld.len() && #[trigger] ld[i] == a;
    let ghost ib = choose|i: int| 0 <= i < ld.len() && #[trigger] ld[i] == b;
    let ghost jc = choose|j: int| 0 <= j < rd.len() && #[trigger] rd[j] == c;
    let ghost jd = choose|j: int| 0 <= j < rd.len() && #[trigger] rd[j] == d;
    match op {
        NodeKind::Add => {
            let ok: bool = pair_fits(op, a, c) && pair_fits(op, b, d);
            proof {
                if !ok {
                    assert(!fits(op, ld[ia], rd[jc]) || !fits(op, ld[ib], rd[jd]));
                }
            }
            ok
        },
        NodeKind::Subtract => {
            let ok: bool = pair_fits(op, a, d) && pair_fits(op, b, c);
            proof {
                if !ok {
                    assert(!fits(op, ld[ia], rd[jd]) || !fits(op, ld[ib], rd[jc]));
                }
            }
            ok
        },
        NodeKind::Multiply => {
            let ok: bool = pair_fits(op, a, c) && pair_fits(op, a, d) && pair_fits(op, b, c)
                && pair_fits(op, b, d);
            proof {
                if ok {
                    assert forall|i: int, j: int|
                        0 <= i < ld.len() && 0 <= j < rd.len() implies fits(
                        op,
                        #[trigger] ld[i],
                        #[trigger] rd[j],
                    ) by {
                        let x = ld[i] as int;
                        let y = rd[j] as int;
                        lemma_product_between(x, a as int, b as int, y);
                        lemma_product_between(y, c as int, d as int, a as int);
                        lemma_product_between(y, c as int, d as int, b as int);
                        assert(a * y == y * a && b * y == y * b) by (nonlinear_arith);
                        assert(c * a == a * c && d * a == a * d && c * b == b * c && d * b == b * d)
                            by (nonlinear_arith);
                    }
                } else {
                    assert(!fits(op, ld[ia], rd[jc]) || !fits(op, ld[ia], rd[jd]) || !fits(
                        op,
                        ld[ib],
                        rd[jc],
                    ) || !fits(op, ld[ib], rd[jd]));
                }
            }
            ok
        },
        _ => {
            let zero: bool = holds(rd, 0);
            let minus_one: bool = holds(rd, -1);
            let ok: bool = !zero && !(a == i64::MIN && minus_one);
            proof {
                if zero {
                    let j = choose|j: int| 0 <= j < rd.len() && #[trigger] rd[j] == 0;
                    assert(!fits(op, ld[0], rd[j]));
                } else if a == i64::MIN && minus_one {
                    let j = choose|j: int| 0 <= j < rd.len() && #[trigger] rd[j] == -1;
                    assert(!fits(op, ld[ia], rd[j]));
                }
            }
            ok
        },
    }
}

/// Whether the elements at the same places have results.
fn places_fit(op: NodeKind, ld: &Vec<i64>, rd: &Vec<i64>) -> (r: bool)
    requires
        on_integers(op),
        ld.len() == rd.len(),
    ensures
        r == forall|i: int| 0 <= i < ld.len() ==> fits(op, #[trigger] ld[i], rd[i]),
{
    let mut k: usize = 0;
    while k < ld.len()
        invariant
            k <= ld.len(),
            ld.len() == rd.len(),
            on_integers(op),
            forall|i: int| 0 <= i < k ==> fits(op, #[trigger] ld[i], rd[i]),
        decreases ld.len() - k,
    {
        if !pair_fits(op, ld[k], rd[k]) {
            return false;
        }
        k += 1;
    }
    true
}

/// The two values are arrays of integers, and the operation is defined on
/// them.
pub open spec fn typed(op: NodeKind, left: Value, right: Value) -> bool {
    on_integers(op) && left.data is I64 && right.data is I64
}

/// The shapes account for the elements and conform, and the result can be
/// allocated.
pub open spec fn shaped(left: Value, right: Value) -> bool {
    &&& left.wf()
    &&& right.wf()
    &&& conformable(left.shape@, right.shape@)
    &&& volume(broadcast(left.shape@, right.shape@)) * 8 <= isize::MAX
}

/// The result is empty, or every pair of elements that may meet has a
/// result.
pub open spec fn safe(op: NodeKind, left: Value, right: Value) -> bool {
    volume(broadcast(left.shape@, right.shape@)) == 0 || pairs_fit(
        op,
        left.shape@,
        left.data->I64_0@,
        right.shape@,
        right.data->I64_0@,
    )
}

/// Whether `r` is what the operation makes of two values: the fault as the
/// first of type, shape and domain that is not in order, or the combined
/// array, of the shape that the two are broadcast to.
pub open spec fn combines(op: NodeKind, left: Value, right: Value, r: Result<Value, Fault>) -> bool {
    match r {
        Ok(v) => {
            &&& typed(op, left, right)
            &&& shaped(left, right)
            &&& safe(op, left, right)
            &&& v.shape@ == broadcast(left.shape@, right.shape@)
            &&& v.wf()
            &&& v.data is I64
            &&& v.data->I64_0@.len() > 0 ==> {
                &&& v.data->I64_0@ == result_of(
                    op,
                    left.shape@,
                    left.data->I64_0@,
                    right.shape@,
                    right.data->I64_0@,
                )
                &&& agrees(
                    op,
                    left.shape@,
                    left.data->I64_0@,
                    right.shape@,
                    right.data->I64_0@,
                    v.data->I64_0@,
                )
            }
        },
        Err(fault) => if !typed(op, left, right) {
            fault == Fault::Type
        } else if !shaped(left, right) {
            fault == Fault::Shape
        } else {
            fault == Fault::Domain && !safe(op, left, right)
        },
    }
}

/// Whether `r` is the negation of a value: the fault where it is no array
/// of integers or holds the one integer without a negation, or the array
/// of the negated elements, of the same shape.
pub open spec fn negates(data: Value, r: Result<Value, Fault>) -> bool {
    match r {
        Ok(v) => {
            &&& data.data is I64
            &&& forall|i: int|
                0 <= i < data.data->I64_0@.len() ==> (#[trigger] data.data->I64_0@[i]) != i64::MIN
            &&& v.shape@ == data.shape@
            &&& v.data is I64
            &&& v.data->I64_0@ == negated(data.data->I64_0@)
        },
        Err(fault) => if !(data.data is I64) {
            fault == Fault::Type
        } else {
            fault == Fault::Domain && exists|i: int|
                0 <= i < data.data->I64_0@.len() && (#[trigger] data.data->I64_0@[i]) == i64::MIN
        },
    }
}

/// A shape that two shapes without a zero dimension are broadcast to has
/// none either, and the other way round.
proof fn lemma_broadcast_zero(a: Seq<usize>, b: Seq<usize>)
    requires
        conformable(a, b),
        volume(broadcast(a, b)) > 0,
    ensures
        no_zero(a),
        no_zero(b),
{
    let rank = joint_rank(a, b);
    let out = broadcast(a, b);
    assert forall|k: int| 0 <= k < a.len() implies #[trigger] a[k] != 0 by {
        let at = k + (rank - a.len());
        assert(padded_dim(a, rank, at) == a[k]);
        if a[k] == 0 {
            assert(out[at] == 0);
            lemma_volume_zero(out, at);
        }
    }
    assert forall|k: int| 0 <= k < b.len() implies #[trigger] b[k] != 0 by {
        let at = k + (rank - b.len());
        assert(padded_dim(b, rank, at) == b[k]);
        if b[k] == 0 {
            let x = padded_dim(a, rank, at);
            assert(x == 0 || x == 1);
            assert(out[at] == 0);
            lemma_volume_zero(out, at);
        }
    }
}

/// Combines two arrays of integers element by element.
///
/// The fault is `Type` unless both are arrays of integers and the operation
/// is a sum, a difference, a product or a quotient; else `Shape` unless the
/// shapes account for the elements, conform, and give a result that can be
/// allocated; else `Domain` where two elements that may meet have no
/// result. Otherwise the result has the shape that the two are broadcast
/// to.
pub fn integer_arithmetic(op: NodeKind, left: &Value, right: &Value) -> (r: Result<Value, Fault>)
    ensures
        combines(op, *left, *right, r),
{
    let known: bool = match op {
        NodeKind::Add => true,
        NodeKind::Subtract => true,
        NodeKind::Multiply => true,
        NodeKind::Divide => true,
        _ => false,
    };
    if !known {
        return Err(Fault::Type);
    }
    let (ld, rd): (&Vec<i64>, &Vec<i64>) = match (&left.data, &right.data) {
        (Payload::I64(l), Payload::I64(r)) => (l, r),
        _ => {
            return Err(Fault::Type);
        },
    };
    if !left.is_well_formed() || !right.is_well_formed() {
        return Err(Fault::Shape);
    }
    let shape: Vec<usize> = match broadcast_shape(&left.shape, &right.shape) {
        Some(s) => s,
        None => {
            return Err(Fault::Shape);
        },
    };
    let size: usize = match volume_of(&shape) {
        Some(v) => v,
        None => {
            return Err(Fault::Shape);
        },
    };
    if size > (isize::MAX as usize) / 8 {
        return Err(Fault::Shape);
    }
    if size == 0 {
        return Ok(Value { shape, data: Payload::I64(Vec::new()) });
    }
    proof {
        lemma_broadcast_zero(left.shape@, right.shape@);
        lemma_volume_grows(left.shape@, 0);
        lemma_volume_grows(right.shape@, 0);
    }
    let fit: bool = if same_shape(&left.shape, &right.shape) {
        places_fit(op, ld, rd)
    } else {
        all_pairs_fit(op, ld, rd)
    };
    if !fit {
        return Err(Fault::Domain);
    }
    let out: Vec<i64> = match op {
        NodeKind::Add => array_sum(&left.shape, ld, &right.shape, rd),
        NodeKind::Subtract => array_difference(&left.shape, ld, &right.shape, rd),
        NodeKind::Multiply => array_product(&left.shape, ld, &right.shape, rd),
        _ => array_quotient(&left.shape, ld, &right.shape, rd),
    };
    Ok(Value { shape, data: Payload::I64(out) })
}

/// The negation of each element.
pub open spec fn negated(data: Seq<i64>) -> Seq<i64> {
    Seq::new(data.len(), |i: int| (-data[i]) as i64)
}

/// Negates an array of integers element by element. The fault is `Type`
/// unless the value is an array of integers, and else `Domain` where an
/// element is the one integer that has no negation in sixty-four bits.
pub fn integer_negation(data: &Value) -> (r: Result<Value, Fault>)
    ensures
        negates(*data, r),
{
    let d: &Vec<i64> = match &data.data {
        Payload::I64(d) => d,
        _ => {
            return Err(Fault::Type);
        },
    };
    let mut out: Vec<i64> = Vec::new();
    let mut k: usize = 0;
    while k < d.len()
        invariant
            k <= d.len(),
            out.len() == k,
            data.data is I64,
            *d == data.data->I64_0,
            forall|i: int| 0 <= i < k ==> (#[trigger] d[i]) != i64::MIN,
            forall|i: int| 0 <= i < k ==> #[trigger] out[i] == -d[i],
        decreases d.len() - k,
    {
        if d[k] == i64::MIN {
            assert(data.data->I64_0@[k as int] == i64::MIN);
            return Err(Fault::Domain);
        }
        out.push(-d[k]);
        k += 1;
    }
    assert(out@ =~= negated(d@));
    Ok(Value { shape: copy_shape(&data.shape), data: Payload::I64(out) })
}

} // verus!
