//! The value envelope: an array of one element type with an explicit shape.

use vstd::prelude::*;
use crate::number::Binary64;

verus! {

/// The element type of an array.
#[derive(Clone, Copy, Debug, PartialEq, Eq, Structural)]
pub enum ElementType {
    F64,
    I64,
    Bool,
    Str,
    Bytes,
}

impl ElementType {
    /// Whether arithmetic is defined on the type.
    pub open spec fn numeric(self) -> bool {
        self == ElementType::F64 || self == ElementType::I64
    }

    pub fn is_numeric(self) -> (r: bool)
        ensures
            r == self.numeric(),
    {
        match self {
            ElementType::F64 => true,
            ElementType::I64 => true,
            _ => false,
        }
    }
}

/// The elements of an array, in row-major order.
#[derive(Debug)]
pub enum Payload {
    F64(Vec<Binary64>),
    I64(Vec<i64>),
    Bool(Vec<bool>),
    Str(Vec<String>),
    Bytes(Vec<u8>),
}

impl Payload {
    pub open spec fn kind(self) -> ElementType {
        match self {
            Payload::F64(_) => ElementType::F64,
            Payload::I64(_) => ElementType::I64,
            Payload::Bool(_) => ElementType::Bool,
            Payload::Str(_) => ElementType::Str,
            Payload::Bytes(_) => ElementType::Bytes,
        }
    }

    pub open spec fn count(self) -> nat {
        match self {
            Payload::F64(v) => v.len() as nat,
            Payload::I64(v) => v.len() as nat,
            Payload::Bool(v) => v.len() as nat,
            Payload::Str(v) => v.len() as nat,
            Payload::Bytes(v) => v.len() as nat,
        }
    }

    pub fn element_type(&self) -> (r: ElementType)
        ensures
            r == self.kind(),
    {
        match self {
            Payload::F64(_) => ElementType::F64,
            Payload::I64(_) => ElementType::I64,
            Payload::Bool(_) => ElementType::Bool,
            Payload::Str(_) => ElementType::Str,
            Payload::Bytes(_) => ElementType::Bytes,
        }
    }

    pub fn len(&self) -> (r: usize)
        ensures
            r == self.count(),
    {
        match self {
            Payload::F64(v) => v.len(),
            Payload::I64(v) => v.len(),
            Payload::Bool(v) => v.len(),
            Payload::Str(v) => v.len(),
            Payload::Bytes(v) => v.len(),
        }
    }
}

impl Payload {
    /// The two payloads hold the same elements in the same order.
    pub open spec fn alike(self, other: Payload) -> bool {
        match (self, other) {
            (Payload::F64(a), Payload::F64(b)) => a@ == b@,
            (Payload::I64(a), Payload::I64(b)) => a@ == b@,
            (Payload::Bool(a), Payload::Bool(b)) => a@ == b@,
            (Payload::Bytes(a), Payload::Bytes(b)) => a@ == b@,
            (Payload::Str(a), Payload::Str(b)) => a.len() == b.len() && forall|i: int|
                0 <= i < a.len() ==> (#[trigger] a[i])@ == b[i]@,
            _ => false,
        }
    }

    /// A copy of the payload.
    pub fn copy(&self) -> (r: Payload)
        ensures
            r.alike(*self),
            r.kind() == self.kind(),
            r.count() == self.count(),
    {
        match self {
            Payload::F64(v) => {
                let mut out: Vec<Binary64> = Vec::new();
                let mut i: usize = 0;
                while i < v.len()
                    invariant
                        i <= v.len(),
                        out.len() == i,
                        forall|k: int| 0 <= k < i ==> out[k] == v[k],
                    decreases v.len() - i,
                {
                    out.push(v[i]);
                    i += 1;
                }
                assert(out@ =~= v@);
                Payload::F64(out)
            },
            Payload::I64(v) => {
                let mut out: Vec<i64> = Vec::new();
                let mut i: usize = 0;
                while i < v.len()
                    invariant
                        i <= v.len(),
                        out.len() == i,
                        forall|k: int| 0 <= k < i ==> out[k] == v[k],
                    decreases v.len() - i,
                {
                    out.push(v[i]);
                    i += 1;
                }
                assert(out@ =~= v@);
                Payload::I64(out)
            },
            Payload::Bool(v) => {
                let mut out: Vec<bool> = Vec::new();
                let mut i: usize = 0;
                while i < v.len()
                    invariant
                        i <= v.len(),
                        out.len() == i,
                        forall|k: int| 0 <= k < i ==> out[k] == v[k],
                    decreases v.len() - i,
                {
                    out.push(v[i]);
                    i += 1;
                }
                assert(out@ =~= v@);
                Payload::Bool(out)
            },
            Payload::Bytes(v) => {
                let mut out: Vec<u8> = Vec::new();
                let mut i: usize = 0;
                while i < v.len()
                    invariant
                        i <= v.len(),
                        out.len() == i,
                        forall|k: int| 0 <= k < i ==> out[k] == v[k],
                    decreases v.len() - i,
                {
                    out.push(v[i]);
                    i += 1;
                }
                assert(out@ =~= v@);
                Payload::Bytes(out)
            },
            Payload::Str(v) => {
                let mut out: Vec<String> = Vec::new();
                let mut i: usize = 0;
                while i < v.len()
                    invariant
                        i <= v.len(),
                        out.len() == i,
                        forall|k: int| 0 <= k < i ==> (#[trigger] out[k])@ == v[k]@,
                    decreases v.len() - i,
                {
                    out.push(v[i].clone());
                    i += 1;
                }
                Payload::Str(out)
            },
        }
    }
}

/// How many elements an array of this shape holds: the product of its
/// dimensions, 1 for a scalar.
pub open spec fn volume(shape: Seq<usize>) -> nat
    decreases shape.len(),
{
    if shape.len() == 0 {
        1
    } else {
        volume(shape.drop_last()) * (shape.last() as nat)
    }
}

/// Dimension `i` of `shape` once it is padded on the left with ones to
/// `rank` dimensions.
pub open spec fn padded_dim(shape: Seq<usize>, rank: int, i: int) -> usize {
    if i < rank - shape.len() {
        1
    } else {
        shape[i - (rank - shape.len())]
    }
}

/// The larger of the two ranks.
pub open spec fn joint_rank(a: Seq<usize>, b: Seq<usize>) -> int {
    if a.len() >= b.len() {
        a.len() as int
    } else {
        b.len() as int
    }
}

/// Whether two shapes can be broadcast to one: aligned at the last
/// dimension, each pair of dimensions is equal or holds a 1.
pub open spec fn conformable(a: Seq<usize>, b: Seq<usize>) -> bool {
    forall|i: int|
        0 <= i < joint_rank(a, b) ==> {
            let x = #[trigger] padded_dim(a, joint_rank(a, b), i);
            let y = padded_dim(b, joint_rank(a, b), i);
            x == y || x == 1 || y == 1
        }
}

/// The shape that two conformable shapes are broadcast to.
pub open spec fn broadcast(a: Seq<usize>, b: Seq<usize>) -> Seq<usize> {
    Seq::new(
        joint_rank(a, b) as nat,
        |i: int|
            if padded_dim(a, joint_rank(a, b), i) == 1 {
                padded_dim(b, joint_rank(a, b), i)
            } else {
                padded_dim(a, joint_rank(a, b), i)
            },
    )
}

/// The shape that `a` and `b` are broadcast to, or `None` where they are not
/// conformable.
pub fn broadcast_shape(a: &Vec<usize>, b: &Vec<usize>) -> (r: Option<Vec<usize>>)
    ensures
        r is Some <==> conformable(a@, b@),
        r matches Some(s) ==> s@ == broadcast(a@, b@),
{
    let rank: usize = if a.len() >= b.len() {
        a.len()
    } else {
        b.len()
    };
    let pad_a: usize = rank - a.len();
    let pad_b: usize = rank - b.len();
    let mut out: Vec<usize> = Vec::new();
    let mut i: usize = 0;
    while i < rank
        invariant
            i <= rank,
            rank == joint_rank(a@, b@),
            pad_a == rank - a.len(),
            pad_b == rank - b.len(),
            out.len() == i,
            forall|k: int|
                0 <= k < i ==> {
                    let x = #[trigger] padded_dim(a@, rank as int, k);
                    let y = padded_dim(b@, rank as int, k);
                    x == y || x == 1 || y == 1
                },
            forall|k: int| 0 <= k < i ==> out[k] == broadcast(a@, b@)[k],
        decreases rank - i,
    {
        let x: usize = if i < pad_a {
            1
        } else {
            a[i - pad_a]
        };
        let y: usize = if i < pad_b {
            1
        } else {
            b[i - pad_b]
        };
        assert(x == padded_dim(a@, rank as int, i as int));
        assert(y == padded_dim(b@, rank as int, i as int));
        if !(x == y || x == 1 || y == 1) {
            return None;
        }
        out.push(if x == 1 {
            y
        } else {
            x
        });
        i += 1;
    }
    assert(out@ =~= broadcast(a@, b@));
    Some(out)
}

/// The volume of a shape, unless it does not fit.
pub fn volume_of(shape: &Vec<usize>) -> (r: Option<usize>)
    ensures
        match r {
            Some(v) => v == volume(shape@),
            None => volume(shape@) > usize::MAX,
        },
{
    let mut j: usize = 0;
    while j < shape.len()
        invariant
            j <= shape.len(),
            forall|k: int| 0 <= k < j ==> shape[k] != 0,
        decreases shape.len() - j,
    {
        if shape[j] == 0 {
            proof {
                lemma_volume_zero(shape@, j as int);
            }
            return Some(0);
        }
        j += 1;
    }
    let mut product: usize = 1;
    let mut i: usize = 0;
    while i < shape.len()
        invariant
            i <= shape.len(),
            product == volume(shape@.take(i as int)),
            forall|k: int| 0 <= k < shape.len() ==> shape[k] != 0,
        decreases shape.len() - i,
    {
        proof {
            assert(shape@.take(i + 1).drop_last() =~= shape@.take(i as int));
            assert(shape@.take(i + 1).last() == shape[i as int]);
        }
        match product.checked_mul(shape[i]) {
            Some(p) => {
                product = p;
            },
            None => {
                proof {
                    lemma_volume_grows(shape@, i + 1);
                }
                return None;
            },
        }
        i += 1;
    }
    assert(shape@.take(shape.len() as int) =~= shape@);
    Some(product)
}

/// Whether two shapes are the same.
pub fn same_shape(a: &Vec<usize>, b: &Vec<usize>) -> (r: bool)
    ensures
        r == (a@ == b@),
{
    if a.len() != b.len() {
        return false;
    }
    let mut k: usize = 0;
    while k < a.len()
        invariant
            k <= a.len(),
            a.len() == b.len(),
            forall|l: int| 0 <= l < k ==> a[l] == b[l],
        decreases a.len() - k,
    {
        if a[k] != b[k] {
            return false;
        }
        k += 1;
    }
    assert(a@ =~= b@);
    true
}

/// A copy of a shape.
pub fn copy_shape(shape: &Vec<usize>) -> (r: Vec<usize>)
    ensures
        r@ == shape@,
{
    let mut out: Vec<usize> = Vec::new();
    let mut i: usize = 0;
    while i < shape.len()
        invariant
            i <= shape.len(),
            out.len() == i,
            forall|k: int| 0 <= k < i ==> out[k] == shape[k],
        decreases shape.len() - i,
    {
        out.push(shape[i]);
        i += 1;
    }
    assert(out@ =~= shape@);
    out
}

/// An array: its shape and its elements. A scalar has the empty shape.
#[derive(Debug)]
pub struct Value {
    pub shape: Vec<usize>,
    pub data: Payload,
}

impl Value {
    /// The shape accounts for every element.
    pub open spec fn wf(self) -> bool {
        volume(self.shape@) == self.data.count()
    }

    /// The first number of an array of numbers.
    pub open spec fn leading_number(self) -> Option<Binary64> {
        match self.data {
            Payload::F64(v) => if v.len() > 0 {
                Some(v[0])
            } else {
                None
            },
            _ => None,
        }
    }

    pub fn element_type(&self) -> (r: ElementType)
        ensures
            r == self.data.kind(),
    {
        self.data.element_type()
    }

    /// The two values have the same shape and hold the same elements.
    pub open spec fn alike(self, other: Value) -> bool {
        self.shape@ == other.shape@ && self.data.alike(other.data)
    }

    /// A copy of the value.
    pub fn copy(&self) -> (r: Value)
        ensures
            r.alike(*self),
            r.wf() == self.wf(),
    {
        Value { shape: copy_shape(&self.shape), data: self.data.copy() }
    }

    /// The first number of an array of numbers; `None` for an empty array and
    /// for one of another element type.
    pub fn first_number(&self) -> (r: Option<Binary64>)
        ensures
            r == self.leading_number(),
    {
        match &self.data {
            Payload::F64(v) => if v.len() > 0 {
                Some(v[0])
            } else {
                None
            },
            _ => None,
        }
    }

    /// Whether the shape accounts for every element.
    pub fn is_well_formed(&self) -> (r: bool)
        ensures
            r == self.wf(),
    {
        match volume_of(&self.shape) {
            Some(v) => v == self.data.len(),
            None => false,
        }
    }
}

/// A shape with a zero dimension holds no element.
pub proof fn lemma_volume_zero(shape: Seq<usize>, j: int)
    requires
        0 <= j < shape.len(),
        shape[j] == 0,
    ensures
        volume(shape) == 0,
    decreases shape.len(),
{
    if j == shape.len() - 1 {
        assert(volume(shape.drop_last()) * 0 == 0) by (nonlinear_arith);
    } else {
        lemma_volume_zero(shape.drop_last(), j);
        assert(0 * (shape.last() as nat) == 0) by (nonlinear_arith);
    }
}

/// Without a zero dimension the volume of a shape is at least that of each
/// of its prefixes.
pub proof fn lemma_volume_grows(shape: Seq<usize>, n: int)
    requires
        0 <= n <= shape.len(),
        forall|k: int| 0 <= k < shape.len() ==> shape[k] != 0,
    ensures
        volume(shape.take(n)) <= volume(shape),
    decreases shape.len() - n,
{
    if n == shape.len() {
        assert(shape.take(n) =~= shape);
    } else {
        lemma_volume_grows(shape, n + 1);
        let longer = shape.take(n + 1);
        assert(longer.drop_last() =~= shape.take(n));
        let v = volume(shape.take(n));
        let d = longer.last() as nat;
        assert(d >= 1);
        assert(v <= v * d) by (nonlinear_arith)
            requires
                d >= 1,
        ;
    }
}

} // verus!
