//! Binary64 numbers held by their bit patterns, with the IEEE 754 order.
//!
//! A [`Binary64`] is a double-precision number as sixty-four bits: one sign
//! bit, eleven exponent bits, fifty-two fraction bits. Comparing two numbers
//! never needs arithmetic on them: leaving NaN aside, the bits below the sign
//! grow with the magnitude, so the order is read off the pattern.

use vstd::prelude::*;

verus! {

/// The sign bit of a binary64 pattern.
pub const SIGN_BIT: u64 = 0x8000_0000_0000_0000;

/// The pattern of positive infinity: every exponent bit set, no fraction bit.
pub const INFINITY_BITS: u64 = 0x7ff0_0000_0000_0000;

/// A binary64 number, held as its bit pattern.
#[derive(Clone, Copy, Debug)]
pub struct Binary64 {
    pub bits: u64,
}

impl Binary64 {
    /// The pattern without its sign bit.
    pub open spec fn magnitude(self) -> int {
        if self.bits >= SIGN_BIT {
            self.bits - SIGN_BIT
        } else {
            self.bits as int
        }
    }

    /// Whether the sign bit is set.
    pub open spec fn sign_set(self) -> bool {
        self.bits >= SIGN_BIT
    }

    /// Not a number: the exponent is all ones and the fraction is not zero.
    pub open spec fn nan(self) -> bool {
        self.magnitude() > INFINITY_BITS
    }

    /// Neither NaN nor an infinity.
    pub open spec fn finite(self) -> bool {
        self.magnitude() < INFINITY_BITS
    }

    /// The place of a number on the line: it grows with the number's value,
    /// and both zeros have place 0.
    pub open spec fn place(self) -> int {
        if self.sign_set() {
            -self.magnitude()
        } else {
            self.magnitude()
        }
    }

    /// `self < other` as IEEE 754 has it: false as soon as one side is NaN.
    pub open spec fn below(self, other: Binary64) -> bool {
        !self.nan() && !other.nan() && self.place() < other.place()
    }

    /// `self <= other` as IEEE 754 has it.
    pub open spec fn at_most(self, other: Binary64) -> bool {
        !self.nan() && !other.nan() && self.place() <= other.place()
    }

    /// `self == other` as IEEE 754 has it: the two zeros are equal, and NaN
    /// equals nothing.
    pub open spec fn same(self, other: Binary64) -> bool {
        !self.nan() && !other.nan() && self.place() == other.place()
    }

    /// `self` brought into `[lo, hi]`: `lo` where it is below, `hi` where it
    /// is above, itself otherwise (so NaN stays NaN).
    pub open spec fn clamped(self, lo: Binary64, hi: Binary64) -> Binary64 {
        if self.below(lo) {
            lo
        } else if hi.below(self) {
            hi
        } else {
            self
        }
    }

    pub fn from_bits(bits: u64) -> (r: Binary64)
        ensures
            r.bits == bits,
    {
        Binary64 { bits }
    }

    pub fn to_bits(self) -> (r: u64)
        ensures
            r == self.bits,
    {
        self.bits
    }

    /// Positive zero.
    pub fn zero() -> (r: Binary64)
        ensures
            r.bits == 0,
            r.place() == 0,
            r.finite(),
    {
        Binary64 { bits: 0 }
    }

    fn magnitude_bits(self) -> (r: u64)
        ensures
            r == self.magnitude(),
            r < SIGN_BIT,
    {
        if self.bits >= SIGN_BIT {
            self.bits - SIGN_BIT
        } else {
            self.bits
        }
    }

    fn signed_place(self) -> (r: i64)
        ensures
            r == self.place(),
    {
        let m: u64 = self.magnitude_bits();
        if self.bits >= SIGN_BIT {
            -(m as i64)
        } else {
            m as i64
        }
    }

    pub fn is_nan(self) -> (r: bool)
        ensures
            r == self.nan(),
    {
        self.magnitude_bits() > INFINITY_BITS
    }

    pub fn is_finite(self) -> (r: bool)
        ensures
            r == self.finite(),
    {
        self.magnitude_bits() < INFINITY_BITS
    }

    pub fn is_below(self, other: Binary64) -> (r: bool)
        ensures
            r == self.below(other),
    {
        !self.is_nan() && !other.is_nan() && self.signed_place() < other.signed_place()
    }

    pub fn is_at_most(self, other: Binary64) -> (r: bool)
        ensures
            r == self.at_most(other),
    {
        !self.is_nan() && !other.is_nan() && self.signed_place() <= other.signed_place()
    }

    pub fn is_above(self, other: Binary64) -> (r: bool)
        ensures
            r == other.below(self),
    {
        other.is_below(self)
    }

    pub fn is_at_least(self, other: Binary64) -> (r: bool)
        ensures
            r == other.at_most(self),
    {
        other.is_at_most(self)
    }

    pub fn is_same(self, other: Binary64) -> (r: bool)
        ensures
            r == self.same(other),
    {
        !self.is_nan() && !other.is_nan() && self.signed_place() == other.signed_place()
    }

    /// Finite and greater than zero.
    pub fn is_positive(self) -> (r: bool)
        ensures
            r == (self.finite() && self.place() > 0),
    {
        self.is_finite() && self.signed_place() > 0
    }

    /// Clamps `self` to `[lo, hi]`. A number that is not NaN ends up inside
    /// the interval.
    pub fn clamp(self, lo: Binary64, hi: Binary64) -> (r: Binary64)
        requires
            lo.at_most(hi),
        ensures
            r == self.clamped(lo, hi),
            !self.nan() ==> lo.at_most(r) && r.at_most(hi),
    {
        clamp_between(self, lo, hi)
    }
}

/// A number that is not NaN, clamped to an interval that is not empty, lies
/// in the interval.
pub proof fn lemma_clamped_within(x: Binary64, lo: Binary64, hi: Binary64)
    requires
        !x.nan(),
        lo.at_most(hi),
    ensures
        lo.at_most(x.clamped(lo, hi)),
        x.clamped(lo, hi).at_most(hi),
{
}

/// Clamping a second time changes nothing.
pub proof fn lemma_clamped_twice(x: Binary64, lo: Binary64, hi: Binary64)
    requires
        lo.at_most(hi),
    ensures
        x.clamped(lo, hi).clamped(lo, hi) == x.clamped(lo, hi),
{
}

/// Among numbers that are not NaN the order is total: of two numbers one is
/// below the other or they are the same, and never two of the three.
pub proof fn lemma_order_total(a: Binary64, b: Binary64)
    requires
        !a.nan(),
        !b.nan(),
    ensures
        a.below(b) || b.below(a) || a.same(b),
        !(a.below(b) && b.below(a)),
        !(a.below(b) && a.same(b)),
        a.at_most(b) <==> a.below(b) || a.same(b),
{
}

/// The order is transitive.
pub proof fn lemma_order_transitive(a: Binary64, b: Binary64, c: Binary64)
    requires
        a.at_most(b),
        b.at_most(c),
    ensures
        a.at_most(c),
        a.below(b) || b.below(c) ==> a.below(c),
{
}

/// `num::clamp` on three numbers: `lo` where `input < lo`, else `hi` where
/// `input > hi`, else `input`, the comparisons being those of `Binary64`'s
/// `PartialOrd`. It asserts `lo <= hi` in debug builds, hence the `requires`.
#[verifier::external_body]
fn clamp_between(input: Binary64, lo: Binary64, hi: Binary64) -> (r: Binary64)
    requires
        lo.at_most(hi),
    ensures
        r == input.clamped(lo, hi),
{
    num::clamp(input, lo, hi)
}

/// Every element of `data` clamped to `[lo, hi]`, in the same order.
pub open spec fn clamped_all(data: Seq<Binary64>, lo: Binary64, hi: Binary64) -> Seq<Binary64> {
    Seq::new(data.len(), |i: int| data[i].clamped(lo, hi))
}

/// Clamps every element of `data` to `[lo, hi]`.
pub fn clamp_all(data: &Vec<Binary64>, lo: Binary64, hi: Binary64) -> (r: Vec<Binary64>)
    requires
        lo.at_most(hi),
    ensures
        r@ == clamped_all(data@, lo, hi),
        forall|i: int|
            0 <= i < data.len() && !data[i].nan() ==> lo.at_most(#[trigger] r[i]) && r[i].at_most(
                hi,
            ),
{
    let mut out: Vec<Binary64> = Vec::new();
    let mut i: usize = 0;
    while i < data.len()
        invariant
            i <= data.len(),
            out.len() == i,
            lo.at_most(hi),
            forall|k: int| 0 <= k < i ==> #[trigger] out[k] == data[k].clamped(lo, hi),
        decreases data.len() - i,
    {
        out.push(data[i].clamp(lo, hi));
        i += 1;
    }
    out
}

} // verus!
