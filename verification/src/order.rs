//! The order of single-precision numbers, read off their bit patterns.
//!
//! Comparison follows IEEE 754: a NaN compares with nothing, not even with itself,
//! and the two zeros are equal. For numbers that are not NaN the order is that of
//! sign and magnitude, so it can be had from the patterns without any arithmetic on
//! the numbers themselves.
//!
//! The greater and the lesser of two numbers are taken as the standard library takes
//! them: a NaN gives way to a number. Of two equal numbers, which can only be the two
//! zeros, the standard library may return either; here it is always the first.

use crate::particle::Scalar;
use vstd::prelude::*;

verus! {

/// The sign bit.
pub const SIGN: u32 = 0x8000_0000;

/// The bits of exponent and fraction.
pub const MAGNITUDE: u32 = 0x7FFF_FFFF;

/// The pattern of positive infinity: the largest magnitude that is a number.
pub const INFINITY: u32 = 0x7F80_0000;

impl Scalar {
    /// Whether this is not a number.
    pub open spec fn spec_is_nan(self) -> bool {
        (self.bits & MAGNITUDE) > INFINITY
    }

    /// Whether this is not a number.
    #[verifier::when_used_as_spec(spec_is_nan)]
    pub fn is_nan(self) -> (b: bool)
        ensures
            b == self.is_nan(),
    {
        (self.bits & MAGNITUDE) > INFINITY
    }

    /// The place of a number in the order: its magnitude bits, counted downwards
    /// where the sign is set. Both zeros have rank 0.
    pub open spec fn rank(self) -> int {
        if (self.bits & SIGN) == 0 {
            (self.bits & MAGNITUDE) as int
        } else {
            -((self.bits & MAGNITUDE) as int)
        }
    }

    /// The rank, computed.
    fn place(self) -> (r: i64)
        ensures
            r == self.rank(),
    {
        let magnitude: u32 = self.bits & MAGNITUDE;
        if (self.bits & SIGN) == 0 {
            magnitude as i64
        } else {
            -(magnitude as i64)
        }
    }

    /// Whether this is a number below `other`, a number too.
    pub open spec fn spec_lt(self, other: Scalar) -> bool {
        !self.is_nan() && !other.is_nan() && self.rank() < other.rank()
    }

    /// Whether this is a number below `other`, a number too.
    #[verifier::when_used_as_spec(spec_lt)]
    pub fn lt(self, other: Scalar) -> (b: bool)
        ensures
            b == self.lt(other),
    {
        !self.is_nan() && !other.is_nan() && self.place() < other.place()
    }

    /// Whether this is a number no greater than `other`, a number too.
    pub open spec fn spec_le(self, other: Scalar) -> bool {
        !self.is_nan() && !other.is_nan() && self.rank() <= other.rank()
    }

    /// Whether this is a number no greater than `other`, a number too.
    #[verifier::when_used_as_spec(spec_le)]
    pub fn le(self, other: Scalar) -> (b: bool)
        ensures
            b == self.le(other),
    {
        !self.is_nan() && !other.is_nan() && self.place() <= other.place()
    }

    /// Whether both are numbers, and the same number. The two zeros are the same.
    pub open spec fn spec_same(self, other: Scalar) -> bool {
        !self.is_nan() && !other.is_nan() && self.rank() == other.rank()
    }

    /// Whether both are numbers, and the same number.
    #[verifier::when_used_as_spec(spec_same)]
    pub fn same(self, other: Scalar) -> (b: bool)
        ensures
            b == self.same(other),
    {
        !self.is_nan() && !other.is_nan() && self.place() == other.place()
    }

    /// The greater of two numbers. Where one is not a number, the other; where they
    /// are the same number, this one.
    pub open spec fn spec_max(self, other: Scalar) -> Scalar {
        if self.is_nan() {
            other
        } else if other.is_nan() {
            self
        } else if self.rank() < other.rank() {
            other
        } else {
            self
        }
    }

    /// The greater of two numbers.
    #[verifier::when_used_as_spec(spec_max)]
    pub fn max(self, other: Scalar) -> (m: Scalar)
        ensures
            m == self.max(other),
    {
        if self.is_nan() {
            other
        } else if other.is_nan() {
            self
        } else if self.place() < other.place() {
            other
        } else {
            self
        }
    }

    /// The lesser of two numbers. Where one is not a number, the other; where they
    /// are the same number, this one.
    pub open spec fn spec_min(self, other: Scalar) -> Scalar {
        if self.is_nan() {
            other
        } else if other.is_nan() {
            self
        } else if other.rank() < self.rank() {
            other
        } else {
            self
        }
    }

    /// The lesser of two numbers.
    #[verifier::when_used_as_spec(spec_min)]
    pub fn min(self, other: Scalar) -> (m: Scalar)
        ensures
            m == self.min(other),
    {
        if self.is_nan() {
            other
        } else if other.is_nan() {
            self
        } else if other.place() < self.place() {
            other
        } else {
            self
        }
    }

    /// This number, brought into the range from `low` to `high`: raised to `low`, then
    /// lowered to `high`.
    pub open spec fn spec_clamped(self, low: Scalar, high: Scalar) -> Scalar {
        self.max(low).min(high)
    }

    /// This number, brought into the range from `low` to `high`.
    #[verifier::when_used_as_spec(spec_clamped)]
    pub fn clamped(self, low: Scalar, high: Scalar) -> (c: Scalar)
        ensures
            c == self.clamped(low, high),
    {
        self.max(low).min(high)
    }
}

/// A number within the range is left as it is.
pub proof fn lemma_clamped_within(x: Scalar, low: Scalar, high: Scalar)
    requires
        low.le(x),
        x.le(high),
    ensures
        x.clamped(low, high) == x,
{
}

/// Whatever goes in, what comes out lies within the range, if there is one.
pub proof fn lemma_clamped_lands_within(x: Scalar, low: Scalar, high: Scalar)
    requires
        low.le(high),
    ensures
        low.le(x.clamped(low, high)),
        x.clamped(low, high).le(high),
{
}

} // verus!
