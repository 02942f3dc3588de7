//! Double-precision numbers as their IEEE 754 bit patterns.
//!
//! A [`Double`] carries the 64 bits of a binary64 value: one sign bit, eleven
//! exponent bits and fifty-two fraction bits. The comparisons below follow
//! IEEE 754: a NaN is unordered with every value (itself included), the two
//! zeros are equal, and all other values are ordered by sign and magnitude.
use vstd::prelude::*;

verus! {

/// The weight of the sign bit.
pub const SIGN_BIT: u64 = 0x8000_0000_0000_0000;

/// The bit pattern of positive infinity: every magnitude above it is a NaN.
pub const INFINITY_BITS: u64 = 0x7ff0_0000_0000_0000;

/// A binary64 value, held as its bit pattern. The derived `==` compares bit
/// patterns; [`Double::equals`] compares values.
#[derive(Clone, Copy, Debug, PartialEq, Eq)]
pub struct Double {
    pub bits: u64,
}

impl Double {
    /// The bits without the sign.
    pub open spec fn magnitude(self) -> int {
        self.bits as int % SIGN_BIT as int
    }

    /// Whether the sign bit is set.
    pub open spec fn negative(self) -> bool {
        self.bits >= SIGN_BIT
    }

    /// Whether the value is a NaN: all exponent bits set, fraction not zero.
    pub open spec fn nan(self) -> bool {
        self.magnitude() > INFINITY_BITS
    }

    /// The place of a value that is not a NaN in the numeric order: for such
    /// values, `a` is numerically below `b` exactly when `a.rank() < b.rank()`,
    /// and both zeros have rank 0.
    pub open spec fn rank(self) -> int {
        if self.negative() {
            -self.magnitude()
        } else {
            self.magnitude()
        }
    }

    /// IEEE equality.
    pub open spec fn same(self, other: Double) -> bool {
        !self.nan() && !other.nan() && self.rank() == other.rank()
    }

    /// IEEE "less than".
    pub open spec fn below(self, other: Double) -> bool {
        !self.nan() && !other.nan() && self.rank() < other.rank()
    }

    /// IEEE "less than or equal".
    pub open spec fn at_most(self, other: Double) -> bool {
        !self.nan() && !other.nan() && self.rank() <= other.rank()
    }

    /// The value with the given bit pattern.
    pub fn from_bits(bits: u64) -> (d: Double)
        ensures
            d.bits == bits,
    {
        Double { bits }
    }

    /// The bit pattern of the value.
    pub fn to_bits(&self) -> (bits: u64)
        ensures
            bits == self.bits,
    {
        self.bits
    }

    fn exec_magnitude(&self) -> (m: u64)
        ensures
            m == self.magnitude(),
            m < SIGN_BIT,
    {
        if self.bits >= SIGN_BIT {
            self.bits - SIGN_BIT
        } else {
            self.bits
        }
    }

    fn exec_rank(&self) -> (r: i128)
        ensures
            r == self.rank(),
    {
        let m: u64 = self.exec_magnitude();
        if self.bits >= SIGN_BIT {
            0 - (m as i128)
        } else {
            m as i128
        }
    }

    /// Whether the value is a NaN.
    pub fn is_nan(&self) -> (r: bool)
        ensures
            r == self.nan(),
    {
        self.exec_magnitude() > INFINITY_BITS
    }

    /// `self == other` as IEEE 754 defines it.
    pub fn equals(&self, other: &Double) -> (r: bool)
        ensures
            r == self.same(*other),
    {
        !self.is_nan() && !other.is_nan() && self.exec_rank() == other.exec_rank()
    }

    /// `self != other`: the negation of IEEE equality, so true when either is a NaN.
    pub fn differs(&self, other: &Double) -> (r: bool)
        ensures
            r == !self.same(*other),
    {
        !self.equals(other)
    }

    /// `self < other` as IEEE 754 defines it.
    pub fn less(&self, other: &Double) -> (r: bool)
        ensures
            r == self.below(*other),
    {
        !self.is_nan() && !other.is_nan() && self.exec_rank() < other.exec_rank()
    }

    /// `self <= other` as IEEE 754 defines it.
    pub fn less_or_equal(&self, other: &Double) -> (r: bool)
        ensures
            r == self.at_most(*other),
    {
        !self.is_nan() && !other.is_nan() && self.exec_rank() <= other.exec_rank()
    }

    /// `self > other` as IEEE 754 defines it.
    pub fn greater(&self, other: &Double) -> (r: bool)
        ensures
            r == other.below(*self),
    {
        other.less(self)
    }

    /// `self >= other` as IEEE 754 defines it.
    pub fn greater_or_equal(&self, other: &Double) -> (r: bool)
        ensures
            r == other.at_most(*self),
    {
        other.less_or_equal(self)
    }
}

} // verus!
