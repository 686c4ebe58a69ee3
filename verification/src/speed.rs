//! Double-precision figures, kept as their bit patterns: how they compare.
use vstd::prelude::*;

verus! {

/// A double-precision floating-point number, by its IEEE 754 bit pattern.
#[derive(Debug, Clone, Copy, PartialEq, Eq, Structural)]
pub struct Double {
    /// The bit pattern: one sign bit above the exponent and the fraction.
    pub bits: u64,
}

/// The sign bit.
pub const SIGN_BIT: u64 = 0x8000_0000_0000_0000;

/// The bit pattern of positive infinity; that of a positive number that is not infinite is less.
pub const INFINITY_BITS: u64 = 0x7ff0_0000_0000_0000;

impl Double {
    /// Whether the sign bit is set.
    pub open spec fn negative(self) -> bool {
        self.bits >= SIGN_BIT
    }

    /// The bit pattern without the sign bit, which grows with the number's size.
    pub open spec fn magnitude(self) -> int {
        if self.negative() {
            self.bits - SIGN_BIT
        } else {
            self.bits as int
        }
    }

    /// Whether this is no number.
    pub open spec fn nan(self) -> bool {
        self.magnitude() > INFINITY_BITS
    }

    /// What orders numbers by value. Both zeros have the same.
    pub open spec fn value_key(self) -> int {
        if self.negative() {
            -self.magnitude()
        } else {
            self.magnitude()
        }
    }

    /// What orders all bit patterns by the IEEE 754 total order.
    pub open spec fn total_key(self) -> int {
        if self.negative() {
            -self.magnitude() - 1
        } else {
            self.magnitude()
        }
    }

    /// Whether this number is greater than or equal to `other`. No pattern that is no number is.
    pub open spec fn reaches(self, other: Double) -> bool {
        !self.nan() && !other.nan() && self.value_key() >= other.value_key()
    }

    /// Whether this number is greater than `other`. No pattern that is no number is.
    pub open spec fn exceeds(self, other: Double) -> bool {
        !self.nan() && !other.nan() && self.value_key() > other.value_key()
    }

    /// The bit pattern without the sign bit.
    fn size(&self) -> (size: u64)
        ensures
            size == self.magnitude(),
    {
        if self.bits >= SIGN_BIT {
            self.bits - SIGN_BIT
        } else {
            self.bits
        }
    }

    /// Whether this is no number.
    pub fn is_nan(&self) -> (nan: bool)
        ensures
            nan == self.nan(),
    {
        self.size() > INFINITY_BITS
    }

    /// What orders numbers by value.
    fn by_value(&self) -> (key: i128)
        ensures
            key == self.value_key(),
    {
        if self.bits >= SIGN_BIT {
            -(self.size() as i128)
        } else {
            self.size() as i128
        }
    }

    /// What orders all bit patterns by the IEEE 754 total order.
    pub fn by_total_order(&self) -> (key: i128)
        ensures
            key == self.total_key(),
    {
        if self.bits >= SIGN_BIT {
            -(self.size() as i128) - 1
        } else {
            self.size() as i128
        }
    }

    /// Whether this number is greater than or equal to `other`.
    pub fn is_at_least(&self, other: &Double) -> (so: bool)
        ensures
            so == self.reaches(*other),
    {
        !self.is_nan() && !other.is_nan() && self.by_value() >= other.by_value()
    }

    /// Whether this number is greater than `other`.
    pub fn is_above(&self, other: &Double) -> (so: bool)
        ensures
            so == self.exceeds(*other),
    {
        !self.is_nan() && !other.is_nan() && self.by_value() > other.by_value()
    }
}

/// The total order tells any two bit patterns apart, and ranks numbers of different value as
/// their values do.
pub proof fn law_total_order(a: Double, b: Double)
    ensures
        a.total_key() == b.total_key() <==> a == b,
        a.exceeds(b) ==> a.total_key() > b.total_key(),
        a.total_key() > b.total_key() && !a.nan() && !b.nan() ==> a.reaches(b),
{
}

} // verus!
