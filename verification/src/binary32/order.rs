//! Numeric comparison.

use crate::binary32::number::Binary32;
use vstd::prelude::*;

verus! {

impl Binary32 {
    /// Whether a number is less than another; never so of an undefined one.
    pub open spec fn below(self, other: Binary32) -> bool {
        !self.nan() && !other.nan() && self.value() < other.value()
    }

    /// Whether a number is at most another; never so of an undefined one.
    pub open spec fn at_most(self, other: Binary32) -> bool {
        !self.nan() && !other.nan() && self.value() <= other.value()
    }

    /// Whether two numbers have the same value; never so of an undefined one.
    pub open spec fn same(self, other: Binary32) -> bool {
        !self.nan() && !other.nan() && self.value() == other.value()
    }

    /// The number moved into the range from `low` to `high`.
    pub open spec fn within(self, low: Binary32, high: Binary32) -> Binary32 {
        if self.below(low) {
            low
        } else if high.below(self) {
            high
        } else {
            self
        }
    }

    /// The bits, as an integer of the order of the numbers.
    spec fn key(self) -> int {
        if self.negative() {
            -(self.magnitude() as int)
        } else {
            self.magnitude() as int
        }
    }

    proof fn keys_order(a: Binary32, b: Binary32)
        ensures
            a.key() < b.key() <==> a.value() < b.value(),
            a.key() == b.key() <==> a.value() == b.value(),
    {
        let ma = a.magnitude();
        let mb = b.magnitude();
        Self::units_of_zero();
        if ma > 0 {
            Self::units_increase(0, ma);
        }
        if mb > 0 {
            Self::units_increase(0, mb);
        }
        if ma < mb {
            Self::units_increase(ma, mb);
        }
        if mb < ma {
            Self::units_increase(mb, ma);
        }
    }

    fn order_key(self) -> (r: i64)
        ensures
            r == self.key(),
    {
        if self.is_negative() {
            -(self.abs_bits() as i64)
        } else {
            self.abs_bits() as i64
        }
    }

    pub fn lt(self, other: Binary32) -> (r: bool)
        ensures
            r == self.below(other),
    {
        proof {
            Self::keys_order(self, other);
        }
        !self.is_nan() && !other.is_nan() && self.order_key() < other.order_key()
    }

    pub fn le(self, other: Binary32) -> (r: bool)
        ensures
            r == self.at_most(other),
    {
        proof {
            Self::keys_order(self, other);
        }
        !self.is_nan() && !other.is_nan() && self.order_key() <= other.order_key()
    }

    pub fn equals(self, other: Binary32) -> (r: bool)
        ensures
            r == self.same(other),
    {
        proof {
            Self::keys_order(self, other);
        }
        !self.is_nan() && !other.is_nan() && self.order_key() == other.order_key()
    }

    /// Moves a number into the range from `low` to `high`.
    pub fn clamp(self, low: Binary32, high: Binary32) -> (r: Binary32)
        requires
            low.at_most(high),
        ensures
            r == self.within(low, high),
    {
        if self.lt(low) {
            low
        } else if high.lt(self) {
            high
        } else {
            self
        }
    }
}

} // verus!
