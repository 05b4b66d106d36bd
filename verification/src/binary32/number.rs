//! The number type and the value that a bit pattern denotes.

use vstd::arithmetic::power2::*;
use vstd::prelude::*;

verus! {

/// The sign bit.
pub const SIGN: u32 = 0x8000_0000;

/// The magnitude bits of infinity; larger magnitudes are not numbers.
pub const INFINITY: u32 = 0x7f80_0000;

/// The weight of the lowest exponent bit.
pub const HIDDEN: u32 = 0x0080_0000;

/// A binary32 number, as its bit pattern.
///
/// `==` on this type compares bit patterns; the numeric comparisons are
/// [`Binary32::lt`], [`Binary32::le`] and [`Binary32::equals`].
#[derive(Clone, Copy, Debug, PartialEq, Eq, Structural, Hash)]
pub struct Binary32 {
    pub bits: u32,
}

impl Binary32 {
    pub open spec fn negative(self) -> bool {
        self.bits >= SIGN
    }

    /// The bits below the sign.
    pub open spec fn magnitude(self) -> nat {
        if self.negative() {
            (self.bits - SIGN) as nat
        } else {
            self.bits as nat
        }
    }

    pub open spec fn nan(self) -> bool {
        self.magnitude() > INFINITY
    }

    pub open spec fn infinite(self) -> bool {
        self.magnitude() == INFINITY
    }

    pub open spec fn finite(self) -> bool {
        self.magnitude() < INFINITY
    }

    /// The number of units that a magnitude stands for, where the unit is the
    /// smallest positive number, two to the power of minus 149.
    ///
    /// The magnitude of infinity gets the value that follows the largest
    /// finite number, so that the order of values is the order of numbers.
    pub open spec fn units(magnitude: nat) -> nat {
        Self::significand(magnitude) * pow2(Self::scale(magnitude))
    }

    /// The integer that a magnitude scales: its fraction bits, with the hidden
    /// bit unless the number is subnormal.
    pub open spec fn significand(magnitude: nat) -> nat {
        if magnitude < HIDDEN {
            magnitude
        } else {
            magnitude % 0x80_0000 + 0x80_0000
        }
    }

    /// The power of two by which a magnitude scales its significand.
    pub open spec fn scale(magnitude: nat) -> nat {
        if magnitude < HIDDEN {
            0
        } else {
            (magnitude / 0x80_0000 - 1) as nat
        }
    }

    /// The value denoted, counted in units of two to the power of minus 149.
    pub open spec fn value(self) -> int {
        if self.negative() {
            -(Self::units(self.magnitude()) as int)
        } else {
            Self::units(self.magnitude()) as int
        }
    }

    /// The number of a given sign and magnitude.
    pub open spec fn of(negative: bool, magnitude: nat) -> Binary32 {
        if negative {
            Binary32 { bits: (magnitude + SIGN) as u32 }
        } else {
            Binary32 { bits: magnitude as u32 }
        }
    }

    pub proof fn units_of_zero()
        ensures
            Self::units(0) == 0,
    {
        assert(0nat * pow2(0) == 0) by (nonlinear_arith);
    }

    /// A larger magnitude stands for more units.
    pub proof fn units_increase(a: nat, b: nat)
        requires
            a < b,
        ensures
            Self::units(a) < Self::units(b),
    {
        let ma = Self::significand(a);
        let mb = Self::significand(b);
        let ea = Self::scale(a);
        let eb = Self::scale(b);
        lemma_pow2_pos(ea);
        lemma_pow2_pos(eb);
        if ea == eb {
            assert(ma < mb);
            assert(ma * pow2(ea) < mb * pow2(ea)) by (nonlinear_arith)
                requires
                    ma < mb,
                    pow2(ea) > 0,
            ;
        } else {
            assert(ea < eb);
            lemma_pow2_adds(ea, (eb - ea) as nat);
            lemma_pow2_pos((eb - ea - 1) as nat);
            lemma_pow2_unfold((eb - ea) as nat);
            let p = pow2(ea);
            let r = pow2((eb - ea - 1) as nat);
            assert(ma < 0x100_0000 && mb >= 0x80_0000);
            assert(pow2(eb) == p * (2 * r));
            assert(ma * p < mb * (p * (2 * r))) by (nonlinear_arith)
                requires
                    ma < 0x100_0000,
                    mb >= 0x80_0000,
                    p > 0,
                    r > 0,
            {
                assert(ma * p < 0x100_0000 * p);
                assert(mb * (p * (2 * r)) >= 0x80_0000 * (p * (2 * r)));
                assert(p * (2 * r) >= 2 * p);
            }
        }
    }
}

} // verus!
