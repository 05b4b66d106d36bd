//! Conversion from and to integers.

use crate::binary32::number::Binary32;
use crate::binary32::rounding::power_of_two;
use vstd::arithmetic::div_mod::*;
use vstd::arithmetic::mul::*;
use vstd::arithmetic::power2::*;
use vstd::prelude::*;

verus! {

impl Binary32 {
    /// The number nearest to an integer.
    pub open spec fn of_int(i: int) -> Binary32 {
        if i < 0 {
            Self::of(true, Self::nearest(((-i) as nat) * pow2(149), 1))
        } else {
            Self::of(false, Self::nearest((i as nat) * pow2(149), 1))
        }
    }

    /// The integer of a given sign and size, or the nearest that 32 bits hold.
    pub open spec fn saturated(negative: bool, size: nat) -> i32 {
        if negative {
            if size > 0x8000_0000 {
                i32::MIN
            } else {
                (-(size as int)) as i32
            }
        } else if size > 0x7fff_ffff {
            i32::MAX
        } else {
            size as i32
        }
    }

    /// The integer part; zero if the number is undefined.
    pub open spec fn truncated(self) -> i32 {
        if self.nan() {
            0
        } else {
            Self::saturated(self.negative(), Self::units(self.magnitude()) / pow2(149))
        }
    }

    /// The nearest integer, the one farther from zero of two that are equally
    /// near; zero if the number is undefined.
    pub open spec fn rounded(self) -> i32 {
        if self.nan() {
            0
        } else {
            Self::saturated(
                self.negative(),
                (2 * Self::units(self.magnitude()) + pow2(149)) / (2 * pow2(149)),
            )
        }
    }

    pub fn from_i32(i: i32) -> (r: Binary32)
        ensures
            r == Self::of_int(i as int),
    {
        let size: u64 = if i < 0 {
            (-(i as i64)) as u64
        } else {
            i as u64
        };
        Self::from_parts(i < 0, Self::round(size, 149))
    }

    pub fn from_u32(i: u32) -> (r: Binary32)
        ensures
            r == Self::of_int(i as int),
    {
        Self::from_parts(false, Self::round(i as u64, 149))
    }

    fn saturate(negative: bool, size: u64) -> (r: i32)
        ensures
            r == Self::saturated(negative, size as nat),
    {
        if negative {
            if size > 0x8000_0000 {
                i32::MIN
            } else {
                (-(size as i64)) as i32
            }
        } else if size > 0x7fff_ffff {
            i32::MAX
        } else {
            size as i32
        }
    }

    /// The quotient of a scaled integer by the unit's inverse, plus a half of
    /// it where `half` is one.
    proof fn unit_quotient(m: nat, e: nat, half: nat)
        requires
            half <= 1,
            m < 0x100_0000,
        ensures
            e >= 149 ==> (2 * (m * pow2(e)) + half * pow2(149)) / (2 * pow2(149)) == m * pow2(
                (e - 149) as nat,
            ),
            e < 149 ==> (2 * (m * pow2(e)) + half * pow2(149)) / (2 * pow2(149)) == (2 * m + half
                * pow2((149 - e) as nat)) / (2 * pow2((149 - e) as nat)),
    {
        let p = pow2(149);
        lemma_pow2_pos(149);
        if e >= 149 {
            let u = pow2((e - 149) as nat);
            lemma_pow2_adds(149, (e - 149) as nat);
            assert(2 * (m * pow2(e)) + half * p == (m * u) * (2 * p) + half * p)
                by (nonlinear_arith)
                requires
                    pow2(e) == p * u,
            ;
            assert(half * p < 2 * p) by (nonlinear_arith)
                requires
                    half <= 1,
                    p > 0,
            ;
            lemma_fundamental_div_mod_converse(
                (2 * (m * pow2(e)) + half * p) as int,
                (2 * p) as int,
                (m * u) as int,
                (half * p) as int,
            );
        } else {
            let c = pow2(e);
            let v = pow2((149 - e) as nat);
            lemma_pow2_pos(e);
            lemma_pow2_pos((149 - e) as nat);
            lemma_pow2_adds((149 - e) as nat, e);
            assert(2 * (m * c) + half * p == c * (2 * m + half * v)) by (nonlinear_arith)
                requires
                    p == v * c,
            ;
            assert(2 * p == c * (2 * v)) by (nonlinear_arith)
                requires
                    p == v * c,
            ;
            lemma_div_multiples_vanish_quotient(c as int, (2 * m + half * v) as int, (2 * v) as int);
        }
    }

    /// The size of the integer part, and of the nearest integer where `half`.
    fn integer_size(self, half: bool) -> (size: u64)
        requires
            !self.nan(),
        ensures
            ({
                let h: nat = if half { 1 } else { 0 };
                let exact = (2 * Self::units(self.magnitude()) + h * pow2(149)) / (2 * pow2(149));
                size == exact || (size > 0x8000_0000 && exact > 0x8000_0000)
            }),
    {
        let ghost h: nat = if half {
            1
        } else {
            0
        };
        if self.is_infinite() {
            proof {
                lemma2_to64();
                lemma_pow2_adds(23, 254);
                Self::unit_quotient(0x80_0000, 254, h);
                lemma_pow2_strictly_increases(23, 105);
                lemma_mul_inequality(0x80_0000, 0x80_0000, pow2(105) as int);
            }
            return 0x1_0000_0000;
        }
        let (m, e) = self.unpack();
        proof {
            lemma2_to64();
            Self::unit_quotient(m as nat, e as nat, h);
        }
        if e >= 149 {
            let up: u32 = e - 149;
            if up > 8 {
                proof {
                    lemma_pow2_strictly_increases(8, up as nat);
                    assert(m * pow2(up as nat) > 0x80_0000 * 0x100) by (nonlinear_arith)
                        requires
                            m >= 0x80_0000,
                            pow2(up as nat) > 0x100,
                    ;
                }
                return 0x1_0000_0000;
            }
            proof {
                if up < 8 {
                    lemma_pow2_strictly_increases(up as nat, 8);
                }
                assert(m * pow2(up as nat) < 0x100_0000 * 0x101) by (nonlinear_arith)
                    requires
                        0 <= m < 0x100_0000,
                        pow2(up as nat) <= 0x100,
                ;
            }
            m * power_of_two(up)
        } else {
            let down: u32 = 149 - e;
            if down > 30 {
                proof {
                    lemma_pow2_strictly_increases(30, down as nat);
                    let v = pow2(down as nat);
                    assert(2 * m + h * v < 2 * v) by (nonlinear_arith)
                        requires
                            2 * m < v,
                            h <= 1,
                    ;
                    lemma_basic_div((2 * m + h * v) as int, (2 * v) as int);
                }
                return 0;
            }
            proof {
                if down < 30 {
                    lemma_pow2_strictly_increases(down as nat, 30);
                }
                lemma_pow2_pos(down as nat);
                assert(h * pow2(down as nat) == if half { pow2(down as nat) } else { 0 })
                    by (nonlinear_arith)
                    requires
                        h == if half { 1nat } else { 0nat },
                ;
            }
            let divisor: u64 = power_of_two(down);
            if half {
                (2 * m + divisor) / (2 * divisor)
            } else {
                (2 * m) / (2 * divisor)
            }
        }
    }

    /// The integer part; zero if the number is undefined.
    pub fn to_i32(self) -> (r: i32)
        ensures
            r == self.truncated(),
    {
        if self.is_nan() {
            return 0;
        }
        proof {
            let u = Self::units(self.magnitude());
            lemma_pow2_pos(149);
            assert(0 * pow2(149) == 0);
            lemma_div_multiples_vanish_quotient(2, u as int, pow2(149) as int);
        }
        Self::saturate(self.is_negative(), self.integer_size(false))
    }

    /// The nearest integer; zero if the number is undefined.
    pub fn round_to_i32(self) -> (r: i32)
        ensures
            r == self.rounded(),
    {
        if self.is_nan() {
            return 0;
        }
        proof {
            assert(1 * pow2(149) == pow2(149));
        }
        Self::saturate(self.is_negative(), self.integer_size(true))
    }
}

} // verus!
