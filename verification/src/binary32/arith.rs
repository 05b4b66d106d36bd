//! Change of sign, addition, subtraction and multiplication.

use crate::binary32::number::Binary32;
use crate::binary32::number::{HIDDEN, INFINITY, SIGN};
use crate::binary32::rounding::power_of_two;
use vstd::arithmetic::div_mod::*;
use vstd::arithmetic::power2::*;
use vstd::prelude::*;

verus! {

/// The bits that stand for an undefined result.
pub const NAN: u32 = 0x7fc0_0000;

impl Binary32 {
    /// The number with the other sign.
    pub open spec fn opposite(self) -> Binary32 {
        Self::of(!self.negative(), self.magnitude())
    }

    /// The sum, rounded to nearest.
    ///
    /// An exact zero is positive unless both terms are negative zeros.
    pub open spec fn sum(self, other: Binary32) -> Binary32 {
        if self.nan() || other.nan() {
            Binary32 { bits: NAN }
        } else if self.infinite() {
            if other.infinite() && self.negative() != other.negative() {
                Binary32 { bits: NAN }
            } else {
                self
            }
        } else if other.infinite() {
            other
        } else {
            let exact = self.value() + other.value();
            if exact == 0 {
                Self::of(self.negative() && other.negative(), 0)
            } else if exact < 0 {
                Self::of(true, Self::nearest((-exact) as nat, 1))
            } else {
                Self::of(false, Self::nearest(exact as nat, 1))
            }
        }
    }

    /// The difference, rounded to nearest.
    pub open spec fn difference(self, other: Binary32) -> Binary32 {
        self.sum(other.opposite())
    }

    /// The product, rounded to nearest.
    pub open spec fn product(self, other: Binary32) -> Binary32 {
        let negative = self.negative() != other.negative();
        if self.nan() || other.nan() {
            Binary32 { bits: NAN }
        } else if self.infinite() || other.infinite() {
            if self.magnitude() == 0 || other.magnitude() == 0 {
                Binary32 { bits: NAN }
            } else {
                Self::of(negative, INFINITY as nat)
            }
        } else {
            Self::of(
                negative,
                Self::nearest(
                    Self::units(self.magnitude()) * Self::units(other.magnitude()),
                    pow2(149),
                ),
            )
        }
    }

    pub fn is_negative(self) -> (r: bool)
        ensures
            r == self.negative(),
    {
        self.bits >= SIGN
    }

    /// The bits below the sign.
    pub fn abs_bits(self) -> (r: u32)
        ensures
            r == self.magnitude(),
            r < SIGN,
    {
        if self.bits >= SIGN {
            self.bits - SIGN
        } else {
            self.bits
        }
    }

    pub fn is_nan(self) -> (r: bool)
        ensures
            r == self.nan(),
    {
        self.abs_bits() > INFINITY
    }

    pub fn is_infinite(self) -> (r: bool)
        ensures
            r == self.infinite(),
    {
        self.abs_bits() == INFINITY
    }

    /// The number of a given sign and magnitude.
    pub fn from_parts(negative: bool, magnitude: u32) -> (r: Binary32)
        requires
            magnitude < SIGN,
        ensures
            r == Self::of(negative, magnitude as nat),
            r.negative() == negative,
            r.magnitude() == magnitude,
    {
        if negative {
            Binary32 { bits: magnitude + SIGN }
        } else {
            Binary32 { bits: magnitude }
        }
    }

    /// The significand and the scale of a finite number.
    pub(crate) fn unpack(self) -> (r: (u64, u32))
        requires
            self.finite(),
        ensures
            r.0 == Self::significand(self.magnitude()),
            r.1 == Self::scale(self.magnitude()),
            r.0 < 0x100_0000,
            r.1 <= 253,
            r.1 > 0 ==> r.0 >= 0x80_0000,
            Self::units(self.magnitude()) == r.0 * pow2(r.1 as nat),
            r.0 == 0 <==> self.magnitude() == 0,
            self.magnitude() == r.1 * 0x80_0000 + r.0,
    {
        let magnitude: u32 = self.abs_bits();
        if magnitude < HIDDEN {
            (magnitude as u64, 0)
        } else {
            ((magnitude % 0x80_0000) as u64 + 0x80_0000, magnitude / 0x80_0000 - 1)
        }
    }

    pub fn negated(self) -> (r: Binary32)
        ensures
            r == self.opposite(),
    {
        Self::from_parts(!self.is_negative(), self.abs_bits())
    }

    /// A nonzero number that is more than 25 scales above another swallows it.
    proof fn nearest_far(m: nat, e: nat, x: nat, above: bool)
        requires
            0x80_0000 <= m < 0x100_0000,
            2 <= e <= 253,
            x < pow2((e - 2) as nat),
        ensures
            above ==> Self::nearest(m * pow2(e) + x, 1) == e * 0x80_0000 + m,
            !above ==> Self::nearest((m * pow2(e) - x) as nat, 1) == e * 0x80_0000 + m,
    {
        let p = pow2(e);
        let h = pow2((e - 1) as nat);
        let g = pow2((e - 2) as nat);
        lemma2_to64();
        lemma_pow2_pos((e - 2) as nat);
        lemma_pow2_unfold(e);
        lemma_pow2_unfold((e - 1) as nat);
        lemma_pow2_adds(23, e);
        lemma_pow2_adds(24, e);
        lemma_pow2_adds(23, (e - 1) as nat);
        lemma_pow2_adds(24, (e - 1) as nat);
        assert(0x80_0000 * p <= m * p <= 0xff_ffff * p) by (nonlinear_arith)
            requires
                0x80_0000 <= m <= 0xff_ffff,
                p > 0,
        ;
        if above {
            let n = m * p + x;
            Self::binade_is(n, 1, e);
            lemma_fundamental_div_mod_converse(n as int, p as int, m as int, x as int);
        } else if x == 0 {
            let n = m * p;
            Self::binade_is(n, 1, e);
            lemma_fundamental_div_mod_converse(n as int, p as int, m as int, 0);
        } else if m > 0x80_0000 {
            let n = (m * p - x) as nat;
            assert(n == (m - 1) * p + (p - x)) by (nonlinear_arith)
                requires
                    n == m * p - x,
            ;
            assert((m - 1) * p >= 0x80_0000 * p) by (nonlinear_arith)
                requires
                    m > 0x80_0000,
                    p > 0,
            ;
            Self::binade_is(n, 1, e);
            lemma_fundamental_div_mod_converse(n as int, p as int, m - 1, p - x);
        } else {
            let n = (m * p - x) as nat;
            assert(n == 0xff_ffff * h + (h - x));
            Self::binade_is(n, 1, (e - 1) as nat);
            lemma_fundamental_div_mod_converse(n as int, h as int, 0xff_ffff, h - x);
        }
    }

    /// The sum of a number and one that lies more than 25 scales below it.
    proof fn sum_far(a: Binary32, b: Binary32)
        requires
            a.finite(),
            b.finite(),
            Self::scale(a.magnitude()) > Self::scale(b.magnitude()) + 25,
        ensures
            a.sum(b) == a,
            b.sum(a) == a,
    {
        let m = Self::significand(a.magnitude());
        let e = Self::scale(a.magnitude());
        let mb = Self::significand(b.magnitude());
        let eb = Self::scale(b.magnitude());
        let x = Self::units(b.magnitude());
        lemma2_to64();
        lemma_pow2_pos(eb);
        lemma_pow2_adds(24, eb);
        assert(mb * pow2(eb) < pow2(24) * pow2(eb)) by (nonlinear_arith)
            requires
                mb < 0x100_0000,
                pow2(24) == 0x100_0000,
                pow2(eb) > 0,
        ;
        if 24 + eb < e - 2 {
            lemma_pow2_strictly_increases(24 + eb, (e - 2) as nat);
        }
        assert(x < pow2((e - 2) as nat));
        lemma_pow2_adds(2, (e - 2) as nat);
        assert(m * pow2(e) > x) by (nonlinear_arith)
            requires
                m >= 1,
                x < pow2((e - 2) as nat),
                pow2(e) == 4 * pow2((e - 2) as nat),
        ;
        Self::nearest_far(m, e, x, true);
        Self::nearest_far(m, e, x, false);
        assert(a.magnitude() == e * 0x80_0000 + m);
    }

    /// The sum, rounded to nearest.
    pub fn plus(self, other: Binary32) -> (r: Binary32)
        ensures
            r == self.sum(other),
    {
        if self.is_nan() || other.is_nan() {
            return Binary32 { bits: NAN };
        }
        if self.is_infinite() {
            if other.is_infinite() && self.is_negative() != other.is_negative() {
                return Binary32 { bits: NAN };
            }
            return self;
        }
        if other.is_infinite() {
            return other;
        }
        let (ma, ea) = self.unpack();
        let (mb, eb) = other.unpack();
        if ea > eb + 25 {
            proof {
                Self::sum_far(self, other);
            }
            return self;
        }
        if eb > ea + 25 {
            proof {
                Self::sum_far(other, self);
            }
            return other;
        }
        let base: u32 = if ea < eb {
            ea
        } else {
            eb
        };
        let ra: u32 = ea - base;
        let rb: u32 = eb - base;
        proof {
            lemma2_to64();
            lemma2_to64_rest();
            lemma_pow2_adds(base as nat, ra as nat);
            lemma_pow2_adds(base as nat, rb as nat);
            if ra < 25 {
                lemma_pow2_strictly_increases(ra as nat, 25);
            }
            if rb < 25 {
                lemma_pow2_strictly_increases(rb as nat, 25);
            }
            assert(ma * pow2(ra as nat) <= 0x100_0000 * 0x200_0000) by (nonlinear_arith)
                requires
                    0 <= ma <= 0x100_0000,
                    0 <= pow2(ra as nat) <= 0x200_0000,
            ;
            assert(mb * pow2(rb as nat) <= 0x100_0000 * 0x200_0000) by (nonlinear_arith)
                requires
                    0 <= mb <= 0x100_0000,
                    0 <= pow2(rb as nat) <= 0x200_0000,
            ;
        }
        let xa: i64 = (ma * power_of_two(ra)) as i64;
        let xb: i64 = (mb * power_of_two(rb)) as i64;
        let ya: i64 = if self.is_negative() {
            -xa
        } else {
            xa
        };
        let yb: i64 = if other.is_negative() {
            -xb
        } else {
            xb
        };
        let total: i64 = ya + yb;
        proof {
            let p = pow2(base as nat);
            lemma_pow2_pos(base as nat);
            assert(Self::units(self.magnitude()) == xa * p) by (nonlinear_arith)
                requires
                    Self::units(self.magnitude()) == ma * pow2(ea as nat),
                    pow2(ea as nat) == p * pow2(ra as nat),
                    xa == ma * pow2(ra as nat),
            ;
            assert(Self::units(other.magnitude()) == xb * p) by (nonlinear_arith)
                requires
                    Self::units(other.magnitude()) == mb * pow2(eb as nat),
                    pow2(eb as nat) == p * pow2(rb as nat),
                    xb == mb * pow2(rb as nat),
            ;
            assert((-xa) * p == -(xa * p)) by (nonlinear_arith);
            assert((-xb) * p == -(xb * p)) by (nonlinear_arith);
            assert(self.value() == ya * p);
            assert(other.value() == yb * p);
            assert(self.value() + other.value() == total * p) by (nonlinear_arith)
                requires
                    self.value() == ya * p,
                    other.value() == yb * p,
                    total == ya + yb,
            ;
            assert(total > 0 ==> total * p > 0) by (nonlinear_arith)
                requires
                    p > 0,
            ;
            assert(total < 0 ==> total * p < 0) by (nonlinear_arith)
                requires
                    p > 0,
            ;
            assert((-total) * p == -(total * p)) by (nonlinear_arith);
        }
        if total == 0 {
            Self::from_parts(self.is_negative() && other.is_negative(), 0)
        } else if total < 0 {
            Self::from_parts(true, Self::round((-total) as u64, base as i32))
        } else {
            Self::from_parts(false, Self::round(total as u64, base as i32))
        }
    }

    /// The difference, rounded to nearest.
    pub fn minus(self, other: Binary32) -> (r: Binary32)
        ensures
            r == self.difference(other),
    {
        self.plus(other.negated())
    }

    proof fn product_parts(ma: nat, ea: nat, mb: nat, eb: nat)
        ensures
            Self::nearest((ma * pow2(ea)) * (mb * pow2(eb)), pow2(149)) == Self::nearest(
                Self::raised(ma * mb, ea + eb - 149),
                Self::lowered(ea + eb - 149),
            ),
    {
        let n = (ma * pow2(ea)) * (mb * pow2(eb));
        let m = ma * mb;
        let e = ea + eb;
        lemma_pow2_adds(ea, eb);
        assert(n == m * pow2(e)) by (nonlinear_arith)
            requires
                n == (ma * pow2(ea)) * (mb * pow2(eb)),
                m == ma * mb,
                pow2(e) == pow2(ea) * pow2(eb),
        ;
        if e >= 149 {
            let u = (e - 149) as nat;
            lemma_pow2_adds(u, 149);
            lemma_pow2_pos(149);
            assert(n == (m * pow2(u)) * pow2(149)) by (nonlinear_arith)
                requires
                    n == m * pow2(e),
                    pow2(e) == pow2(u) * pow2(149),
            ;
            Self::nearest_scales(m * pow2(u), 1, pow2(149));
        } else {
            let u = (149 - e) as nat;
            lemma_pow2_adds(u, e);
            lemma_pow2_pos(e);
            lemma_pow2_pos(u);
            Self::nearest_scales(m, pow2(u), pow2(e));
        }
    }

    /// The product, rounded to nearest.
    pub fn times(self, other: Binary32) -> (r: Binary32)
        ensures
            r == self.product(other),
    {
        let negative: bool = self.is_negative() != other.is_negative();
        if self.is_nan() || other.is_nan() {
            return Binary32 { bits: NAN };
        }
        if self.is_infinite() || other.is_infinite() {
            if self.abs_bits() == 0 || other.abs_bits() == 0 {
                return Binary32 { bits: NAN };
            }
            return Self::from_parts(negative, INFINITY);
        }
        let (ma, ea) = self.unpack();
        let (mb, eb) = other.unpack();
        proof {
            assert(ma * mb < 0x100_0000 * 0x100_0000) by (nonlinear_arith)
                requires
                    0 <= ma < 0x100_0000,
                    0 <= mb < 0x100_0000,
            ;
            Self::product_parts(ma as nat, ea as nat, mb as nat, eb as nat);
        }
        let magnitude: u32 = Self::round(ma * mb, ea as i32 + eb as i32 - 149);
        Self::from_parts(negative, magnitude)
    }
}

} // verus!
