//! Division and remainder.

use crate::binary32::arith::NAN;
use crate::binary32::number::Binary32;
use crate::binary32::number::INFINITY;
use crate::binary32::rounding::power_of_two;
use vstd::arithmetic::div_mod::*;
use vstd::arithmetic::mul::*;
use vstd::arithmetic::power2::*;
use vstd::prelude::*;

verus! {

impl Binary32 {
    /// The quotient, rounded to nearest.
    pub open spec fn quotient(self, other: Binary32) -> Binary32 {
        let negative = self.negative() != other.negative();
        if self.nan() || other.nan() {
            Binary32 { bits: NAN }
        } else if self.infinite() {
            if other.infinite() {
                Binary32 { bits: NAN }
            } else {
                Self::of(negative, INFINITY as nat)
            }
        } else if other.infinite() {
            Self::of(negative, 0)
        } else if other.magnitude() == 0 {
            if self.magnitude() == 0 {
                Binary32 { bits: NAN }
            } else {
                Self::of(negative, INFINITY as nat)
            }
        } else {
            Self::of(
                negative,
                Self::nearest(
                    Self::units(self.magnitude()) * pow2(149),
                    Self::units(other.magnitude()),
                ),
            )
        }
    }

    /// The remainder of the division that truncates toward zero; it has the
    /// sign of the dividend.
    pub open spec fn modulo(self, other: Binary32) -> Binary32 {
        if self.nan() || other.nan() || self.infinite() || other.magnitude() == 0 {
            Binary32 { bits: NAN }
        } else if other.infinite() {
            self
        } else {
            Self::of(
                self.negative(),
                Self::nearest(
                    Self::units(self.magnitude()) % Self::units(other.magnitude()),
                    1,
                ),
            )
        }
    }

    /// A quotient cut to an integer rounds as the exact quotient does, once a
    /// last bit tells whether anything was cut off.
    proof fn half_even_cut(n: nat, d: nat, j: nat)
        requires
            d > 0,
            j > 0,
        ensures
            Self::half_even(n, d * pow2(j)) == Self::half_even(
                2 * (n / d) + if n % d == 0 { 0nat } else { 1nat },
                pow2(j + 1),
            ),
    {
        let q = n / d;
        let r = n % d;
        let cut: nat = if r == 0 {
            0
        } else {
            1
        };
        let p = pow2(j);
        let h = pow2((j - 1) as nat);
        lemma_pow2_pos((j - 1) as nat);
        lemma_pow2_unfold(j);
        lemma_pow2_unfold(j + 1);
        lemma_fundamental_div_mod(n as int, d as int);
        lemma_mod_bound(n as int, d as int);
        let qq = q / p;
        let qr = q % p;
        lemma_fundamental_div_mod(q as int, p as int);
        lemma_mod_bound(q as int, p as int);
        assert(n == qq * (d * p) + (d * qr + r)) by (nonlinear_arith)
            requires
                n == d * q + r,
                q == p * qq + qr,
        ;
        assert(d * qr + r < d * (qr + 1)) by (nonlinear_arith)
            requires
                r < d,
        ;
        assert(d * (qr + 1) <= d * p) by (nonlinear_arith)
            requires
                qr + 1 <= p,
                d > 0,
        ;
        assert(0 <= d * qr) by (nonlinear_arith)
            requires
                d > 0,
                qr >= 0,
        ;
        lemma_fundamental_div_mod_converse(n as int, (d * p) as int, qq as int, (d * qr + r) as int);
        assert(2 * q + cut == qq * (2 * p) + (2 * qr + cut)) by (nonlinear_arith)
            requires
                q == p * qq + qr,
        ;
        lemma_fundamental_div_mod_converse(
            (2 * q + cut) as int,
            (2 * p) as int,
            qq as int,
            (2 * qr + cut) as int,
        );
        assert(d * p == 2 * (d * h)) by (nonlinear_arith)
            requires
                p == 2 * h,
        ;
        if qr < h {
            assert(d * (qr + 1) <= d * h) by (nonlinear_arith)
                requires
                    qr + 1 <= h,
                    d > 0,
            ;
        } else if qr == h {
        } else {
            assert(d * qr >= d * (h + 1)) by (nonlinear_arith)
                requires
                    qr >= h + 1,
                    d > 0,
            ;
            assert(d * (h + 1) == d * h + d) by (nonlinear_arith);
        }
    }

    /// The nearest number to a quotient, from its integer part with a last bit
    /// for what was cut off.
    proof fn nearest_cut(n: nat, d: nat, e: int)
        requires
            d > 0,
            n / d >= 0x400_0000,
        ensures
            ({
                let cut = 2 * (n / d) + if n % d == 0 { 0nat } else { 1nat };
                Self::nearest(Self::raised(n, e), d * Self::lowered(e)) == Self::nearest(
                    Self::raised(cut, e - 1),
                    Self::lowered(e - 1),
                )
            }),
    {
        let q = n / d;
        let r = n % d;
        let cut = 2 * q + if r == 0 { 0nat } else { 1nat };
        lemma_fundamental_div_mod(n as int, d as int);
        lemma_mod_bound(n as int, d as int);
        let len = Self::bit_length(q);
        lemma2_to64();
        if len < 27 {
            if len < 26 {
                lemma_pow2_strictly_increases(len, 26);
            }
            assert(false);
        }
        let low = pow2((len - 1) as nat);
        let high = pow2(len);
        assert(d * low <= n < d * high) by (nonlinear_arith)
            requires
                low <= q,
                q + 1 <= high,
                n == d * q + r,
                0 <= r < d,
        ;
        Self::binade_of(n, d, len, e);
        lemma_pow2_unfold(len + 1);
        lemma_pow2_unfold(len);
        Self::binade_of(cut, 1, len + 1, e - 1);
        let s = Self::binade(Self::raised(n, e), d * Self::lowered(e));
        Self::half_even_at(n, d, e, s);
        Self::half_even_at(cut, 1, e - 1, s);
        let j = (s - e) as nat;
        assert(1 * Self::lowered(e - 1) == Self::lowered(e - 1));
        assert(1 * pow2(j + 1) == pow2(j + 1));
        Self::half_even_cut(n, d, j);
    }

    /// The number of bits of a positive integer.
    proof fn bit_length(q: nat) -> (len: nat)
        requires
            q > 0,
        ensures
            len > 0,
            pow2((len - 1) as nat) <= q < pow2(len),
        decreases q,
    {
        lemma2_to64();
        if q == 1 {
            1
        } else {
            let len = Self::bit_length(q / 2);
            lemma_pow2_unfold(len);
            lemma_pow2_unfold(len + 1);
            len + 1
        }
    }

    /// Shifts a significand until its highest bit is the hidden one.
    fn normalise(m: u64) -> (r: (u64, u32))
        requires
            0 < m < 0x100_0000,
        ensures
            0x80_0000 <= r.0 < 0x100_0000,
            r.0 == m * pow2(r.1 as nat),
            r.1 <= 23,
    {
        let mut shifted: u64 = m;
        let mut by: u32 = 0;
        proof {
            lemma2_to64();
        }
        while shifted < 0x80_0000
            invariant
                0 < m < 0x100_0000,
                0 < shifted < 0x100_0000,
                shifted == m * pow2(by as nat),
                shifted >= pow2(by as nat),
                by <= 23,
            decreases 0x100_0000 - shifted,
        {
            proof {
                lemma2_to64();
                lemma_pow2_unfold((by + 1) as nat);
                assert(m * pow2((by + 1) as nat) == 2 * (m * pow2(by as nat))) by (nonlinear_arith)
                    requires
                        pow2((by + 1) as nat) == 2 * pow2(by as nat),
                ;
                if by == 23 {
                    assert(false);
                }
            }
            shifted = shifted * 2;
            by = by + 1;
        }
        (shifted, by)
    }

    proof fn quotient_parts(ma: nat, ea: nat, ka: nat, mb: nat, eb: nat, kb: nat)
        requires
            ma > 0,
            mb > 0,
        ensures
            ({
                let e = ea - ka + 117 - eb + kb;
                Self::nearest((ma * pow2(ea)) * pow2(149), mb * pow2(eb)) == Self::nearest(
                    Self::raised((ma * pow2(ka)) * pow2(32), e),
                    (mb * pow2(kb)) * Self::lowered(e),
                )
            }),
    {
        let e = ea - ka + 117 - eb + kb;
        let n1 = (ma * pow2(ea)) * pow2(149);
        let d1 = mb * pow2(eb);
        let n2 = Self::raised((ma * pow2(ka)) * pow2(32), e);
        let d2 = (mb * pow2(kb)) * Self::lowered(e);
        lemma_pow2_adds(ea, 149);
        lemma_pow2_adds(ka, 32);
        lemma_pow2_pos(eb);
        lemma_pow2_pos(kb);
        lemma_mul_strictly_positive(mb as int, pow2(eb) as int);
        lemma_mul_strictly_positive(mb as int, pow2(kb) as int);
        let x = ea + 149;
        let y = ka + 32;
        lemma_mul_is_associative(ma as int, pow2(ea) as int, pow2(149) as int);
        lemma_mul_is_associative(ma as int, pow2(ka) as int, pow2(32) as int);
        assert(n1 == ma * pow2(x));
        // Both quotients are `ma / mb` times two to the power of `x - eb`.
        if e >= 0 {
            let u = e as nat;
            lemma_pow2_adds(y, u);
            lemma_mul_is_associative(ma as int, pow2(y) as int, pow2(u) as int);
            assert(n2 == ma * pow2(y + u));
            assert(d2 == mb * pow2(kb)) by (nonlinear_arith)
                requires
                    d2 == (mb * pow2(kb)) * Self::lowered(e),
                    Self::lowered(e) == 1,
            ;
            assert(x + kb == y + u + eb);
            Self::nearest_powers(ma, x, mb, eb, y + u, kb);
        } else {
            let u = (-e) as nat;
            lemma_pow2_adds(kb, u);
            lemma_pow2_pos(u);
            lemma_mul_is_associative(mb as int, pow2(kb) as int, pow2(u) as int);
            assert(n2 == ma * pow2(y));
            assert(d2 == mb * pow2(kb + u));
            assert(x + kb + u == y + eb);
            Self::nearest_powers(ma, x, mb, eb, y, kb + u);
        }
    }

    proof fn nearest_powers(ma: nat, x: nat, mb: nat, eb: nat, y: nat, kb: nat)
        requires
            mb > 0,
            x + kb == y + eb,
        ensures
            Self::nearest(ma * pow2(x), mb * pow2(eb)) == Self::nearest(
                ma * pow2(y),
                mb * pow2(kb),
            ),
    {
        lemma_pow2_pos(eb);
        lemma_pow2_pos(kb);
        lemma_mul_strictly_positive(mb as int, pow2(eb) as int);
        lemma_mul_strictly_positive(mb as int, pow2(kb) as int);
        if x >= y {
            let c = (x - y) as nat;
            lemma_pow2_adds(y, c);
            lemma_pow2_adds(kb, c);
            lemma_pow2_pos(c);
            lemma_mul_is_associative(ma as int, pow2(y) as int, pow2(c) as int);
            lemma_mul_is_associative(mb as int, pow2(kb) as int, pow2(c) as int);
            Self::nearest_scales(ma * pow2(y), mb * pow2(kb), pow2(c));
        } else {
            let c = (y - x) as nat;
            lemma_pow2_adds(x, c);
            lemma_pow2_adds(eb, c);
            lemma_pow2_pos(c);
            lemma_mul_is_associative(ma as int, pow2(x) as int, pow2(c) as int);
            lemma_mul_is_associative(mb as int, pow2(eb) as int, pow2(c) as int);
            Self::nearest_scales(ma * pow2(x), mb * pow2(eb), pow2(c));
        }
    }

    /// The quotient, rounded to nearest.
    pub fn over(self, other: Binary32) -> (r: Binary32)
        ensures
            r == self.quotient(other),
    {
        let negative: bool = self.is_negative() != other.is_negative();
        if self.is_nan() || other.is_nan() {
            return Binary32 { bits: NAN };
        }
        if self.is_infinite() {
            if other.is_infinite() {
                return Binary32 { bits: NAN };
            }
            return Self::from_parts(negative, INFINITY);
        }
        if other.is_infinite() {
            return Self::from_parts(negative, 0);
        }
        if other.abs_bits() == 0 {
            if self.abs_bits() == 0 {
                return Binary32 { bits: NAN };
            }
            return Self::from_parts(negative, INFINITY);
        }
        let (ma, ea) = self.unpack();
        let (mb, eb) = other.unpack();
        if ma == 0 {
            let magnitude: u32 = Self::round(0, 0);
            proof {
                lemma2_to64();
                lemma_pow2_pos(eb as nat);
                lemma_mul_strictly_positive(mb as int, pow2(eb as nat) as int);
                let d = Self::units(other.magnitude());
                Self::nearest_scales(0, 1, d);
                assert(0nat * pow2(ea as nat) == 0) by (nonlinear_arith);
                assert(0nat * pow2(149) == 0) by (nonlinear_arith);
                assert(0nat * d == 0) by (nonlinear_arith);
                assert(1 * d == d);
                assert(Self::raised(0, 0) == 0) by {
                    assert(0nat * pow2(0) == 0) by (nonlinear_arith);
                }
            }
            return Self::from_parts(negative, magnitude);
        }
        let (a, ka) = Self::normalise(ma);
        let (b, kb) = Self::normalise(mb);
        let e: i32 = ea as i32 - ka as i32 + 117 - eb as i32 + kb as i32;
        proof {
            lemma2_to64();
        }
        let n: u64 = a * 0x1_0000_0000;
        let whole: u64 = n / b;
        let rest: u64 = n % b;
        proof {
            Self::quotient_parts(ma as nat, ea as nat, ka as nat, mb as nat, eb as nat, kb as nat);
            lemma_fundamental_div_mod(n as int, b as int);
            lemma_mod_bound(n as int, b as int);
            assert(0x400_0000 <= whole < 0x4_0000_0000) by (nonlinear_arith)
                requires
                    n == b * whole + rest,
                    0 <= rest < b,
                    0x80_0000 <= b < 0x100_0000,
                    0x80_0000 * 0x1_0000_0000 <= n < 0x100_0000 * 0x1_0000_0000,
            ;
            Self::nearest_cut(n as nat, b as nat, e as int);
        }
        let cut: u64 = if rest == 0 {
            2 * whole
        } else {
            2 * whole + 1
        };
        let magnitude: u32 = Self::round(cut, e - 1);
        Self::from_parts(negative, magnitude)
    }

    proof fn modulo_scales(a: nat, b: nat, c: nat)
        requires
            b > 0,
            c > 0,
        ensures
            (a * c) % (b * c) == (a % b) * c,
    {
        let q = a / b;
        let r = a % b;
        lemma_fundamental_div_mod(a as int, b as int);
        lemma_mod_bound(a as int, b as int);
        assert(a * c == q * (b * c) + r * c && 0 <= r * c < b * c) by (nonlinear_arith)
            requires
                a == b * q + r,
                0 <= r < b,
                c > 0,
        ;
        lemma_fundamental_div_mod_converse((a * c) as int, (b * c) as int, q as int, (r * c) as int);
    }

    /// The remainder of the division that truncates toward zero.
    pub fn remainder(self, other: Binary32) -> (r: Binary32)
        ensures
            r == self.modulo(other),
    {
        if self.is_nan() || other.is_nan() || self.is_infinite() || other.abs_bits() == 0 {
            return Binary32 { bits: NAN };
        }
        if other.is_infinite() {
            return self;
        }
        let (ma, ea) = self.unpack();
        let (mb, eb) = other.unpack();
        let negative: bool = self.is_negative();
        if ea >= eb {
            let steps: u32 = ea - eb;
            let mut rest: u64 = ma % mb;
            let mut i: u32 = 0;
            proof {
                lemma2_to64();
                assert(ma * pow2(0) == ma) by (nonlinear_arith)
                    requires
                        pow2(0) == 1,
                ;
            }
            while i < steps
                invariant
                    0 < mb < 0x100_0000,
                    i <= steps,
                    rest < mb,
                    rest == (ma * pow2(i as nat)) % (mb as int),
                decreases steps - i,
            {
                proof {
                    lemma_pow2_unfold((i + 1) as nat);
                    let x = ma * pow2(i as nat);
                    assert(ma * pow2((i + 1) as nat) == 2 * x) by (nonlinear_arith)
                        requires
                            x == ma * pow2(i as nat),
                            pow2((i + 1) as nat) == 2 * pow2(i as nat),
                    ;
                    lemma_mul_mod_noop_right(2, x as int, mb as int);
                    lemma_mod_bound(2 * rest, mb as int);
                }
                rest = (2 * rest) % mb;
                i = i + 1;
            }
            proof {
                lemma_pow2_adds(steps as nat, eb as nat);
                lemma_pow2_pos(eb as nat);
                let x = ma * pow2(steps as nat);
                lemma_mul_is_associative(
                    ma as int,
                    pow2(steps as nat) as int,
                    pow2(eb as nat) as int,
                );
                Self::modulo_scales(x as nat, mb as nat, pow2(eb as nat));
            }
            Self::from_parts(negative, Self::round(rest, eb as i32))
        } else {
            let gap: u32 = eb - ea;
            proof {
                lemma2_to64();
                lemma_pow2_adds(gap as nat, ea as nat);
                lemma_pow2_pos(ea as nat);
                lemma_pow2_pos(gap as nat);
                lemma_mul_strictly_positive(mb as int, pow2(gap as nat) as int);
                lemma_mul_is_associative(
                    mb as int,
                    pow2(gap as nat) as int,
                    pow2(ea as nat) as int,
                );
                Self::modulo_scales(ma as nat, (mb * pow2(gap as nat)) as nat, pow2(ea as nat));
            }
            if gap >= 24 {
                proof {
                    if gap > 24 {
                        lemma_pow2_strictly_increases(24, gap as nat);
                    }
                    assert(mb * pow2(gap as nat) >= 0x100_0000) by (nonlinear_arith)
                        requires
                            mb >= 1,
                            pow2(gap as nat) >= 0x100_0000,
                    ;
                    lemma_small_mod(ma as nat, (mb * pow2(gap as nat)) as nat);
                }
                Self::from_parts(negative, Self::round(ma, ea as i32))
            } else {
                proof {
                    if gap < 24 {
                        lemma_pow2_strictly_increases(gap as nat, 24);
                    }
                    assert(mb * pow2(gap as nat) <= 0x100_0000 * 0x100_0000) by (nonlinear_arith)
                        requires
                            0 <= mb <= 0x100_0000,
                            0 <= pow2(gap as nat) <= 0x100_0000,
                    ;
                }
                let divisor: u64 = mb * power_of_two(gap);
                let rest: u64 = ma % divisor;
                Self::from_parts(negative, Self::round(rest, ea as i32))
            }
        }
    }
}

} // verus!
