//! Rounding an exact value to the nearest number.

use crate::binary32::number::Binary32;
use crate::binary32::number::INFINITY;
use vstd::arithmetic::div_mod::*;
use vstd::arithmetic::mul::*;
use vstd::arithmetic::power2::*;
use vstd::prelude::*;

verus! {

/// Two to the power of `exponent`.
pub(crate) fn power_of_two(exponent: u32) -> (power: u64)
    requires
        exponent < 64,
    ensures
        power == pow2(exponent as nat),
{
    proof {
        vstd::bits::lemma_u64_pow2_no_overflow(exponent as nat);
        vstd::bits::lemma_u64_shl_is_mul(1, exponent as u64);
    }
    1u64 << exponent
}

impl Binary32 {
    /// The quotient of `n` by `d`, rounded to the nearest integer, to the even
    /// one of two that are equally near.
    pub open spec fn half_even(n: nat, d: nat) -> nat {
        let quotient = n / d;
        let rest = n % d;
        if 2 * rest < d || (2 * rest == d && quotient % 2 == 0) {
            quotient
        } else {
            quotient + 1
        }
    }

    /// The least scale at which the quotient of `n` by `d` fits in 24 bits.
    pub open spec fn binade(n: nat, d: nat) -> nat
        decreases n - d,
    {
        if d == 0 || n < d * 0x100_0000 {
            0
        } else {
            1 + Self::binade(n, 2 * d)
        }
    }

    /// The magnitude nearest to the quotient of `n` by `d`, counted in units:
    /// its significand is rounded at the scale of the quotient, and a result
    /// past the largest finite number becomes infinity.
    pub open spec fn nearest(n: nat, d: nat) -> nat {
        let scale = Self::binade(n, d);
        let magnitude = scale * 0x80_0000 + Self::half_even(n, d * pow2(scale));
        if magnitude > INFINITY {
            INFINITY as nat
        } else {
            magnitude
        }
    }

    /// The numerator of `m` times two to the power of `e`.
    pub open spec fn raised(m: nat, e: int) -> nat {
        if e >= 0 {
            m * pow2(e as nat)
        } else {
            m
        }
    }

    /// The denominator of any integer times two to the power of `e`.
    pub open spec fn lowered(e: int) -> nat {
        if e >= 0 {
            1
        } else {
            pow2((-e) as nat)
        }
    }

    pub(crate) proof fn binade_is(n: nat, d: nat, s: nat)
        requires
            d > 0,
            n < d * pow2(24 + s),
            s > 0 ==> n >= d * pow2((23 + s) as nat),
        ensures
            Self::binade(n, d) == s,
        decreases s,
    {
        lemma2_to64();
        if s == 0 {
        } else {
            lemma_pow2_unfold(24 + s);
            lemma_pow2_unfold((23 + s) as nat);
            let t = (s - 1) as nat;
            assert(23 + s == 24 + t && 22 + s == 23 + t);
            assert(d * pow2(24 + s) == (2 * d) * pow2(24 + t)) by (nonlinear_arith)
                requires
                    pow2(24 + s) == 2 * pow2(24 + t),
            ;
            if s > 1 {
                assert(d * pow2((23 + s) as nat) == (2 * d) * pow2((23 + t) as nat))
                    by (nonlinear_arith)
                    requires
                        pow2((23 + s) as nat) == 2 * pow2((23 + t) as nat),
                ;
            }
            assert(pow2((23 + s) as nat) >= 0x100_0000) by {
                if 23 + s > 24 {
                    lemma_pow2_strictly_increases(24, (23 + s) as nat);
                }
            }
            assert(n >= d * 0x100_0000) by (nonlinear_arith)
                requires
                    n >= d * pow2((23 + s) as nat),
                    pow2((23 + s) as nat) >= 0x100_0000,
                    d > 0,
            ;
            Self::binade_is(n, 2 * d, t);
        }
    }

    proof fn half_even_scales(a: nat, b: nat, c: nat)
        requires
            b > 0,
            c > 0,
        ensures
            Self::half_even(a * c, b * c) == Self::half_even(a, b),
    {
        let q = a / b;
        let r = a % b;
        lemma_fundamental_div_mod(a as int, b as int);
        lemma_mod_bound(a as int, b as int);
        assert(a * c == q * (b * c) + r * c && 0 <= r * c < b * c) by (nonlinear_arith)
            requires
                a == b * q + r,
                0 <= r < b,
                c > 0,
        ;
        lemma_fundamental_div_mod_converse((a * c) as int, (b * c) as int, q as int, (r * c) as int);
        assert(2 * (r * c) < b * c <==> 2 * r < b) by (nonlinear_arith)
            requires
                c > 0,
        ;
        assert(2 * (r * c) == b * c <==> 2 * r == b) by (nonlinear_arith)
            requires
                c > 0,
        ;
    }

    proof fn binade_scales(n: nat, d: nat, c: nat)
        requires
            d > 0,
            c > 0,
        ensures
            Self::binade(n * c, d * c) == Self::binade(n, d),
        decreases n - d,
    {
        assert(d * c > 0) by (nonlinear_arith)
            requires
                d > 0,
                c > 0,
        ;
        assert(n * c < (d * c) * 0x100_0000 <==> n < d * 0x100_0000) by (nonlinear_arith)
            requires
                c > 0,
        ;
        if n >= d * 0x100_0000 {
            Self::binade_scales(n, 2 * d, c);
            assert((2 * d) * c == 2 * (d * c)) by (nonlinear_arith);
        }
    }

    /// Only the quotient of the two arguments matters.
    pub proof fn nearest_scales(n: nat, d: nat, c: nat)
        requires
            d > 0,
            c > 0,
        ensures
            Self::nearest(n * c, d * c) == Self::nearest(n, d),
    {
        Self::binade_scales(n, d, c);
        let p = pow2(Self::binade(n, d));
        lemma_pow2_pos(Self::binade(n, d));
        assert(d * p > 0) by (nonlinear_arith)
            requires
                d > 0,
                p > 0,
        ;
        Self::half_even_scales(n, d * p, c);
        assert((d * p) * c == (d * c) * p) by (nonlinear_arith);
    }

    /// The significand of the quotient of `m` by `d`, times two to the power of
    /// `e`, at the scale `s`.
    pub(crate) proof fn half_even_at(m: nat, d: nat, e: int, s: nat)
        requires
            d > 0,
        ensures
            s >= e ==> Self::half_even(Self::raised(m, e), d * Self::lowered(e) * pow2(s))
                == Self::half_even(m, d * pow2((s - e) as nat)),
            s < e && d == 1 ==> Self::half_even(
                Self::raised(m, e),
                d * Self::lowered(e) * pow2(s),
            ) == m * pow2((e - s) as nat),
    {
        lemma_pow2_pos(s);
        if e < 0 {
            lemma_pow2_adds((-e) as nat, s);
            lemma_mul_is_associative(d as int, pow2((-e) as nat) as int, pow2(s) as int);
        } else if s >= e {
            let t = pow2((s - e) as nat);
            lemma_pow2_adds((s - e) as nat, e as nat);
            lemma_pow2_pos(e as nat);
            lemma_pow2_pos((s - e) as nat);
            lemma_mul_is_associative(d as int, t as int, pow2(e as nat) as int);
            lemma_mul_strictly_positive(d as int, t as int);
            Self::half_even_scales(m, d * t, pow2(e as nat));
        } else {
            lemma_pow2_adds((e - s) as nat, s);
            let x = m * pow2((e - s) as nat);
            assert(m * pow2(e as nat) == x * pow2(s)) by (nonlinear_arith)
                requires
                    x == m * pow2((e - s) as nat),
                    pow2(e as nat) == pow2((e - s) as nat) * pow2(s),
            ;
            Self::half_even_scales(x, 1, pow2(s));
        }
    }

    /// The scale of a quotient of `len` bits, times two to the power of `e`.
    pub(crate) proof fn binade_of(m: nat, d: nat, len: nat, e: int)
        requires
            d > 0,
            len > 0,
            d * pow2((len - 1) as nat) <= m < d * pow2(len),
        ensures
            Self::binade(Self::raised(m, e), d * Self::lowered(e)) == if len + e > 24 {
                len + e - 24
            } else {
                0
            },
    {
        let s = (if len + e > 24 {
            len + e - 24
        } else {
            0
        }) as nat;
        let n = Self::raised(m, e);
        let low = pow2((len - 1) as nat);
        let high = pow2(len);
        if e >= 0 {
            let u = pow2(e as nat);
            lemma_pow2_pos(e as nat);
            lemma_pow2_adds(len, e as nat);
            lemma_pow2_adds((len - 1) as nat, e as nat);
            assert(d * (low * u) <= m * u < d * (high * u)) by (nonlinear_arith)
                requires
                    d * low <= m < d * high,
                    u > 0,
            ;
            if len + e < 24 + s {
                lemma_pow2_strictly_increases((len + e) as nat, 24 + s);
            }
            assert(d * (high * u) <= d * pow2(24 + s)) by (nonlinear_arith)
                requires
                    high * u <= pow2(24 + s),
                    d > 0,
            ;
            assert(d * Self::lowered(e) == d) by (nonlinear_arith)
                requires
                    Self::lowered(e) == 1,
            ;
            Self::binade_is(n, d, s);
        } else {
            let v = pow2((-e) as nat);
            lemma_pow2_pos((-e) as nat);
            lemma_pow2_adds((-e) as nat, 24 + s);
            let top = (24 + s - e) as nat;
            assert(len <= top);
            if len < top {
                lemma_pow2_strictly_increases(len, top);
            }
            assert(m < (d * v) * pow2(24 + s)) by (nonlinear_arith)
                requires
                    m < d * high,
                    high <= v * pow2(24 + s),
                    d > 0,
            ;
            if s > 0 {
                lemma_pow2_adds((-e) as nat, (23 + s) as nat);
                assert(23 + s - e == len - 1);
                assert(m >= (d * v) * pow2((23 + s) as nat)) by (nonlinear_arith)
                    requires
                        m >= d * low,
                        low == v * pow2((23 + s) as nat),
                ;
            }
            lemma_mul_strictly_positive(d as int, v as int);
            Self::binade_is(n, d * v, s);
        }
    }

    /// Rounds `m` times two to the power of `e` units to the nearest magnitude.
    pub fn round(m: u64, e: i32) -> (magnitude: u32)
        requires
            m < 0x4000_0000_0000_0000,
            -1000 <= e <= 1000,
        ensures
            magnitude == Self::nearest(Self::raised(m as nat, e as int), Self::lowered(e as int)),
    {
        if m == 0 {
            proof {
                lemma2_to64();
                assert(Self::raised(0, e as int) == 0);
                if e < 0 {
                    lemma_pow2_pos((-e) as nat);
                }
                assert(Self::binade(0, Self::lowered(e as int)) == 0);
                Self::half_even_at(0, 1, e as int, 0);
                if e <= 0 {
                    lemma_pow2_pos((-e) as nat);
                    lemma_div_basics_1(pow2((-e) as nat) as int);
                    lemma_small_mod(0, pow2((-e) as nat));
                }
            }
            return 0;
        }
        let mut len: u32 = 0;
        let mut power: u64 = 1;
        proof {
            lemma2_to64();
            lemma2_to64_rest();
        }
        while power <= m
            invariant
                m > 0,
                m < 0x4000_0000_0000_0000,
                len <= 62,
                power == pow2(len as nat),
                len > 0 ==> pow2((len - 1) as nat) <= m,
            decreases 62 - len,
        {
            proof {
                lemma2_to64_rest();
                lemma_pow2_unfold((len + 1) as nat);
                if len == 62 {
                    assert(pow2(62) == 0x4000_0000_0000_0000) by {
                        lemma2_to64_rest();
                    }
                }
            }
            power = power * 2;
            len = len + 1;
        }
        let reach: i32 = len as i32 + e;
        let s: i32 = if reach > 24 {
            reach - 24
        } else {
            0
        };
        let shift: i32 = s - e;
        proof {
            Self::binade_of(m as nat, 1, len as nat, e as int);
            Self::half_even_at(m as nat, 1, e as int, s as nat);
            assert(1 * Self::lowered(e as int) == Self::lowered(e as int));
            if s >= e {
                assert(1 * pow2((s - e) as nat) == pow2((s - e) as nat));
            }
        }
        let ghost rounded = Self::half_even(
            Self::raised(m as nat, e as int),
            Self::lowered(e as int) * pow2(s as nat),
        );
        let significand: u64 = if shift <= 0 {
            let up: u32 = (-shift) as u32;
            proof {
                assert(len + up <= 24);
                lemma_pow2_adds(len as nat, up as nat);
                if len + up < 24 {
                    lemma_pow2_strictly_increases((len + up) as nat, 24);
                }
                lemma_pow2_pos(up as nat);
                assert(m * pow2(up as nat) < pow2(len as nat) * pow2(up as nat)) by (nonlinear_arith)
                    requires
                        m < pow2(len as nat),
                        pow2(up as nat) > 0,
                ;
                if shift == 0 {
                    assert(m as nat / 1 == m && m as nat % 1 == 0);
                    assert(Self::half_even(m as nat, 1) == m);
                }
                assert(rounded == m * pow2(up as nat));
            }
            m * power_of_two(up)
        } else if shift >= 63 {
            proof {
                if shift > 63 {
                    lemma_pow2_strictly_increases(63, shift as nat);
                }
                lemma_basic_div(m as int, pow2(shift as nat) as int);
                lemma_small_mod(m as nat, pow2(shift as nat));
            }
            0
        } else {
            let divisor: u64 = power_of_two(shift as u32);
            proof {
                vstd::bits::lemma_u64_pow2_no_overflow(shift as nat);
                if shift < 63 {
                    lemma_pow2_strictly_increases(shift as nat, 63);
                }
            }
            let quotient: u64 = m / divisor;
            let rest: u64 = m % divisor;
            proof {
                lemma_mod_bound(m as int, divisor as int);
                lemma_div_nonincreasing(m as int, divisor as int);
            }
            if 2 * rest < divisor || (2 * rest == divisor && quotient % 2 == 0) {
                quotient
            } else {
                quotient + 1
            }
        };
        assert(significand == rounded);
        let magnitude: u64 = s as u64 * 0x80_0000 + significand;
        if magnitude > INFINITY as u64 {
            INFINITY
        } else {
            magnitude as u32
        }
    }
}

} // verus!
