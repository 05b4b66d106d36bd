//! What holds of the arithmetic as a whole.

use crate::binary32::number::Binary32;
use crate::binary32::number::INFINITY;
use vstd::arithmetic::div_mod::*;
use vstd::arithmetic::mul::*;
use vstd::arithmetic::power2::*;
use vstd::prelude::*;

verus! {

impl Binary32 {
    /// How far a magnitude lies from the quotient of `n` by `d`, in units
    /// times `d`.
    pub open spec fn distance(magnitude: nat, n: nat, d: nat) -> nat {
        let x = Self::units(magnitude) * d;
        if x >= n {
            (x - n) as nat
        } else {
            (n - x) as nat
        }
    }

    pub(crate) proof fn units_packed(s: nat, k: nat)
        requires
            k <= 0x100_0000,
            s > 0 ==> k >= 0x80_0000,
        ensures
            Self::units(s * 0x80_0000 + k) == k * pow2(s),
    {
        lemma2_to64();
        let m = s * 0x80_0000 + k;
        if k == 0x100_0000 {
            assert(m == (s + 2) * 0x80_0000);
            assert(Self::significand(m) == 0x80_0000);
            assert(Self::scale(m) == s + 1);
            lemma_pow2_unfold(s + 1);
            assert(0x80_0000 * pow2(s + 1) == k * pow2(s));
        } else if m >= 0x80_0000 {
            assert(Self::significand(m) == k);
            assert(Self::scale(m) == s);
        }
    }

    /// No integer lies nearer to a quotient than its rounding, and of two that
    /// are equally near the rounding is the even one.
    proof fn half_even_closest(n: nat, d: nat, j: nat)
        requires
            d > 0,
        ensures
            ({
                let k = Self::half_even(n, d);
                let mine = if k * d >= n { k * d - n } else { n - k * d };
                let theirs = if j * d >= n { j * d - n } else { n - j * d };
                &&& mine <= theirs
                &&& 2 * mine <= d
                &&& j != k && mine == theirs ==> k % 2 == 0
            }),
    {
        let q = n / d;
        let r = n % d;
        let k = Self::half_even(n, d);
        lemma_fundamental_div_mod(n as int, d as int);
        lemma_mod_bound(n as int, d as int);
        lemma_mul_is_commutative(d as int, q as int);
        assert((q + 1) * d == q * d + d) by (nonlinear_arith);
        if j <= q {
            assert(j * d <= q * d) by (nonlinear_arith)
                requires
                    j <= q,
                    d > 0,
            ;
            if j < q {
                assert(j * d <= q * d - d) by (nonlinear_arith)
                    requires
                        j + 1 <= q,
                        d > 0,
                ;
            }
        } else {
            assert(j * d >= (q + 1) * d) by (nonlinear_arith)
                requires
                    j >= q + 1,
                    d > 0,
            ;
            if j > q + 1 {
                assert(j * d >= (q + 1) * d + d) by (nonlinear_arith)
                    requires
                        j >= q + 2,
                        d > 0,
                ;
            }
        }
    }

    proof fn binade_bounds(n: nat, d: nat)
        requires
            d > 0,
        ensures
            ({
                let s = Self::binade(n, d);
                &&& n < (d * pow2(s)) * 0x100_0000
                &&& s > 0 ==> n >= (d * pow2(s)) * 0x80_0000
            }),
        decreases n - d,
    {
        lemma2_to64();
        if n < d * 0x100_0000 {
            assert(d * pow2(0) == d) by (nonlinear_arith)
                requires
                    pow2(0) == 1,
            ;
        } else {
            let s = Self::binade(n, d);
            let t = (s - 1) as nat;
            Self::binade_bounds(n, 2 * d);
            lemma_pow2_unfold(s);
            assert(d * pow2(s) == (2 * d) * pow2(t)) by (nonlinear_arith)
                requires
                    pow2(s) == 2 * pow2(t),
            ;
            if t == 0 {
                assert((2 * d) * pow2(t) == 2 * d) by (nonlinear_arith)
                    requires
                        pow2(t) == 1,
                ;
            }
        }
    }

    /// Rounding returns the closest number there is: no magnitude up to
    /// infinity lies nearer to the exact quotient, and of two that are equally
    /// near the one with the even last bit is returned.
    pub proof fn nearest_is_closest(n: nat, d: nat, other: nat)
        requires
            d > 0,
            other <= INFINITY,
        ensures
            Self::nearest(n, d) <= INFINITY,
            Self::distance(Self::nearest(n, d), n, d) <= Self::distance(other, n, d),
            other != Self::nearest(n, d) && Self::distance(Self::nearest(n, d), n, d)
                == Self::distance(other, n, d) ==> Self::nearest(n, d) % 2 == 0,
    {
        let s = Self::binade(n, d);
        let p = pow2(s);
        let dd = d * p;
        let k = Self::half_even(n, dd);
        let r = Self::nearest(n, d);
        let uo = Self::units(other);
        lemma2_to64();
        lemma_pow2_pos(s);
        lemma_mul_strictly_positive(d as int, p as int);
        Self::binade_bounds(n, d);
        Self::half_even_closest(n, dd, 0x80_0000);
        Self::half_even_closest(n, dd, 0x100_0000);
        // The significand has at most 24 bits, and exactly so above the lowest scale.
        assert(k <= 0x100_0000) by {
            if k > 0x100_0000 {
                assert(k * dd >= 0x100_0000 * dd + dd) by (nonlinear_arith)
                    requires
                        k >= 0x100_0001,
                        dd > 0,
                ;
            }
        }
        if s > 0 {
            assert(k >= 0x80_0000) by {
                if k < 0x80_0000 {
                    assert(k * dd <= 0x80_0000 * dd - dd) by (nonlinear_arith)
                        requires
                            k + 1 <= 0x80_0000,
                            dd > 0,
                    ;
                }
            }
        }
        Self::units_packed(s, k);
        if s * 0x80_0000 + k > INFINITY {
            // The quotient is at least the value of infinity.
            Self::units_packed(254, 0x80_0000);
            assert(INFINITY == 254 * 0x80_0000 + 0x80_0000);
            let top = Self::units(INFINITY as nat);
            assert(top == 0x80_0000 * pow2(254));
            assert(s >= 254);
            if s > 254 {
                lemma_pow2_strictly_increases(254, s);
            }
            assert(n >= top * d) by {
                assert(0x80_0000 * dd >= top * d) by (nonlinear_arith)
                    requires
                        top == 0x80_0000 * pow2(254),
                        pow2(254) <= p,
                        dd == d * p,
                ;
            }
            if other < INFINITY {
                Self::units_increase(other, INFINITY as nat);
                assert(uo * d < top * d) by (nonlinear_arith)
                    requires
                        uo < top,
                        d > 0,
                ;
            }
        } else {
            assert(Self::units(r) * d == k * dd) by (nonlinear_arith)
                requires
                    Self::units(r) == k * p,
                    dd == d * p,
            ;
            let so = Self::scale(other);
            let mo = Self::significand(other);
            if so >= s {
                let up = pow2((so - s) as nat);
                let j = mo * up;
                lemma_pow2_adds((so - s) as nat, s);
                assert(uo * d == j * dd) by (nonlinear_arith)
                    requires
                        uo == mo * pow2(so),
                        pow2(so) == up * p,
                        j == mo * up,
                        dd == d * p,
                ;
                Self::half_even_closest(n, dd, j);
                if j == k {
                    assert(uo == Self::units(r)) by {
                        assert(uo == j * p) by (nonlinear_arith)
                            requires
                                uo == mo * pow2(so),
                                pow2(so) == up * p,
                                j == mo * up,
                        ;
                    }
                    if other < r {
                        Self::units_increase(other, r);
                    }
                    if r < other {
                        Self::units_increase(r, other);
                    }
                } else {
                    assert(r % 2 == k % 2);
                }
            } else {
                // A smaller scale: the number lies below every number of this one.
                lemma_pow2_adds(so, (s - so) as nat);
                lemma_pow2_unfold((s - so) as nat);
                lemma_pow2_pos(so);
                lemma_pow2_pos((s - so - 1) as nat);
                let half = pow2((s - so - 1) as nat);
                assert(uo * d < 0x80_0000 * dd) by (nonlinear_arith)
                    requires
                        uo == mo * pow2(so),
                        mo < 0x100_0000,
                        p == pow2(so) * (2 * half),
                        half >= 1,
                        pow2(so) > 0,
                        dd == d * p,
                        d > 0,
                {
                    assert(uo < 0x100_0000 * pow2(so));
                    assert(0x80_0000 * p >= 0x100_0000 * pow2(so));
                    assert(uo * d < (0x80_0000 * p) * d);
                }
            }
        }
    }

    /// Rounding a number that is representable changes nothing.
    pub proof fn nearest_of_units(magnitude: nat)
        requires
            magnitude <= INFINITY,
        ensures
            Self::nearest(Self::units(magnitude), 1) == magnitude,
    {
        let n = Self::units(magnitude);
        let r = Self::nearest(n, 1);
        Self::nearest_is_closest(n, 1, magnitude);
        assert(n * 1 == n);
        assert(Self::units(r) * 1 == Self::units(r));
        if r < magnitude {
            Self::units_increase(r, magnitude);
        }
        if magnitude < r {
            Self::units_increase(magnitude, r);
        }
    }

    /// Addition commutes.
    pub proof fn sum_commutes(a: Binary32, b: Binary32)
        ensures
            a.sum(b) == b.sum(a),
    {
    }

    /// Multiplication commutes.
    pub proof fn product_commutes(a: Binary32, b: Binary32)
        ensures
            a.product(b) == b.product(a),
    {
        lemma_mul_is_commutative(
            Self::units(a.magnitude()) as int,
            Self::units(b.magnitude()) as int,
        );
    }

    /// Changing the sign twice gives the number back.
    pub proof fn opposite_twice(a: Binary32)
        ensures
            a.opposite().opposite() == a,
            a.opposite().value() == -a.value(),
    {
    }

    /// A number minus itself is zero, unless it is infinite or undefined.
    pub proof fn difference_with_itself(a: Binary32)
        requires
            a.finite(),
        ensures
            a.difference(a) == (Binary32 { bits: 0 }),
    {
        Self::opposite_twice(a);
    }
}

} // verus!
