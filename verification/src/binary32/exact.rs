//! How far results lie from their exact values.

use crate::binary32::number::Binary32;
use crate::binary32::number::INFINITY;
use vstd::arithmetic::div_mod::*;
use vstd::arithmetic::mul::*;
use vstd::arithmetic::power2::*;
use vstd::prelude::*;

verus! {

impl Binary32 {
    /// The distance of two integers.
    pub open spec fn apart(a: int, b: int) -> int {
        if a < b {
            b - a
        } else {
            a - b
        }
    }

    proof fn near_to_is_closest(exact: int, d: nat, other: Binary32)
        requires
            d > 0,
            !other.nan(),
        ensures
            !Self::near_to(exact, d).nan(),
            Self::apart(Self::near_to(exact, d).value() * d, exact) <= Self::apart(
                other.value() * d,
                exact,
            ),
    {
        let n = if exact < 0 { (-exact) as nat } else { exact as nat };
        let r = Self::nearest(n, d);
        let u = Self::units(r);
        let uo = Self::units(other.magnitude());
        Self::units_of_zero();
        Self::nearest_is_closest(n, d, other.magnitude());
        Self::nearest_is_closest(n, d, 0);
        assert(0 * d == 0);
        assert((-(u as int)) * d == -((u * d) as int)) by (nonlinear_arith);
        assert((-(uo as int)) * d == -((uo * d) as int)) by (nonlinear_arith);
        assert(uo * d >= 0) by (nonlinear_arith);
        assert(u * d >= 0) by (nonlinear_arith);
    }

    /// No number lies nearer to the exact sum of two than their sum.
    pub proof fn sum_is_closest(a: Binary32, b: Binary32, other: Binary32)
        requires
            a.finite(),
            b.finite(),
            !other.nan(),
        ensures
            !a.sum(b).nan(),
            Self::apart(a.sum(b).value(), a.value() + b.value()) <= Self::apart(
                other.value(),
                a.value() + b.value(),
            ),
    {
        Self::sum_is_near(a, b);
        Self::near_to_is_closest(a.value() + b.value(), 1, other);
    }

    /// No number lies nearer to the exact product of two than their product.
    pub proof fn product_is_closest(a: Binary32, b: Binary32, other: Binary32)
        requires
            a.finite(),
            b.finite(),
            !other.nan(),
        ensures
            !a.product(b).nan(),
            Self::apart(a.product(b).value() * pow2(149), a.value() * b.value()) <= Self::apart(
                other.value() * pow2(149),
                a.value() * b.value(),
            ),
    {
        lemma_pow2_pos(149);
        Self::product_is_near(a, b);
        Self::near_to_is_closest(a.value() * b.value(), pow2(149), other);
    }

    /// No number lies nearer to the exact quotient of two, of which the second
    /// is positive, than their quotient.
    pub proof fn quotient_is_closest(a: Binary32, b: Binary32, other: Binary32)
        requires
            a.finite(),
            b.finite(),
            b.value() > 0,
            !other.nan(),
        ensures
            !a.quotient(b).nan(),
            Self::apart(a.quotient(b).value() * b.value(), a.value() * pow2(149))
                <= Self::apart(other.value() * b.value(), a.value() * pow2(149)),
    {
        let ua = Self::units(a.magnitude());
        let ub = Self::units(b.magnitude());
        let p = pow2(149);
        let exact = a.value() * p;
        lemma_pow2_pos(149);
        Self::units_of_zero();
        assert(b.magnitude() > 0);
        assert((-(ua as int)) * p == -((ua * p) as int)) by (nonlinear_arith);
        assert(ua * p >= 0) by (nonlinear_arith);
        if a.magnitude() > 0 {
            Self::units_increase(0, a.magnitude());
            assert(ua * p > 0) by (nonlinear_arith)
                requires
                    ua > 0,
                    p > 0,
            ;
        } else {
            assert(ua * p == 0) by (nonlinear_arith)
                requires
                    ua == 0,
            ;
            Self::nearest_of_units(0);
            Self::nearest_scales(0, 1, ub);
            assert(0 * ub == 0);
            assert(1 * ub == ub);
        }
        Self::near_to_is_closest(exact, ub, other);
        assert(a.quotient(b).value() == Self::near_to(exact, ub).value());
    }

    /// An integer of at most 24 bits times a power of two is a number, if it
    /// is small enough.
    proof fn short_integers_are_numbers(c: nat, e: nat, bound: nat) -> (magnitude: nat)
        requires
            c < 0x100_0000,
            bound < INFINITY,
            c * pow2(e) <= Self::units(bound),
        ensures
            magnitude <= bound,
            Self::units(magnitude) == c * pow2(e),
        decreases e,
    {
        lemma2_to64();
        let m: nat = if e == 0 {
            Self::units_packed(0, c);
            c
        } else if c >= 0x80_0000 {
            Self::units_packed(e, c);
            e * 0x80_0000 + c
        } else {
            lemma_pow2_unfold(e);
            let t = (e - 1) as nat;
            assert(c * pow2(e) == (2 * c) * pow2(t)) by (nonlinear_arith)
                requires
                    pow2(e) == 2 * pow2(t),
            ;
            Self::short_integers_are_numbers(2 * c, t, bound)
        };
        if m > bound {
            Self::units_increase(bound, m);
        }
        m
    }

    /// The remainder is exact: it has the sign of the dividend, is smaller than
    /// the divisor, and differs from the dividend by a multiple of the divisor.
    pub proof fn modulo_is_exact(a: Binary32, b: Binary32)
        requires
            a.finite(),
            b.finite(),
            b.value() > 0,
        ensures
            ({
                let r = a.modulo(b);
                &&& r.finite()
                &&& -b.value() < r.value() < b.value()
                &&& a.value() >= 0 ==> r.value() >= 0
                &&& a.value() <= 0 ==> r.value() <= 0
                &&& exists|n: int| a.value() == r.value() + #[trigger] (n * b.value())
            }),
    {
        let ua = Self::units(a.magnitude());
        let ub = Self::units(b.magnitude());
        let ea = Self::scale(a.magnitude());
        let eb = Self::scale(b.magnitude());
        let ma = Self::significand(a.magnitude());
        let mb = Self::significand(b.magnitude());
        Self::units_of_zero();
        let q = ua / ub;
        let rest = ua % ub;
        lemma_fundamental_div_mod(ua as int, ub as int);
        lemma_mod_bound(ua as int, ub as int);
        lemma_mul_is_commutative(ub as int, q as int);
        lemma_pow2_pos(ea);
        lemma_pow2_pos(eb);
        let m = if ea >= eb {
            // The remainder is a multiple of the scale of the divisor.
            let up = pow2((ea - eb) as nat);
            lemma_pow2_adds((ea - eb) as nat, eb);
            let k = ma * up;
            assert(ua == k * pow2(eb)) by (nonlinear_arith)
                requires
                    ua == ma * pow2(ea),
                    pow2(ea) == up * pow2(eb),
                    k == ma * up,
            ;
            let c = k - q * mb;
            assert(rest == c * pow2(eb)) by (nonlinear_arith)
                requires
                    rest == ua - q * ub,
                    ua == k * pow2(eb),
                    ub == mb * pow2(eb),
                    c == k - q * mb,
            ;
            assert(0 <= c < mb) by (nonlinear_arith)
                requires
                    0 <= c * pow2(eb) < mb * pow2(eb),
                    pow2(eb) > 0,
            ;
            Self::short_integers_are_numbers(c as nat, eb, b.magnitude())
        } else {
            // The remainder is a multiple of the scale of the dividend.
            let up = pow2((eb - ea) as nat);
            lemma_pow2_adds((eb - ea) as nat, ea);
            let c = ma - q * (mb * up);
            assert(rest == c * pow2(ea)) by (nonlinear_arith)
                requires
                    rest == ua - q * ub,
                    ua == ma * pow2(ea),
                    ub == mb * pow2(eb),
                    pow2(eb) == up * pow2(ea),
                    c == ma - q * (mb * up),
            ;
            assert(0 <= c) by (nonlinear_arith)
                requires
                    0 <= c * pow2(ea),
                    pow2(ea) > 0,
            ;
            assert(q * (mb * up) >= 0) by (nonlinear_arith);
            Self::short_integers_are_numbers(c as nat, ea, b.magnitude())
        };
        Self::nearest_of_units(m);
        assert(Self::nearest(rest, 1) == m);
        let r = a.modulo(b);
        if a.negative() {
            assert((-(q as int)) * b.value() == -((q * ub) as int)) by (nonlinear_arith)
                requires
                    b.value() == ub,
            ;
            assert(a.value() == r.value() + (-(q as int)) * b.value());
        } else {
            assert(a.value() == r.value() + q * b.value());
        }
    }

    /// The integer part of a number is the integer next to it on the side of
    /// zero, as far as 32 bits reach.
    pub proof fn truncation_goes_toward_zero(self)
        requires
            !self.nan(),
            i32::MIN < self.truncated() < i32::MAX,
        ensures
            ({
                let one = pow2(149) as int;
                let t = self.truncated() as int;
                &&& self.value() >= 0 ==> 0 <= t && t * one <= self.value() < t * one + one
                &&& self.value() <= 0 ==> t <= 0 && t * one - one < self.value() <= t * one
            }),
    {
        let one = pow2(149);
        let u = Self::units(self.magnitude());
        let q = u / one;
        lemma_pow2_pos(149);
        Self::units_of_zero();
        lemma_fundamental_div_mod(u as int, one as int);
        lemma_mod_bound(u as int, one as int);
        lemma_mul_is_commutative(one as int, q as int);
        assert((-(q as int)) * one == -((q * one) as int)) by (nonlinear_arith);
        if self.magnitude() > 0 {
            Self::units_increase(0, self.magnitude());
        } else {
            lemma_div_basics(one as int);
            assert(q == 0);
        }
    }

    /// No number lies nearer to an integer than the number made of it.
    pub proof fn integers_are_closest(i: int, other: Binary32)
        requires
            !other.nan(),
        ensures
            !Self::of_int(i).nan(),
            Self::apart(Self::of_int(i).value(), i * pow2(149)) <= Self::apart(
                other.value(),
                i * pow2(149),
            ),
    {
        let p = pow2(149);
        lemma_pow2_pos(149);
        let n = if i < 0 { (-i) as nat } else { i as nat };
        assert(i < 0 ==> i * p == -((n * p) as int)) by (nonlinear_arith)
            requires
                i < 0 ==> n == -i,
        ;
        assert(n * p >= 0) by (nonlinear_arith);
        assert(i < 0 ==> n * p > 0) by (nonlinear_arith)
            requires
                i < 0 ==> n > 0,
                p > 0,
        ;
        Self::near_to_is_closest(i * p, 1, other);
    }

    /// Of two numbers exactly one is smaller or they are the same; at most
    /// means one of the two, and what is undefined compares to nothing.
    pub proof fn numbers_are_ordered(a: Binary32, b: Binary32)
        ensures
            a.at_most(b) <==> a.below(b) || a.same(b),
            !(a.below(b) && b.below(a)),
            !(a.below(b) && a.same(b)),
            a.same(b) == b.same(a),
            !a.nan() && !b.nan() ==> a.below(b) || b.below(a) || a.same(b),
            a.nan() || b.nan() ==> !a.below(b) && !a.at_most(b) && !a.same(b),
            a.below(b) <==> b.opposite().below(a.opposite()),
    {
        Self::opposite_twice(a);
        Self::opposite_twice(b);
    }

    /// What is undefined stays so, and so do infinities that cancel.
    pub proof fn the_undefined_spreads(a: Binary32, b: Binary32)
        ensures
            a.nan() || b.nan() ==> {
                &&& a.sum(b).nan()
                &&& a.difference(b).nan()
                &&& a.product(b).nan()
                &&& a.quotient(b).nan()
                &&& a.modulo(b).nan()
            },
            a.infinite() && !b.nan() ==> {
                &&& a.sum(b).nan() <==> b.infinite() && a.negative() != b.negative()
                &&& !a.sum(b).nan() ==> a.sum(b) == a
                &&& a.product(b).nan() <==> b.magnitude() == 0
                &&& !a.product(b).nan() ==> a.product(b).infinite() && (a.product(
                    b,
                ).negative() <==> a.negative() != b.negative())
                &&& a.quotient(b).nan() <==> b.infinite()
                &&& !a.quotient(b).nan() ==> a.quotient(b).infinite()
                &&& a.modulo(b).nan()
            },
            a.finite() && b.infinite() ==> {
                &&& a.sum(b) == b
                &&& a.quotient(b).magnitude() == 0
                &&& a.modulo(b) == a
            },
            a.finite() && b.magnitude() == 0 ==> {
                &&& a.quotient(b).nan() <==> a.magnitude() == 0
                &&& a.magnitude() > 0 ==> a.quotient(b).infinite()
                &&& a.modulo(b).nan()
            },
    {
    }
}

} // verus!
