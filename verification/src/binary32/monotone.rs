//! The arithmetic keeps the order of numbers.

use crate::binary32::number::Binary32;
use vstd::arithmetic::mul::*;
use vstd::arithmetic::power2::*;
use vstd::prelude::*;

verus! {

impl Binary32 {
    /// Rounding keeps the order.
    pub proof fn nearest_is_monotone(a: nat, b: nat, d: nat)
        requires
            d > 0,
            a <= b,
        ensures
            Self::nearest(a, d) <= Self::nearest(b, d),
    {
        let ra = Self::nearest(a, d);
        let rb = Self::nearest(b, d);
        Self::nearest_is_closest(a, d, 0);
        Self::nearest_is_closest(b, d, 0);
        Self::nearest_is_closest(a, d, rb);
        Self::nearest_is_closest(b, d, ra);
        if rb < ra {
            Self::units_increase(rb, ra);
            assert(Self::units(rb) * d < Self::units(ra) * d) by (nonlinear_arith)
                requires
                    Self::units(rb) < Self::units(ra),
                    d > 0,
            ;
        }
    }

    /// The number nearest to an exact value, both in units.
    pub open spec fn near_to(exact: int, d: nat) -> Binary32 {
        if exact < 0 {
            Self::of(true, Self::nearest((-exact) as nat, d))
        } else {
            Self::of(false, Self::nearest(exact as nat, d))
        }
    }

    proof fn near_to_is_monotone(a: int, b: int, d: nat)
        requires
            d > 0,
            a <= b,
        ensures
            Self::near_to(a, d).at_most(Self::near_to(b, d)),
    {
        let na = if a < 0 { (-a) as nat } else { a as nat };
        let nb = if b < 0 { (-b) as nat } else { b as nat };
        let ra = Self::nearest(na, d);
        let rb = Self::nearest(nb, d);
        Self::nearest_is_closest(na, d, 0);
        Self::nearest_is_closest(nb, d, 0);
        Self::units_of_zero();
        if na <= nb {
            Self::nearest_is_monotone(na, nb, d);
            if ra < rb {
                Self::units_increase(ra, rb);
            }
        } else {
            Self::nearest_is_monotone(nb, na, d);
            if rb < ra {
                Self::units_increase(rb, ra);
            }
        }
    }

    pub(crate) proof fn sum_is_near(a: Binary32, b: Binary32)
        requires
            a.finite(),
            b.finite(),
        ensures
            !a.sum(b).nan(),
            a.sum(b).value() == Self::near_to(a.value() + b.value(), 1).value(),
    {
        let exact = a.value() + b.value();
        let n = if exact < 0 { (-exact) as nat } else { exact as nat };
        Self::nearest_is_closest(n, 1, 0);
        if exact == 0 {
            Self::units_of_zero();
            Self::nearest_of_units(0);
        }
    }

    /// Adding the same number keeps the order.
    pub proof fn sum_is_monotone(a: Binary32, b: Binary32, c: Binary32)
        requires
            a.finite(),
            b.finite(),
            c.finite(),
            a.at_most(b),
        ensures
            a.sum(c).at_most(b.sum(c)),
    {
        Self::sum_is_near(a, c);
        Self::sum_is_near(b, c);
        Self::near_to_is_monotone(a.value() + c.value(), b.value() + c.value(), 1);
    }

    /// Adding zero changes no value.
    pub proof fn sum_with_zero(a: Binary32)
        requires
            a.finite(),
        ensures
            a.sum(Binary32 { bits: 0 }).same(a),
    {
        Self::units_of_zero();
        Self::sum_is_near(a, Binary32 { bits: 0 });
        Self::nearest_of_units(a.magnitude());
        if a.magnitude() > 0 {
            Self::units_increase(0, a.magnitude());
        }
    }

    pub(crate) proof fn product_is_near(a: Binary32, b: Binary32)
        requires
            a.finite(),
            b.finite(),
        ensures
            !a.product(b).nan(),
            a.product(b).value() == Self::near_to(a.value() * b.value(), pow2(149)).value(),
    {
        let ua = Self::units(a.magnitude());
        let ub = Self::units(b.magnitude());
        Self::units_of_zero();
        lemma_pow2_pos(149);
        Self::nearest_is_closest(ua * ub, pow2(149), 0);
        assert((-(ua as int)) * ub == -((ua * ub) as int)) by (nonlinear_arith);
        assert(ua * (-(ub as int)) == -((ua * ub) as int)) by (nonlinear_arith);
        assert((-(ua as int)) * (-(ub as int)) == ua * ub) by (nonlinear_arith);
        assert(ua * ub >= 0) by (nonlinear_arith);
        if ua * ub == 0 {
            Self::nearest_of_units(0);
            Self::nearest_scales(0, 1, pow2(149));
            assert(0 * pow2(149) == 0);
            assert(1 * pow2(149) == pow2(149));
        }
    }

    /// Multiplying by the same number, at least zero, keeps the order.
    pub proof fn product_is_monotone(a: Binary32, b: Binary32, c: Binary32)
        requires
            a.finite(),
            b.finite(),
            c.finite(),
            a.at_most(b),
            0 <= c.value(),
        ensures
            a.product(c).at_most(b.product(c)),
    {
        lemma_pow2_pos(149);
        Self::product_is_near(a, c);
        Self::product_is_near(b, c);
        assert(a.value() * c.value() <= b.value() * c.value()) by (nonlinear_arith)
            requires
                a.value() <= b.value(),
                0 <= c.value(),
        ;
        Self::near_to_is_monotone(a.value() * c.value(), b.value() * c.value(), pow2(149));
    }

    /// Dividing numbers of at least zero by the same positive number keeps the
    /// order.
    pub proof fn quotient_is_monotone(a: Binary32, b: Binary32, c: Binary32)
        requires
            !a.negative(),
            !b.negative(),
            !c.negative(),
            a.finite(),
            b.finite(),
            c.finite(),
            c.magnitude() > 0,
            a.at_most(b),
        ensures
            a.quotient(c).at_most(b.quotient(c)),
            !a.quotient(c).negative(),
    {
        let ua = Self::units(a.magnitude());
        let ub = Self::units(b.magnitude());
        let uc = Self::units(c.magnitude());
        Self::units_of_zero();
        Self::units_increase(0, c.magnitude());
        lemma_mul_inequality(ua as int, ub as int, pow2(149) as int);
        Self::near_to_is_monotone((ua * pow2(149)) as int, (ub * pow2(149)) as int, uc);
        Self::nearest_is_closest(ua * pow2(149), uc, 0);
    }

    /// A number is nearest to its own value.
    proof fn near_to_itself(a: Binary32)
        requires
            a.finite(),
        ensures
            Self::near_to(a.value(), 1).value() == a.value(),
    {
        Self::units_of_zero();
        Self::nearest_of_units(a.magnitude());
        if a.magnitude() > 0 {
            Self::units_increase(0, a.magnitude());
        }
    }

    /// A sum lies between any two numbers between which its exact value lies.
    pub proof fn sum_stays_between(a: Binary32, b: Binary32, low: Binary32, high: Binary32)
        requires
            a.finite(),
            b.finite(),
            low.finite(),
            high.finite(),
            low.value() <= a.value() + b.value() <= high.value(),
        ensures
            low.at_most(a.sum(b)),
            a.sum(b).at_most(high),
    {
        Self::sum_is_near(a, b);
        Self::near_to_itself(low);
        Self::near_to_itself(high);
        Self::near_to_is_monotone(low.value(), a.value() + b.value(), 1);
        Self::near_to_is_monotone(a.value() + b.value(), high.value(), 1);
    }

    /// A sum has the sign of its exact value and is at most twice as large.
    pub proof fn sum_at_most_doubles(a: Binary32, b: Binary32)
        requires
            a.finite(),
            b.finite(),
        ensures
            ({
                let exact = a.value() + b.value();
                &&& !a.sum(b).nan()
                &&& 0 <= exact ==> 0 <= a.sum(b).value() <= 2 * exact
                &&& exact <= 0 ==> 2 * exact <= a.sum(b).value() <= 0
            }),
    {
        let exact = a.value() + b.value();
        let n = if exact < 0 { (-exact) as nat } else { exact as nat };
        Self::sum_is_near(a, b);
        Self::units_of_zero();
        Self::nearest_is_closest(n, 1, 0);
        assert(Self::units(0) * 1 == 0);
        assert(Self::units(Self::nearest(n, 1)) * 1 == Self::units(Self::nearest(n, 1)));
    }

    /// A product has the sign of its exact value and is at most twice as
    /// large.
    pub proof fn product_at_most_doubles(a: Binary32, b: Binary32)
        requires
            a.finite(),
            b.finite(),
        ensures
            ({
                let exact = a.value() * b.value();
                let scaled = a.product(b).value() * pow2(149);
                &&& !a.product(b).nan()
                &&& 0 <= exact ==> 0 <= scaled <= 2 * exact
                &&& exact <= 0 ==> 2 * exact <= scaled <= 0
            }),
    {
        let exact = a.value() * b.value();
        let n = if exact < 0 { (-exact) as nat } else { exact as nat };
        let p = pow2(149);
        lemma_pow2_pos(149);
        Self::product_is_near(a, b);
        Self::units_of_zero();
        Self::nearest_is_closest(n, p, 0);
        let u = Self::units(Self::nearest(n, p));
        assert(Self::units(0) * p == 0) by (nonlinear_arith)
            requires
                Self::units(0) == 0,
        ;
        assert((-(u as int)) * p == -((u * p) as int)) by (nonlinear_arith);
        assert(u * p >= 0) by (nonlinear_arith);
    }
}

} // verus!
