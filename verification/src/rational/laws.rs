//! What the arithmetic of `Rational` means for the numbers it stands for.
use crate::rational::gcd::{gcd, lemma_gcd_reduced};
use crate::rational::{magnitude, ratio, Rational, LIMIT};
use crate::rational::ints::{
    lemma_factors_positive, lemma_multiple, lemma_product_order, lemma_product_sign,
    lemma_quotient_of_multiple, lemma_reduced_parts, lemma_units, lemma_within_scaled,
};
use crate::rational::reals::{
    lemma_real_cancel, lemma_real_combine, lemma_real_cross, lemma_real_div_cancel,
    lemma_real_negate, lemma_real_product_sign, lemma_real_quotient,
};
use vstd::prelude::*;
use vstd::std_specs::ops::{AddSpec, DivSpec, MulSpec, NegSpec, SubSpec};

verus! {

/// Casting to a real commutes with multiplication.
pub proof fn lemma_real_of_product(a: int, b: int)
    ensures
        (a * b) as real == (a as real) * (b as real),
{
    assert((a * b) as real == (a as real) * (b as real)) by (nonlinear_arith);
}

/// A fraction times its denominator is its numerator.
pub proof fn lemma_ratio_times(n: int, d: int)
    requires
        d != 0,
    ensures
        ratio(n, d) * (d as real) == n as real,
{
    reveal(ratio);
    lemma_real_div_cancel(n as real, d as real);
}

/// Two fractions with positive denominators compare as their cross products.
pub proof fn lemma_ratio_cross(n: int, d: int, m: int, e: int)
    requires
        d > 0,
        e > 0,
    ensures
        (ratio(n, d) == ratio(m, e)) <==> (n * e == m * d),
        (ratio(n, d) < ratio(m, e)) <==> (n * e < m * d),
        (ratio(n, d) <= ratio(m, e)) <==> (n * e <= m * d),
{
    lemma_ratio_times(n, d);
    lemma_ratio_times(m, e);
    lemma_real_of_product(n, e);
    lemma_real_of_product(m, d);
    lemma_real_cross(ratio(n, d), ratio(m, e), d as real, e as real, n as real, m as real);
}

/// The sum, the difference and the product of two fractions.
pub proof fn lemma_ratio_add(n: int, d: int, m: int, e: int)
    requires
        d > 0,
        e > 0,
    ensures
        d * e > 0,
        ratio(n * e + m * d, d * e) == ratio(n, d) + ratio(m, e),
        ratio(n * e - m * d, d * e) == ratio(n, d) - ratio(m, e),
        ratio(n * m, d * e) == ratio(n, d) * ratio(m, e),
{
    let x = ratio(n, d);
    let y = ratio(m, e);
    let dr = d as real;
    let er = e as real;
    lemma_product_sign(d, e);
    lemma_ratio_times(n, d);
    lemma_ratio_times(m, e);
    lemma_ratio_times(n * e + m * d, d * e);
    lemma_ratio_times(n * e - m * d, d * e);
    lemma_ratio_times(n * m, d * e);
    lemma_real_of_product(n, e);
    lemma_real_of_product(m, d);
    lemma_real_of_product(d, e);
    lemma_real_of_product(n, m);
    lemma_real_combine(x, y, dr, er, n as real, m as real);
    lemma_real_product_sign(dr, er);
    lemma_real_cancel(ratio(n * e + m * d, d * e), x + y, dr * er);
    lemma_real_cancel(ratio(n * e - m * d, d * e), x - y, dr * er);
    lemma_real_cancel(ratio(n * m, d * e), x * y, dr * er);
}

/// The quotient of two fractions with a divisor that is not 0.
pub proof fn lemma_ratio_div(n: int, d: int, m: int, e: int)
    requires
        d > 0,
        e > 0,
        m != 0,
    ensures
        d * m != 0,
        m > 0 ==> d * m > 0,
        m < 0 ==> d * m < 0,
        ratio(m, e) != 0real,
        ratio(n * e, d * m) == ratio(n, d) / ratio(m, e),
{
    let x = ratio(n, d);
    let y = ratio(m, e);
    let dr = d as real;
    let mr = m as real;
    lemma_product_sign(d, m);
    lemma_ratio_times(n, d);
    lemma_ratio_times(m, e);
    lemma_ratio_times(n * e, d * m);
    lemma_real_of_product(n, e);
    lemma_real_of_product(d, m);
    lemma_real_quotient(x, y, dr, e as real, n as real, mr);
    lemma_real_product_sign(dr, mr);
    lemma_real_cancel(ratio(n * e, d * m), x / y, dr * mr);
}

/// Negating numerator and denominator, or only the numerator.
pub proof fn lemma_ratio_neg(n: int, d: int)
    requires
        d != 0,
    ensures
        ratio(-n, -d) == ratio(n, d),
        ratio(-n, d) == -ratio(n, d),
{
    let x = ratio(n, d);
    let y = ratio(-n, -d);
    let z = ratio(-n, d);
    let dr = d as real;
    lemma_ratio_times(n, d);
    lemma_ratio_times(-n, -d);
    lemma_ratio_times(-n, d);
    lemma_real_negate(y, dr);
    lemma_real_negate(x, dr);
    lemma_real_cancel(y, x, dr);
    lemma_real_cancel(z, -x, dr);
}

/// 1 has nothing in common with any number.
proof fn lemma_gcd_with_one(a: nat)
    ensures
        gcd(a, 1) == 1,
{
    assert(a % 1 == 0);
    assert(gcd(1, 0) == 1);
}

impl Rational {
    /// Lowest terms are well formed; when they fit they stand for `n / d`,
    /// and they fit whenever `n` and `d` themselves do.
    pub proof fn lemma_reduced(n: int, d: int)
        requires
            d > 0,
        ensures
            Rational::reduced(n, d).wf(),
            Rational::reduced(n, d).finite() ==> Rational::reduced(n, d).value() == ratio(n, d),
            -LIMIT <= n <= LIMIT && d <= LIMIT ==> Rational::reduced(n, d).finite(),
            gcd(magnitude(n), d as nat) == 1 && -LIMIT <= n <= LIMIT && d <= LIMIT
                ==> Rational::reduced(n, d) == Rational::raw(n, d),
    {
        reveal(Rational::reduced);
        let m = magnitude(n);
        let g = gcd(m, d as nat);
        lemma_gcd_reduced(m, d as nat);
        let qn = (m / g) as int;
        let qd = (d as nat / g) as int;
        lemma_factors_positive(d, g as int, qd);
        let r = Rational::reduced(n, d);
        Rational::lemma_raw(0, 0);
        if qn <= LIMIT && qd <= LIMIT {
            let sn = if n < 0 {
                -qn
            } else {
                qn
            };
            Rational::lemma_raw(sn, qd);
            assert(magnitude(sn) == qn);
            lemma_reduced_parts(n, d, m as int, g as int, qn, qd, sn);
            lemma_ratio_cross(sn, qd, n, d);
        }
        if g == 1 {
            lemma_units(qn);
            lemma_units(qd);
        }
    }

    /// A fraction of any two integers with a denominator that is not 0 is
    /// well formed; when it is a number it stands for `n / d`, and it is a
    /// number whenever `n` and `d` themselves fit.
    pub proof fn lemma_fraction(n: int, d: int)
        requires
            d != 0,
        ensures
            Rational::fraction(n, d).wf(),
            Rational::fraction(n, d).finite() ==> Rational::fraction(n, d).value() == ratio(n, d),
            -LIMIT <= n <= LIMIT && -LIMIT <= d <= LIMIT ==> Rational::fraction(n, d).finite(),
    {
        lemma_ratio_neg(n, d);
        if d > 0 {
            Rational::lemma_reduced(n, d);
        } else {
            Rational::lemma_reduced(-n, -d);
        }
    }

    /// An integer that fits is stored as itself over 1.
    pub proof fn lemma_integer(i: int)
        requires
            -LIMIT <= i <= LIMIT,
        ensures
            Rational::reduced(i, 1) == Rational::raw(i, 1),
            Rational::reduced(i, 1).wf(),
            Rational::reduced(i, 1).finite(),
            Rational::reduced(i, 1).numer() == i,
            Rational::reduced(i, 1).denom() == 1,
            Rational::reduced(i, 1).value() == i as real,
    {
        lemma_gcd_with_one(magnitude(i));
        Rational::lemma_reduced(i, 1);
        Rational::lemma_raw(i, 1);
        lemma_ratio_times(i, 1);
    }

    /// An integer beyond the limit is not a number.
    pub proof fn lemma_integer_too_large(i: int)
        requires
            i < -LIMIT || i > LIMIT,
        ensures
            Rational::reduced(i, 1) == Rational::nan_spec(),
    {
        reveal(Rational::reduced);
        lemma_gcd_with_one(magnitude(i));
        assert(magnitude(i) / 1 == magnitude(i));
    }

    /// A fraction whose denominator exceeds the limit even after all that
    /// the numerator could cancel is not a number.
    pub proof fn lemma_fraction_too_fine(n: int, d: int)
        requires
            n != 0,
            d > magnitude(n) * LIMIT,
        ensures
            Rational::reduced(n, d) == Rational::nan_spec(),
    {
        reveal(Rational::reduced);
        let m = magnitude(n);
        lemma_product_sign(m as int, LIMIT as int);
        let g = gcd(m, d as nat);
        lemma_gcd_reduced(m, d as nat);
        let qn = (m / g) as int;
        let qd = (d as nat / g) as int;
        lemma_factors_positive(m as int, g as int, qn);
        lemma_product_sign(g as int, qn);
        lemma_multiple(m as int, qn, g as int);
        lemma_factors_positive(d, g as int, qd);
        if qd <= LIMIT {
            lemma_product_order(g as int, m as int, qd);
            lemma_product_order(qd, LIMIT as int, m as int);
        }
    }

    /// The fraction 0 over anything positive is the number 0.
    pub proof fn lemma_zero_fraction(d: int)
        requires
            d > 0,
        ensures
            Rational::reduced(0, d) == Rational::zero_spec(),
    {
        reveal(Rational::reduced);
        assert(gcd(0, d as nat) == d) by {
            assert(0nat % (d as nat) == 0);
            assert(gcd(d as nat, 0) == d);
        }
        assert(magnitude(0) == 0);
        assert(0nat / (d as nat) == 0);
        lemma_quotient_of_multiple(1, d);
    }

    /// The non-finite value is well formed, and it is the only one.
    pub proof fn lemma_nan(self)
        ensures
            Rational::nan_spec().wf(),
            !Rational::nan_spec().finite(),
            self.wf() && !self.finite() ==> self == Rational::nan_spec(),
    {
        Rational::lemma_raw(0, 0);
        if self.wf() && !self.finite() {
            self.lemma_same(Rational::nan_spec());
        }
    }

    /// 0 and 1 are the numbers 0 and 1.
    pub proof fn lemma_zero_one()
        ensures
            Rational::zero_spec().wf(),
            Rational::zero_spec().finite(),
            Rational::zero_spec().value() == 0real,
            Rational::zero_spec().numer() == 0,
            Rational::zero_spec().denom() == 1,
            Rational::one_spec().wf(),
            Rational::one_spec().finite(),
            Rational::one_spec().value() == 1real,
            Rational::one_spec().numer() == 1,
            Rational::one_spec().denom() == 1,
    {
        Rational::lemma_raw(0, 1);
        Rational::lemma_raw(1, 1);
        assert(0nat % 1nat == 0);
        assert(1nat % 1nat == 0);
        assert(gcd(1, 0) == 1);
        assert(gcd(0, 1) == 1);
        assert(gcd(1, 1) == 1);
        lemma_ratio_times(0, 1);
        lemma_ratio_times(1, 1);
    }

    /// Every number lies between the smallest and the largest number.
    pub proof fn lemma_extremes(x: Rational)
        requires
            x.wf(),
            x.finite(),
        ensures
            Rational::max_spec().wf(),
            Rational::max_spec().finite(),
            Rational::min_spec().wf(),
            Rational::min_spec().finite(),
            Rational::min_spec().value() <= x.value() <= Rational::max_spec().value(),
    {
        let l = LIMIT as int;
        Rational::lemma_raw(l, 1);
        Rational::lemma_raw(-l, 1);
        lemma_gcd_with_one(l as nat);
        assert(magnitude(-l) == l as nat);
        assert(magnitude(l) == l as nat);
        let n = x.numer();
        let d = x.denom();
        lemma_ratio_cross(n, d, l, 1);
        lemma_ratio_cross(-l, 1, n, d);
        lemma_within_scaled(n, d, l);
    }

    /// A finite sum is the sum of the values.
    pub proof fn lemma_add(self, rhs: Rational)
        requires
            self.wf(),
            rhs.wf(),
        ensures
            self.add_spec(rhs).wf(),
            self.add_spec(rhs).finite() ==> self.finite() && rhs.finite() && self.add_spec(
                rhs,
            ).value() == self.value() + rhs.value(),
    {
        self.lemma_nan();
        if self.finite() && rhs.finite() {
            lemma_ratio_add(self.numer(), self.denom(), rhs.numer(), rhs.denom());
            Rational::lemma_reduced(
                self.numer() * rhs.denom() + rhs.numer() * self.denom(),
                self.denom() * rhs.denom(),
            );
        }
    }

    /// A finite difference is the difference of the values.
    pub proof fn lemma_sub(self, rhs: Rational)
        requires
            self.wf(),
            rhs.wf(),
        ensures
            self.sub_spec(rhs).wf(),
            self.sub_spec(rhs).finite() ==> self.finite() && rhs.finite() && self.sub_spec(
                rhs,
            ).value() == self.value() - rhs.value(),
    {
        self.lemma_nan();
        if self.finite() && rhs.finite() {
            lemma_ratio_add(self.numer(), self.denom(), rhs.numer(), rhs.denom());
            Rational::lemma_reduced(
                self.numer() * rhs.denom() - rhs.numer() * self.denom(),
                self.denom() * rhs.denom(),
            );
        }
    }

    /// A finite product is the product of the values.
    pub proof fn lemma_mul(self, rhs: Rational)
        requires
            self.wf(),
            rhs.wf(),
        ensures
            self.mul_spec(rhs).wf(),
            self.mul_spec(rhs).finite() ==> self.finite() && rhs.finite() && self.mul_spec(
                rhs,
            ).value() == self.value() * rhs.value(),
    {
        self.lemma_nan();
        if self.finite() && rhs.finite() {
            lemma_ratio_add(self.numer(), self.denom(), rhs.numer(), rhs.denom());
            Rational::lemma_reduced(self.numer() * rhs.numer(), self.denom() * rhs.denom());
        }
    }

    /// A finite quotient has a non-zero divisor and is the quotient of the
    /// values.
    pub proof fn lemma_div(self, rhs: Rational)
        requires
            self.wf(),
            rhs.wf(),
        ensures
            self.div_spec(rhs).wf(),
            self.div_spec(rhs).finite() ==> self.finite() && rhs.finite() && rhs.value() != 0real
                && self.div_spec(rhs).value() == self.value() / rhs.value(),
    {
        self.lemma_nan();
        if self.finite() && rhs.finite() {
            let n = self.numer() * rhs.denom();
            let d = self.denom() * rhs.numer();
            if rhs.numer() != 0 {
                lemma_ratio_div(self.numer(), self.denom(), rhs.numer(), rhs.denom());
                lemma_ratio_neg(n, d);
                if rhs.numer() > 0 {
                    Rational::lemma_reduced(n, d);
                } else {
                    Rational::lemma_reduced(-n, -d);
                }
            } else {
                lemma_product_sign(self.denom(), rhs.numer());
            }
        }
    }

    /// The sign of a number is the sign of its numerator.
    pub proof fn lemma_sign(self)
        requires
            self.wf(),
            self.finite(),
        ensures
            self.denom() > 0,
            self.value() > 0real <==> self.numer() > 0,
            self.value() < 0real <==> self.numer() < 0,
            self.value() == 0real <==> self.numer() == 0,
    {
        lemma_ratio_cross(self.numer(), self.denom(), 0, 1);
        lemma_ratio_cross(0, 1, self.numer(), self.denom());
        lemma_ratio_times(0, 1);
    }

    /// Comparisons of numbers are comparisons of their values.
    pub proof fn lemma_order(self, rhs: Rational)
        requires
            self.wf(),
            rhs.wf(),
        ensures
            self.lt_spec(rhs) <==> self.finite() && rhs.finite() && self.value() < rhs.value(),
            self.le_spec(rhs) <==> self.finite() && rhs.finite() && self.value() <= rhs.value(),
    {
        if self.finite() && rhs.finite() {
            lemma_ratio_cross(self.numer(), self.denom(), rhs.numer(), rhs.denom());
        }
    }

    /// Negation and magnitude keep finiteness and act on the value.
    pub proof fn lemma_neg_abs(self)
        requires
            self.wf(),
        ensures
            self.neg_spec().wf(),
            self.neg_spec().finite() == self.finite(),
            self.neg_spec().value() == -self.value(),
            self.abs_spec().wf(),
            self.abs_spec().finite() == self.finite(),
            self.abs_spec().value() == (if self.value() < 0real {
                -self.value()
            } else {
                self.value()
            }),
    {
        Rational::lemma_raw(-self.numer(), self.denom());
        Rational::lemma_raw(magnitude(self.numer()) as int, self.denom());
        assert(magnitude(-self.numer()) == magnitude(self.numer()));
        assert(magnitude(magnitude(self.numer()) as int) == magnitude(self.numer()));
        if self.finite() {
            lemma_ratio_neg(self.numer(), self.denom());
            self.lemma_sign();
        }
    }
}

} // verus!
