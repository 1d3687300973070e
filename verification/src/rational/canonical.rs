//! Every number has one form, and reducing loses no number that fits.
use crate::rational::gcd::{gcd, lemma_gcd_reduced, lemma_lowest_terms_least};
use crate::rational::laws::{lemma_ratio_add, lemma_ratio_cross, lemma_ratio_div, lemma_ratio_neg};
use crate::rational::{magnitude, ratio, Rational, LIMIT};
use crate::rational::ints::{lemma_factors_positive, lemma_reduced_parts};
use vstd::arithmetic::mul::{
    lemma_mul_equality_converse, lemma_mul_is_associative, lemma_mul_is_commutative,
};
use vstd::prelude::*;
use vstd::std_specs::ops::{AddSpec, DivSpec, MulSpec, SubSpec};

verus! {

/// Whether a real number is a fraction whose numerator and denominator fit.
pub open spec fn representable(x: real) -> bool {
    exists|n: int, d: int| -LIMIT <= n <= LIMIT && 0 < d <= LIMIT && x == #[trigger] ratio(n, d)
}

/// Two fractions in lowest terms with equal cross products have the same
/// parts.
pub proof fn lemma_lowest_terms_agree(n: int, d: int, p: int, q: int)
    requires
        d > 0,
        q > 0,
        n * q == p * d,
        gcd(magnitude(n), d as nat) == 1,
        gcd(magnitude(p), q as nat) == 1,
    ensures
        n == p,
        d == q,
{
    let k1 = lemma_lowest_terms_least(n, d, p, q);
    lemma_mul_is_commutative(n, q);
    lemma_mul_is_commutative(p, d);
    let k2 = lemma_lowest_terms_least(p, q, n, d);
    assert(d == q);
    lemma_mul_is_commutative(p, q);
    lemma_mul_equality_converse(q, n, p);
}


/// Where `p / q` with parts that fit has the cross products of `n / d`, the
/// lowest terms of `n / d` fit too.
pub proof fn lemma_lowest_terms_fit(n: int, d: int, p: int, q: int)
    requires
        d > 0,
        0 < q <= LIMIT,
        -LIMIT <= p <= LIMIT,
        p * d == n * q,
    ensures
        Rational::reduced(n, d).finite(),
{
    reveal(Rational::reduced);
    let m = magnitude(n);
    let g = gcd(m, d as nat) as int;
    lemma_gcd_reduced(m, d as nat);
    let qn = (m / (g as nat)) as int;
    let qd = (d as nat / (g as nat)) as int;
    let sn = if n < 0 {
        -qn
    } else {
        qn
    };
    lemma_factors_positive(d, g, qd);
    lemma_reduced_parts(n, d, m as int, g, qn, qd, sn);
    assert(p * qd == sn * q) by {
        lemma_mul_is_associative(p, g, qd);
        lemma_mul_is_commutative(p, g);
        lemma_mul_is_associative(g, p, qd);
        lemma_mul_is_associative(g, sn, q);
        assert(g * (p * qd) == g * (sn * q));
        lemma_mul_equality_converse(g, p * qd, sn * q);
    }
    assert(magnitude(sn) == qn);
    let k = lemma_lowest_terms_least(p, q, sn, qd);
    Rational::lemma_raw(sn, qd);
}

impl Rational {
    /// Two numbers with the same value are the same: every number has one
    /// form only.
    pub proof fn lemma_value_decides(self, other: Rational)
        requires
            self.wf(),
            other.wf(),
            self.finite(),
            other.finite(),
            self.value() == other.value(),
        ensures
            self == other,
    {
        lemma_ratio_cross(self.numer(), self.denom(), other.numer(), other.denom());
        lemma_lowest_terms_agree(self.numer(), self.denom(), other.numer(), other.denom());
        self.lemma_same(other);
    }

    /// Lowest terms fit exactly when some fraction of the same value fits:
    /// reducing never loses a number that can be stored.
    pub proof fn lemma_reduced_complete(n: int, d: int)
        requires
            d > 0,
        ensures
            Rational::reduced(n, d).finite() <==> representable(ratio(n, d)),
    {
        let r = Rational::reduced(n, d);
        Rational::lemma_reduced(n, d);
        if r.finite() {
            assert(ratio(n, d) == ratio(r.numer(), r.denom()));
        }
        if representable(ratio(n, d)) {
            let (p, q) = choose|p: int, q: int|
                -LIMIT <= p <= LIMIT && 0 < q <= LIMIT && ratio(n, d) == #[trigger] ratio(p, q);
            lemma_ratio_cross(p, q, n, d);
            lemma_lowest_terms_fit(n, d, p, q);
        }
    }

    /// A sum, a difference or a product is a number exactly when both
    /// operands are and the exact result is a fraction whose parts fit.
    pub proof fn lemma_finite_results(self, rhs: Rational)
        requires
            self.wf(),
            rhs.wf(),
        ensures
            self.add_spec(rhs).finite() <==> self.finite() && rhs.finite() && representable(
                self.value() + rhs.value(),
            ),
            self.sub_spec(rhs).finite() <==> self.finite() && rhs.finite() && representable(
                self.value() - rhs.value(),
            ),
            self.mul_spec(rhs).finite() <==> self.finite() && rhs.finite() && representable(
                self.value() * rhs.value(),
            ),
    {
        self.lemma_nan();
        if self.finite() && rhs.finite() {
            let (n, d) = (self.numer(), self.denom());
            let (p, q) = (rhs.numer(), rhs.denom());
            lemma_ratio_add(n, d, p, q);
            Rational::lemma_reduced_complete(n * q + p * d, d * q);
            Rational::lemma_reduced_complete(n * q - p * d, d * q);
            Rational::lemma_reduced_complete(n * p, d * q);
        }
    }

    /// A quotient is a number exactly when both operands are, the divisor
    /// is not 0, and the exact result is a fraction whose parts fit.
    pub proof fn lemma_finite_quotient(self, rhs: Rational)
        requires
            self.wf(),
            rhs.wf(),
        ensures
            self.div_spec(rhs).finite() <==> self.finite() && rhs.finite() && rhs.value() != 0real
                && representable(self.value() / rhs.value()),
    {
        self.lemma_nan();
        self.lemma_div(rhs);
        if self.finite() && rhs.finite() {
            let (n, d) = (self.numer(), self.denom());
            let (p, q) = (rhs.numer(), rhs.denom());
            rhs.lemma_sign();
            if p != 0 {
                lemma_ratio_div(n, d, p, q);
                lemma_ratio_neg(n * q, d * p);
                if p > 0 {
                    Rational::lemma_reduced_complete(n * q, d * p);
                } else {
                    Rational::lemma_reduced_complete(-(n * q), -(d * p));
                }
            }
        }
    }
}

} // verus!
