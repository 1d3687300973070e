//! How large the parts of a result can get: bounds under which arithmetic
//! cannot overflow.
use crate::rational::gcd::{gcd, lemma_gcd_reduced};
use crate::rational::ints::{lemma_positive_product, lemma_product_within};
use crate::rational::{magnitude, Rational, LIMIT};
use vstd::prelude::*;
use vstd::std_specs::ops::{AddSpec, MulSpec, SubSpec};

verus! {

/// Whether `r` is a number whose numerator is at most `num` in magnitude and
/// whose denominator is at most `den`.
pub open spec fn within(r: Rational, num: int, den: int) -> bool {
    r.wf() && r.finite() && -num <= r.numer() <= num && r.denom() <= den
}

/// Lowest terms are no larger than the fraction they come from.
pub proof fn lemma_reduced_within(n: int, d: int, num: int, den: int)
    requires
        d > 0,
        -num <= n <= num,
        d <= den,
        num <= LIMIT,
        den <= LIMIT,
    ensures
        within(Rational::reduced(n, d), num, den),
{
    reveal(Rational::reduced);
    let m = magnitude(n);
    let g = gcd(m, d as nat);
    lemma_gcd_reduced(m, d as nat);
    let qn = (m / g) as int;
    let qd = (d as nat / g) as int;
    Rational::lemma_reduced(n, d);
    Rational::lemma_raw(
        if n < 0 {
            -qn
        } else {
            qn
        },
        qd,
    );
}

impl Rational {
    /// A sum and a difference of two numbers within bounds are numbers
    /// within the bounds of the cross-multiplied parts, as long as those fit.
    pub proof fn lemma_sum_within(self, rhs: Rational, na: int, da: int, nb: int, db: int)
        requires
            within(self, na, da),
            within(rhs, nb, db),
            na * db + nb * da <= LIMIT,
            da * db <= LIMIT,
        ensures
            within(self.add_spec(rhs), na * db + nb * da, da * db),
            within(self.sub_spec(rhs), na * db + nb * da, da * db),
    {
        let (n, d) = (self.numer(), self.denom());
        let (p, q) = (rhs.numer(), rhs.denom());
        lemma_product_within(n, q, na, db);
        lemma_product_within(p, d, nb, da);
        lemma_positive_product(d, q, da, db);
        lemma_reduced_within(n * q + p * d, d * q, na * db + nb * da, da * db);
        lemma_reduced_within(n * q - p * d, d * q, na * db + nb * da, da * db);
    }

    /// A product of two numbers within bounds is a number within the
    /// products of the bounds, as long as those fit.
    pub proof fn lemma_times_within(self, rhs: Rational, na: int, da: int, nb: int, db: int)
        requires
            within(self, na, da),
            within(rhs, nb, db),
            na * nb <= LIMIT,
            da * db <= LIMIT,
        ensures
            within(self.mul_spec(rhs), na * nb, da * db),
    {
        let (n, d) = (self.numer(), self.denom());
        let (p, q) = (rhs.numer(), rhs.denom());
        lemma_product_within(n, p, na, nb);
        lemma_positive_product(d, q, da, db);
        lemma_reduced_within(n * p, d * q, na * nb, da * db);
    }
}

} // verus!
