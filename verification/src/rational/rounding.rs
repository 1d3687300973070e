//! Floors and nearest integers of fractions.
use crate::rational::laws::{lemma_ratio_cross, lemma_ratio_times, lemma_real_of_product};
use crate::rational::ints::{lemma_quotient_remainder, lemma_units};
use crate::rational::reals::{
    lemma_real_cancel, lemma_real_commute, lemma_real_product_sign, lemma_real_zero,
};
use crate::rational::{ratio, Rational};
use vstd::prelude::*;

verus! {

/// An integer as a fraction over 1.
pub proof fn lemma_ratio_of_integer(k: int)
    ensures
        ratio(k, 1) == k as real,
{
    lemma_ratio_times(k, 1);
}

/// The floor of a fraction with a positive denominator is the quotient of
/// the integer division that rounds towards negative infinity.
pub proof fn lemma_floor(p: int, q: int)
    requires
        q > 0,
    ensures
        ratio(p, q).floor() == p / q,
{
    let k = p / q;
    lemma_quotient_remainder(p, q);
    lemma_ratio_cross(k, 1, p, q);
    lemma_ratio_cross(p, q, k + 1, 1);
    lemma_ratio_of_integer(k);
    lemma_ratio_of_integer(k + 1);
    lemma_units(p);
    lemma_units(k * q);
    lemma_units((k + 1) * q);
    let x = ratio(p, q);
    assert((k as real) <= x < (k + 1) as real);
}


/// One half.
pub open spec fn half() -> real {
    1real / 2real
}

/// The integer nearest to `x`; a tie goes away from zero.
#[verifier::opaque]
pub open spec fn nearest(x: real) -> int {
    if x >= 0real {
        (x + half()).floor()
    } else {
        -((-x + half()).floor())
    }
}

/// `v * sr + 1/2` times twice the denominator of `v = nr / dr`.
proof fn lemma_half_times(v: real, sr: real, dr: real, nr: real)
    requires
        v * dr == nr,
    ensures
        (v * sr + 1real / 2real) * (2real * dr) == 2real * sr * nr + dr,
{
    let x = v * sr + 1real / 2real;
    assert(x * (2real * dr) == 2real * sr * nr + dr) by (nonlinear_arith)
        requires
            x == v * sr + 1real / 2real,
            v * dr == nr,
    {}
}

/// `scale` times a fraction, plus one half, as one fraction.
pub proof fn lemma_scaled_plus_half(n: int, d: int, scale: int)
    requires
        d > 0,
    ensures
        ratio(n, d) * (scale as real) + half() == ratio(2 * scale * n + d, 2 * d),
{
    let nr = n as real;
    let dr = d as real;
    let sr = scale as real;
    let v = ratio(n, d);
    lemma_ratio_times(n, d);
    let top = 2 * scale * n + d;
    lemma_ratio_times(top, 2 * d);
    lemma_real_of_product(2 * scale, n);
    let tr = top as real;
    assert(tr == 2real * sr * nr + dr);
    let x = v * sr + half();
    lemma_half_times(v, sr, dr, nr);
    let y = ratio(top, 2 * d);
    lemma_real_cancel(x, y, 2real * dr);
}

/// Nothing at or below 0 is nearest to a positive integer.
pub proof fn lemma_nearest_of_nonpositive(x: real)
    requires
        x <= 0real,
    ensures
        nearest(x) <= 0,
{
    reveal(nearest);
}

impl Rational {
    /// The integer nearest to `scale` times a positive number, by integer
    /// division of its parts.
    pub proof fn lemma_nearest_scaled(self, scale: int)
        requires
            self.wf(),
            self.finite(),
            self.numer() > 0,
            scale >= 0,
        ensures
            nearest((scale as real) * self.value()) == (2 * scale * self.numer() + self.denom()) / (
            2 * self.denom()),
    {
        reveal(nearest);
        let n = self.numer();
        let d = self.denom();
        self.lemma_sign();
        lemma_scaled_plus_half(n, d, scale);
        lemma_floor(2 * scale * n + d, 2 * d);
        let v = self.value();
        let sr = scale as real;
        lemma_real_commute(sr, v);
        lemma_real_product_sign(sr, v);
        lemma_real_zero(v);
    }
}

} // verus!
