//! Greatest common divisors of natural numbers.
use vstd::arithmetic::div_mod::{
    lemma_div_nonincreasing, lemma_fundamental_div_mod, lemma_mod_multiples_vanish,
    lemma_small_mod, lemma_truncate_middle,
};
use crate::rational::ints::{
    lemma_bezout_step, lemma_common_multiple, lemma_multiple, lemma_multiple_magnitude,
    lemma_multiple_product, lemma_product_sign, lemma_self_remainder, lemma_signed_coefficient,
    lemma_unit_multiplier, lemma_units,
};
use vstd::prelude::*;

verus! {

/// The greatest common divisor of `a` and `b`; `gcd(0, 0)` is 0.
pub open spec fn gcd(a: nat, b: nat) -> nat
    decreases b,
{
    if b == 0 {
        a
    } else {
        gcd(b, a % b)
    }
}

/// The divisor is positive as soon as one argument is.
pub proof fn lemma_gcd_positive(a: nat, b: nat)
    requires
        a > 0 || b > 0,
    ensures
        gcd(a, b) > 0,
    decreases b,
{
    if b != 0 {
        lemma_gcd_positive(b, a % b);
    }
}

/// The divisor divides both arguments.
pub proof fn lemma_gcd_divides(a: nat, b: nat)
    requires
        a > 0 || b > 0,
    ensures
        a % gcd(a, b) == 0,
        b % gcd(a, b) == 0,
    decreases b,
{
    lemma_gcd_positive(a, b);
    let g = gcd(a, b);
    if b == 0 {
        lemma_self_remainder(a as int);
        lemma_small_mod(0, a);
    } else {
        let r = a % b;
        lemma_gcd_divides(b, r);
        let q = a / b;
        lemma_fundamental_div_mod(a as int, b as int);
        lemma_fundamental_div_mod(b as int, g as int);
        let bq = (b / g) as int;
        lemma_multiple_product(b as int, g as int, bq, q as int);
        lemma_mod_multiples_vanish(bq * q, r as int, g as int);
        assert(a == g * (bq * q) + r);
    }
}

/// Scaling both arguments scales the divisor.
pub proof fn lemma_gcd_scale(k: nat, a: nat, b: nat)
    requires
        k > 0,
    ensures
        gcd(k * a, k * b) == k * gcd(a, b),
    decreases b,
{
    lemma_product_sign(k as int, b as int);
    if b == 0 {
    } else {
        lemma_truncate_middle(a as int, k as int, b as int);
        assert((k * a) % (k * b) == k * (a % b));
        lemma_gcd_scale(k, b, a % b);
    }
}

/// Dividing both arguments by their divisor leaves nothing in common.
pub proof fn lemma_gcd_reduced(a: nat, b: nat)
    requires
        a > 0 || b > 0,
    ensures
        gcd(a / gcd(a, b), b / gcd(a, b)) == 1,
        a == gcd(a, b) * (a / gcd(a, b)),
        b == gcd(a, b) * (b / gcd(a, b)),
        a / gcd(a, b) <= a,
        b / gcd(a, b) <= b,
{
    lemma_gcd_positive(a, b);
    lemma_gcd_divides(a, b);
    let g = gcd(a, b);
    let x = a / g;
    let y = b / g;
    lemma_fundamental_div_mod(a as int, g as int);
    lemma_fundamental_div_mod(b as int, g as int);
    lemma_gcd_scale(g, x, y);
    let h = gcd(x, y);
    lemma_unit_multiplier(g as int, h as int);
    lemma_div_nonincreasing(a as int, g as int);
    lemma_div_nonincreasing(b as int, g as int);
}

/// Coefficients `(x, y)` with `x * a + y * b == gcd(a, b)`.
pub open spec fn bezout(a: nat, b: nat) -> (int, int)
    decreases b,
{
    if b == 0 {
        (1, 0)
    } else {
        let (x, y) = bezout(b, a % b);
        (y, x - (a / b) * y)
    }
}

/// The divisor is an integer combination of the two arguments.
pub proof fn lemma_bezout(a: nat, b: nat)
    ensures
        bezout(a, b).0 * a + bezout(a, b).1 * b == gcd(a, b),
    decreases b,
{
    if b != 0 {
        let r = a % b;
        let q = a / b;
        lemma_bezout(b, r);
        let (x, y) = bezout(b, r);
        lemma_fundamental_div_mod(a as int, b as int);
        lemma_bezout_step(a as int, b as int, q as int, r as int, x, y);
    } else {
        lemma_units(a as int);
        lemma_units(b as int);
    }
}

/// A fraction in lowest terms has the least parts among all fractions of
/// its value: if `n / d` equals `p / q` and `p`, `q` have nothing in common,
/// then `n` and `d` are one positive multiple of `p` and `q`.
pub proof fn lemma_lowest_terms_least(n: int, d: int, p: int, q: int) -> (k: int)
    requires
        d > 0,
        q > 0,
        n * q == p * d,
        gcd((if p < 0 {
            -p
        } else {
            p
        }) as nat, q as nat) == 1,
    ensures
        k >= 1,
        d == k * q,
        n == k * p,
        q <= d,
        -n <= p <= n || n <= p <= -n,
{
    let u = (if p < 0 {
        -p
    } else {
        p
    }) as nat;
    lemma_bezout(u, q as nat);
    let (x0, y) = bezout(u, q as nat);
    let x = if p < 0 {
        -x0
    } else {
        x0
    };
    lemma_signed_coefficient(p, u as int, x0, x);
    assert(x * p + y * q == 1);
    let k = x * n + y * d;
    lemma_common_multiple(n, d, p, q, x, y);
    lemma_multiple(d, k, q);
    lemma_multiple_magnitude(n, k, p);
    k
}

/// Euclid's algorithm.
pub fn gcd_u128(a: u128, b: u128) -> (g: u128)
    ensures
        g == gcd(a as nat, b as nat),
{
    let mut x: u128 = a;
    let mut y: u128 = b;
    while y != 0
        invariant
            gcd(x as nat, y as nat) == gcd(a as nat, b as nat),
        decreases y,
    {
        let r: u128 = x % y;
        x = y;
        y = r;
    }
    x
}

} // verus!
