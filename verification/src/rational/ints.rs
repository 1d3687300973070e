//! Facts about products and quotients of integers.
use vstd::prelude::*;

verus! {

/// The magnitude of a product is bounded by the product of the bounds.
pub proof fn lemma_product_within(x: int, y: int, xb: int, yb: int)
    requires
        -xb <= x <= xb,
        -yb <= y <= yb,
    ensures
        -(xb * yb) <= x * y <= xb * yb,
{
    assert(-(xb * yb) <= x * y <= xb * yb) by (nonlinear_arith)
        requires
            -xb <= x <= xb,
            -yb <= y <= yb,
    {}
}

/// The product of two positive numbers is positive and bounded by the
/// product of the bounds.
pub proof fn lemma_positive_product(x: int, y: int, xb: int, yb: int)
    requires
        0 < x <= xb,
        0 < y <= yb,
    ensures
        0 < x * y <= xb * yb,
{
    assert(0 < x * y <= xb * yb) by (nonlinear_arith)
        requires
            0 < x <= xb,
            0 < y <= yb,
    {}
}

/// The sign of a product.
pub proof fn lemma_product_sign(a: int, b: int)
    ensures
        a > 0 && b > 0 ==> a * b > 0,
        a > 0 && b < 0 ==> a * b < 0,
        a < 0 && b > 0 ==> a * b < 0,
        a < 0 && b < 0 ==> a * b > 0,
        a == 0 || b == 0 ==> a * b == 0,
        a * b == b * a,
{
    assert((a > 0 && b > 0 ==> a * b > 0) && (a > 0 && b < 0 ==> a * b < 0) && (a < 0 && b > 0
        ==> a * b < 0) && (a < 0 && b < 0 ==> a * b > 0) && (a == 0 || b == 0 ==> a * b == 0) && a
        * b == b * a) by (nonlinear_arith);
}

/// Multiplying by a number that is not negative keeps an order.
pub proof fn lemma_product_order(a: int, b: int, c: int)
    requires
        a <= b,
        c >= 0,
    ensures
        a * c <= b * c,
        c * a <= c * b,
{
    assert(a * c <= b * c && c * a <= c * b) by (nonlinear_arith)
        requires
            a <= b,
            c >= 0,
    {}
}

/// Multiplication distributes over sums and differences.
pub proof fn lemma_distribute(a: int, b: int, c: int)
    ensures
        (a + b) * c == a * c + b * c,
        (a - b) * c == a * c - b * c,
        c * (a + b) == c * a + c * b,
        c * (a - b) == c * a - c * b,
{
    assert((a + b) * c == a * c + b * c && (a - b) * c == a * c - b * c && c * (a + b) == c * a + c
        * b && c * (a - b) == c * a - c * b) by (nonlinear_arith);
}

/// Products with 0 and with 1.
pub proof fn lemma_units(n: int)
    ensures
        0 * n == 0,
        n * 0 == 0,
        1 * n == n,
        n * 1 == n,
{
    assert(0 * n == 0 && n * 0 == 0 && 1 * n == n && n * 1 == n) by (nonlinear_arith);
}

/// A positive multiple of a positive number is at least that number, and
/// its multiplier is at least 1.
pub proof fn lemma_multiple(d: int, k: int, q: int)
    requires
        d == k * q,
        d > 0,
        q > 0,
    ensures
        k >= 1,
        q <= d,
{
    assert(k >= 1 && q <= d) by (nonlinear_arith)
        requires
            d == k * q,
            d > 0,
            q > 0,
    {}
}

/// A multiple by at least 1 is no smaller in magnitude.
pub proof fn lemma_multiple_magnitude(n: int, k: int, p: int)
    requires
        n == k * p,
        k >= 1,
    ensures
        -n <= p <= n || n <= p <= -n,
{
    assert(-n <= p <= n || n <= p <= -n) by (nonlinear_arith)
        requires
            n == k * p,
            k >= 1,
    {}
}

/// The quotient of a multiple.
pub proof fn lemma_quotient_of_multiple(k: int, q: int)
    requires
        q > 0,
    ensures
        (k * q) / q == k,
        (q * k) / q == k,
{
    assert((k * q) / q == k && (q * k) / q == k) by (nonlinear_arith)
        requires
            q > 0,
    {}
}

/// A quotient brackets its dividend.
pub proof fn lemma_quotient_brackets(top: int, q: int)
    requires
        q > 0,
    ensures
        (top / q) * q <= top < (top / q + 1) * q,
{
    assert((top / q) * q <= top < (top / q + 1) * q) by (nonlinear_arith)
        requires
            q > 0,
    {}
}

/// A dividend below a multiple has a quotient below the multiplier.
pub proof fn lemma_quotient_below(top: int, q: int, k: int)
    requires
        q > 0,
        top < q * k,
    ensures
        top / q < k,
{
    assert(top / q < k) by (nonlinear_arith)
        requires
            q > 0,
            top < q * k,
    {}
}

/// The quotient of a dividend that is not negative is not negative.
pub proof fn lemma_quotient_sign(top: int, q: int)
    requires
        q > 0,
    ensures
        top >= 0 ==> top / q >= 0,
        top < q ==> top / q <= 0,
{
    assert((top >= 0 ==> top / q >= 0) && (top < q ==> top / q <= 0)) by (nonlinear_arith)
        requires
            q > 0,
    {}
}


/// The factors of a positive product with a factor that is not negative
/// are positive.
pub proof fn lemma_factors_positive(d: int, g: int, q: int)
    requires
        d == g * q,
        d > 0,
        g >= 0,
    ensures
        g > 0,
        q > 0,
{
    assert(g > 0 && q > 0) by (nonlinear_arith)
        requires
            d == g * q,
            d > 0,
            g >= 0,
    {}
}

/// Dividing numerator and denominator by a common factor keeps the cross
/// products: `m` is the magnitude of `n`, and `sn` carries the sign of `n`.
pub proof fn lemma_reduced_parts(n: int, d: int, m: int, g: int, qn: int, qd: int, sn: int)
    requires
        d == g * qd,
        m == g * qn,
        n < 0 ==> sn == -qn && n == -m,
        n >= 0 ==> sn == qn && n == m,
    ensures
        sn * d == n * qd,
        n == g * sn,
{
    assert(sn * d == n * qd) by (nonlinear_arith)
        requires
            d == g * qd,
            m == g * qn,
            (n < 0 ==> sn == -qn && n == -m),
            (n >= 0 ==> sn == qn && n == m),
    {}
    assert(n == g * sn) by (nonlinear_arith)
        requires
            m == g * qn,
            (n < 0 ==> sn == -qn && n == -m),
            (n >= 0 ==> sn == qn && n == m),
    {}
}

/// A numerator within `l` stays within `l` times any denominator.
pub proof fn lemma_within_scaled(n: int, d: int, l: int)
    requires
        -l <= n <= l,
        d >= 1,
    ensures
        n * 1 <= l * d,
        (-l) * d <= n * 1,
{
    assert(n * 1 <= l * d && (-l) * d <= n * 1) by (nonlinear_arith)
        requires
            -l <= n <= l,
            d >= 1,
    {}
}

/// A dividend and its quotient and remainder.
pub proof fn lemma_quotient_remainder(p: int, q: int)
    requires
        q > 0,
    ensures
        (p / q) * q <= p < (p / q + 1) * q,
        (p / q) * q * 1 == (p / q) * q,
        (p / q + 1) * q * 1 == (p / q + 1) * q,
        p * 1 == p,
{
    assert((p / q) * q <= p < (p / q + 1) * q) by (nonlinear_arith)
        requires
            q > 0,
    {}
    let k = p / q;
    assert(k * q * 1 == k * q && (k + 1) * q * 1 == (k + 1) * q && p * 1 == p) by (nonlinear_arith);
}


/// A number divides itself.
pub proof fn lemma_self_remainder(a: int)
    requires
        a > 0,
    ensures
        a % a == 0,
{
    assert(a % a == 0) by (nonlinear_arith)
        requires
            a > 0,
    {}
}

/// One step of the extended algorithm of Euclid: coefficients for `b` and
/// the remainder `r` give coefficients for `a` and `b`.
pub proof fn lemma_bezout_step(a: int, b: int, q: int, r: int, x: int, y: int)
    requires
        a == b * q + r,
    ensures
        y * a + (x - q * y) * b == x * b + y * r,
{
    assert(y * a + (x - q * y) * b == x * b + y * r) by (nonlinear_arith)
        requires
            a == b * q + r,
    {}
}

/// A coefficient for the magnitude of `p`, with the sign of `p` moved into
/// the coefficient.
pub proof fn lemma_signed_coefficient(p: int, u: int, x0: int, x: int)
    requires
        p < 0 ==> x == -x0 && u == -p,
        p >= 0 ==> x == x0 && u == p,
    ensures
        x * p == x0 * u,
{
    assert(x * p == x0 * u) by (nonlinear_arith)
        requires
            p < 0 ==> x == -x0 && u == -p,
            p >= 0 ==> x == x0 && u == p,
    {}
}

/// Where `x * p + y * q == 1` and `n / d` has the cross products of
/// `p / q`, `d` is a multiple of `q` and `n` the same multiple of `p`.
pub proof fn lemma_common_multiple(n: int, d: int, p: int, q: int, x: int, y: int)
    requires
        x * p + y * q == 1,
        n * q == p * d,
        q > 0,
    ensures
        d == (x * n + y * d) * q,
        n == (x * n + y * d) * p,
{
    let k = x * n + y * d;
    assert(d == k * q) by (nonlinear_arith)
        requires
            x * p + y * q == 1,
            n * q == p * d,
            k == x * n + y * d,
    {}
    assert(n == k * p) by (nonlinear_arith)
        requires
            n * q == p * d,
            d == k * q,
            q > 0,
    {}
}

/// A product with a multiple, regrouped.
pub proof fn lemma_multiple_product(b: int, g: int, bq: int, q: int)
    requires
        b == g * bq,
    ensures
        b * q == g * (bq * q),
{
    assert(b * q == g * (bq * q)) by (nonlinear_arith)
        requires
            b == g * bq,
    {}
}

/// A positive number that is its own multiple has the multiplier 1.
pub proof fn lemma_unit_multiplier(g: int, h: int)
    requires
        g == g * h,
        g > 0,
    ensures
        h == 1,
{
    assert(h == 1) by (nonlinear_arith)
        requires
            g == g * h,
            g > 0,
    {}
}

} // verus!
