//! Facts about real numbers that are given by products: `x * a == p` says
//! that `x` is `p / a`.
use vstd::prelude::*;

verus! {

/// Dividing and multiplying by the same non-zero real cancels.
pub proof fn lemma_real_div_cancel(x: real, y: real)
    requires
        y != 0real,
    ensures
        (x / y) * y == x,
{
    assert((x / y) * y == x) by (nonlinear_arith)
        requires
            y != 0real,
    {}
}

/// A real number is determined by its product with a non-zero number.
pub proof fn lemma_real_cancel(x: real, z: real, a: real)
    requires
        a != 0real,
        x * a == z * a,
    ensures
        x == z,
{
    assert(x == z) by (nonlinear_arith)
        requires
            a != 0real,
            x * a == z * a,
    {}
}

/// Multiplying both sides by a positive number keeps their order.
pub proof fn lemma_real_scale_order(x: real, y: real, s: real)
    requires
        s > 0real,
    ensures
        (x < y) == (x * s < y * s),
        (x == y) == (x * s == y * s),
        (x <= y) == (x * s <= y * s),
{
    assert((x < y) == (x * s < y * s)) by (nonlinear_arith)
        requires
            s > 0real,
    {}
    assert((x == y) == (x * s == y * s)) by (nonlinear_arith)
        requires
            s > 0real,
    {}
}

/// `x = p / a` times `a * b` is `p * b`.
pub proof fn lemma_real_widen(x: real, a: real, p: real, b: real)
    requires
        x * a == p,
    ensures
        x * (a * b) == p * b,
        x * (b * a) == p * b,
{
    assert(x * (a * b) == p * b) by (nonlinear_arith)
        requires
            x * a == p,
    {}
    assert(x * (b * a) == p * b) by (nonlinear_arith)
        requires
            x * a == p,
    {}
}

/// The product of two non-zero numbers is not zero, and the product of two
/// positive numbers is positive.
pub proof fn lemma_real_product_sign(a: real, b: real)
    ensures
        a != 0real && b != 0real ==> a * b != 0real,
        a > 0real && b > 0real ==> a * b > 0real,
{
    assert(a != 0real && b != 0real ==> a * b != 0real) by (nonlinear_arith);
    assert(a > 0real && b > 0real ==> a * b > 0real) by (nonlinear_arith);
}

/// Two fractions with positive denominators compare as their cross
/// products: with `x = p / a` and `y = q / b`.
pub proof fn lemma_real_cross(x: real, y: real, a: real, b: real, p: real, q: real)
    requires
        x * a == p,
        y * b == q,
        a > 0real,
        b > 0real,
    ensures
        (x == y) == (p * b == q * a),
        (x < y) == (p * b < q * a),
        (x <= y) == (p * b <= q * a),
{
    let s = a * b;
    lemma_real_product_sign(a, b);
    lemma_real_widen(x, a, p, b);
    lemma_real_widen(y, b, q, a);
    lemma_real_scale_order(x, y, s);
}

/// Sums, differences and products of `x = p / a` and `y = q / b` over the
/// common denominator `a * b`.
pub proof fn lemma_real_combine(x: real, y: real, a: real, b: real, p: real, q: real)
    requires
        x * a == p,
        y * b == q,
    ensures
        (x + y) * (a * b) == p * b + q * a,
        (x - y) * (a * b) == p * b - q * a,
        (x * y) * (a * b) == p * q,
{
    lemma_real_widen(x, a, p, b);
    lemma_real_widen(y, b, q, a);
    let s = a * b;
    assert((x + y) * s == x * s + y * s) by (nonlinear_arith);
    assert((x - y) * s == x * s - y * s) by (nonlinear_arith);
    assert((x * y) * (a * b) == (x * a) * (y * b)) by (nonlinear_arith);
}

/// The quotient of `x = p / a` by `y = q / b`, for `q` not zero, is
/// `(p * b) / (a * q)`.
pub proof fn lemma_real_quotient(x: real, y: real, a: real, b: real, p: real, q: real)
    requires
        x * a == p,
        y * b == q,
        a != 0real,
        b != 0real,
        q != 0real,
    ensures
        y != 0real,
        (x / y) * (a * q) == p * b,
{
    assert(y != 0real) by (nonlinear_arith)
        requires
            y * b == q,
            q != 0real,
    {}
    let z = x / y;
    lemma_real_div_cancel(x, y);
    assert(z * (a * q) == (z * y) * a * b) by (nonlinear_arith)
        requires
            y * b == q,
    {}
    assert((z * y) * a * b == p * b) by (nonlinear_arith)
        requires
            z * y == x,
            x * a == p,
    {}
}


/// Multiplication of real numbers commutes.
pub proof fn lemma_real_commute(a: real, b: real)
    ensures
        a * b == b * a,
{
    assert(a * b == b * a) by (nonlinear_arith);
}

/// A product with 0 is 0.
pub proof fn lemma_real_zero(a: real)
    ensures
        a * 0real == 0real,
        0real * a == 0real,
{
    assert(a * 0real == 0real && 0real * a == 0real) by (nonlinear_arith);
}

/// Multiplication distributes over sums and differences.
pub proof fn lemma_real_distribute(a: real, b: real, c: real)
    ensures
        a * (b + c) == a * b + a * c,
        a * (b - c) == a * b - a * c,
        (b + c) * a == b * a + c * a,
        (b - c) * a == b * a - c * a,
{
    assert(a * (b + c) == a * b + a * c) by (nonlinear_arith);
    assert(a * (b - c) == a * b - a * c) by (nonlinear_arith);
    assert((b + c) * a == b * a + c * a) by (nonlinear_arith);
    assert((b - c) * a == b * a - c * a) by (nonlinear_arith);
}

/// The product of two differences, term by term.
pub proof fn lemma_real_expand(u1: real, u2: real, v1: real, v2: real)
    ensures
        (u1 - u2) * (v1 - v2) == u1 * v1 - u1 * v2 - u2 * v1 + u2 * v2,
{
    assert((u1 - u2) * (v1 - v2) == u1 * v1 - u1 * v2 - u2 * v1 + u2 * v2) by (nonlinear_arith);
}

/// A factor passes into a mix of two numbers.
pub proof fn lemma_real_mix(a: real, s: real, x: real, y: real)
    ensures
        a * ((1real - s) * x + s * y) == (1real - s) * (a * x) + s * (a * y),
{
    assert(a * ((1real - s) * x + s * y) == (1real - s) * (a * x) + s * (a * y))
        by (nonlinear_arith);
}

/// The offset of a point between `x` and `y` from any `c` is the mix of the
/// offsets of `x` and `y`.
pub proof fn lemma_real_between(x: real, y: real, s: real, c: real)
    ensures
        x + s * (y - x) - c == (1real - s) * (x - c) + s * (y - c),
{
    assert(x + s * (y - x) - c == (1real - s) * (x - c) + s * (y - c)) by (nonlinear_arith);
}

/// A mix of two numbers of one sign has that sign.
pub proof fn lemma_real_mix_sign(s: real, p: real, q: real)
    requires
        0real <= s <= 1real,
    ensures
        p >= 0real && q >= 0real ==> (1real - s) * p + s * q >= 0real,
        p <= 0real && q <= 0real ==> (1real - s) * p + s * q <= 0real,
{
    let r = 1real - s;
    assert(p >= 0real && q >= 0real ==> r * p + s * q >= 0real) by (nonlinear_arith)
        requires
            0real <= s,
            0real <= r,
    {}
    assert(p <= 0real && q <= 0real ==> r * p + s * q <= 0real) by (nonlinear_arith)
        requires
            0real <= s,
            0real <= r,
    {}
}

/// Three parts that are not negative and add up to a positive whole: their
/// shares of the whole are not negative, positive where the part is, and add
/// up to 1.
pub proof fn lemma_real_shares(s1: real, s2: real, s3: real, s: real)
    requires
        s1 >= 0real,
        s2 >= 0real,
        s3 >= 0real,
        s > 0real,
        s1 + s2 + s3 == s,
    ensures
        s1 / s >= 0real,
        s2 / s >= 0real,
        s3 / s >= 0real,
        s1 > 0real ==> s1 / s > 0real,
        s2 > 0real ==> s2 / s > 0real,
        s3 > 0real ==> s3 / s > 0real,
        s2 / s + s3 / s + s1 / s == 1real,
{
    lemma_real_share(s1, s);
    lemma_real_share(s2, s);
    lemma_real_share(s3, s);
    assert(s2 / s + s3 / s + s1 / s == 1real) by (nonlinear_arith)
        requires
            s1 + s2 + s3 == s,
            s > 0real,
    {}
}

/// The share of a part in a positive whole has the sign of the part.
pub proof fn lemma_real_share(part: real, whole: real)
    requires
        whole > 0real,
    ensures
        part >= 0real ==> part / whole >= 0real,
        part > 0real ==> part / whole > 0real,
{
    assert((part >= 0real ==> part / whole >= 0real) && (part > 0real ==> part / whole > 0real))
        by (nonlinear_arith)
        requires
            whole > 0real,
    {}
}

/// Where one of three parts has the opposite sign of their sum, the parts
/// do not all have one sign.
pub proof fn lemma_real_mixed_signs(t1: real, t2: real, t3: real, t: real)
    requires
        t1 + t2 + t3 == t,
        t1 * t < 0real || t2 * t < 0real || t3 * t < 0real,
    ensures
        !(t1 >= 0real && t2 >= 0real && t3 >= 0real),
        !(t1 <= 0real && t2 <= 0real && t3 <= 0real),
{
    assert(!(t1 >= 0real && t2 >= 0real && t3 >= 0real)) by (nonlinear_arith)
        requires
            t1 + t2 + t3 == t,
            t1 * t < 0real || t2 * t < 0real || t3 * t < 0real,
    {}
    assert(!(t1 <= 0real && t2 <= 0real && t3 <= 0real)) by (nonlinear_arith)
        requires
            t1 + t2 + t3 == t,
            t1 * t < 0real || t2 * t < 0real || t3 * t < 0real,
    {}
}

/// A share of a whole of one sign has that sign.
pub proof fn lemma_real_share_sign(s: real, t: real)
    requires
        0real <= s <= 1real,
    ensures
        t >= 0real ==> s * t >= 0real && (1real - s) * t >= 0real,
        t <= 0real ==> s * t <= 0real && (1real - s) * t <= 0real,
{
    let r = 1real - s;
    assert(t >= 0real ==> s * t >= 0real && r * t >= 0real) by (nonlinear_arith)
        requires
            0real <= s,
            0real <= r,
    {}
    assert(t <= 0real ==> s * t <= 0real && r * t <= 0real) by (nonlinear_arith)
        requires
            0real <= s,
            0real <= r,
    {}
}

/// Twice the half of a number is the number.
pub proof fn lemma_real_half(p: real)
    ensures
        (p / 2real) * 2real == p,
        2real * (p / 2real) == p,
{
    assert((p / 2real) * 2real == p && 2real * (p / 2real) == p) by (nonlinear_arith);
}

/// The negative of a number, as a product.
pub proof fn lemma_real_negate(x: real, a: real)
    ensures
        x * (-a) == -(x * a),
        (-x) * a == -(x * a),
{
    assert(x * (-a) == -(x * a) && (-x) * a == -(x * a)) by (nonlinear_arith);
}


/// A product of three numbers can be turned around.
pub proof fn lemma_real_rotate(u: real, v: real, w: real)
    ensures
        (u * v) * w == (v * w) * u,
        (u * v) * w == (w * u) * v,
        (u * v) * w == (v * u) * w,
{
    assert((u * v) * w == (v * w) * u) by (nonlinear_arith);
    assert((u * v) * w == (w * u) * v) by (nonlinear_arith);
    assert((u * v) * w == (v * u) * w) by (nonlinear_arith);
}

/// Three terms that are not negative and add up to 0 are all 0; so are
/// three terms that are not positive.
pub proof fn lemma_real_no_cancelling(p: real, q: real, r: real)
    requires
        p + q + r == 0real,
        p >= 0real && q >= 0real && r >= 0real || p <= 0real && q <= 0real && r <= 0real,
    ensures
        p == 0real,
        q == 0real,
        r == 0real,
{
}

/// The sign of a product of two numbers, and what a product that is 0 with
/// a factor that is not 0 says of the other factor.
pub proof fn lemma_real_factor(t: real, d: real)
    ensures
        t > 0real && d >= 0real ==> t * d >= 0real,
        t > 0real && d <= 0real ==> t * d <= 0real,
        t < 0real && d >= 0real ==> t * d <= 0real,
        t < 0real && d <= 0real ==> t * d >= 0real,
        t != 0real && t * d == 0real ==> d == 0real,
{
    assert((t > 0real && d >= 0real ==> t * d >= 0real) && (t > 0real && d <= 0real ==> t * d
        <= 0real) && (t < 0real && d >= 0real ==> t * d <= 0real) && (t < 0real && d <= 0real
        ==> t * d >= 0real)) by (nonlinear_arith);
    assert(t != 0real && t * d == 0real ==> d == 0real) by (nonlinear_arith);
}

/// Where shares of a whole weigh `a`, `b`, `c` to the whole's multiple of
/// `p`, the shares divided by the whole weigh them to `p` itself.
pub proof fn lemma_real_weigh(s1: real, s2: real, s3: real, s: real, a: real, b: real, c: real, p: real)
    requires
        s != 0real,
        s2 * a + s3 * b + s1 * c == s * p,
    ensures
        (s2 / s) * a + (s3 / s) * b + (s1 / s) * c == p,
{
    let w1 = s1 / s;
    let w2 = s2 / s;
    let w3 = s3 / s;
    lemma_real_div_cancel(s1, s);
    lemma_real_div_cancel(s2, s);
    lemma_real_div_cancel(s3, s);
    let q = w2 * a + w3 * b + w1 * c;
    lemma_real_distribute(s, w2 * a + w3 * b, w1 * c);
    lemma_real_distribute(s, w2 * a, w3 * b);
    lemma_real_rotate(w2, a, s);
    lemma_real_rotate(w3, b, s);
    lemma_real_rotate(w1, c, s);
    lemma_real_commute(s, w1);
    lemma_real_commute(s, w2);
    lemma_real_commute(s, w3);
    assert(q * s == s2 * a + s3 * b + s1 * c);
    lemma_real_commute(s, p);
    lemma_real_cancel(q, p, s);
}

/// Half of a factor is half of the product.
pub proof fn lemma_real_halve(t: real, a: real)
    ensures
        (t / 2real) * a == (t * a) / 2real,
        ((-t) / 2real) * a == -((t * a) / 2real),
{
    assert((t / 2real) * a == (t * a) / 2real) by (nonlinear_arith);
    assert(((-t) / 2real) * a == -((t * a) / 2real)) by (nonlinear_arith);
}

/// A weight that is not negative keeps an order.
pub proof fn lemma_real_weight_order(w: real, x: real, y: real)
    requires
        w >= 0real,
        x <= y,
    ensures
        w * x <= w * y,
{
    assert(w * x <= w * y) by (nonlinear_arith)
        requires
            w >= 0real,
            x <= y,
    {}
}

/// Three numbers between `lo` and `hi`, weighed by three weights that are
/// not negative and add up to 1, give a number between `lo` and `hi`.
pub proof fn lemma_real_weighted_between(
    wa: real,
    wb: real,
    wc: real,
    a: real,
    b: real,
    c: real,
    lo: real,
    hi: real,
)
    requires
        wa >= 0real && wb >= 0real && wc >= 0real,
        wa + wb + wc == 1real,
        lo <= a <= hi,
        lo <= b <= hi,
        lo <= c <= hi,
    ensures
        lo <= a * wa + b * wb + c * wc <= hi,
{
    lemma_real_weight_order(wa, lo, a);
    lemma_real_weight_order(wb, lo, b);
    lemma_real_weight_order(wc, lo, c);
    lemma_real_weight_order(wa, a, hi);
    lemma_real_weight_order(wb, b, hi);
    lemma_real_weight_order(wc, c, hi);
    lemma_real_commute(a, wa);
    lemma_real_commute(b, wb);
    lemma_real_commute(c, wc);
    lemma_real_distribute(lo, wa + wb, wc);
    lemma_real_distribute(lo, wa, wb);
    lemma_real_distribute(hi, wa + wb, wc);
    lemma_real_distribute(hi, wa, wb);
    lemma_real_commute(lo, wa);
    lemma_real_commute(lo, wb);
    lemma_real_commute(lo, wc);
    lemma_real_commute(hi, wa);
    lemma_real_commute(hi, wb);
    lemma_real_commute(hi, wc);
    lemma_real_commute(lo, 1real);
    lemma_real_commute(hi, 1real);
}

/// Three offsets that all point one way cannot be weighed to nothing by
/// three weights of one strict sign unless they are nothing themselves.
pub proof fn lemma_real_one_sided(t1: real, t2: real, t3: real, d1: real, d2: real, d3: real)
    requires
        t1 > 0real && t2 > 0real && t3 > 0real || t1 < 0real && t2 < 0real && t3 < 0real,
        d1 >= 0real && d2 >= 0real && d3 >= 0real || d1 <= 0real && d2 <= 0real && d3 <= 0real,
        t1 * d1 + t2 * d2 + t3 * d3 == 0real,
    ensures
        d1 == 0real,
        d2 == 0real,
        d3 == 0real,
{
    lemma_real_factor(t1, d1);
    lemma_real_factor(t2, d2);
    lemma_real_factor(t3, d3);
    lemma_real_no_cancelling(t1 * d1, t2 * d2, t3 * d3);
}

} // verus!
