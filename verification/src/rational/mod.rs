//! Exact rational numbers in lowest terms with a single non-finite value.
//!
//! A `Rational` is either a fraction whose numerator and denominator fit in
//! 63 bits, or the one non-finite value that every operation returns when its
//! exact result cannot be stored. Arithmetic never rounds: a finite result is
//! the exact result.
pub mod binary;
pub mod canonical;
pub mod gcd;
pub mod ints;
pub mod laws;
pub mod reals;
pub mod rounding;
pub mod size;

use crate::rational::gcd::{gcd, gcd_u128, lemma_gcd_reduced};
use crate::rational::ints::{lemma_factors_positive, lemma_product_sign, lemma_product_within};
use core::ops::{Add, Div, Mul, Neg, Sub};
use vstd::prelude::*;
use vstd::std_specs::ops::{AddSpecImpl, DivSpecImpl, MulSpecImpl, NegSpecImpl, SubSpecImpl};

verus! {

/// Largest magnitude of a numerator, and largest denominator.
pub const LIMIT: i64 = 0x7fff_ffff_ffff_ffff;

/// The absolute value of an integer.
pub open spec fn magnitude(x: int) -> nat {
    if x < 0 {
        (-x) as nat
    } else {
        x as nat
    }
}

/// The real number `n / d`.
#[verifier::opaque]
pub open spec fn ratio(n: int, d: int) -> real {
    n as real / d as real
}

/// An exact fraction in lowest terms, or the non-finite value.
#[derive(Clone, Copy, Debug, PartialEq, Eq, Structural)]
pub struct Rational {
    num: i64,
    den: i64,
}

impl Rational {
    /// The numerator; 0 for the non-finite value.
    pub closed spec fn numer(self) -> int {
        self.num as int
    }

    /// The denominator; 0 for the non-finite value, positive otherwise.
    pub closed spec fn denom(self) -> int {
        self.den as int
    }

    /// The value with the given numerator and denominator.
    pub closed spec fn raw(n: int, d: int) -> Rational {
        Rational { num: n as i64, den: d as i64 }
    }

    /// Lowest terms, positive denominator, symmetric range; the non-finite
    /// value is stored as 0/0.
    #[verifier::type_invariant]
    pub open spec fn wf(self) -> bool {
        &&& 0 <= self.denom() <= LIMIT
        &&& -LIMIT <= self.numer() <= LIMIT
        &&& self.denom() == 0 ==> self.numer() == 0
        &&& self.denom() > 0 ==> gcd(magnitude(self.numer()), self.denom() as nat) == 1
    }

    /// Whether this is a number.
    pub open spec fn finite(self) -> bool {
        self.denom() != 0
    }

    /// The number this stands for; 0 for the non-finite value.
    pub open spec fn value(self) -> real {
        if self.finite() {
            ratio(self.numer(), self.denom())
        } else {
            0real
        }
    }

    /// The non-finite value.
    pub open spec fn nan_spec() -> Rational {
        Rational::raw(0, 0)
    }

    /// `n / d` in lowest terms for `d > 0`, or the non-finite value when the
    /// lowest terms do not fit.
    #[verifier::opaque]
    pub open spec fn reduced(n: int, d: int) -> Rational {
        let g = gcd(magnitude(n), d as nat);
        let qn = (magnitude(n) / g) as int;
        let qd = (d as nat / g) as int;
        if qn <= LIMIT && qd <= LIMIT {
            Rational::raw(
                if n < 0 {
                    -qn
                } else {
                    qn
                },
                qd,
            )
        } else {
            Rational::nan_spec()
        }
    }

    /// `n / d` for any integers: non-finite when `d` is 0.
    pub open spec fn fraction(n: int, d: int) -> Rational {
        if d > 0 {
            Rational::reduced(n, d)
        } else if d < 0 {
            Rational::reduced(-n, -d)
        } else {
            Rational::nan_spec()
        }
    }

    /// Two values with the same numerator and denominator are the same value.
    pub proof fn lemma_same(self, other: Rational)
        requires
            self.numer() == other.numer(),
            self.denom() == other.denom(),
        ensures
            self == other,
    {
    }

    /// `raw` stores what it is given, as long as it fits.
    pub proof fn lemma_raw(n: int, d: int)
        requires
            -LIMIT <= n <= LIMIT,
            0 <= d <= LIMIT,
        ensures
            Rational::raw(n, d).numer() == n,
            Rational::raw(n, d).denom() == d,
    {
    }

    /// Every value is `raw` of its numerator and denominator.
    pub proof fn lemma_raw_of_parts(self)
        ensures
            self == Rational::raw(self.numer(), self.denom()),
    {
    }

    /// The non-finite value.
    pub fn nan() -> (r: Rational)
        ensures
            r == Rational::nan_spec(),
    {
        Rational { num: 0, den: 0 }
    }

    /// Whether this is a number.
    pub fn is_finite(&self) -> (r: bool)
        ensures
            r == self.finite(),
    {
        self.den != 0
    }

    /// The numerator.
    pub fn numerator(&self) -> (n: i64)
        ensures
            n == self.numer(),
            self.wf(),
    {
        proof {
            use_type_invariant(self);
        }
        self.num
    }

    /// The denominator.
    pub fn denominator(&self) -> (d: i64)
        ensures
            d == self.denom(),
            self.wf(),
    {
        proof {
            use_type_invariant(self);
        }
        self.den
    }

    /// The fraction of magnitude `m / e`, negative if `negative`, in lowest
    /// terms.
    fn reduce(negative: bool, m: u128, e: u128) -> (r: Rational)
        requires
            e > 0,
        ensures
            r == Rational::reduced(
                if negative {
                    -(m as int)
                } else {
                    m as int
                },
                e as int,
            ),
    {
        let g: u128 = gcd_u128(m, e);
        proof {
            reveal(Rational::reduced);
            lemma_gcd_reduced(m as nat, e as nat);
        }
        let qn: u128 = m / g;
        let qd: u128 = e / g;
        if qn > LIMIT as u128 || qd > LIMIT as u128 {
            Rational { num: 0, den: 0 }
        } else {
            let mag: i64 = qn as i64;
            let num: i64 = if negative {
                -mag
            } else {
                mag
            };
            proof {
                lemma_factors_positive(e as int, g as int, qd as int);
                assert(magnitude(num as int) == qn);
            }
            Rational { num, den: qd as i64 }
        }
    }

    /// The magnitude of a wide integer.
    fn wide_magnitude(x: i128) -> (m: u128)
        ensures
            m == magnitude(x as int),
    {
        if x == i128::MIN {
            0x8000_0000_0000_0000_0000_0000_0000_0000u128
        } else if x < 0 {
            (-x) as u128
        } else {
            x as u128
        }
    }

    /// The integer `i`; non-finite for the one integer whose magnitude
    /// exceeds `LIMIT`.
    pub fn from_int(i: i64) -> (r: Rational)
        ensures
            r == Rational::reduced(i as int, 1),
    {
        Rational::reduce(i < 0, Rational::wide_magnitude(i as i128), 1)
    }

    /// The fraction `num / den`; non-finite when `den` is 0 or the lowest
    /// terms do not fit.
    pub fn new(num: i64, den: i64) -> (r: Rational)
        ensures
            r == Rational::fraction(num as int, den as int),
    {
        Rational::from_wide(num as i128, den as i128)
    }
}


/// `num_traits::abs` on a 64-bit integer: the magnitude of `x`. The most
/// negative integer has no magnitude of this type and is left out.
#[verifier::external_body]
fn magnitude_i64(x: i64) -> (r: i64)
    requires
        x > i64::MIN,
    ensures
        r == magnitude(x as int),
{
    num_traits::abs(x)
}

/// `num_traits::zero` at type `i64`: the additive identity, 0.
#[verifier::external_body]
fn zero_i64() -> (r: i64)
    ensures
        r == 0,
{
    num_traits::zero()
}

/// `num_traits::one` at type `i64`: the multiplicative identity, 1.
#[verifier::external_body]
fn one_i64() -> (r: i64)
    ensures
        r == 1,
{
    num_traits::one()
}

/// Products of two stored parts stay far inside 128 bits.
proof fn lemma_product_bound(a: int, b: int)
    requires
        -LIMIT <= a <= LIMIT,
        -LIMIT <= b <= LIMIT,
    ensures
        -(LIMIT * LIMIT) <= a * b <= LIMIT * LIMIT,
        LIMIT * LIMIT == 0x3fff_ffff_ffff_ffff_0000_0000_0000_0001,
{
    lemma_product_within(a, b, LIMIT as int, LIMIT as int);
    assert(LIMIT * LIMIT == 0x3fff_ffff_ffff_ffff_0000_0000_0000_0001);
}

impl Rational {
    /// The number 0.
    pub open spec fn zero_spec() -> Rational {
        Rational::raw(0, 1)
    }

    /// The number 1.
    pub open spec fn one_spec() -> Rational {
        Rational::raw(1, 1)
    }

    /// The magnitude: non-finite stays non-finite.
    pub open spec fn abs_spec(self) -> Rational {
        Rational::raw(magnitude(self.numer()) as int, self.denom())
    }

    /// Strictly less; false as soon as one side is non-finite.
    pub open spec fn lt_spec(self, rhs: Rational) -> bool {
        self.finite() && rhs.finite() && self.numer() * rhs.denom() < rhs.numer() * self.denom()
    }

    /// Less or equal; false as soon as one side is non-finite.
    pub open spec fn le_spec(self, rhs: Rational) -> bool {
        self.finite() && rhs.finite() && self.numer() * rhs.denom() <= rhs.numer() * self.denom()
    }

    /// The largest number.
    pub open spec fn max_spec() -> Rational {
        Rational::raw(LIMIT as int, 1)
    }

    /// The smallest number.
    pub open spec fn min_spec() -> Rational {
        Rational::raw(-LIMIT, 1)
    }

    /// The largest number.
    pub fn max_value() -> (r: Rational)
        ensures
            r == Rational::max_spec(),
    {
        assert(gcd(LIMIT as nat, 1) == 1) by {
            assert((LIMIT as nat) % 1nat == 0);
            assert(gcd(1, 0) == 1);
        }
        Rational { num: LIMIT, den: 1 }
    }

    /// The smallest number.
    pub fn min_value() -> (r: Rational)
        ensures
            r == Rational::min_spec(),
    {
        assert(gcd(LIMIT as nat, 1) == 1) by {
            assert((LIMIT as nat) % 1nat == 0);
            assert(gcd(1, 0) == 1);
        }
        Rational { num: -LIMIT, den: 1 }
    }

    /// The fraction `num / den` of two wide integers; non-finite when `den`
    /// is 0 or the lowest terms do not fit.
    pub fn from_wide(num: i128, den: i128) -> (r: Rational)
        ensures
            r == Rational::fraction(num as int, den as int),
    {
        if den == 0 {
            Rational::nan()
        } else {
            Rational::reduce(
                (num < 0) != (den < 0),
                Rational::wide_magnitude(num),
                Rational::wide_magnitude(den),
            )
        }
    }

    /// The number 0.
    pub fn zero() -> (r: Rational)
        ensures
            r == Rational::zero_spec(),
    {
        let num: i64 = zero_i64();
        let den: i64 = one_i64();
        assert(gcd(0, 1) == 1) by {
            assert(0nat % 1nat == 0);
            assert(gcd(1, 0) == 1);
        }
        Rational { num, den }
    }

    /// The number 1.
    pub fn one() -> (r: Rational)
        ensures
            r == Rational::one_spec(),
    {
        let num: i64 = one_i64();
        let den: i64 = one_i64();
        assert(gcd(1, 1) == 1) by {
            assert(1nat % 1nat == 0);
            assert(gcd(1, 0) == 1);
        }
        Rational { num, den }
    }

    /// The magnitude.
    pub fn abs(self) -> (r: Rational)
        ensures
            r == self.abs_spec(),
    {
        proof {
            use_type_invariant(&self);
        }
        let num: i64 = magnitude_i64(self.num);
        proof {
            assert(magnitude(num as int) == magnitude(self.num as int));
        }
        Rational { num, den: self.den }
    }

    /// Strictly less.
    pub fn lt(&self, rhs: &Rational) -> (r: bool)
        ensures
            r == self.lt_spec(*rhs),
    {
        proof {
            use_type_invariant(self);
            use_type_invariant(rhs);
            lemma_product_bound(self.num as int, rhs.den as int);
            lemma_product_bound(rhs.num as int, self.den as int);
        }
        self.den != 0 && rhs.den != 0 && (self.num as i128) * (rhs.den as i128) < (rhs.num as i128)
            * (self.den as i128)
    }

    /// Less or equal.
    pub fn le(&self, rhs: &Rational) -> (r: bool)
        ensures
            r == self.le_spec(*rhs),
    {
        proof {
            use_type_invariant(self);
            use_type_invariant(rhs);
            lemma_product_bound(self.num as int, rhs.den as int);
            lemma_product_bound(rhs.num as int, self.den as int);
        }
        self.den != 0 && rhs.den != 0 && (self.num as i128) * (rhs.den as i128) <= (rhs.num as i128)
            * (self.den as i128)
    }

    /// Strictly greater.
    pub fn gt(&self, rhs: &Rational) -> (r: bool)
        ensures
            r == rhs.lt_spec(*self),
    {
        rhs.lt(self)
    }

    /// Greater or equal.
    pub fn ge(&self, rhs: &Rational) -> (r: bool)
        ensures
            r == rhs.le_spec(*self),
    {
        rhs.le(self)
    }
}

impl AddSpecImpl for Rational {
    open spec fn obeys_add_spec() -> bool {
        true
    }

    open spec fn add_req(self, rhs: Rational) -> bool {
        true
    }

    /// The exact sum, or non-finite when an operand is or the sum does not fit.
    open spec fn add_spec(self, rhs: Rational) -> Rational {
        if self.finite() && rhs.finite() {
            Rational::reduced(
                self.numer() * rhs.denom() + rhs.numer() * self.denom(),
                self.denom() * rhs.denom(),
            )
        } else {
            Rational::nan_spec()
        }
    }
}

impl Add for Rational {
    type Output = Rational;

    fn add(self, rhs: Rational) -> (r: Rational) {
        proof {
            use_type_invariant(&self);
            use_type_invariant(&rhs);
            lemma_product_bound(self.num as int, rhs.den as int);
            lemma_product_bound(rhs.num as int, self.den as int);
            lemma_product_bound(self.den as int, rhs.den as int);
        }
        if self.den == 0 || rhs.den == 0 {
            return Rational::nan();
        }
        let n: i128 = (self.num as i128) * (rhs.den as i128) + (rhs.num as i128) * (self.den as i128);
        let d: i128 = (self.den as i128) * (rhs.den as i128);
        proof {
            lemma_product_sign(self.den as int, rhs.den as int);
        }
        Rational::reduce(n < 0, Rational::wide_magnitude(n), d as u128)
    }
}

impl SubSpecImpl for Rational {
    open spec fn obeys_sub_spec() -> bool {
        true
    }

    open spec fn sub_req(self, rhs: Rational) -> bool {
        true
    }

    /// The exact difference, or non-finite when an operand is or the
    /// difference does not fit.
    open spec fn sub_spec(self, rhs: Rational) -> Rational {
        if self.finite() && rhs.finite() {
            Rational::reduced(
                self.numer() * rhs.denom() - rhs.numer() * self.denom(),
                self.denom() * rhs.denom(),
            )
        } else {
            Rational::nan_spec()
        }
    }
}

impl Sub for Rational {
    type Output = Rational;

    fn sub(self, rhs: Rational) -> (r: Rational) {
        proof {
            use_type_invariant(&self);
            use_type_invariant(&rhs);
            lemma_product_bound(self.num as int, rhs.den as int);
            lemma_product_bound(rhs.num as int, self.den as int);
            lemma_product_bound(self.den as int, rhs.den as int);
        }
        if self.den == 0 || rhs.den == 0 {
            return Rational::nan();
        }
        let n: i128 = (self.num as i128) * (rhs.den as i128) - (rhs.num as i128) * (self.den as i128);
        let d: i128 = (self.den as i128) * (rhs.den as i128);
        proof {
            lemma_product_sign(self.den as int, rhs.den as int);
        }
        Rational::reduce(n < 0, Rational::wide_magnitude(n), d as u128)
    }
}

impl MulSpecImpl for Rational {
    open spec fn obeys_mul_spec() -> bool {
        true
    }

    open spec fn mul_req(self, rhs: Rational) -> bool {
        true
    }

    /// The exact product, or non-finite when an operand is or the product
    /// does not fit.
    open spec fn mul_spec(self, rhs: Rational) -> Rational {
        if self.finite() && rhs.finite() {
            Rational::reduced(self.numer() * rhs.numer(), self.denom() * rhs.denom())
        } else {
            Rational::nan_spec()
        }
    }
}

impl Mul for Rational {
    type Output = Rational;

    fn mul(self, rhs: Rational) -> (r: Rational) {
        proof {
            use_type_invariant(&self);
            use_type_invariant(&rhs);
            lemma_product_bound(self.num as int, rhs.num as int);
            lemma_product_bound(self.den as int, rhs.den as int);
        }
        if self.den == 0 || rhs.den == 0 {
            return Rational::nan();
        }
        let n: i128 = (self.num as i128) * (rhs.num as i128);
        let d: i128 = (self.den as i128) * (rhs.den as i128);
        proof {
            lemma_product_sign(self.den as int, rhs.den as int);
        }
        Rational::reduce(n < 0, Rational::wide_magnitude(n), d as u128)
    }
}

impl DivSpecImpl for Rational {
    open spec fn obeys_div_spec() -> bool {
        true
    }

    open spec fn div_req(self, rhs: Rational) -> bool {
        true
    }

    /// The exact quotient, or non-finite when an operand is, the divisor is
    /// 0, or the quotient does not fit.
    open spec fn div_spec(self, rhs: Rational) -> Rational {
        if self.finite() && rhs.finite() {
            Rational::fraction(self.numer() * rhs.denom(), self.denom() * rhs.numer())
        } else {
            Rational::nan_spec()
        }
    }
}

impl Div for Rational {
    type Output = Rational;

    fn div(self, rhs: Rational) -> (r: Rational) {
        proof {
            use_type_invariant(&self);
            use_type_invariant(&rhs);
            lemma_product_bound(self.num as int, rhs.den as int);
            lemma_product_bound(self.den as int, rhs.num as int);
        }
        if self.den == 0 || rhs.den == 0 {
            return Rational::nan();
        }
        let n: i128 = (self.num as i128) * (rhs.den as i128);
        let d: i128 = (self.den as i128) * (rhs.num as i128);
        Rational::from_wide(n, d)
    }
}

impl NegSpecImpl for Rational {
    open spec fn obeys_neg_spec() -> bool {
        true
    }

    open spec fn neg_req(self) -> bool {
        true
    }

    /// The opposite number; non-finite stays non-finite.
    open spec fn neg_spec(self) -> Rational {
        Rational::raw(-self.numer(), self.denom())
    }
}

impl Neg for Rational {
    type Output = Rational;

    fn neg(self) -> (r: Rational) {
        proof {
            use_type_invariant(&self);
            assert(magnitude(-(self.num as int)) == magnitude(self.num as int));
        }
        Rational { num: -self.num, den: self.den }
    }
}

} // verus!
