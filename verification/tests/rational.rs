use rasterizer::rational::gcd::gcd_u128;
use rasterizer::rational::Rational;

fn parts(r: Rational) -> (i64, i64) {
    (r.numerator(), r.denominator())
}

#[test]
fn gcd_of_small_numbers() {
    assert_eq!(gcd_u128(12, 18), 6);
    assert_eq!(gcd_u128(18, 12), 6);
    assert_eq!(gcd_u128(7, 13), 1);
    assert_eq!(gcd_u128(0, 5), 5);
    assert_eq!(gcd_u128(5, 0), 5);
    assert_eq!(gcd_u128(0, 0), 0);
}

#[test]
fn new_reduces_to_lowest_terms() {
    assert_eq!(parts(Rational::new(6, 8)), (3, 4));
    assert_eq!(parts(Rational::new(-6, 8)), (-3, 4));
    assert_eq!(parts(Rational::new(6, -8)), (-3, 4));
    assert_eq!(parts(Rational::new(-6, -8)), (3, 4));
    assert_eq!(parts(Rational::new(0, 5)), (0, 1));
}

#[test]
fn new_with_zero_denominator_is_not_finite() {
    let r = Rational::new(1, 0);
    assert!(!r.is_finite());
    assert_eq!(r, Rational::nan());
    assert_eq!(parts(r), (0, 0));
}

#[test]
fn from_int_keeps_the_integer() {
    assert_eq!(parts(Rational::from_int(5)), (5, 1));
    assert_eq!(parts(Rational::from_int(-5)), (-5, 1));
    assert_eq!(parts(Rational::from_int(i64::MAX)), (i64::MAX, 1));
    assert_eq!(parts(Rational::from_int(-i64::MAX)), (-i64::MAX, 1));
}

#[test]
fn from_int_of_the_most_negative_integer_is_not_finite() {
    assert!(!Rational::from_int(i64::MIN).is_finite());
}

#[test]
fn from_wide_reduces_wide_parts() {
    let big: i128 = 1 << 100;
    assert_eq!(parts(Rational::from_wide(3 * big, 4 * big)), (3, 4));
    assert_eq!(parts(Rational::from_wide(3 * big, -4 * big)), (-3, 4));
    assert!(!Rational::from_wide(big, 1).is_finite());
    assert!(!Rational::from_wide(1, big).is_finite());
    assert!(!Rational::from_wide(1, 0).is_finite());
}

#[test]
fn from_wide_takes_the_most_negative_integer() {
    assert_eq!(parts(Rational::from_wide(i128::MIN, i128::MIN)), (1, 1));
    assert_eq!(parts(Rational::from_wide(i128::MIN, 1 << 126)), (-2, 1));
    assert_eq!(parts(Rational::from_wide(-(1 << 126), i128::MIN)), (1, 2));
    assert_eq!(parts(Rational::from_wide(0, i128::MIN)), (0, 1));
    assert!(!Rational::from_wide(i128::MIN, 1).is_finite());
    assert!(!Rational::from_wide(1, i128::MIN).is_finite());
    assert!(!Rational::from_wide(i128::MIN, 0).is_finite());
}

#[test]
fn new_takes_the_most_negative_integer() {
    assert_eq!(parts(Rational::new(i64::MIN, i64::MIN)), (1, 1));
    assert_eq!(parts(Rational::new(i64::MIN, 2)), (-(1 << 62), 1));
    assert!(!Rational::new(i64::MIN, 1).is_finite());
    assert!(!Rational::new(1, i64::MIN).is_finite());
}

#[test]
fn zero_and_one_are_the_identities() {
    assert_eq!(parts(Rational::zero()), (0, 1));
    assert_eq!(parts(Rational::one()), (1, 1));
    assert_eq!(Rational::zero(), Rational::from_int(0));
    assert_eq!(Rational::one(), Rational::from_int(1));
}

#[test]
fn extremes_are_the_limits() {
    assert_eq!(parts(Rational::max_value()), (i64::MAX, 1));
    assert_eq!(parts(Rational::min_value()), (-i64::MAX, 1));
}

#[test]
fn addition_is_exact() {
    assert_eq!(Rational::new(1, 2) + Rational::new(1, 3), Rational::new(5, 6));
    assert_eq!(Rational::new(1, 6) + Rational::new(1, 3), Rational::new(1, 2));
    assert_eq!(Rational::new(1, 2) + Rational::new(-1, 2), Rational::zero());
}

#[test]
fn subtraction_is_exact() {
    assert_eq!(Rational::new(1, 2) - Rational::new(1, 3), Rational::new(1, 6));
    assert_eq!(Rational::new(1, 3) - Rational::new(1, 2), Rational::new(-1, 6));
}

#[test]
fn multiplication_is_exact() {
    assert_eq!(Rational::new(2, 3) * Rational::new(3, 4), Rational::new(1, 2));
    assert_eq!(Rational::new(-2, 3) * Rational::new(3, 4), Rational::new(-1, 2));
    assert_eq!(Rational::new(2, 3) * Rational::zero(), Rational::zero());
}

#[test]
fn division_is_exact() {
    assert_eq!(Rational::new(1, 2) / Rational::new(1, 4), Rational::from_int(2));
    assert_eq!(Rational::new(1, 2) / Rational::new(-1, 4), Rational::from_int(-2));
    assert_eq!(Rational::new(3, 7) / Rational::new(3, 7), Rational::one());
}

#[test]
fn division_by_zero_is_not_finite() {
    assert!(!(Rational::one() / Rational::zero()).is_finite());
    assert!(!(Rational::zero() / Rational::zero()).is_finite());
}

#[test]
fn negation_flips_the_sign() {
    assert_eq!(-Rational::new(3, 4), Rational::new(-3, 4));
    assert_eq!(-Rational::new(-3, 4), Rational::new(3, 4));
    assert_eq!(-Rational::zero(), Rational::zero());
    assert!(!(-Rational::nan()).is_finite());
}

#[test]
fn abs_is_the_magnitude() {
    assert_eq!(Rational::new(-3, 4).abs(), Rational::new(3, 4));
    assert_eq!(Rational::new(3, 4).abs(), Rational::new(3, 4));
    assert_eq!(Rational::zero().abs(), Rational::zero());
    assert_eq!(Rational::min_value().abs(), Rational::max_value());
    assert!(!Rational::nan().abs().is_finite());
}

#[test]
fn overflow_gives_the_non_finite_value() {
    let big = Rational::max_value();
    assert!(!(big + Rational::one()).is_finite());
    assert!(!(big * Rational::from_int(2)).is_finite());
    assert!(!(Rational::min_value() - Rational::one()).is_finite());
    assert!(!(Rational::new(1, i64::MAX) / Rational::from_int(2)).is_finite());
    assert!((big - Rational::one()).is_finite());
}

#[test]
fn a_small_result_of_large_parts_is_finite() {
    let a = Rational::new(1, 1 << 40);
    let b = Rational::new(1 << 40, 3);
    assert_eq!(a * b, Rational::new(1, 3));
    let c = Rational::new((1 << 62) + 1, 1 << 62);
    assert_eq!(c - c, Rational::zero());
}

#[test]
fn the_non_finite_value_spreads() {
    let nan = Rational::nan();
    let one = Rational::one();
    assert!(!(nan + one).is_finite());
    assert!(!(one + nan).is_finite());
    assert!(!(nan - one).is_finite());
    assert!(!(one - nan).is_finite());
    assert!(!(nan * one).is_finite());
    assert!(!(Rational::zero() * nan).is_finite());
    assert!(!(nan / one).is_finite());
    assert!(!(one / nan).is_finite());
}

#[test]
fn comparisons_order_the_numbers() {
    let a = Rational::new(1, 3);
    let b = Rational::new(1, 2);
    assert!(a.lt(&b));
    assert!(a.le(&b));
    assert!(!a.gt(&b));
    assert!(!a.ge(&b));
    assert!(b.gt(&a));
    assert!(b.ge(&a));
    assert!(a.le(&a));
    assert!(a.ge(&a));
    assert!(!a.lt(&a));
    assert!(!a.gt(&a));
    assert!(Rational::new(-1, 2).lt(&Rational::new(-1, 3)));
}

#[test]
fn comparisons_with_the_non_finite_value_are_false() {
    let nan = Rational::nan();
    let one = Rational::one();
    assert!(!nan.lt(&one));
    assert!(!nan.le(&one));
    assert!(!nan.gt(&one));
    assert!(!nan.ge(&one));
    assert!(!one.lt(&nan));
    assert!(!one.ge(&nan));
    assert!(!nan.le(&nan));
    assert!(!nan.ge(&nan));
}

fn single(x: f32) -> Rational {
    Rational::from_single_bits(x.to_bits())
}

#[test]
fn single_precision_bits_give_their_exact_value() {
    assert_eq!(single(0.0), Rational::zero());
    assert_eq!(single(-0.0), Rational::zero());
    assert_eq!(single(1.0), Rational::one());
    assert_eq!(single(-1.0), Rational::from_int(-1));
    assert_eq!(single(0.5), Rational::new(1, 2));
    assert_eq!(single(-2.5), Rational::new(-5, 2));
    assert_eq!(single(3.0), Rational::from_int(3));
    assert_eq!(single(16777216.0), Rational::from_int(16777216));
    assert_eq!(single(0.1), Rational::new(13421773, 134217728));
    assert_eq!(single(0.45454547), Rational::new(15252015, 33554432));
    assert_eq!(parts(single(f32::from_bits(0x2f80_0000))), (1, 1 << 32));
    assert_eq!(parts(single(f32::from_bits(0x2e80_0000))), (1, 1 << 34));
}

#[test]
fn single_precision_bits_at_the_limits() {
    assert_eq!(parts(single(4611686018427387904.0)), (1 << 62, 1));
    assert!(!single(9223372036854775808.0).is_finite());
    assert_eq!(parts(single(f32::from_bits(0x2080_0000))), (1, 1 << 62));
    assert!(!single(f32::from_bits(0x2000_0000)).is_finite());
    assert_eq!(parts(single(f32::from_bits(0x5eff_ffff))), (0xff_ffff << 39, 1));
    assert_eq!(parts(single(-f32::from_bits(0x5eff_ffff))), (-(0xff_ffff_i64 << 39), 1));
    assert!(!single(f32::MAX).is_finite());
    assert!(!single(f32::MIN).is_finite());
    assert!(!single(f32::MIN_POSITIVE).is_finite());
    assert!(!single(f32::from_bits(1)).is_finite());
    assert!(!single(f32::from_bits(0x007f_ffff)).is_finite());
    assert!(!single(f32::from_bits(0x0040_0000)).is_finite());
    assert!(!single(1.0e30).is_finite());
    assert!(!single(1.0e-30).is_finite());
}

#[test]
fn single_precision_bits_that_are_no_numbers() {
    assert!(!single(f32::INFINITY).is_finite());
    assert!(!single(f32::NEG_INFINITY).is_finite());
    assert!(!single(f32::NAN).is_finite());
    assert!(!Rational::from_single_bits(0x7f80_0001).is_finite());
    assert!(!Rational::from_single_bits(0xffff_ffff).is_finite());
}
