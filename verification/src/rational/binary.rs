//! Numbers from the bits of single-precision binary numbers: one sign bit,
//! eight bits of exponent, and twenty-three bits of fraction.
use crate::rational::ints::{lemma_product_order, lemma_product_sign, lemma_product_within};
use crate::rational::{magnitude, Rational, LIMIT};
use vstd::arithmetic::power2::{
    lemma2_to64, lemma2_to64_rest, lemma_pow2_adds, lemma_pow2_pos, lemma_pow2_strictly_increases,
    lemma_pow2_unfold, pow2,
};
use vstd::prelude::*;

verus! {

/// The sign bit: 1 for a negative number.
pub open spec fn sign_of(bits: u32) -> int {
    bits as int / 0x8000_0000
}

/// The eight bits of the exponent.
pub open spec fn exponent_of(bits: u32) -> int {
    (bits as int / 0x80_0000) % 256
}

/// The twenty-three bits of the fraction.
pub open spec fn fraction_of(bits: u32) -> int {
    bits as int % 0x80_0000
}

/// The mantissa with its sign: the fraction, with the hidden bit in front
/// of it unless the exponent is 0.
pub open spec fn mantissa_of(bits: u32) -> int {
    let m = if exponent_of(bits) == 0 {
        fraction_of(bits)
    } else {
        fraction_of(bits) + 0x80_0000
    };
    if sign_of(bits) == 1 {
        -m
    } else {
        m
    }
}

/// The power of two that scales the mantissa.
pub open spec fn power_of(bits: u32) -> int {
    if exponent_of(bits) == 0 {
        -149
    } else {
        exponent_of(bits) - 150
    }
}

/// The number that the bits stand for: the mantissa times two to the
/// power, exactly. Infinities and the values that are no numbers, which
/// have all exponent bits set, give the non-finite value, and so does a
/// number whose exact fraction does not fit.
pub open spec fn single_value(bits: u32) -> Rational {
    if exponent_of(bits) == 255 {
        Rational::nan_spec()
    } else if power_of(bits) >= 0 {
        Rational::fraction(mantissa_of(bits) * pow2(power_of(bits) as nat), 1)
    } else {
        Rational::fraction(mantissa_of(bits), pow2((-power_of(bits)) as nat) as int)
    }
}

/// Powers of two up to the 127th.
proof fn lemma_large_powers(k: nat)
    ensures
        pow2(k) > 0,
        k <= 126 ==> pow2(k) <= 0x4000_0000_0000_0000_0000_0000_0000_0000,
        k >= 63 ==> pow2(k) >= 0x8000_0000_0000_0000,
        k >= 127 ==> pow2(k) >= 0x8000_0000_0000_0000_0000_0000_0000_0000,
        pow2(100) == 0x10_0000_0000_0000_0000_0000_0000,
{
    lemma_pow2_pos(k);
    lemma2_to64();
    lemma2_to64_rest();
    lemma_pow2_adds(63, 63);
    lemma_pow2_adds(63, 64);
    lemma_pow2_adds(64, 36);
    assert(pow2(126) == 0x4000_0000_0000_0000_0000_0000_0000_0000);
    assert(pow2(127) == 0x8000_0000_0000_0000_0000_0000_0000_0000);
    if k < 126 {
        lemma_pow2_strictly_increases(k, 126);
    }
    if k > 63 {
        lemma_pow2_strictly_increases(63, k);
    }
    if k > 127 {
        lemma_pow2_strictly_increases(127, k);
    }
}

/// Two to the power `k`.
fn power_of_two(k: u32) -> (p: i128)
    requires
        k <= 126,
    ensures
        p == pow2(k as nat),
{
    let mut p: i128 = 1;
    let mut i: u32 = 0;
    proof {
        lemma2_to64();
    }
    while i < k
        invariant
            i <= k <= 126,
            p == pow2(i as nat),
        decreases k - i,
    {
        proof {
            lemma_pow2_unfold((i + 1) as nat);
            lemma_large_powers((i + 1) as nat);
        }
        p = p * 2;
        i = i + 1;
    }
    p
}

impl Rational {
    /// The number that the bits of a single-precision binary number stand
    /// for.
    pub fn from_single_bits(bits: u32) -> (r: Rational)
        ensures
            r == single_value(bits),
    {
        let sign: u32 = bits / 0x8000_0000;
        let exponent: u32 = (bits / 0x80_0000) % 256;
        let fraction: u32 = bits % 0x80_0000;
        if exponent == 255 {
            return Rational::nan();
        }
        let unsigned: i128 = if exponent == 0 {
            fraction as i128
        } else {
            fraction as i128 + 0x80_0000
        };
        let mantissa: i128 = if sign == 1 {
            -unsigned
        } else {
            unsigned
        };
        if exponent >= 150 {
            let power: u32 = exponent - 150;
            if power <= 100 {
                let scale: i128 = power_of_two(power);
                proof {
                    lemma_large_powers(power as nat);
                    lemma_large_powers(100);
                    if power < 100 {
                        lemma_pow2_strictly_increases(power as nat, 100);
                    }
                    lemma_product_within(
                        mantissa as int,
                        scale as int,
                        0x100_0000,
                        0x10_0000_0000_0000_0000_0000_0000,
                    );
                }
                Rational::from_wide(mantissa * scale, 1)
            } else {
                proof {
                    let scale = pow2(power as nat) as int;
                    lemma_large_powers(power as nat);
                    lemma_product_order(0x8000_0000_0000_0000, scale, unsigned as int);
                    lemma_product_order(0x80_0000, unsigned as int, 0x8000_0000_0000_0000);
                    lemma_product_sign(unsigned as int, scale);
                    lemma_product_sign(mantissa as int, scale);
                    lemma_product_sign(-(unsigned as int), scale);
                    assert(unsigned * scale >= 0x80_0000 * 0x8000_0000_0000_0000);
                    lemma_negated_product(unsigned as int, scale);
                    Rational::lemma_integer_too_large(mantissa * scale);
                }
                Rational::nan()
            }
        } else {
            let down: u32 = if exponent == 0 {
                149
            } else {
                150 - exponent
            };
            if down <= 126 {
                let scale: i128 = power_of_two(down);
                proof {
                    lemma_large_powers(down as nat);
                }
                Rational::from_wide(mantissa, scale)
            } else if unsigned == 0 {
                proof {
                    lemma_large_powers(down as nat);
                    Rational::lemma_zero_fraction(pow2(down as nat) as int);
                }
                Rational::zero()
            } else {
                proof {
                    lemma_large_powers(down as nat);
                    assert(magnitude(mantissa as int) == unsigned);
                    lemma_product_within(unsigned as int, LIMIT as int, 0x100_0000, LIMIT as int);
                    Rational::lemma_fraction_too_fine(mantissa as int, pow2(down as nat) as int);
                }
                Rational::nan()
            }
        }
    }
}

/// The product with a negated factor is the negated product.
proof fn lemma_negated_product(a: int, b: int)
    ensures
        (-a) * b == -(a * b),
{
    assert((-a) * b == -(a * b)) by (nonlinear_arith);
}

} // verus!
