//! The mapping between coordinates from -1 to 1 and pixel indices.
use crate::pipeline::grid::lemma_pixel_index;
use crate::rational::rounding::half;
use crate::rational::ints::{
    lemma_product_order, lemma_product_within, lemma_quotient_sign, lemma_units,
};
use crate::rational::Rational;
use vstd::arithmetic::mul::lemma_mul_nonnegative;
use vstd::prelude::*;

verus! {

/// The index of the first of `cells` pixels whose centre lies beyond
/// `coord`, when the pixels divide the range from -1 to 1 evenly: the floor
/// of `(coord + 1) / 2 * cells + 1/2`, held between 0 and the largest index.
/// A coordinate that is not a number gives 0.
#[verifier::opaque]
pub open spec fn pixel_index(coord: Rational, cells: int) -> int {
    if coord.finite() {
        let t = scaled_position(coord.value(), cells).floor();
        if t < 0 {
            0
        } else if t > usize::MAX {
            usize::MAX as int
        } else {
            t
        }
    } else {
        0
    }
}

/// The same index by integer division of the parts of `coord`.
pub open spec fn pixel_index_by_parts(coord: Rational, cells: int) -> int {
    if coord.finite() {
        let t = ((coord.numer() + coord.denom()) * cells + coord.denom()) / (2 * coord.denom());
        if t < 0 {
            0
        } else if t > usize::MAX {
            usize::MAX as int
        } else {
            t
        }
    } else {
        0
    }
}

/// Where a coordinate lies among `cells` pixels, counted in pixels from
/// half a pixel before the first: `(v + 1) / 2 * cells + 1/2`.
#[verifier::opaque]
pub open spec fn scaled_position(v: real, cells: int) -> real {
    (v + 1real) / 2real * (cells as real) + half()
}

/// The centre of pixel `index` of `cells`: `(2 * index + 1) / cells - 1`.
pub open spec fn center_spec(index: int, cells: int) -> Rational {
    Rational::fraction(2 * index + 1 - cells, cells)
}

/// A coordinate below -1 has no pixel centre before it.
proof fn lemma_before_the_first(s: int, cells: int, d: int)
    requires
        s < 0,
        cells >= 0,
        d > 0,
    ensures
        (s * cells + d) / (2 * d) <= 0,
{
    let top = s * cells + d;
    lemma_product_order(s, 0, cells);
    lemma_units(cells);
    lemma_quotient_sign(top, 2 * d);
}

/// The index of the first pixel whose centre lies beyond `coord`.
pub fn ndc_to_pixel(coord: &Rational, cells: usize) -> (index: usize)
    ensures
        index == pixel_index(*coord, cells as int),
{
    let n: i64 = coord.numerator();
    let d: i64 = coord.denominator();
    proof {
        lemma_pixel_index(*coord, cells as int);
    }
    if d == 0 {
        return 0;
    }
    let s: i128 = (n as i128) + (d as i128);
    if s < 0 {
        proof {
            lemma_before_the_first(s as int, cells as int, d as int);
        }
        return 0;
    }
    proof {
        let most: int = 0xffff_ffff_ffff_ffff;
        lemma_product_within(s as int, cells as int, most, most);
        lemma_mul_nonnegative(s as int, cells as int);
        assert(most * most == 0xffff_ffff_ffff_fffe_0000_0000_0000_0001);
    }
    let top: u128 = (s as u128) * (cells as u128) + (d as u128);
    let t: u128 = top / (2 * (d as u128));
    if t > usize::MAX as u128 {
        usize::MAX
    } else {
        t as usize
    }
}

/// The centre of pixel `index` of `cells`.
pub fn pixel_center(index: usize, cells: usize) -> (center: Rational)
    ensures
        center == center_spec(index as int, cells as int),
{
    Rational::from_wide(2 * (index as i128) + 1 - (cells as i128), cells as i128)
}

} // verus!
