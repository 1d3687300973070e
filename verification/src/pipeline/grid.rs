//! How coordinates between -1 and 1 and pixel indices map to one another.
use crate::pipeline::geometry::lower;
use crate::pipeline::raster::{center_spec, pixel_index, pixel_index_by_parts, scaled_position};
use crate::rational::ints::{
    lemma_product_order, lemma_quotient_below, lemma_quotient_brackets,
    lemma_quotient_of_multiple, lemma_units,
};
use crate::rational::laws::{lemma_ratio_cross, lemma_ratio_times, lemma_real_of_product};
use crate::rational::reals::lemma_real_cancel;
use crate::rational::rounding::{lemma_floor, lemma_ratio_of_integer};
use crate::rational::{ratio, Rational, LIMIT};
use vstd::prelude::*;

verus! {

/// The scaled position of `v`, times twice a denominator.
proof fn lemma_position_times(v: real, dr: real, cr: real)
    ensures
        ((v + 1real) / 2real * cr + 1real / 2real) * (2real * dr) == (v * dr + dr) * cr + dr,
{
    let x = (v + 1real) / 2real * cr + 1real / 2real;
    assert(x * (2real * dr) == (v * dr + dr) * cr + dr) by (nonlinear_arith)
        requires
            x == (v + 1real) / 2real * cr + 1real / 2real,
    {}
}

/// The scaled position of a fraction, as one fraction.
pub proof fn lemma_scaled_position(n: int, d: int, cells: int)
    requires
        d > 0,
    ensures
        scaled_position(ratio(n, d), cells) == ratio((n + d) * cells + d, 2 * d),
{
    reveal(scaled_position);
    let v = ratio(n, d);
    let dr = d as real;
    let cr = cells as real;
    let top = (n + d) * cells + d;
    let x = scaled_position(v, cells);
    let y = ratio(top, 2 * d);
    lemma_ratio_times(n, d);
    lemma_ratio_times(top, 2 * d);
    lemma_real_of_product(n + d, cells);
    lemma_position_times(v, dr, cr);
    lemma_real_cancel(x, y, 2real * dr);
}

/// The index of a coordinate can be had by integer division of its parts.
pub proof fn lemma_pixel_index(coord: Rational, cells: int)
    requires
        coord.wf(),
    ensures
        pixel_index(coord, cells) == pixel_index_by_parts(coord, cells),
{
    reveal(pixel_index);
    if coord.finite() {
        let n = coord.numer();
        let d = coord.denom();
        lemma_scaled_position(n, d, cells);
        lemma_floor((n + d) * cells + d, 2 * d);
    }
}

/// A coordinate of at most 1 has an index of at most the number of pixels.
proof fn lemma_ends_before(n: int, d: int, cells: int)
    requires
        n <= d,
        d > 0,
        cells >= 0,
    ensures
        ((n + d) * cells + d) / (2 * d) < cells + 1,
{
    let top = (n + d) * cells + d;
    assert(top < (2 * d) * (cells + 1)) by (nonlinear_arith)
        requires
            top == (n + d) * cells + d,
            n <= d,
            d > 0,
            cells >= 0,
    {}
    lemma_quotient_below(top, 2 * d, cells + 1);
}

/// A least corner cut to the cube never starts before the first pixel, and
/// a greatest corner cut to the cube never ends beyond the last.
pub proof fn lemma_end_in_frame(v: Rational, cells: int)
    requires
        v.wf(),
        0 <= cells <= usize::MAX,
    ensures
        0 <= pixel_index(lower(Rational::one_spec(), v), cells) <= cells,
{
    Rational::lemma_zero_one();
    let b = lower(Rational::one_spec(), v);
    lemma_pixel_index(b, cells);
    let n = b.numer();
    let d = b.denom();
    lemma_units(n);
    lemma_units(d);
    assert(n <= d);
    lemma_ends_before(n, d, cells);
}


/// The centre of pixel `index` of `cells` as a real number:
/// `(2 * index + 1) / cells - 1`.
pub open spec fn center_value(index: int, cells: int) -> real {
    ratio(2 * index + 1 - cells, cells)
}

/// The centre of a pixel of the frame is a number strictly between -1 and 1.
pub proof fn lemma_center(index: int, cells: int)
    requires
        0 <= index < cells <= LIMIT,
    ensures
        center_spec(index, cells).wf(),
        center_spec(index, cells).finite(),
        center_spec(index, cells).value() == center_value(index, cells),
        -1real < center_value(index, cells) < 1real,
{
    Rational::lemma_reduced(2 * index + 1 - cells, cells);
    lemma_ratio_cross(2 * index + 1 - cells, cells, 1, 1);
    lemma_ratio_cross(-1, 1, 2 * index + 1 - cells, cells);
    lemma_ratio_of_integer(1);
    lemma_ratio_of_integer(-1);
}

/// The centre of a pixel is well formed; where it is a number it is the
/// centre's real value, and that lies strictly between -1 and 1.
pub proof fn lemma_center_value(index: int, cells: int)
    requires
        0 <= index < cells,
    ensures
        center_spec(index, cells).wf(),
        center_spec(index, cells).finite() ==> center_spec(index, cells).value() == center_value(
            index,
            cells,
        ),
        -1real < center_value(index, cells) < 1real,
{
    Rational::lemma_fraction(2 * index + 1 - cells, cells);
    lemma_ratio_cross(2 * index + 1 - cells, cells, 1, 1);
    lemma_ratio_cross(-1, 1, 2 * index + 1 - cells, cells);
    lemma_ratio_of_integer(1);
    lemma_ratio_of_integer(-1);
}

/// Centres grow with the index.
pub proof fn lemma_center_grows(i: int, j: int, cells: int)
    requires
        i <= j,
        cells > 0,
    ensures
        center_value(i, cells) <= center_value(j, cells),
{
    lemma_ratio_cross(2 * i + 1 - cells, cells, 2 * j + 1 - cells, cells);
    lemma_product_order(2 * i + 1 - cells, 2 * j + 1 - cells, cells);
}

/// For the centre of pixel `index`, stored as `n / d`, the dividend of the
/// index is `index + 1` times the divisor.
proof fn lemma_center_top(n: int, d: int, cells: int, index: int)
    requires
        n * cells == (2 * index + 1 - cells) * d,
    ensures
        (n + d) * cells + d == (index + 1) * (2 * d),
{
    let top = (n + d) * cells + d;
    let n0 = 2 * index + 1 - cells;
    assert(top == (index + 1) * (2 * d)) by (nonlinear_arith)
        requires
            top == (n + d) * cells + d,
            n * cells == n0 * d,
            n0 == 2 * index + 1 - cells,
    {}
}

/// Mapping the centre of pixel `index` to an index gives `index + 1`: a
/// range that ends at the index of a pixel's centre takes that pixel in, and
/// a range that starts there leaves it out.
pub proof fn lemma_index_of_center(index: int, cells: int)
    requires
        0 <= index < cells <= LIMIT,
        cells <= usize::MAX,
    ensures
        pixel_index(center_spec(index, cells), cells) == index + 1,
{
    lemma_center(index, cells);
    let c = center_spec(index, cells);
    lemma_pixel_index(c, cells);
    let n = c.numer();
    let d = c.denom();
    let n0 = 2 * index + 1 - cells;
    lemma_ratio_cross(n, d, n0, cells);
    assert(n * cells == n0 * d);
    lemma_center_top(n, d, cells, index);
    lemma_quotient_of_multiple(index + 1, 2 * d);
}

/// The cross products that compare `n / d` with the centres before and at
/// index `t`.
proof fn lemma_bracket_products(n: int, d: int, cells: int, t: int)
    ensures
        (n + d) * cells + d == n * cells + d * cells + d,
        (2 * (t - 1) + 1 - cells) * d == t * (2 * d) - d - d * cells,
        (2 * t + 1 - cells) * d == (t + 1) * (2 * d) - d - d * cells,
{
    assert((n + d) * cells + d == n * cells + d * cells + d) by (nonlinear_arith);
    assert((2 * (t - 1) + 1 - cells) * d == t * (2 * d) - d - d * cells) by (nonlinear_arith);
    assert((2 * t + 1 - cells) * d == (t + 1) * (2 * d) - d - d * cells) by (nonlinear_arith);
}

/// The index of a coordinate counts the pixel centres that do not lie
/// beyond it: unless the index is held at 0 or at the largest index, the
/// coordinate lies at or after the centre before the index and strictly
/// before the centre at the index.
pub proof fn lemma_index_brackets(coord: Rational, cells: int)
    requires
        coord.wf(),
        coord.finite(),
        0 < cells <= usize::MAX,
    ensures
        0 <= pixel_index(coord, cells) <= usize::MAX,
        0 < pixel_index(coord, cells) ==> center_value(pixel_index(coord, cells) - 1, cells)
            <= coord.value(),
        pixel_index(coord, cells) < usize::MAX ==> coord.value() < center_value(
            pixel_index(coord, cells),
            cells,
        ),
{
    lemma_pixel_index(coord, cells);
    let n = coord.numer();
    let d = coord.denom();
    let top = (n + d) * cells + d;
    let t = top / (2 * d);
    let k = pixel_index(coord, cells);
    lemma_quotient_brackets(top, 2 * d);
    lemma_ratio_cross(2 * (t - 1) + 1 - cells, cells, n, d);
    lemma_ratio_cross(n, d, 2 * t + 1 - cells, cells);
    lemma_bracket_products(n, d, cells, t);
    assert(center_value(t - 1, cells) <= coord.value() < center_value(t, cells));
    if 0 < k {
        lemma_center_grows(k - 1, t - 1, cells);
    }
    if k < usize::MAX {
        lemma_center_grows(t, k, cells);
    }
}

} // verus!
