//! Which pixels a triangle reaches, and bounds under which a turn has room.
use crate::matrix::vector::Vector3;
use crate::pipeline::bounds::{lemma_least_and_greatest, lemma_lower_upper, max3, min3};
use crate::pipeline::geometry::{bounding_box, lower, minus_one, ndc_box, turn_of, upper};
use crate::pipeline::grid::{
    center_value, lemma_center_grows, lemma_center_value, lemma_index_brackets,
    lemma_pixel_index,
};
use crate::pipeline::laws::{
    along, inside_or_on, lemma_covers_exactly, lemma_inside_within_box, lemma_strictly_inside,
    lemma_turn_affine, strictly_inside, turn_value,
};
use crate::pipeline::raster::{center_spec, pixel_index};
use crate::pipeline::{hits, in_range, pixel_fits, triangle_fits};
use crate::rational::ints::lemma_units;
use crate::rational::reals::{lemma_real_half, lemma_real_mix_sign, lemma_real_zero};
use crate::rational::size::within;
use crate::rational::{Rational, LIMIT};
use vstd::prelude::*;
use vstd::std_specs::ops::{AddSpec, MulSpec, SubSpec};

verus! {

/// Whether a turn has room: the ends of the edge have coordinates within
/// `v / w`, the point has its first coordinate within `xn / xd` and its second
/// within `yn / yd`, and none of the cross-multiplied parts that the turn goes
/// through exceeds the limit.
pub open spec fn turn_room(v: int, w: int, xn: int, xd: int, yn: int, yd: int) -> bool {
    let n1 = v * w + v * w;
    let d1 = w * w;
    let n2 = xn * w + v * xd;
    let d2 = xd * w;
    let n4 = yn * w + v * yd;
    let d4 = yd * w;
    &&& n1 <= LIMIT && d1 <= LIMIT
    &&& n2 <= LIMIT && d2 <= LIMIT
    &&& n4 <= LIMIT && d4 <= LIMIT
    &&& n1 * n2 <= LIMIT && d1 * d2 <= LIMIT
    &&& n1 * n4 <= LIMIT && d1 * d4 <= LIMIT
    &&& (n1 * n2) * (d1 * d4) + (n1 * n4) * (d1 * d2) <= LIMIT
    &&& (d1 * d2) * (d1 * d4) <= LIMIT
}

/// A turn that has room is a number.
pub proof fn lemma_turn_within(
    ax: Rational,
    ay: Rational,
    bx: Rational,
    by: Rational,
    px: Rational,
    py: Rational,
    v: int,
    w: int,
    xn: int,
    xd: int,
    yn: int,
    yd: int,
)
    requires
        within(ax, v, w),
        within(ay, v, w),
        within(bx, v, w),
        within(by, v, w),
        within(px, xn, xd),
        within(py, yn, yd),
        turn_room(v, w, xn, xd, yn, yd),
    ensures
        turn_of(ax, ay, bx, by, px, py).wf(),
        turn_of(ax, ay, bx, by, px, py).finite(),
{
    reveal(turn_of);
    let n1 = v * w + v * w;
    let d1 = w * w;
    let n2 = xn * w + v * xd;
    let d2 = xd * w;
    let n4 = yn * w + v * yd;
    let d4 = yd * w;
    ay.lemma_sum_within(by, v, w, v, w);
    px.lemma_sum_within(bx, xn, xd, v, w);
    bx.lemma_sum_within(ax, v, w, v, w);
    py.lemma_sum_within(by, yn, yd, v, w);
    let s1 = ay.sub_spec(by);
    let s2 = px.sub_spec(bx);
    let s3 = bx.sub_spec(ax);
    let s4 = py.sub_spec(by);
    s1.lemma_times_within(s2, n1, d1, n2, d2);
    s3.lemma_times_within(s4, n1, d1, n4, d4);
    s1.mul_spec(s2).lemma_sum_within(s3.mul_spec(s4), n1 * n2, d1 * d2, n1 * n4, d1 * d4);
}


/// Whether the four corners of the square from -1 to 1 lie to the left of
/// the edge `a -> b`, or on it.
pub open spec fn square_on_left(ax: real, ay: real, bx: real, by: real) -> bool {
    &&& turn_value(ax, ay, bx, by, -1real, -1real) >= 0real
    &&& turn_value(ax, ay, bx, by, 1real, -1real) >= 0real
    &&& turn_value(ax, ay, bx, by, -1real, 1real) >= 0real
    &&& turn_value(ax, ay, bx, by, 1real, 1real) >= 0real
}

/// Whether the four corners of the square from -1 to 1 lie to the right of
/// the edge `a -> b`, or on it.
pub open spec fn square_on_right(ax: real, ay: real, bx: real, by: real) -> bool {
    &&& turn_value(ax, ay, bx, by, -1real, -1real) <= 0real
    &&& turn_value(ax, ay, bx, by, 1real, -1real) <= 0real
    &&& turn_value(ax, ay, bx, by, -1real, 1real) <= 0real
    &&& turn_value(ax, ay, bx, by, 1real, 1real) <= 0real
}

/// The fraction of the way from -1 to 1 at which `p` lies.
proof fn lemma_fraction_of_span(p: real) -> (s: real)
    requires
        -1real <= p <= 1real,
    ensures
        0real <= s <= 1real,
        along(-1real, 1real, s) == p,
        forall|c: real| #[trigger] along(c, c, s) == c,
{
    reveal(along);
    let s = (p + 1real) / 2real;
    lemma_real_half(p + 1real);
    assert forall|c: real| #[trigger] along(c, c, s) == c by {
        lemma_real_zero(s);
    }
    s
}

/// Every point of the square lies on the side of an edge on which the four
/// corners lie.
pub proof fn lemma_square_side(ax: real, ay: real, bx: real, by: real, px: real, py: real)
    requires
        -1real <= px <= 1real,
        -1real <= py <= 1real,
    ensures
        square_on_left(ax, ay, bx, by) ==> turn_value(ax, ay, bx, by, px, py) >= 0real,
        square_on_right(ax, ay, bx, by) ==> turn_value(ax, ay, bx, by, px, py) <= 0real,
{
    let s = lemma_fraction_of_span(px);
    let u = lemma_fraction_of_span(py);
    let low = turn_value(ax, ay, bx, by, px, -1real);
    let high = turn_value(ax, ay, bx, by, px, 1real);
    lemma_turn_affine(ax, ay, bx, by, -1real, -1real, 1real, -1real, s);
    assert(along(-1real, -1real, s) == -1real);
    lemma_turn_affine(ax, ay, bx, by, -1real, 1real, 1real, 1real, s);
    assert(along(1real, 1real, s) == 1real);
    lemma_turn_affine(ax, ay, bx, by, px, -1real, px, 1real, u);
    assert(along(px, px, u) == px);
    lemma_real_mix_sign(
        s,
        turn_value(ax, ay, bx, by, -1real, -1real),
        turn_value(ax, ay, bx, by, 1real, -1real),
    );
    lemma_real_mix_sign(
        s,
        turn_value(ax, ay, bx, by, -1real, 1real),
        turn_value(ax, ay, bx, by, 1real, 1real),
    );
    lemma_real_mix_sign(u, low, high);
}


/// -1 is the number -1, stored as -1 over 1.
pub proof fn lemma_minus_one()
    ensures
        minus_one().wf(),
        minus_one().finite(),
        minus_one().numer() == -1,
        minus_one().denom() == 1,
        minus_one().value() == -1real,
{
    Rational::lemma_integer(-1);
}

/// The two ends of the range map to the first index and to one past the
/// last.
pub proof fn lemma_index_at_ends(cells: int)
    requires
        0 <= cells <= usize::MAX,
    ensures
        pixel_index(minus_one(), cells) == 0,
        pixel_index(Rational::one_spec(), cells) == cells,
{
    lemma_minus_one();
    Rational::lemma_zero_one();
    lemma_pixel_index(minus_one(), cells);
    lemma_pixel_index(Rational::one_spec(), cells);
    let low = minus_one();
    let top = (low.numer() + low.denom()) * cells + low.denom();
    lemma_units(cells);
    assert(2 * low.denom() == 2);
    assert(1int / 2 == 0);
    assert(top / (2 * low.denom()) == 0);
    let high = Rational::one_spec();
    let over = (high.numer() + high.denom()) * cells + high.denom();
    assert(over == 2 * cells + 1);
    assert(2 * high.denom() == 2);
    assert((2 * cells + 1) / 2 == cells);
    assert(over / (2 * high.denom()) == cells);
}

/// A box that reaches to or beyond the range from -1 to 1 on an axis is
/// cut to that range there.
pub proof fn lemma_clipped_to_range(least: Rational, greatest: Rational)
    requires
        least.wf() && least.finite(),
        greatest.wf() && greatest.finite(),
        least.value() <= -1real,
        greatest.value() >= 1real,
    ensures
        upper(minus_one(), least) == minus_one(),
        lower(Rational::one_spec(), greatest) == Rational::one_spec(),
{
    lemma_minus_one();
    Rational::lemma_zero_one();
    minus_one().lemma_order(least);
    greatest.lemma_order(Rational::one_spec());
}

/// Whether a triangle encloses the square from -1 to 1: its four corners lie
/// on one side of all three edges, or on them.
pub open spec fn encloses_square(a: Vector3, b: Vector3, c: Vector3) -> bool {
    let (ax, ay) = (a.x_spec().value(), a.y_spec().value());
    let (bx, by) = (b.x_spec().value(), b.y_spec().value());
    let (cx, cy) = (c.x_spec().value(), c.y_spec().value());
    ||| square_on_left(ax, ay, bx, by) && square_on_left(bx, by, cx, cy) && square_on_left(
        cx,
        cy,
        ax,
        ay,
    )
    ||| square_on_right(ax, ay, bx, by) && square_on_right(bx, by, cx, cy) && square_on_right(
        cx,
        cy,
        ax,
        ay,
    )
}

/// Whether the vertices of a triangle reach to or beyond the square from -1
/// to 1 on all four sides.
pub open spec fn spans_square(a: Vector3, b: Vector3, c: Vector3) -> bool {
    &&& min3(a.x_spec().value(), b.x_spec().value(), c.x_spec().value()) <= -1real
    &&& max3(a.x_spec().value(), b.x_spec().value(), c.x_spec().value()) >= 1real
    &&& min3(a.y_spec().value(), b.y_spec().value(), c.y_spec().value()) <= -1real
    &&& max3(a.y_spec().value(), b.y_spec().value(), c.y_spec().value()) >= 1real
}

/// Whether the first two coordinates of a position are numbers.
pub open spec fn planar_point(v: Vector3) -> bool {
    v.planar() && v.x_spec().finite() && v.y_spec().finite()
}

/// A triangle that encloses the square from -1 to 1 reaches every pixel of
/// a frame, wherever drawing it has room.
pub proof fn lemma_reaches_every_pixel(
    a: Vector3,
    b: Vector3,
    c: Vector3,
    y: int,
    x: int,
    n: int,
    m: int,
)
    requires
        planar_point(a),
        planar_point(b),
        planar_point(c),
        0 <= y < n <= usize::MAX,
        0 <= x < m <= usize::MAX,
        encloses_square(a, b, c),
        spans_square(a, b, c),
        triangle_fits(a, b, c, n, m),
    ensures
        hits(a, b, c, y, x, n, m),
{
    let whole = bounding_box(a, b, c);
    lemma_least_and_greatest(a.x_spec(), b.x_spec(), c.x_spec());
    lemma_least_and_greatest(a.y_spec(), b.y_spec(), c.y_spec());
    lemma_clipped_to_range(whole.x, whole.xmax);
    lemma_clipped_to_range(whole.y, whole.ymax);
    lemma_index_at_ends(m);
    lemma_index_at_ends(n);
    let clipped = whole.intersect_spec(ndc_box());
    assert(clipped.x == minus_one());
    assert(clipped.xmax == Rational::one_spec());
    assert(clipped.y == minus_one());
    assert(clipped.ymax == Rational::one_spec());
    assert(in_range(a, b, c, y, x, n, m));
    assert(pixel_fits(a, b, c, y, x, n, m));
    let px = center_spec(x, m);
    let py = center_spec(y, n);
    lemma_center_value(x, m);
    lemma_center_value(y, n);
    lemma_covers_exactly(a, b, c, px, py);
    let (ax, ay) = (a.x_spec().value(), a.y_spec().value());
    let (bx, by) = (b.x_spec().value(), b.y_spec().value());
    let (cx, cy) = (c.x_spec().value(), c.y_spec().value());
    lemma_square_side(ax, ay, bx, by, px.value(), py.value());
    lemma_square_side(bx, by, cx, cy, px.value(), py.value());
    lemma_square_side(cx, cy, ax, ay, px.value(), py.value());
}

/// A pixel that a triangle reaches has its centre inside the triangle or on
/// its border, wherever drawing the triangle has room.
pub proof fn lemma_reached_is_inside(
    a: Vector3,
    b: Vector3,
    c: Vector3,
    y: int,
    x: int,
    n: int,
    m: int,
)
    requires
        a.planar(),
        b.planar(),
        c.planar(),
        0 <= y < n,
        0 <= x < m,
        triangle_fits(a, b, c, n, m),
        hits(a, b, c, y, x, n, m),
    ensures
        inside_or_on(
            a.x_spec().value(),
            a.y_spec().value(),
            b.x_spec().value(),
            b.y_spec().value(),
            c.x_spec().value(),
            c.y_spec().value(),
            center_value(x, m),
            center_value(y, n),
        ),
{
    assert(pixel_fits(a, b, c, y, x, n, m));
    lemma_center_value(x, m);
    lemma_center_value(y, n);
    lemma_covers_exactly(a, b, c, center_spec(x, m), center_spec(y, n));
}

/// A coordinate strictly between the least and the greatest corner of a
/// box, and strictly between -1 and 1, has its pixel in the pixel range of
/// the box cut to the cube.
proof fn lemma_index_in_range(least: Rational, greatest: Rational, index: int, cells: int)
    requires
        least.wf() && least.finite(),
        greatest.wf() && greatest.finite(),
        0 <= index < cells <= usize::MAX,
        least.value() < center_value(index, cells) < greatest.value(),
    ensures
        pixel_index(upper(minus_one(), least), cells) <= index < pixel_index(
            lower(Rational::one_spec(), greatest),
            cells,
        ),
{
    lemma_minus_one();
    Rational::lemma_zero_one();
    lemma_center_value(index, cells);
    lemma_lower_upper(minus_one(), least);
    lemma_lower_upper(Rational::one_spec(), greatest);
    let from = upper(minus_one(), least);
    let to = lower(Rational::one_spec(), greatest);
    lemma_index_brackets(from, cells);
    lemma_index_brackets(to, cells);
    let k = pixel_index(from, cells);
    let e = pixel_index(to, cells);
    if k > index {
        lemma_center_grows(index, k - 1, cells);
    }
    if e <= index {
        lemma_center_grows(e, index, cells);
    }
}

/// A pixel whose centre lies strictly inside a triangle is reached by the
/// triangle, wherever drawing the triangle has room.
pub proof fn lemma_inside_is_reached(
    a: Vector3,
    b: Vector3,
    c: Vector3,
    y: int,
    x: int,
    n: int,
    m: int,
)
    requires
        planar_point(a),
        planar_point(b),
        planar_point(c),
        0 <= y < n <= usize::MAX,
        0 <= x < m <= usize::MAX,
        triangle_fits(a, b, c, n, m),
        strictly_inside(
            a.x_spec().value(),
            a.y_spec().value(),
            b.x_spec().value(),
            b.y_spec().value(),
            c.x_spec().value(),
            c.y_spec().value(),
            center_value(x, m),
            center_value(y, n),
        ),
    ensures
        hits(a, b, c, y, x, n, m),
{
    let (ax, ay) = (a.x_spec().value(), a.y_spec().value());
    let (bx, by) = (b.x_spec().value(), b.y_spec().value());
    let (cx, cy) = (c.x_spec().value(), c.y_spec().value());
    let (qx, qy) = (center_value(x, m), center_value(y, n));
    lemma_inside_within_box(ax, ay, bx, by, cx, cy, qx, qy);
    let whole = bounding_box(a, b, c);
    lemma_least_and_greatest(a.x_spec(), b.x_spec(), c.x_spec());
    lemma_least_and_greatest(a.y_spec(), b.y_spec(), c.y_spec());
    lemma_index_in_range(whole.x, whole.xmax, x, m);
    lemma_index_in_range(whole.y, whole.ymax, y, n);
    assert(in_range(a, b, c, y, x, n, m));
    assert(pixel_fits(a, b, c, y, x, n, m));
    lemma_center_value(x, m);
    lemma_center_value(y, n);
    lemma_covers_exactly(a, b, c, center_spec(x, m), center_spec(y, n));
    lemma_strictly_inside(ax, ay, bx, by, cx, cy, qx, qy);
}

/// Whether a position has the integers `x` and `y` as its first two
/// coordinates.
pub open spec fn at_integers(v: Vector3, x: int, y: int) -> bool {
    v.x_spec() == Rational::reduced(x, 1) && v.y_spec() == Rational::reduced(y, 1)
}

/// The triangle with the corners (-1, -1), (3, -1) and (-1, 3) encloses the
/// square from -1 to 1 and reaches beyond it on all four sides.
pub proof fn lemma_covering_triangle(a: Vector3, b: Vector3, c: Vector3)
    requires
        at_integers(a, -1, -1),
        at_integers(b, 3, -1),
        at_integers(c, -1, 3),
    ensures
        planar_point(a),
        planar_point(b),
        planar_point(c),
        encloses_square(a, b, c),
        spans_square(a, b, c),
{
    Rational::lemma_integer(-1);
    Rational::lemma_integer(3);
    reveal(turn_value);
    let (ax, ay) = (a.x_spec().value(), a.y_spec().value());
    let (bx, by) = (b.x_spec().value(), b.y_spec().value());
    let (cx, cy) = (c.x_spec().value(), c.y_spec().value());
    assert(ax == -1real && ay == -1real && bx == 3real && by == -1real && cx == -1real && cy
        == 3real);
    assert(square_on_left(ax, ay, bx, by));
    assert(square_on_left(bx, by, cx, cy));
    assert(square_on_left(cx, cy, ax, ay));
}

} // verus!
