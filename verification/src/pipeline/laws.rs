//! What holds of the coverage test and of the barycentric weights.
use crate::matrix::vector::Vector3;
use crate::pipeline::barycentric::BarycentricCoord;
use crate::pipeline::bounds::{max3, min3};
use crate::pipeline::geometry::{
    area_of, barycentric, covers, turn_of, turns_fit, two, weights_fit,
};
use crate::rational::reals::{
    lemma_real_halve, lemma_real_one_sided, lemma_real_rotate,
    lemma_real_weigh,
    lemma_real_between, lemma_real_commute, lemma_real_distribute, lemma_real_expand,
    lemma_real_mix, lemma_real_mixed_signs, lemma_real_share_sign, lemma_real_shares,
    lemma_real_zero,
};
use crate::rational::Rational;
use vstd::prelude::*;
use vstd::std_specs::ops::{AddSpec, DivSpec, MulSpec, SubSpec};

verus! {

/// The signed turn from the edge `a -> b` to the point `c`, over the reals.
#[verifier::opaque]
pub open spec fn turn_value(ax: real, ay: real, bx: real, by: real, cx: real, cy: real) -> real {
    (ay - by) * (cx - bx) + (bx - ax) * (cy - by)
}

/// The turn as a sum of products of coordinates.
proof fn lemma_turn_expanded(ax: real, ay: real, bx: real, by: real, cx: real, cy: real)
    ensures
        turn_value(ax, ay, bx, by, cx, cy) == ay * cx - ay * bx - by * cx + bx * cy - ax * cy + ax
            * by,
{
    reveal(turn_value);
    lemma_real_expand(ay, by, cx, bx);
    lemma_real_expand(bx, ax, cy, by);
    lemma_real_commute(by, bx);
}

/// The turns of a point around the three edges add up to the turn of the
/// triangle itself, wherever the point lies.
pub proof fn lemma_turn_sum(
    ax: real,
    ay: real,
    bx: real,
    by: real,
    cx: real,
    cy: real,
    px: real,
    py: real,
)
    ensures
        turn_value(ax, ay, bx, by, px, py) + turn_value(bx, by, cx, cy, px, py) + turn_value(
            cx,
            cy,
            ax,
            ay,
            px,
            py,
        ) == turn_value(ax, ay, bx, by, cx, cy),
        turn_value(ax, ay, bx, by, cx, cy) == turn_value(bx, by, cx, cy, ax, ay),
        turn_value(ax, ay, bx, by, cx, cy) == turn_value(cx, cy, ax, ay, bx, by),
{
    lemma_turn_expanded(ax, ay, bx, by, px, py);
    lemma_turn_expanded(bx, by, cx, cy, px, py);
    lemma_turn_expanded(cx, cy, ax, ay, px, py);
    lemma_turn_expanded(ax, ay, bx, by, cx, cy);
    lemma_turn_expanded(bx, by, cx, cy, ax, ay);
    lemma_turn_expanded(cx, cy, ax, ay, bx, by);
    lemma_real_commute(ay, px);
    lemma_real_commute(by, px);
    lemma_real_commute(cy, px);
    lemma_real_commute(ay, bx);
    lemma_real_commute(by, cx);
    lemma_real_commute(cy, ax);
    lemma_real_commute(ax, py);
    lemma_real_commute(bx, py);
    lemma_real_commute(cx, py);
    lemma_real_commute(ay, cx);
    lemma_real_commute(by, ax);
    lemma_real_commute(cy, bx);
}


/// The turn of a point around an edge, by the offsets of the ends of the
/// edge from the point: the cross product of the two offsets.
proof fn lemma_turn_as_cross(ax: real, ay: real, bx: real, by: real, px: real, py: real)
    ensures
        turn_value(ax, ay, bx, by, px, py) == (ax - px) * (by - py) - (ay - py) * (bx - px),
{
    lemma_turn_expanded(ax, ay, bx, by, px, py);
    lemma_real_expand(ax, px, by, py);
    lemma_real_expand(ay, py, bx, px);
    lemma_real_commute(ay, px);
    lemma_real_commute(by, px);
    lemma_real_commute(ax, py);
    lemma_real_commute(bx, py);
    lemma_real_commute(px, py);
    lemma_real_commute(py, bx);
    lemma_real_commute(px, by);
    lemma_real_commute(py, px);
}

/// Three vectors in the plane, each weighed by the cross product of the
/// other two in order, add up to nothing.
proof fn lemma_cross_weights(ax: real, ay: real, bx: real, by: real, cx: real, cy: real)
    ensures
        (bx * cy - by * cx) * ax + (cx * ay - cy * ax) * bx + (ax * by - ay * bx) * cx == 0real,
        (bx * cy - by * cx) * ay + (cx * ay - cy * ax) * by + (ax * by - ay * bx) * cy == 0real,
{
    lemma_real_distribute(ax, bx * cy, by * cx);
    lemma_real_distribute(bx, cx * ay, cy * ax);
    lemma_real_distribute(cx, ax * by, ay * bx);
    lemma_real_distribute(ay, bx * cy, by * cx);
    lemma_real_distribute(by, cx * ay, cy * ax);
    lemma_real_distribute(cy, ax * by, ay * bx);
    lemma_real_rotate(bx, cy, ax);
    lemma_real_rotate(cx, ay, bx);
    lemma_real_rotate(ax, by, cx);
    lemma_real_rotate(by, cx, ax);
    lemma_real_rotate(cy, ax, bx);
    lemma_real_rotate(ay, bx, cx);
    lemma_real_rotate(bx, cy, ay);
    lemma_real_rotate(cx, ay, by);
    lemma_real_rotate(ax, by, cy);
    lemma_real_rotate(by, cx, ay);
    lemma_real_rotate(cy, ax, by);
    lemma_real_rotate(ay, bx, cy);
}

/// The three turns of a point weigh the vertices opposite to them back to
/// the point: the turn around `b -> c` times `a`, the turn around `c -> a`
/// times `b` and the turn around `a -> b` times `c` add up to the turn of
/// the triangle times the point, on each axis.
pub proof fn lemma_turns_weigh(
    ax: real,
    ay: real,
    bx: real,
    by: real,
    cx: real,
    cy: real,
    px: real,
    py: real,
)
    ensures
        turn_value(bx, by, cx, cy, px, py) * (ax - px) + turn_value(cx, cy, ax, ay, px, py) * (bx
            - px) + turn_value(ax, ay, bx, by, px, py) * (cx - px) == 0real,
        turn_value(bx, by, cx, cy, px, py) * (ay - py) + turn_value(cx, cy, ax, ay, px, py) * (by
            - py) + turn_value(ax, ay, bx, by, px, py) * (cy - py) == 0real,
        turn_value(bx, by, cx, cy, px, py) * ax + turn_value(cx, cy, ax, ay, px, py) * bx
            + turn_value(ax, ay, bx, by, px, py) * cx == turn_value(ax, ay, bx, by, cx, cy) * px,
        turn_value(bx, by, cx, cy, px, py) * ay + turn_value(cx, cy, ax, ay, px, py) * by
            + turn_value(ax, ay, bx, by, px, py) * cy == turn_value(ax, ay, bx, by, cx, cy) * py,
{
    let t1 = turn_value(ax, ay, bx, by, px, py);
    let t2 = turn_value(bx, by, cx, cy, px, py);
    let t3 = turn_value(cx, cy, ax, ay, px, py);
    let t = turn_value(ax, ay, bx, by, cx, cy);
    lemma_turn_as_cross(ax, ay, bx, by, px, py);
    lemma_turn_as_cross(bx, by, cx, cy, px, py);
    lemma_turn_as_cross(cx, cy, ax, ay, px, py);
    lemma_cross_weights(ax - px, ay - py, bx - px, by - py, cx - px, cy - py);
    lemma_turn_sum(ax, ay, bx, by, cx, cy, px, py);
    lemma_real_distribute(t2, ax, px);
    lemma_real_distribute(t3, bx, px);
    lemma_real_distribute(t1, cx, px);
    lemma_real_distribute(t2, ay, py);
    lemma_real_distribute(t3, by, py);
    lemma_real_distribute(t1, cy, py);
    lemma_real_distribute(px, t1 + t2, t3);
    lemma_real_distribute(px, t1, t2);
    lemma_real_distribute(py, t1 + t2, t3);
    lemma_real_distribute(py, t1, t2);
}

/// A point strictly inside a triangle lies strictly between the least and
/// the greatest coordinate of the vertices, on each axis.
pub proof fn lemma_inside_within_box(
    ax: real,
    ay: real,
    bx: real,
    by: real,
    cx: real,
    cy: real,
    px: real,
    py: real,
)
    requires
        strictly_inside(ax, ay, bx, by, cx, cy, px, py),
    ensures
        min3(ax, bx, cx) < px < max3(ax, bx, cx),
        min3(ay, by, cy) < py < max3(ay, by, cy),
{
    let t1 = turn_value(ax, ay, bx, by, px, py);
    let t2 = turn_value(bx, by, cx, cy, px, py);
    let t3 = turn_value(cx, cy, ax, ay, px, py);
    lemma_turns_weigh(ax, ay, bx, by, cx, cy, px, py);
    lemma_turn_as_cross(ax, ay, bx, by, px, py);
    let (dx1, dx2, dx3) = (ax - px, bx - px, cx - px);
    let (dy1, dy2, dy3) = (ay - py, by - py, cy - py);
    if dx1 >= 0real && dx2 >= 0real && dx3 >= 0real || dx1 <= 0real && dx2 <= 0real && dx3
        <= 0real {
        lemma_real_one_sided(t2, t3, t1, dx1, dx2, dx3);
        lemma_real_zero(dy2);
        lemma_real_zero(dy1);
        assert(false);
    }
    if dy1 >= 0real && dy2 >= 0real && dy3 >= 0real || dy1 <= 0real && dy2 <= 0real && dy3
        <= 0real {
        lemma_real_one_sided(t2, t3, t1, dy1, dy2, dy3);
        lemma_real_zero(dx1);
        lemma_real_zero(dx2);
        assert(false);
    }
}

/// The magnitude of a real number.
pub open spec fn abs_value(x: real) -> real {
    if x < 0real {
        -x
    } else {
        x
    }
}

/// The area of a triangle over the reals, by the shoelace formula.
#[verifier::opaque]
pub open spec fn area_value(ax: real, ay: real, bx: real, by: real, cx: real, cy: real) -> real {
    abs_value(ax * (by - cy) + bx * (cy - ay) + cx * (ay - by)) / 2real
}

/// The shoelace sum of a triangle is its turn, so the area is half the
/// magnitude of the turn.
pub proof fn lemma_area_is_half_turn(ax: real, ay: real, bx: real, by: real, cx: real, cy: real)
    ensures
        area_value(ax, ay, bx, by, cx, cy) == abs_value(turn_value(ax, ay, bx, by, cx, cy)) / 2real,
{
    reveal(area_value);
    lemma_turn_expanded(ax, ay, bx, by, cx, cy);
    lemma_real_distribute(ax, by, cy);
    lemma_real_distribute(bx, cy, ay);
    lemma_real_distribute(cx, ay, by);
    lemma_real_commute(bx, ay);
    lemma_real_commute(cx, ay);
    lemma_real_commute(cx, by);
}

/// A turn computed without overflow is the turn of the values.
pub proof fn lemma_turn_of(
    ax: Rational,
    ay: Rational,
    bx: Rational,
    by: Rational,
    cx: Rational,
    cy: Rational,
)
    requires
        ax.wf(),
        ay.wf(),
        bx.wf(),
        by.wf(),
        cx.wf(),
        cy.wf(),
    ensures
        turn_of(ax, ay, bx, by, cx, cy).wf(),
        turn_of(ax, ay, bx, by, cx, cy).finite() ==> ax.finite() && ay.finite() && bx.finite()
            && by.finite() && cx.finite() && cy.finite() && turn_of(ax, ay, bx, by, cx, cy).value()
            == turn_value(ax.value(), ay.value(), bx.value(), by.value(), cx.value(), cy.value()),
{
    reveal(turn_value);
    reveal(turn_of);
    ay.lemma_sub(by);
    cx.lemma_sub(bx);
    ay.sub_spec(by).lemma_mul(cx.sub_spec(bx));
    bx.lemma_sub(ax);
    cy.lemma_sub(by);
    bx.sub_spec(ax).lemma_mul(cy.sub_spec(by));
    ay.sub_spec(by).mul_spec(cx.sub_spec(bx)).lemma_add(
        bx.sub_spec(ax).mul_spec(cy.sub_spec(by)),
    );
}

/// `two` is the number 2, stored as 2 over 1.
pub proof fn lemma_two()
    ensures
        two().wf(),
        two().finite(),
        two().value() == 2real,
{
    Rational::lemma_integer(2);
}

/// An area computed without overflow is the area of the values.
pub proof fn lemma_area_of(
    ax: Rational,
    ay: Rational,
    bx: Rational,
    by: Rational,
    cx: Rational,
    cy: Rational,
)
    requires
        ax.wf(),
        ay.wf(),
        bx.wf(),
        by.wf(),
        cx.wf(),
        cy.wf(),
    ensures
        area_of(ax, ay, bx, by, cx, cy).wf(),
        area_of(ax, ay, bx, by, cx, cy).finite() ==> ax.finite() && ay.finite() && bx.finite()
            && by.finite() && cx.finite() && cy.finite() && area_of(ax, ay, bx, by, cx, cy).value()
            == area_value(ax.value(), ay.value(), bx.value(), by.value(), cx.value(), cy.value()),
{
    reveal(area_value);
    reveal(area_of);
    by.lemma_sub(cy);
    cy.lemma_sub(ay);
    ay.lemma_sub(by);
    let first = ax.mul_spec(by.sub_spec(cy));
    let second = bx.mul_spec(cy.sub_spec(ay));
    let third = cx.mul_spec(ay.sub_spec(by));
    ax.lemma_mul(by.sub_spec(cy));
    bx.lemma_mul(cy.sub_spec(ay));
    cx.lemma_mul(ay.sub_spec(by));
    first.lemma_add(second);
    first.add_spec(second).lemma_add(third);
    let sum = first.add_spec(second).add_spec(third);
    sum.lemma_neg_abs();
    lemma_two();
    sum.abs_spec().lemma_div(two());
}

/// Whether a point lies strictly inside a triangle: strictly to the left
/// of all three edges, or strictly to the right of all three.
pub open spec fn strictly_inside(
    ax: real,
    ay: real,
    bx: real,
    by: real,
    cx: real,
    cy: real,
    px: real,
    py: real,
) -> bool {
    let t1 = turn_value(ax, ay, bx, by, px, py);
    let t2 = turn_value(bx, by, cx, cy, px, py);
    let t3 = turn_value(cx, cy, ax, ay, px, py);
    t1 > 0real && t2 > 0real && t3 > 0real || t1 < 0real && t2 < 0real && t3 < 0real
}

/// An area computed without overflow is half the magnitude of the turn of
/// the values.
pub proof fn lemma_area_of_turn(
    ax: Rational,
    ay: Rational,
    bx: Rational,
    by: Rational,
    cx: Rational,
    cy: Rational,
)
    requires
        ax.wf(),
        ay.wf(),
        bx.wf(),
        by.wf(),
        cx.wf(),
        cy.wf(),
        area_of(ax, ay, bx, by, cx, cy).finite(),
    ensures
        area_of(ax, ay, bx, by, cx, cy).wf(),
        area_of(ax, ay, bx, by, cx, cy).value() == abs_value(
            turn_value(ax.value(), ay.value(), bx.value(), by.value(), cx.value(), cy.value()),
        ) / 2real,
{
    lemma_area_of(ax, ay, bx, by, cx, cy);
    lemma_area_is_half_turn(ax.value(), ay.value(), bx.value(), by.value(), cx.value(), cy.value());
}

/// A weight computed without overflow is the share of its part in the
/// whole.
proof fn lemma_weight(part: Rational, whole: Rational)
    requires
        part.wf(),
        whole.wf(),
        part.div_spec(whole).finite(),
    ensures
        part.finite(),
        whole.finite(),
        whole.value() != 0real,
        part.div_spec(whole).value() == part.value() / whole.value(),
{
    part.lemma_div(whole);
}

/// Whether `w` holds three weights that are numbers, none of them negative,
/// that add up to exactly 1 and weigh the vertices `a`, `b`, `c` back to the
/// point `(px, py)` on both axes.
pub open spec fn weighs_back(
    a: Vector3,
    b: Vector3,
    c: Vector3,
    px: Rational,
    py: Rational,
    w: BarycentricCoord,
) -> bool {
    &&& w.a.finite() && w.b.finite() && w.c.finite()
    &&& w.a.value() >= 0real && w.b.value() >= 0real && w.c.value() >= 0real
    &&& w.a.value() + w.b.value() + w.c.value() == 1real
    &&& w.a.value() * a.x_spec().value() + w.b.value() * b.x_spec().value() + w.c.value()
        * c.x_spec().value() == px.value()
    &&& w.a.value() * a.y_spec().value() + w.b.value() * b.y_spec().value() + w.c.value()
        * c.y_spec().value() == py.value()
}

/// Whether a point lies inside a triangle or on its border: to the left of
/// all three edges or on them, or to the right of all three or on them.
pub open spec fn inside_or_on(
    ax: real,
    ay: real,
    bx: real,
    by: real,
    cx: real,
    cy: real,
    px: real,
    py: real,
) -> bool {
    let t1 = turn_value(ax, ay, bx, by, px, py);
    let t2 = turn_value(bx, by, cx, cy, px, py);
    let t3 = turn_value(cx, cy, ax, ay, px, py);
    t1 >= 0real && t2 >= 0real && t3 >= 0real || t1 <= 0real && t2 <= 0real && t3 <= 0real
}

/// Where the three turns are computed without overflow, the coordinates
/// are numbers and the coverage test decides exactly whether the point
/// lies inside the triangle or on its border.
pub proof fn lemma_covers_exactly(a: Vector3, b: Vector3, c: Vector3, px: Rational, py: Rational)
    requires
        a.planar(),
        b.planar(),
        c.planar(),
        px.wf(),
        py.wf(),
        turns_fit(a, b, c, px, py),
    ensures
        a.x_spec().finite() && a.y_spec().finite(),
        b.x_spec().finite() && b.y_spec().finite(),
        c.x_spec().finite() && c.y_spec().finite(),
        px.finite() && py.finite(),
        covers(a, b, c, px, py) == inside_or_on(
            a.x_spec().value(),
            a.y_spec().value(),
            b.x_spec().value(),
            b.y_spec().value(),
            c.x_spec().value(),
            c.y_spec().value(),
            px.value(),
            py.value(),
        ),
{
    lemma_covers(a, b, c, px, py);
    lemma_turn_of(a.x_spec(), a.y_spec(), b.x_spec(), b.y_spec(), px, py);
    lemma_turn_of(b.x_spec(), b.y_spec(), c.x_spec(), c.y_spec(), px, py);
    lemma_turn_of(c.x_spec(), c.y_spec(), a.x_spec(), a.y_spec(), px, py);
}

/// The share that half the magnitude of `part` has in half the magnitude of
/// `whole`.
pub open spec fn share(part: real, whole: real) -> real {
    (abs_value(part) / 2real) / (abs_value(whole) / 2real)
}

/// In a triangle with area, weights that have room are numbers: each is the
/// share of the turn around the edge opposite to its vertex in the turn of
/// the triangle.
pub proof fn lemma_weight_values(a: Vector3, b: Vector3, c: Vector3, px: Rational, py: Rational)
    requires
        a.planar(),
        b.planar(),
        c.planar(),
        px.wf(),
        py.wf(),
        weights_fit(a, b, c, px, py),
        turn_value(
            a.x_spec().value(),
            a.y_spec().value(),
            b.x_spec().value(),
            b.y_spec().value(),
            c.x_spec().value(),
            c.y_spec().value(),
        ) != 0real,
    ensures
        barycentric(a, b, c, px, py).a.finite(),
        barycentric(a, b, c, px, py).b.finite(),
        barycentric(a, b, c, px, py).c.finite(),
        barycentric(a, b, c, px, py).a.value() == share(
            turn_value(
                b.x_spec().value(),
                b.y_spec().value(),
                c.x_spec().value(),
                c.y_spec().value(),
                px.value(),
                py.value(),
            ),
            turn_value(
                a.x_spec().value(),
                a.y_spec().value(),
                b.x_spec().value(),
                b.y_spec().value(),
                c.x_spec().value(),
                c.y_spec().value(),
            ),
        ),
        barycentric(a, b, c, px, py).b.value() == share(
            turn_value(
                c.x_spec().value(),
                c.y_spec().value(),
                a.x_spec().value(),
                a.y_spec().value(),
                px.value(),
                py.value(),
            ),
            turn_value(
                a.x_spec().value(),
                a.y_spec().value(),
                b.x_spec().value(),
                b.y_spec().value(),
                c.x_spec().value(),
                c.y_spec().value(),
            ),
        ),
        barycentric(a, b, c, px, py).c.value() == share(
            turn_value(
                a.x_spec().value(),
                a.y_spec().value(),
                b.x_spec().value(),
                b.y_spec().value(),
                px.value(),
                py.value(),
            ),
            turn_value(
                a.x_spec().value(),
                a.y_spec().value(),
                b.x_spec().value(),
                b.y_spec().value(),
                c.x_spec().value(),
                c.y_spec().value(),
            ),
        ),
{
    let (axr, ayr) = (a.x_spec(), a.y_spec());
    let (bxr, byr) = (b.x_spec(), b.y_spec());
    let (cxr, cyr) = (c.x_spec(), c.y_spec());
    let whole = area_of(axr, ayr, bxr, byr, cxr, cyr);
    let abp = area_of(axr, ayr, bxr, byr, px, py);
    let bcp = area_of(bxr, byr, cxr, cyr, px, py);
    let cap = area_of(cxr, cyr, axr, ayr, px, py);
    lemma_area_of_turn(axr, ayr, bxr, byr, cxr, cyr);
    lemma_area_of_turn(axr, ayr, bxr, byr, px, py);
    lemma_area_of_turn(bxr, byr, cxr, cyr, px, py);
    lemma_area_of_turn(cxr, cyr, axr, ayr, px, py);
    whole.lemma_sign();
    lemma_weight(bcp, whole);
    lemma_weight(cap, whole);
    lemma_weight(abp, whole);
}

/// The shares of three turns of one sign in their sum: none is negative,
/// they add up to 1, and they weigh `a`, `b`, `c` to `p` where the turns
/// weigh them to the sum's multiple of `p`.
proof fn lemma_shares(t1: real, t2: real, t3: real, t: real, a: real, b: real, c: real, p: real)
    requires
        t1 + t2 + t3 == t,
        t != 0real,
        t1 >= 0real && t2 >= 0real && t3 >= 0real || t1 <= 0real && t2 <= 0real && t3 <= 0real,
        t2 * a + t3 * b + t1 * c == t * p,
    ensures
        share(t1, t) >= 0real && share(t2, t) >= 0real && share(t3, t) >= 0real,
        t1 != 0real ==> share(t1, t) > 0real,
        t2 != 0real ==> share(t2, t) > 0real,
        t3 != 0real ==> share(t3, t) > 0real,
        share(t2, t) + share(t3, t) + share(t1, t) == 1real,
        share(t2, t) * a + share(t3, t) * b + share(t1, t) * c == p,
{
    let s = abs_value(t) / 2real;
    let s1 = abs_value(t1) / 2real;
    let s2 = abs_value(t2) / 2real;
    let s3 = abs_value(t3) / 2real;
    lemma_real_shares(s1, s2, s3, s);
    lemma_real_halve(t2, a);
    lemma_real_halve(t3, b);
    lemma_real_halve(t1, c);
    lemma_real_halve(t, p);
    assert(s2 * a + s3 * b + s1 * c == s * p);
    lemma_real_weigh(s1, s2, s3, s, a, b, c, p);
}

/// For a point inside a triangle with area or on its border, weights that
/// have room are numbers, none of them negative, that add up to exactly 1
/// and weigh the three vertices back to the point. For a point strictly
/// inside, all three are positive.
pub proof fn lemma_weights_inside(a: Vector3, b: Vector3, c: Vector3, px: Rational, py: Rational)
    requires
        a.planar(),
        b.planar(),
        c.planar(),
        px.wf(),
        py.wf(),
        weights_fit(a, b, c, px, py),
        inside_or_on(
            a.x_spec().value(),
            a.y_spec().value(),
            b.x_spec().value(),
            b.y_spec().value(),
            c.x_spec().value(),
            c.y_spec().value(),
            px.value(),
            py.value(),
        ),
        turn_value(
            a.x_spec().value(),
            a.y_spec().value(),
            b.x_spec().value(),
            b.y_spec().value(),
            c.x_spec().value(),
            c.y_spec().value(),
        ) != 0real,
    ensures
        weighs_back(a, b, c, px, py, barycentric(a, b, c, px, py)),
        strictly_inside(
            a.x_spec().value(),
            a.y_spec().value(),
            b.x_spec().value(),
            b.y_spec().value(),
            c.x_spec().value(),
            c.y_spec().value(),
            px.value(),
            py.value(),
        ) ==> barycentric(a, b, c, px, py).a.value() > 0real && barycentric(
            a,
            b,
            c,
            px,
            py,
        ).b.value() > 0real && barycentric(a, b, c, px, py).c.value() > 0real,
{
    let (ax, ay) = (a.x_spec().value(), a.y_spec().value());
    let (bx, by) = (b.x_spec().value(), b.y_spec().value());
    let (cx, cy) = (c.x_spec().value(), c.y_spec().value());
    let (qx, qy) = (px.value(), py.value());
    lemma_weight_values(a, b, c, px, py);
    lemma_turn_sum(ax, ay, bx, by, cx, cy, qx, qy);
    lemma_turns_weigh(ax, ay, bx, by, cx, cy, qx, qy);
    let t1 = turn_value(ax, ay, bx, by, qx, qy);
    let t2 = turn_value(bx, by, cx, cy, qx, qy);
    let t3 = turn_value(cx, cy, ax, ay, qx, qy);
    let t = turn_value(ax, ay, bx, by, cx, cy);
    lemma_shares(t1, t2, t3, t, ax, bx, cx, qx);
    lemma_shares(t1, t2, t3, t, ay, by, cy, qy);
}

/// A point strictly inside a triangle lies inside it, and the triangle has
/// area.
pub proof fn lemma_strictly_inside(
    ax: real,
    ay: real,
    bx: real,
    by: real,
    cx: real,
    cy: real,
    px: real,
    py: real,
)
    requires
        strictly_inside(ax, ay, bx, by, cx, cy, px, py),
    ensures
        inside_or_on(ax, ay, bx, by, cx, cy, px, py),
        turn_value(ax, ay, bx, by, cx, cy) != 0real,
{
    lemma_turn_sum(ax, ay, bx, by, cx, cy, px, py);
}

/// Coverage decided without overflow is coverage of the values: the three
/// turns are all at least 0 or all at most 0.
pub proof fn lemma_covers(a: Vector3, b: Vector3, c: Vector3, px: Rational, py: Rational)
    requires
        a.planar(),
        b.planar(),
        c.planar(),
        px.wf(),
        py.wf(),
    ensures
        covers(a, b, c, px, py) <==> {
            let d1 = turn_of(a.x_spec(), a.y_spec(), b.x_spec(), b.y_spec(), px, py);
            let d2 = turn_of(b.x_spec(), b.y_spec(), c.x_spec(), c.y_spec(), px, py);
            let d3 = turn_of(c.x_spec(), c.y_spec(), a.x_spec(), a.y_spec(), px, py);
            d1.finite() && d2.finite() && d3.finite() && (d1.value() >= 0real && d2.value() >= 0real
                && d3.value() >= 0real || d1.value() <= 0real && d2.value() <= 0real && d3.value()
                <= 0real)
        },
{
    let d1 = turn_of(a.x_spec(), a.y_spec(), b.x_spec(), b.y_spec(), px, py);
    let d2 = turn_of(b.x_spec(), b.y_spec(), c.x_spec(), c.y_spec(), px, py);
    let d3 = turn_of(c.x_spec(), c.y_spec(), a.x_spec(), a.y_spec(), px, py);
    lemma_turn_of(a.x_spec(), a.y_spec(), b.x_spec(), b.y_spec(), px, py);
    lemma_turn_of(b.x_spec(), b.y_spec(), c.x_spec(), c.y_spec(), px, py);
    lemma_turn_of(c.x_spec(), c.y_spec(), a.x_spec(), a.y_spec(), px, py);
    Rational::lemma_zero_one();
    let zero = Rational::zero_spec();
    zero.lemma_order(d1);
    zero.lemma_order(d2);
    zero.lemma_order(d3);
    d1.lemma_order(zero);
    d2.lemma_order(zero);
    d3.lemma_order(zero);
}

/// The point at the fraction `s` of the way from `a` to `b`, on one axis.
#[verifier::opaque]
pub open spec fn along(a: real, b: real, s: real) -> real {
    a + s * (b - a)
}

/// Whether the point `p` lies on the edge from `a` to `b`, ends included.
pub open spec fn on_edge(ax: real, ay: real, bx: real, by: real, px: real, py: real) -> bool {
    exists|s: real|
        0real <= s <= 1real && px == #[trigger] along(ax, bx, s) && py == along(ay, by, s)
}

/// The turn around an edge is an affine function of the point: at a point
/// on the way from `x` to `y` it lies as far on the way between their turns.
pub proof fn lemma_turn_affine(
    ux: real,
    uy: real,
    vx: real,
    vy: real,
    xx: real,
    xy: real,
    yx: real,
    yy: real,
    s: real,
)
    ensures
        turn_value(ux, uy, vx, vy, along(xx, yx, s), along(xy, yy, s)) == (1real - s) * turn_value(
            ux,
            uy,
            vx,
            vy,
            xx,
            xy,
        ) + s * turn_value(ux, uy, vx, vy, yx, yy),
{
    reveal(turn_value);
    reveal(along);
    let al = uy - vy;
    let be = vx - ux;
    let px = along(xx, yx, s);
    let py = along(xy, yy, s);
    let tx = turn_value(ux, uy, vx, vy, xx, xy);
    let ty = turn_value(ux, uy, vx, vy, yx, yy);
    let tp = turn_value(ux, uy, vx, vy, px, py);
    let e1 = xx - vx;
    let e2 = yx - vx;
    let f1 = xy - vy;
    let f2 = yy - vy;
    assert(tx == al * e1 + be * f1);
    assert(ty == al * e2 + be * f2);
    assert(tp == al * (px - vx) + be * (py - vy));
    lemma_real_between(xx, yx, s, vx);
    lemma_real_between(xy, yy, s, vy);
    lemma_real_mix(al, s, e1, e2);
    lemma_real_mix(be, s, f1, f2);
    lemma_real_distribute(1real - s, al * e1, be * f1);
    lemma_real_distribute(s, al * e2, be * f2);
}

/// The turn from an edge to one of its own ends is 0.
proof fn lemma_turn_at_end(ax: real, ay: real, bx: real, by: real)
    ensures
        turn_value(ax, ay, bx, by, ax, ay) == 0real,
        turn_value(ax, ay, bx, by, bx, by) == 0real,
{
    lemma_turn_expanded(ax, ay, bx, by, ax, ay);
    lemma_turn_expanded(ax, ay, bx, by, bx, by);
    lemma_real_commute(ay, ax);
    lemma_real_commute(ay, bx);
    lemma_real_commute(by, ax);
    lemma_real_commute(by, bx);
}

/// On the edge from `a` to `b` the turn around that edge is 0 and the other
/// two turns have the sign of the triangle's own turn.
proof fn lemma_turns_on_edge(
    ax: real,
    ay: real,
    bx: real,
    by: real,
    cx: real,
    cy: real,
    px: real,
    py: real,
)
    requires
        on_edge(ax, ay, bx, by, px, py),
    ensures
        ({
            let t1 = turn_value(ax, ay, bx, by, px, py);
            let t2 = turn_value(bx, by, cx, cy, px, py);
            let t3 = turn_value(cx, cy, ax, ay, px, py);
            t1 >= 0real && t2 >= 0real && t3 >= 0real || t1 <= 0real && t2 <= 0real && t3 <= 0real
        }),
{
    let s = choose|s: real|
        0real <= s <= 1real && px == #[trigger] along(ax, bx, s) && py == along(ay, by, s);
    let t = turn_value(ax, ay, bx, by, cx, cy);
    lemma_turn_affine(ax, ay, bx, by, ax, ay, bx, by, s);
    lemma_turn_affine(bx, by, cx, cy, ax, ay, bx, by, s);
    lemma_turn_affine(cx, cy, ax, ay, ax, ay, bx, by, s);
    lemma_turn_at_end(ax, ay, bx, by);
    lemma_turn_at_end(bx, by, cx, cy);
    lemma_turn_at_end(cx, cy, ax, ay);
    lemma_turn_sum(ax, ay, bx, by, cx, cy, px, py);
    let t1 = turn_value(ax, ay, bx, by, px, py);
    let t2 = turn_value(bx, by, cx, cy, px, py);
    let t3 = turn_value(cx, cy, ax, ay, px, py);
    lemma_real_zero(s);
    lemma_real_zero(1real - s);
    lemma_real_share_sign(s, t);
}

/// A point on an edge of a triangle, whichever way the triangle winds, is
/// covered, wherever the coverage test has room.
pub proof fn lemma_edge_covered(a: Vector3, b: Vector3, c: Vector3, px: Rational, py: Rational)
    requires
        a.planar(),
        b.planar(),
        c.planar(),
        px.wf(),
        py.wf(),
        turns_fit(a, b, c, px, py),
        on_edge(
            a.x_spec().value(),
            a.y_spec().value(),
            b.x_spec().value(),
            b.y_spec().value(),
            px.value(),
            py.value(),
        ) || on_edge(
            b.x_spec().value(),
            b.y_spec().value(),
            c.x_spec().value(),
            c.y_spec().value(),
            px.value(),
            py.value(),
        ) || on_edge(
            c.x_spec().value(),
            c.y_spec().value(),
            a.x_spec().value(),
            a.y_spec().value(),
            px.value(),
            py.value(),
        ),
    ensures
        covers(a, b, c, px, py),
{
    let (ax, ay) = (a.x_spec().value(), a.y_spec().value());
    let (bx, by) = (b.x_spec().value(), b.y_spec().value());
    let (cx, cy) = (c.x_spec().value(), c.y_spec().value());
    let (qx, qy) = (px.value(), py.value());
    lemma_covers(a, b, c, px, py);
    lemma_turn_of(a.x_spec(), a.y_spec(), b.x_spec(), b.y_spec(), px, py);
    lemma_turn_of(b.x_spec(), b.y_spec(), c.x_spec(), c.y_spec(), px, py);
    lemma_turn_of(c.x_spec(), c.y_spec(), a.x_spec(), a.y_spec(), px, py);
    if on_edge(ax, ay, bx, by, qx, qy) {
        lemma_turns_on_edge(ax, ay, bx, by, cx, cy, qx, qy);
    } else if on_edge(bx, by, cx, cy, qx, qy) {
        lemma_turns_on_edge(bx, by, cx, cy, ax, ay, qx, qy);
    } else {
        lemma_turns_on_edge(cx, cy, ax, ay, bx, by, qx, qy);
    }
}

/// Whether a point lies outside a triangle: for some edge, the point lies
/// strictly on the other side of the edge's line than the vertex opposite.
pub open spec fn outside(
    ax: real,
    ay: real,
    bx: real,
    by: real,
    cx: real,
    cy: real,
    px: real,
    py: real,
) -> bool {
    ||| turn_value(ax, ay, bx, by, px, py) * turn_value(ax, ay, bx, by, cx, cy) < 0real
    ||| turn_value(bx, by, cx, cy, px, py) * turn_value(bx, by, cx, cy, ax, ay) < 0real
    ||| turn_value(cx, cy, ax, ay, px, py) * turn_value(cx, cy, ax, ay, bx, by) < 0real
}

/// A point outside a triangle is not covered, and where its three turns
/// have room one of them is strictly positive and one strictly negative.
pub proof fn lemma_outside_excluded(a: Vector3, b: Vector3, c: Vector3, px: Rational, py: Rational)
    requires
        a.planar(),
        b.planar(),
        c.planar(),
        px.wf(),
        py.wf(),
        outside(
            a.x_spec().value(),
            a.y_spec().value(),
            b.x_spec().value(),
            b.y_spec().value(),
            c.x_spec().value(),
            c.y_spec().value(),
            px.value(),
            py.value(),
        ),
    ensures
        !covers(a, b, c, px, py),
        turns_fit(a, b, c, px, py) ==> ({
            let d1 = turn_of(a.x_spec(), a.y_spec(), b.x_spec(), b.y_spec(), px, py);
            let d2 = turn_of(b.x_spec(), b.y_spec(), c.x_spec(), c.y_spec(), px, py);
            let d3 = turn_of(c.x_spec(), c.y_spec(), a.x_spec(), a.y_spec(), px, py);
            (d1.value() > 0real || d2.value() > 0real || d3.value() > 0real) && (d1.value() < 0real
                || d2.value() < 0real || d3.value() < 0real)
        }),
{
    let (ax, ay) = (a.x_spec().value(), a.y_spec().value());
    let (bx, by) = (b.x_spec().value(), b.y_spec().value());
    let (cx, cy) = (c.x_spec().value(), c.y_spec().value());
    let (qx, qy) = (px.value(), py.value());
    lemma_covers(a, b, c, px, py);
    lemma_turn_of(a.x_spec(), a.y_spec(), b.x_spec(), b.y_spec(), px, py);
    lemma_turn_of(b.x_spec(), b.y_spec(), c.x_spec(), c.y_spec(), px, py);
    lemma_turn_of(c.x_spec(), c.y_spec(), a.x_spec(), a.y_spec(), px, py);
    lemma_turn_sum(ax, ay, bx, by, cx, cy, qx, qy);
    let t = turn_value(ax, ay, bx, by, cx, cy);
    let t1 = turn_value(ax, ay, bx, by, qx, qy);
    let t2 = turn_value(bx, by, cx, cy, qx, qy);
    let t3 = turn_value(cx, cy, ax, ay, qx, qy);
    lemma_real_mixed_signs(t1, t2, t3, t);
}


} // verus!
