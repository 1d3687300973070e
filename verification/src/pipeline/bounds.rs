//! What the bounding box of a triangle spans.
use crate::matrix::vector::Vector3;
use crate::pipeline::geometry::{bounding_box, greatest_of, least_of, lower, upper};
use crate::rational::Rational;
use vstd::prelude::*;

verus! {

/// The smallest of three real numbers.
pub open spec fn min3(a: real, b: real, c: real) -> real {
    if a <= b && a <= c {
        a
    } else if b <= c {
        b
    } else {
        c
    }
}

/// The largest of three real numbers.
pub open spec fn max3(a: real, b: real, c: real) -> real {
    if a >= b && a >= c {
        a
    } else if b >= c {
        b
    } else {
        c
    }
}

/// The smaller of two real numbers.
pub open spec fn min2(a: real, b: real) -> real {
    if a <= b {
        a
    } else {
        b
    }
}

/// The larger of two real numbers.
pub open spec fn max2(a: real, b: real) -> real {
    if a >= b {
        a
    } else {
        b
    }
}

/// Lowering and raising a bound by a number gives the smaller and the
/// larger of the two values.
pub proof fn lemma_lower_upper(bound: Rational, v: Rational)
    requires
        bound.wf() && bound.finite(),
        v.wf() && v.finite(),
    ensures
        lower(bound, v).wf() && lower(bound, v).finite(),
        lower(bound, v).value() == min2(bound.value(), v.value()),
        upper(bound, v).wf() && upper(bound, v).finite(),
        upper(bound, v).value() == max2(bound.value(), v.value()),
{
    v.lemma_order(bound);
    bound.lemma_order(v);
}

/// The least and the greatest of three numbers are numbers, and they are the
/// smallest and the largest of the three values.
pub proof fn lemma_least_and_greatest(a: Rational, b: Rational, c: Rational)
    requires
        a.wf() && a.finite(),
        b.wf() && b.finite(),
        c.wf() && c.finite(),
    ensures
        least_of(a, b, c, 3).wf(),
        least_of(a, b, c, 3).finite(),
        least_of(a, b, c, 3).value() == min3(a.value(), b.value(), c.value()),
        greatest_of(a, b, c, 3).wf(),
        greatest_of(a, b, c, 3).finite(),
        greatest_of(a, b, c, 3).value() == max3(a.value(), b.value(), c.value()),
{
    let top = Rational::max_spec();
    let bottom = Rational::min_spec();
    Rational::lemma_extremes(a);
    lemma_lower_upper(top, a);
    lemma_lower_upper(bottom, a);
    let l1 = lower(top, a);
    let u1 = upper(bottom, a);
    lemma_lower_upper(l1, b);
    lemma_lower_upper(u1, b);
    lemma_lower_upper(lower(l1, b), c);
    lemma_lower_upper(upper(u1, b), c);
}

/// Whether the three coordinates of a position are numbers.
pub open spec fn is_point(v: Vector3) -> bool {
    &&& v.x_spec().wf() && v.x_spec().finite()
    &&& v.y_spec().wf() && v.y_spec().finite()
    &&& v.z_spec().wf() && v.z_spec().finite()
}

/// The box around three positions whose coordinates are numbers spans, on
/// each axis, from the smallest to the largest coordinate.
pub proof fn lemma_bounding_box(a: Vector3, b: Vector3, c: Vector3)
    requires
        is_point(a),
        is_point(b),
        is_point(c),
    ensures
        ({
            let bb = bounding_box(a, b, c);
            &&& bb.x.finite() && bb.y.finite() && bb.z.finite()
            &&& bb.xmax.finite() && bb.ymax.finite() && bb.zmax.finite()
            &&& bb.x.value() == min3(a.x_spec().value(), b.x_spec().value(), c.x_spec().value())
            &&& bb.y.value() == min3(a.y_spec().value(), b.y_spec().value(), c.y_spec().value())
            &&& bb.z.value() == min3(a.z_spec().value(), b.z_spec().value(), c.z_spec().value())
            &&& bb.xmax.value() == max3(a.x_spec().value(), b.x_spec().value(), c.x_spec().value())
            &&& bb.ymax.value() == max3(a.y_spec().value(), b.y_spec().value(), c.y_spec().value())
            &&& bb.zmax.value() == max3(a.z_spec().value(), b.z_spec().value(), c.z_spec().value())
        }),
{
    let bb = bounding_box(a, b, c);
    assert(bb.x == least_of(a.x_spec(), b.x_spec(), c.x_spec(), 3));
    assert(bb.xmax == greatest_of(a.x_spec(), b.x_spec(), c.x_spec(), 3));
    assert(bb.y == least_of(a.y_spec(), b.y_spec(), c.y_spec(), 3));
    assert(bb.ymax == greatest_of(a.y_spec(), b.y_spec(), c.y_spec(), 3));
    assert(bb.z == least_of(a.z_spec(), b.z_spec(), c.z_spec(), 3));
    assert(bb.zmax == greatest_of(a.z_spec(), b.z_spec(), c.z_spec(), 3));
    lemma_least_and_greatest(a.x_spec(), b.x_spec(), c.x_spec());
    lemma_least_and_greatest(a.y_spec(), b.y_spec(), c.y_spec());
    lemma_least_and_greatest(a.z_spec(), b.z_spec(), c.z_spec());
}

} // verus!
