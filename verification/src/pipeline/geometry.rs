//! Triangles, their bounding boxes and the coverage test.
use crate::matrix::vector::{Vector2, Vector3};
use crate::pipeline::barycentric::BarycentricCoord;
use crate::pipeline::laws::{
    inside_or_on, lemma_covers_exactly, lemma_strictly_inside, lemma_turn_of,
    lemma_weights_inside, strictly_inside, turn_value, weighs_back,
};
use crate::rational::Rational;
use vstd::prelude::*;
use vstd::std_specs::ops::{AddSpec, DivSpec, MulSpec, SubSpec};

verus! {

/// The smaller of a bound and a coordinate; the bound stays when the
/// coordinate is not a number.
pub open spec fn lower(bound: Rational, v: Rational) -> Rational {
    if v.lt_spec(bound) {
        v
    } else {
        bound
    }
}

/// The larger of a bound and a coordinate; the bound stays when the
/// coordinate is not a number.
pub open spec fn upper(bound: Rational, v: Rational) -> Rational {
    if bound.lt_spec(v) {
        v
    } else {
        bound
    }
}

/// The number 2.
pub open spec fn two() -> Rational {
    Rational::reduced(2, 1)
}

/// The number -1.
pub open spec fn minus_one() -> Rational {
    Rational::reduced(-1, 1)
}

/// The signed turn from the edge `a -> b` to the point `c`, by coordinates:
/// the cross product of the edge with the vector from `b` to `c`. It is
/// positive when `c` lies to the left of the edge, negative to the right,
/// and 0 on its line.
#[verifier::opaque]
pub open spec fn turn_of(
    ax: Rational,
    ay: Rational,
    bx: Rational,
    by: Rational,
    cx: Rational,
    cy: Rational,
) -> Rational {
    ay.sub_spec(by).mul_spec(cx.sub_spec(bx)).add_spec(bx.sub_spec(ax).mul_spec(cy.sub_spec(by)))
}

/// The signed turn from the edge `a -> b` to the point `c`.
pub open spec fn turn_spec(a: Vector2, b: Vector2, c: Vector2) -> Rational {
    turn_of(a.x_spec(), a.y_spec(), b.x_spec(), b.y_spec(), c.x_spec(), c.y_spec())
}

/// The area of a triangle by the shoelace formula, by coordinates.
#[verifier::opaque]
pub open spec fn area_of(
    ax: Rational,
    ay: Rational,
    bx: Rational,
    by: Rational,
    cx: Rational,
    cy: Rational,
) -> Rational {
    ax.mul_spec(by.sub_spec(cy)).add_spec(bx.mul_spec(cy.sub_spec(ay))).add_spec(
        cx.mul_spec(ay.sub_spec(by)),
    ).abs_spec().div_spec(two())
}

/// The area of the triangle `a`, `b`, `c`.
pub open spec fn area_spec(a: Vector2, b: Vector2, c: Vector2) -> Rational {
    area_of(a.x_spec(), a.y_spec(), b.x_spec(), b.y_spec(), c.x_spec(), c.y_spec())
}

/// Whether three turns agree in sign, zero agreeing with both signs. A turn
/// that is not a number agrees with nothing.
pub open spec fn same_side(d1: Rational, d2: Rational, d3: Rational) -> bool {
    let zero = Rational::zero_spec();
    zero.le_spec(d1) && zero.le_spec(d2) && zero.le_spec(d3) || d1.le_spec(zero) && d2.le_spec(zero)
        && d3.le_spec(zero)
}

/// Whether the triangle `a`, `b`, `c`, projected to the plane, covers the
/// point `(px, py)`: the turns of the point around the edges `a -> b`,
/// `b -> c` and `c -> a` agree in sign. Points on an edge are covered, and so
/// are both windings.
pub open spec fn covers(a: Vector3, b: Vector3, c: Vector3, px: Rational, py: Rational) -> bool {
    same_side(
        turn_of(a.x_spec(), a.y_spec(), b.x_spec(), b.y_spec(), px, py),
        turn_of(b.x_spec(), b.y_spec(), c.x_spec(), c.y_spec(), px, py),
        turn_of(c.x_spec(), c.y_spec(), a.x_spec(), a.y_spec(), px, py),
    )
}

/// The barycentric coordinate of the point `(px, py)` in the triangle `a`,
/// `b`, `c`: the weight of a vertex is the area of the triangle that the
/// point forms with the other two, over the area of the whole.
pub open spec fn barycentric(
    a: Vector3,
    b: Vector3,
    c: Vector3,
    px: Rational,
    py: Rational,
) -> BarycentricCoord {
    let whole = area_of(a.x_spec(), a.y_spec(), b.x_spec(), b.y_spec(), c.x_spec(), c.y_spec());
    let abp = area_of(a.x_spec(), a.y_spec(), b.x_spec(), b.y_spec(), px, py);
    let bcp = area_of(b.x_spec(), b.y_spec(), c.x_spec(), c.y_spec(), px, py);
    let cap = area_of(c.x_spec(), c.y_spec(), a.x_spec(), a.y_spec(), px, py);
    BarycentricCoord { a: bcp.div_spec(whole), b: cap.div_spec(whole), c: abp.div_spec(whole) }
}

/// Whether the three turns of the point `(px, py)` around the triangle `a`,
/// `b`, `c` are computed without overflow: each of them is a number.
pub open spec fn turns_fit(a: Vector3, b: Vector3, c: Vector3, px: Rational, py: Rational) -> bool {
    &&& turn_of(a.x_spec(), a.y_spec(), b.x_spec(), b.y_spec(), px, py).finite()
    &&& turn_of(b.x_spec(), b.y_spec(), c.x_spec(), c.y_spec(), px, py).finite()
    &&& turn_of(c.x_spec(), c.y_spec(), a.x_spec(), a.y_spec(), px, py).finite()
}

/// Whether the barycentric weights of the point `(px, py)` in the triangle
/// `a`, `b`, `c` are computed without overflow: the four areas are numbers,
/// and so are the three weights unless the area of the whole is 0. A
/// triangle without area has weights that are not numbers, whatever the
/// room.
pub open spec fn weights_fit(
    a: Vector3,
    b: Vector3,
    c: Vector3,
    px: Rational,
    py: Rational,
) -> bool {
    let whole = area_of(a.x_spec(), a.y_spec(), b.x_spec(), b.y_spec(), c.x_spec(), c.y_spec());
    let abp = area_of(a.x_spec(), a.y_spec(), b.x_spec(), b.y_spec(), px, py);
    let bcp = area_of(b.x_spec(), b.y_spec(), c.x_spec(), c.y_spec(), px, py);
    let cap = area_of(c.x_spec(), c.y_spec(), a.x_spec(), a.y_spec(), px, py);
    &&& whole.finite() && abp.finite() && bcp.finite() && cap.finite()
    &&& whole.numer() != 0 ==> bcp.div_spec(whole).finite() && cap.div_spec(whole).finite()
        && abp.div_spec(whole).finite()
}

/// An axis-aligned box: the least and the greatest value on each axis.
#[derive(Clone, Copy)]
pub struct BoundingBox {
    pub x: Rational,
    pub y: Rational,
    pub z: Rational,
    pub xmax: Rational,
    pub ymax: Rational,
    pub zmax: Rational,
}

/// The least of the first `count` of three coordinates, starting from the
/// largest number. A coordinate that is not a number is passed over.
pub open spec fn least_of(a: Rational, b: Rational, c: Rational, count: int) -> Rational {
    let none = Rational::max_spec();
    if count <= 0 {
        none
    } else if count == 1 {
        lower(none, a)
    } else if count == 2 {
        lower(lower(none, a), b)
    } else {
        lower(lower(lower(none, a), b), c)
    }
}

/// The greatest of the first `count` of three coordinates, starting from the
/// smallest number. A coordinate that is not a number is passed over.
pub open spec fn greatest_of(a: Rational, b: Rational, c: Rational, count: int) -> Rational {
    let none = Rational::min_spec();
    if count <= 0 {
        none
    } else if count == 1 {
        upper(none, a)
    } else if count == 2 {
        upper(upper(none, a), b)
    } else {
        upper(upper(upper(none, a), b), c)
    }
}

/// The box around three points: on each axis the least and the greatest of
/// their coordinates.
pub open spec fn bounding_box(a: Vector3, b: Vector3, c: Vector3) -> BoundingBox {
    BoundingBox {
        x: least_of(a.x_spec(), b.x_spec(), c.x_spec(), 3),
        y: least_of(a.y_spec(), b.y_spec(), c.y_spec(), 3),
        z: least_of(a.z_spec(), b.z_spec(), c.z_spec(), 3),
        xmax: greatest_of(a.x_spec(), b.x_spec(), c.x_spec(), 3),
        ymax: greatest_of(a.y_spec(), b.y_spec(), c.y_spec(), 3),
        zmax: greatest_of(a.z_spec(), b.z_spec(), c.z_spec(), 3),
    }
}

/// The cube from -1 to 1 on every axis.
pub open spec fn ndc_box() -> BoundingBox {
    BoundingBox {
        x: minus_one(),
        y: minus_one(),
        z: minus_one(),
        xmax: Rational::one_spec(),
        ymax: Rational::one_spec(),
        zmax: Rational::one_spec(),
    }
}

impl BoundingBox {
    /// What two boxes have in common: on each axis the larger of the least
    /// values and the smaller of the greatest. Where `self` has no number,
    /// the value of `other` stays. The result is empty on an axis where its
    /// least value exceeds its greatest.
    pub open spec fn intersect_spec(self, other: BoundingBox) -> BoundingBox {
        BoundingBox {
            x: upper(other.x, self.x),
            y: upper(other.y, self.y),
            z: upper(other.z, self.z),
            xmax: lower(other.xmax, self.xmax),
            ymax: lower(other.ymax, self.ymax),
            zmax: lower(other.zmax, self.zmax),
        }
    }

    /// What `self` and `other` have in common.
    pub fn intersect(&self, other: &BoundingBox) -> (res: BoundingBox)
        ensures
            res == self.intersect_spec(*other),
    {
        let mut res = *other;
        if self.x.gt(&res.x) {
            res.x = self.x;
        }
        if self.y.gt(&res.y) {
            res.y = self.y;
        }
        if self.z.gt(&res.z) {
            res.z = self.z;
        }
        if self.xmax.lt(&res.xmax) {
            res.xmax = self.xmax;
        }
        if self.ymax.lt(&res.ymax) {
            res.ymax = self.ymax;
        }
        if self.zmax.lt(&res.zmax) {
            res.zmax = self.zmax;
        }
        res
    }
}

/// Three vertices, borrowed from a list of positions.
pub struct Triangle<'a> {
    pub verts: [&'a Vector3; 3],
}

impl<'a> Triangle<'a> {
    /// The first vertex.
    pub open spec fn a(self) -> Vector3 {
        *self.verts[0]
    }

    /// The second vertex.
    pub open spec fn b(self) -> Vector3 {
        *self.verts[1]
    }

    /// The third vertex.
    pub open spec fn c(self) -> Vector3 {
        *self.verts[2]
    }

    /// The box around the three vertices.
    pub fn calc_bounding_box(&self) -> (b: BoundingBox)
        ensures
            b == bounding_box(self.a(), self.b(), self.c()),
    {
        let mut b = BoundingBox {
            x: Rational::max_value(),
            y: Rational::max_value(),
            z: Rational::max_value(),
            xmax: Rational::min_value(),
            ymax: Rational::min_value(),
            zmax: Rational::min_value(),
        };
        for i in 0..3
            invariant
                b.x == least_of(self.a().x_spec(), self.b().x_spec(), self.c().x_spec(), i as int),
                b.y == least_of(self.a().y_spec(), self.b().y_spec(), self.c().y_spec(), i as int),
                b.z == least_of(self.a().z_spec(), self.b().z_spec(), self.c().z_spec(), i as int),
                b.xmax == greatest_of(
                    self.a().x_spec(),
                    self.b().x_spec(),
                    self.c().x_spec(),
                    i as int,
                ),
                b.ymax == greatest_of(
                    self.a().y_spec(),
                    self.b().y_spec(),
                    self.c().y_spec(),
                    i as int,
                ),
                b.zmax == greatest_of(
                    self.a().z_spec(),
                    self.b().z_spec(),
                    self.c().z_spec(),
                    i as int,
                ),
        {
            let v = self.verts[i];
            if b.x.gt(v.x()) {
                b.x = *v.x();
            }
            if b.y.gt(v.y()) {
                b.y = *v.y();
            }
            if b.z.gt(v.z()) {
                b.z = *v.z();
            }
            if b.xmax.lt(v.x()) {
                b.xmax = *v.x();
            }
            if b.ymax.lt(v.y()) {
                b.ymax = *v.y();
            }
            if b.zmax.lt(v.z()) {
                b.zmax = *v.z();
            }
        }

        b
    }

    /// Whether the coverage test has room at `p`: whether its three turns
    /// are computed without overflow.
    pub fn coverage_fits(&self, p: &Vector2) -> (fits: bool)
        ensures
            fits == turns_fit(self.a(), self.b(), self.c(), p.x_spec(), p.y_spec()),
    {
        let va = Vector2::from_vector3(self.verts[0]);
        let vb = Vector2::from_vector3(self.verts[1]);
        let vc = Vector2::from_vector3(self.verts[2]);
        Self::turn_fits(&va, &vb, p) && Self::turn_fits(&vb, &vc, p) && Self::turn_fits(&vc, &va, p)
    }

    /// Whether the triangle covers `p`: whether `p` lies inside the triangle
    /// or on its border, whichever way the triangle winds. The third
    /// coordinate of the vertices plays no part. The three turns must have
    /// room; `coverage_fits` tells.
    pub fn contains_point_2d(&self, p: &Vector2) -> (inside: bool)
        requires
            turns_fit(self.a(), self.b(), self.c(), p.x_spec(), p.y_spec()),
        ensures
            inside == covers(self.a(), self.b(), self.c(), p.x_spec(), p.y_spec()),
            inside == inside_or_on(
                self.a().x_spec().value(),
                self.a().y_spec().value(),
                self.b().x_spec().value(),
                self.b().y_spec().value(),
                self.c().x_spec().value(),
                self.c().y_spec().value(),
                p.x_spec().value(),
                p.y_spec().value(),
            ),
    {
        let va = Vector2::from_vector3(self.verts[0]);
        let vb = Vector2::from_vector3(self.verts[1]);
        let vc = Vector2::from_vector3(self.verts[2]);
        let px = p.x();
        let py = p.y();

        let dir1 = Self::turn(&va, &vb, p);
        let dir2 = Self::turn(&vb, &vc, p);
        let dir3 = Self::turn(&vc, &va, p);
        proof {
            lemma_covers_exactly(self.a(), self.b(), self.c(), p.x_spec(), p.y_spec());
        }

        let zero = Rational::zero();
        dir1.ge(&zero) && dir2.ge(&zero) && dir3.ge(&zero) || dir1.le(&zero) && dir2.le(&zero)
            && dir3.le(&zero)
    }

    /// Whether the barycentric coordinate of `p` has room: whether the four
    /// areas and, for a triangle with area, the three weights are computed
    /// without overflow.
    pub fn barycentric_fits(&self, p: &Vector2) -> (fits: bool)
        ensures
            fits == weights_fit(self.a(), self.b(), self.c(), p.x_spec(), p.y_spec()),
    {
        let vert_a = Vector2::from_vector3(self.verts[0]);
        let vert_b = Vector2::from_vector3(self.verts[1]);
        let vert_c = Vector2::from_vector3(self.verts[2]);

        let area_abp = Self::area(&vert_a, &vert_b, p);
        let area_bcp = Self::area(&vert_b, &vert_c, p);
        let area_cap = Self::area(&vert_c, &vert_a, p);
        let area = Self::area(&vert_a, &vert_b, &vert_c);

        if !(area.is_finite() && area_abp.is_finite() && area_bcp.is_finite()
            && area_cap.is_finite()) {
            false
        } else if area.numerator() == 0 {
            true
        } else {
            (area_bcp / area).is_finite() && (area_cap / area).is_finite() && (area_abp
                / area).is_finite()
        }
    }

    /// The barycentric coordinate of `p`: the weight of each vertex is the
    /// share of the area opposite to it. For a point inside a triangle with
    /// area or on its border no weight is negative, the weights add up to
    /// exactly 1, and they weigh the vertices back to the point; strictly
    /// inside, all three are positive. The weights must have room;
    /// `barycentric_fits` tells. A triangle without area has weights that are
    /// not numbers.
    pub fn calc_barycentric_coord(&self, p: Vector2) -> (coord: BarycentricCoord)
        requires
            weights_fit(self.a(), self.b(), self.c(), p.x_spec(), p.y_spec()),
        ensures
            coord == barycentric(self.a(), self.b(), self.c(), p.x_spec(), p.y_spec()),
            inside_or_on(
                self.a().x_spec().value(),
                self.a().y_spec().value(),
                self.b().x_spec().value(),
                self.b().y_spec().value(),
                self.c().x_spec().value(),
                self.c().y_spec().value(),
                p.x_spec().value(),
                p.y_spec().value(),
            ) && turn_value(
                self.a().x_spec().value(),
                self.a().y_spec().value(),
                self.b().x_spec().value(),
                self.b().y_spec().value(),
                self.c().x_spec().value(),
                self.c().y_spec().value(),
            ) != 0real ==> weighs_back(
                self.a(),
                self.b(),
                self.c(),
                p.x_spec(),
                p.y_spec(),
                coord,
            ),
            strictly_inside(
                self.a().x_spec().value(),
                self.a().y_spec().value(),
                self.b().x_spec().value(),
                self.b().y_spec().value(),
                self.c().x_spec().value(),
                self.c().y_spec().value(),
                p.x_spec().value(),
                p.y_spec().value(),
            ) ==> weighs_back(self.a(), self.b(), self.c(), p.x_spec(), p.y_spec(), coord)
                && coord.a.value() > 0real && coord.b.value() > 0real && coord.c.value() > 0real,
    {
        let vert_a = Vector2::from_vector3(self.verts[0]);
        let vert_b = Vector2::from_vector3(self.verts[1]);
        let vert_c = Vector2::from_vector3(self.verts[2]);
        let px = p.x();
        let py = p.y();

        let area_abp = Self::area(&vert_a, &vert_b, &p);
        let area_bcp = Self::area(&vert_b, &vert_c, &p);
        let area_cap = Self::area(&vert_c, &vert_a, &p);

        let area = Self::area(&vert_a, &vert_b, &vert_c);
        proof {
            let (a, b, c) = (self.a(), self.b(), self.c());
            let (ax, ay) = (a.x_spec().value(), a.y_spec().value());
            let (bx, by) = (b.x_spec().value(), b.y_spec().value());
            let (cx, cy) = (c.x_spec().value(), c.y_spec().value());
            let (qx, qy) = (p.x_spec().value(), p.y_spec().value());
            if strictly_inside(ax, ay, bx, by, cx, cy, qx, qy) {
                lemma_strictly_inside(ax, ay, bx, by, cx, cy, qx, qy);
            }
            if inside_or_on(ax, ay, bx, by, cx, cy, qx, qy) && turn_value(ax, ay, bx, by, cx, cy)
                != 0real {
                lemma_weights_inside(a, b, c, p.x_spec(), p.y_spec());
            }
        }

        BarycentricCoord::new(area_bcp / area, area_cap / area, area_abp / area)
    }

    /// The turn, whatever the room.
    fn turn_checked(a: &Vector2, b: &Vector2, c: &Vector2) -> (t: Rational)
        ensures
            t == turn_spec(*a, *b, *c),
    {
        proof {
            reveal(turn_of);
        }
        (*a.y() - *b.y()) * (*c.x() - *b.x()) + (*b.x() - *a.x()) * (*c.y() - *b.y())
    }

    /// Whether the turn from the edge `a -> b` to the point `c` has room:
    /// whether it is computed without overflow.
    pub fn turn_fits(a: &Vector2, b: &Vector2, c: &Vector2) -> (fits: bool)
        ensures
            fits == turn_spec(*a, *b, *c).finite(),
    {
        Self::turn_checked(a, b, c).is_finite()
    }

    /// The signed turn from the edge `a -> b` to the point `c`: positive
    /// when `c` lies to the left of the edge, negative to the right, 0 on its
    /// line. The turn must have room; `turn_fits` tells.
    pub fn turn(a: &Vector2, b: &Vector2, c: &Vector2) -> (t: Rational)
        requires
            turn_spec(*a, *b, *c).finite(),
        ensures
            t == turn_spec(*a, *b, *c),
            t.finite(),
            t.value() == turn_value(
                a.x_spec().value(),
                a.y_spec().value(),
                b.x_spec().value(),
                b.y_spec().value(),
                c.x_spec().value(),
                c.y_spec().value(),
            ),
    {
        let t = Self::turn_checked(a, b, c);
        let ax = a.x();
        let ay = a.y();
        let bx = b.x();
        let by = b.y();
        let cx = c.x();
        let cy = c.y();
        proof {
            lemma_turn_of(*ax, *ay, *bx, *by, *cx, *cy);
        }
        t
    }

    /// The area of the triangle `a`, `b`, `c`.
    pub fn area(a: &Vector2, b: &Vector2, c: &Vector2) -> (s: Rational)
        ensures
            s == area_spec(*a, *b, *c),
    {
        proof {
            reveal(area_of);
        }
        (*a.x() * (*b.y() - *c.y()) + *b.x() * (*c.y() - *a.y()) + *c.x() * (*a.y() - *b.y())).abs()
            / Rational::from_int(2)
    }
}

} // verus!
