//! Column vectors with named axes.
use crate::matrix::MatrixNMT;
use crate::rational::Rational;
use vstd::prelude::*;

verus! {

/// A column vector of `N` elements.
pub type VectorNT<T, const N: usize> = MatrixNMT<T, N, 1usize>;

/// A position in space.
pub type Vector3 = VectorNT<Rational, 3usize>;

/// A position in the plane.
pub type Vector2 = VectorNT<Rational, 2usize>;

impl Vector3 {
    /// The first coordinate.
    pub open spec fn x_spec(self) -> Rational {
        self.entry(0, 0)
    }

    /// The second coordinate.
    pub open spec fn y_spec(self) -> Rational {
        self.entry(1, 0)
    }

    /// The third coordinate.
    pub open spec fn z_spec(self) -> Rational {
        self.entry(2, 0)
    }

    /// Whether the three coordinates are well formed.
    pub open spec fn wf(self) -> bool {
        self.x_spec().wf() && self.y_spec().wf() && self.z_spec().wf()
    }

    /// Whether the first two coordinates are well formed.
    pub open spec fn planar(self) -> bool {
        self.x_spec().wf() && self.y_spec().wf()
    }

    /// The vector with the given coordinates.
    pub fn new3(x: Rational, y: Rational, z: Rational) -> (v: Self)
        ensures
            v.x_spec() == x,
            v.y_spec() == y,
            v.z_spec() == z,
    {
        Vector3 { m: [[x], [y], [z]] }
    }

    pub fn x(&self) -> (r: &Rational)
        ensures
            *r == self.x_spec(),
            r.wf(),
    {
        let r = &self.m[0][0];
        proof {
            use_type_invariant(r);
        }
        r
    }

    pub fn y(&self) -> (r: &Rational)
        ensures
            *r == self.y_spec(),
            r.wf(),
    {
        let r = &self.m[1][0];
        proof {
            use_type_invariant(r);
        }
        r
    }

    pub fn z(&self) -> (r: &Rational)
        ensures
            *r == self.z_spec(),
            r.wf(),
    {
        let r = &self.m[2][0];
        proof {
            use_type_invariant(r);
        }
        r
    }

    pub fn x_mut(&mut self) -> (r: &mut Rational)
        ensures
            *r == old(self).x_spec(),
            final(self).x_spec() == *final(r),
            final(self).y_spec() == old(self).y_spec(),
            final(self).z_spec() == old(self).z_spec(),
    {
        &mut self.m[0][0]
    }

    pub fn y_mut(&mut self) -> (r: &mut Rational)
        ensures
            *r == old(self).y_spec(),
            final(self).y_spec() == *final(r),
            final(self).x_spec() == old(self).x_spec(),
            final(self).z_spec() == old(self).z_spec(),
    {
        &mut self.m[1][0]
    }

    pub fn z_mut(&mut self) -> (r: &mut Rational)
        ensures
            *r == old(self).z_spec(),
            final(self).z_spec() == *final(r),
            final(self).x_spec() == old(self).x_spec(),
            final(self).y_spec() == old(self).y_spec(),
    {
        &mut self.m[2][0]
    }
}

impl Vector2 {
    /// The first coordinate.
    pub open spec fn x_spec(self) -> Rational {
        self.entry(0, 0)
    }

    /// The second coordinate.
    pub open spec fn y_spec(self) -> Rational {
        self.entry(1, 0)
    }

    /// Whether the two coordinates are well formed.
    pub open spec fn wf(self) -> bool {
        self.x_spec().wf() && self.y_spec().wf()
    }

    /// The vector with the given coordinates.
    pub fn new2(x: Rational, y: Rational) -> (v: Self)
        ensures
            v.x_spec() == x,
            v.y_spec() == y,
    {
        Vector2 { m: [[x], [y]] }
    }

    /// The first two coordinates of `v`.
    pub fn from_vector3(v: &Vector3) -> (p: Self)
        ensures
            p.x_spec() == v.x_spec(),
            p.y_spec() == v.y_spec(),
            p.wf(),
    {
        Vector2::new2(*v.x(), *v.y())
    }

    pub fn x(&self) -> (r: &Rational)
        ensures
            *r == self.x_spec(),
            r.wf(),
    {
        let r = &self.m[0][0];
        proof {
            use_type_invariant(r);
        }
        r
    }

    pub fn y(&self) -> (r: &Rational)
        ensures
            *r == self.y_spec(),
            r.wf(),
    {
        let r = &self.m[1][0];
        proof {
            use_type_invariant(r);
        }
        r
    }

    pub fn x_mut(&mut self) -> (r: &mut Rational)
        ensures
            *r == old(self).x_spec(),
            final(self).x_spec() == *final(r),
            final(self).y_spec() == old(self).y_spec(),
    {
        &mut self.m[0][0]
    }

    pub fn y_mut(&mut self) -> (r: &mut Rational)
        ensures
            *r == old(self).y_spec(),
            final(self).y_spec() == *final(r),
            final(self).x_spec() == old(self).x_spec(),
    {
        &mut self.m[1][0]
    }
}

} // verus!
