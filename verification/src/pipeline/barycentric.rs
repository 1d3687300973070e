//! Barycentric coordinates.
use crate::rational::Rational;
use vstd::prelude::*;

verus! {

/// The position of a point relative to the three vertices of a triangle:
/// one weight per vertex, in order. For a point in the plane of a triangle
/// of non-zero area the weights add up to 1.
#[derive(Clone, Copy)]
pub struct BarycentricCoord {
    pub a: Rational,
    pub b: Rational,
    pub c: Rational,
}

impl BarycentricCoord {
    pub fn new(a: Rational, b: Rational, c: Rational) -> (coord: Self)
        ensures
            coord == (BarycentricCoord { a, b, c }),
    {
        BarycentricCoord { a, b, c }
    }
}

} // verus!
