//! The two programmable stages of the pipeline.
use crate::color::Color;
use crate::matrix::vector::Vector3;
use crate::pipeline::barycentric::BarycentricCoord;
use crate::pipeline::bounds::{max3, min3};
use crate::rational::reals::lemma_real_weighted_between;
use crate::rational::Rational;
use vstd::prelude::*;
use vstd::std_specs::ops::{AddSpec, MulSpec};

verus! {

/// One channel of a mix: each vertex value times its weight, added up from
/// the left.
pub open spec fn mix(a: Rational, b: Rational, c: Rational, coord: BarycentricCoord) -> Rational {
    a.mul_spec(coord.a).add_spec(b.mul_spec(coord.b)).add_spec(c.mul_spec(coord.c))
}

/// The colour that mixes three vertex colours by the weights of `coord`,
/// channel by channel.
pub open spec fn barymix(a: Color, b: Color, c: Color, coord: BarycentricCoord) -> Color {
    Color {
        r: mix(a.r, b.r, c.r, coord),
        g: mix(a.g, b.g, c.g, coord),
        b: mix(a.b, b.b, c.b, coord),
        a: mix(a.a, b.a, c.a, coord),
    }
}

/// A channel mixed without overflow is the sum of the vertex values times
/// their weights.
pub proof fn lemma_mix(a: Rational, b: Rational, c: Rational, coord: BarycentricCoord)
    requires
        a.wf() && b.wf() && c.wf(),
        coord.a.wf() && coord.b.wf() && coord.c.wf(),
        mix(a, b, c, coord).finite(),
    ensures
        a.finite() && b.finite() && c.finite(),
        coord.a.finite() && coord.b.finite() && coord.c.finite(),
        mix(a, b, c, coord).value() == a.value() * coord.a.value() + b.value() * coord.b.value()
            + c.value() * coord.c.value(),
{
    a.lemma_mul(coord.a);
    b.lemma_mul(coord.b);
    c.lemma_mul(coord.c);
    a.mul_spec(coord.a).lemma_add(b.mul_spec(coord.b));
    a.mul_spec(coord.a).add_spec(b.mul_spec(coord.b)).lemma_add(c.mul_spec(coord.c));
}

/// With weights that are not negative and add up to 1, a channel mixed
/// without overflow lies between the least and the greatest of the three
/// vertex values.
pub proof fn lemma_mix_between(a: Rational, b: Rational, c: Rational, coord: BarycentricCoord)
    requires
        a.wf() && b.wf() && c.wf(),
        coord.a.wf() && coord.b.wf() && coord.c.wf(),
        mix(a, b, c, coord).finite(),
        coord.a.value() >= 0real && coord.b.value() >= 0real && coord.c.value() >= 0real,
        coord.a.value() + coord.b.value() + coord.c.value() == 1real,
    ensures
        min3(a.value(), b.value(), c.value()) <= mix(a, b, c, coord).value() <= max3(
            a.value(),
            b.value(),
            c.value(),
        ),
{
    lemma_mix(a, b, c, coord);
    lemma_real_weighted_between(
        coord.a.value(),
        coord.b.value(),
        coord.c.value(),
        a.value(),
        b.value(),
        c.value(),
        min3(a.value(), b.value(), c.value()),
        max3(a.value(), b.value(), c.value()),
    );
}

/// The per-vertex stage: a function from position to position.
pub trait VertexShader {
    /// The position that the stage gives for `in_pos`.
    spec fn vert_spec(&self, in_pos: Vector3) -> Vector3;

    fn vert(&self, in_pos: &Vector3) -> (out: Vector3)
        ensures
            out == self.vert_spec(*in_pos),
    ;
}

/// The per-pixel stage: a function from barycentric coordinate to colour.
pub trait FragmentShader {
    /// The colour that the stage gives for `coord`.
    spec fn frag_spec(&self, coord: BarycentricCoord) -> Color;

    fn frag(&self, coord: &BarycentricCoord) -> (color: Color)
        ensures
            color == self.frag_spec(*coord),
    ;

    /// Interpolates three vertex colours at `coord`.
    fn barymix_color(a: &Color, b: &Color, c: &Color, coord: &BarycentricCoord) -> (color: Color) where
        Self: Sized,

        ensures
            color == barymix(*a, *b, *c, *coord),
    {
        Color::new(
            a.r * coord.a + b.r * coord.b + c.r * coord.c,
            a.g * coord.a + b.g * coord.b + c.g * coord.c,
            a.b * coord.a + b.b * coord.b + c.b * coord.c,
            a.a * coord.a + b.a * coord.b + c.a * coord.c,
        )
    }
}

/// A vertex stage together with a fragment stage.
pub trait ShaderProgram: VertexShader + FragmentShader {

}

} // verus!
