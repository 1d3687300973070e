//! A shader program that leaves positions alone and blends red, green and
//! blue across each triangle.
use crate::color::Color;
use crate::matrix::vector::Vector3;
use crate::pipeline::barycentric::BarycentricCoord;
use crate::matrix::ValueT;
use crate::pipeline::shaders::{barymix, mix, FragmentShader, ShaderProgram, VertexShader};
use crate::rational::Rational;
use vstd::prelude::*;
use vstd::std_specs::ops::AddSpec;

verus! {

pub struct Program {}

/// Opaque red.
pub open spec fn red() -> Color {
    Color {
        r: Rational::one_spec(),
        g: Rational::zero_spec(),
        b: Rational::zero_spec(),
        a: Rational::one_spec(),
    }
}

/// Opaque green.
pub open spec fn green() -> Color {
    Color {
        r: Rational::zero_spec(),
        g: Rational::one_spec(),
        b: Rational::zero_spec(),
        a: Rational::one_spec(),
    }
}

/// Opaque blue.
pub open spec fn blue() -> Color {
    Color {
        r: Rational::zero_spec(),
        g: Rational::zero_spec(),
        b: Rational::one_spec(),
        a: Rational::one_spec(),
    }
}

impl VertexShader for Program {
    /// Every position stays where it is.
    open spec fn vert_spec(&self, in_pos: Vector3) -> Vector3 {
        in_pos
    }

    fn vert(&self, in_pos: &Vector3) -> (out: Vector3) {
        *in_pos
    }
}

impl FragmentShader for Program {
    /// Red at the first vertex, green at the second, blue at the third.
    open spec fn frag_spec(&self, coord: BarycentricCoord) -> Color {
        barymix(red(), green(), blue(), coord)
    }

    fn frag(&self, coord: &BarycentricCoord) -> (color: Color) {
        let red = Color::new(Rational::one(), Rational::zero(), Rational::zero(), Rational::one());
        let green = Color::new(Rational::zero(), Rational::one(), Rational::zero(), Rational::one());
        let blue = Color::new(Rational::zero(), Rational::zero(), Rational::one(), Rational::one());

        Self::barymix_color(&red, &green, &blue, coord)
    }
}

impl ShaderProgram for Program {

}

/// The program paints the weights themselves: the weight of the first
/// vertex as red, of the second as green, of the third as blue, and their
/// sum, added up from the left, as alpha.
pub proof fn lemma_program_paints_weights(program: Program, coord: BarycentricCoord)
    requires
        coord.a.wf() && coord.a.finite(),
        coord.b.wf() && coord.b.finite(),
        coord.c.wf() && coord.c.finite(),
    ensures
        program.frag_spec(coord).r == coord.a,
        program.frag_spec(coord).g == coord.b,
        program.frag_spec(coord).b == coord.c,
        program.frag_spec(coord).a == coord.a.add_spec(coord.b).add_spec(coord.c),
{
    let zero = Rational::zero_spec();
    let one = Rational::one_spec();
    <Rational as ValueT>::lemma_identities(coord.a);
    <Rational as ValueT>::lemma_identities(coord.b);
    <Rational as ValueT>::lemma_identities(coord.c);
    <Rational as ValueT>::lemma_identities(zero);
    assert(mix(one, zero, zero, coord) == coord.a);
    assert(mix(zero, one, zero, coord) == coord.b);
    assert(mix(zero, zero, one, coord) == coord.c);
    assert(mix(one, one, one, coord) == coord.a.add_spec(coord.b).add_spec(coord.c));
}

} // verus!
