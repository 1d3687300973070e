//! What a frame shows after a draw call.
use crate::color::Color;
use crate::matrix::vector::Vector3;
use crate::pipeline::barycentric::BarycentricCoord;
use crate::pipeline::exact::{
    at_integers, encloses_square, lemma_covering_triangle, lemma_inside_is_reached,
    lemma_reached_is_inside,
    lemma_reaches_every_pixel, planar_point, spans_square,
};
use crate::pipeline::grid::center_value;
use crate::pipeline::laws::{inside_or_on, strictly_inside};
use crate::pipeline::frame::{byte_index, byte_of, Frame};
use crate::pipeline::shaders::ShaderProgram;
use crate::pipeline::{drawn, fits, fits_at, hits, painted, shade, shaded};
use crate::rational::Rational;
use vstd::prelude::*;

verus! {

/// A pixel shows the last triangle that reaches it: whatever the pixel held
/// before and whatever earlier triangles painted there, its colour is what
/// the fragment stage gives for triangle `k` if `k` reaches the pixel and no
/// later triangle does.
pub proof fn lemma_last_wins<S: ShaderProgram + ?Sized>(
    base: Color,
    shader: &S,
    positions: Seq<Vector3>,
    y: int,
    x: int,
    n: int,
    m: int,
    count: nat,
    k: int,
)
    requires
        0 <= k < count,
        hits(positions[3 * k], positions[3 * k + 1], positions[3 * k + 2], y, x, n, m),
        forall|j: int|
            k < j < count ==> !hits(
                #[trigger] positions[3 * j],
                positions[3 * j + 1],
                positions[3 * j + 2],
                y,
                x,
                n,
                m,
            ),
    ensures
        painted(base, shader, positions, y, x, n, m, count) == shade(
            shader,
            positions[3 * k],
            positions[3 * k + 1],
            positions[3 * k + 2],
            y,
            x,
            n,
            m,
        ),
    decreases count,
{
    if k < count - 1 {
        let j = count - 1;
        assert(!hits(positions[3 * j], positions[3 * j + 1], positions[3 * j + 2], y, x, n, m));
        lemma_last_wins(base, shader, positions, y, x, n, m, (count - 1) as nat, k);
    }
}

/// Of two triangles drawn in order that both reach a pixel, the pixel shows
/// the second, whatever the first painted there.
pub proof fn lemma_second_over_first<S: ShaderProgram + ?Sized>(
    base: Color,
    shader: &S,
    positions: Seq<Vector3>,
    y: int,
    x: int,
    n: int,
    m: int,
)
    requires
        hits(positions[0], positions[1], positions[2], y, x, n, m),
        hits(positions[3], positions[4], positions[5], y, x, n, m),
    ensures
        painted(base, shader, positions, y, x, n, m, 2) == shade(
            shader,
            positions[3],
            positions[4],
            positions[5],
            y,
            x,
            n,
            m,
        ),
{
    lemma_last_wins(base, shader, positions, y, x, n, m, 2, 1);
}

/// A pixel that no triangle reaches keeps its colour.
pub proof fn lemma_untouched<S: ShaderProgram + ?Sized>(
    base: Color,
    shader: &S,
    positions: Seq<Vector3>,
    y: int,
    x: int,
    n: int,
    m: int,
    count: nat,
)
    requires
        forall|j: int|
            0 <= j < count ==> !hits(
                #[trigger] positions[3 * j],
                positions[3 * j + 1],
                positions[3 * j + 2],
                y,
                x,
                n,
                m,
            ),
    ensures
        painted(base, shader, positions, y, x, n, m, count) == base,
    decreases count,
{
    if count > 0 {
        let j = count - 1;
        assert(!hits(positions[3 * j], positions[3 * j + 1], positions[3 * j + 2], y, x, n, m));
        lemma_untouched(base, shader, positions, y, x, n, m, (count - 1) as nat);
    }
}

/// The four bytes of a colour: red, green, blue, alpha.
pub open spec fn color_bytes(color: Color) -> Seq<u8> {
    seq![byte_of(color.r), byte_of(color.g), byte_of(color.b), byte_of(color.a)]
}

/// One triangle that reaches every pixel, shaded in one constant colour,
/// fills the frame: after the draw call every pixel serializes to the bytes
/// of that colour.
pub proof fn lemma_constant_fill<S: ShaderProgram + ?Sized, const N: usize, const M: usize>(
    before: Frame<Rational, N, M>,
    after: Frame<Rational, N, M>,
    bytes: Seq<u8>,
    shader: &S,
    vertices: Seq<Vector3>,
    color: Color,
)
    requires
        vertices.len() == 3,
        forall|coord: BarycentricCoord| #[trigger] shader.frag_spec(coord) == color,
        forall|y: int, x: int|
            0 <= y < N && 0 <= x < M ==> #[trigger] hits(
                shaded(shader, vertices)[0],
                shaded(shader, vertices)[1],
                shaded(shader, vertices)[2],
                y,
                x,
                N as int,
                M as int,
            ),
        drawn(before, after, shader, vertices),
        after.serializes_to(bytes),
    ensures
        forall|y: int, x: int| 0 <= y < N && 0 <= x < M ==> #[trigger] after.pixel(y, x) == color,
        forall|r: int, x: int, k: int|
            0 <= r < N && 0 <= x < M && 0 <= k < 4 ==> bytes[#[trigger] byte_index(
                r,
                x,
                k,
                M as int,
            )] == color_bytes(color)[k],
{
    let positions = shaded(shader, vertices);
    assert forall|y: int, x: int| 0 <= y < N && 0 <= x < M implies #[trigger] after.pixel(y, x)
        == color by {
        assert(hits(positions[0], positions[1], positions[2], y, x, N as int, M as int));
        lemma_last_wins(before.pixel(y, x), shader, positions, y, x, N as int, M as int, 1, 0);
    }
    assert forall|r: int, x: int, k: int| 0 <= r < N && 0 <= x < M && 0 <= k < 4 implies bytes[
        #[trigger] byte_index(r, x, k, M as int)] == color_bytes(color)[k] by {
        assert(after.pixel(N - 1 - r, x) == color);
    }
}

/// One triangle that encloses the square from -1 to 1, shaded in one
/// constant colour, fills the frame: after a draw call that has room every
/// pixel holds that colour and serializes to its bytes. The triangle is the
/// one that the vertex stage makes.
pub proof fn lemma_enclosing_triangle_fills<
    S: ShaderProgram + ?Sized,
    const N: usize,
    const M: usize,
>(
    before: Frame<Rational, N, M>,
    after: Frame<Rational, N, M>,
    bytes: Seq<u8>,
    shader: &S,
    vertices: Seq<Vector3>,
    color: Color,
)
    requires
        vertices.len() == 3,
        forall|coord: BarycentricCoord| #[trigger] shader.frag_spec(coord) == color,
        planar_point(shader.vert_spec(vertices[0])),
        planar_point(shader.vert_spec(vertices[1])),
        planar_point(shader.vert_spec(vertices[2])),
        encloses_square(
            shader.vert_spec(vertices[0]),
            shader.vert_spec(vertices[1]),
            shader.vert_spec(vertices[2]),
        ),
        spans_square(
            shader.vert_spec(vertices[0]),
            shader.vert_spec(vertices[1]),
            shader.vert_spec(vertices[2]),
        ),
        fits(shader, vertices, N as int, M as int),
        drawn(before, after, shader, vertices),
        after.serializes_to(bytes),
    ensures
        forall|y: int, x: int| 0 <= y < N && 0 <= x < M ==> #[trigger] after.pixel(y, x) == color,
        forall|r: int, x: int, k: int|
            0 <= r < N && 0 <= x < M && 0 <= k < 4 ==> bytes[#[trigger] byte_index(
                r,
                x,
                k,
                M as int,
            )] == color_bytes(color)[k],
{
    let positions = shaded(shader, vertices);
    assert(fits_at(positions, 0, N as int, M as int));
    assert forall|y: int, x: int| 0 <= y < N && 0 <= x < M implies #[trigger] hits(
        positions[0],
        positions[1],
        positions[2],
        y,
        x,
        N as int,
        M as int,
    ) by {
        lemma_reaches_every_pixel(
            positions[0],
            positions[1],
            positions[2],
            y,
            x,
            N as int,
            M as int,
        );
    }
    lemma_constant_fill(before, after, bytes, shader, vertices, color);
}

/// With a vertex stage that leaves positions alone and a fragment stage of
/// one constant colour, the triangle with the corners (-1, -1), (3, -1) and
/// (-1, 3) fills the frame, whatever its size and whatever it held: after a
/// draw call that has room every pixel holds that colour and serializes to
/// its bytes.
pub proof fn lemma_covering_triangle_fills<
    S: ShaderProgram + ?Sized,
    const N: usize,
    const M: usize,
>(
    before: Frame<Rational, N, M>,
    after: Frame<Rational, N, M>,
    bytes: Seq<u8>,
    shader: &S,
    vertices: Seq<Vector3>,
    color: Color,
)
    requires
        vertices.len() == 3,
        at_integers(vertices[0], -1, -1),
        at_integers(vertices[1], 3, -1),
        at_integers(vertices[2], -1, 3),
        forall|v: Vector3| #[trigger] shader.vert_spec(v) == v,
        forall|coord: BarycentricCoord| #[trigger] shader.frag_spec(coord) == color,
        fits(shader, vertices, N as int, M as int),
        drawn(before, after, shader, vertices),
        after.serializes_to(bytes),
    ensures
        forall|y: int, x: int| 0 <= y < N && 0 <= x < M ==> #[trigger] after.pixel(y, x) == color,
        forall|r: int, x: int, k: int|
            0 <= r < N && 0 <= x < M && 0 <= k < 4 ==> bytes[#[trigger] byte_index(
                r,
                x,
                k,
                M as int,
            )] == color_bytes(color)[k],
{
    lemma_covering_triangle(vertices[0], vertices[1], vertices[2]);
    lemma_enclosing_triangle_fills(before, after, bytes, shader, vertices, color);
}

/// Whether the three positions of triangle `i` have numbers as their first
/// two coordinates.
pub open spec fn planar_triangle(positions: Seq<Vector3>, i: int) -> bool {
    planar_point(positions[3 * i]) && planar_point(positions[3 * i + 1]) && planar_point(
        positions[3 * i + 2],
    )
}

/// Whether the centre of the pixel in row `y` and column `x` lies strictly
/// inside triangle `i` of `positions`.
pub open spec fn center_inside(positions: Seq<Vector3>, i: int, y: int, x: int, n: int, m: int) -> bool {
    strictly_inside(
        positions[3 * i].x_spec().value(),
        positions[3 * i].y_spec().value(),
        positions[3 * i + 1].x_spec().value(),
        positions[3 * i + 1].y_spec().value(),
        positions[3 * i + 2].x_spec().value(),
        positions[3 * i + 2].y_spec().value(),
        center_value(x, m),
        center_value(y, n),
    )
}

/// Whether the centre of the pixel in row `y` and column `x` lies inside
/// triangle `i` of `positions` or on its border.
pub open spec fn center_inside_or_on(
    positions: Seq<Vector3>,
    i: int,
    y: int,
    x: int,
    n: int,
    m: int,
) -> bool {
    inside_or_on(
        positions[3 * i].x_spec().value(),
        positions[3 * i].y_spec().value(),
        positions[3 * i + 1].x_spec().value(),
        positions[3 * i + 1].y_spec().value(),
        positions[3 * i + 2].x_spec().value(),
        positions[3 * i + 2].y_spec().value(),
        center_value(x, m),
        center_value(y, n),
    )
}

/// After a draw call that has room, a pixel whose centre lies strictly
/// inside triangle `k` and neither inside nor on the border of any later
/// triangle holds the fragment colour of triangle `k`: whatever it held
/// before, whatever earlier triangles painted, and whatever the third
/// coordinates are. No colours are blended and no depth is tested.
pub proof fn lemma_shows_last_containing<S: ShaderProgram + ?Sized, const N: usize, const M: usize>(
    before: Frame<Rational, N, M>,
    after: Frame<Rational, N, M>,
    shader: &S,
    vertices: Seq<Vector3>,
    y: int,
    x: int,
    k: int,
)
    requires
        0 <= y < N,
        0 <= x < M,
        0 <= k < vertices.len() / 3,
        fits(shader, vertices, N as int, M as int),
        drawn(before, after, shader, vertices),
        forall|i: int|
            0 <= i < vertices.len() / 3 ==> #[trigger] planar_triangle(shaded(shader, vertices), i),
        center_inside(shaded(shader, vertices), k, y, x, N as int, M as int),
        forall|j: int|
            k < j < vertices.len() / 3 ==> !#[trigger] center_inside_or_on(
                shaded(shader, vertices),
                j,
                y,
                x,
                N as int,
                M as int,
            ),
    ensures
        after.pixel(y, x) == shade(
            shader,
            shaded(shader, vertices)[3 * k],
            shaded(shader, vertices)[3 * k + 1],
            shaded(shader, vertices)[3 * k + 2],
            y,
            x,
            N as int,
            M as int,
        ),
{
    let positions = shaded(shader, vertices);
    let count = (vertices.len() / 3) as nat;
    assert(fits_at(positions, k, N as int, M as int));
    assert(planar_triangle(positions, k));
    lemma_inside_is_reached(
        positions[3 * k],
        positions[3 * k + 1],
        positions[3 * k + 2],
        y,
        x,
        N as int,
        M as int,
    );
    assert forall|j: int| k < j < count implies !hits(
        #[trigger] positions[3 * j],
        positions[3 * j + 1],
        positions[3 * j + 2],
        y,
        x,
        N as int,
        M as int,
    ) by {
        assert(fits_at(positions, j, N as int, M as int));
        assert(planar_triangle(positions, j));
        assert(!center_inside_or_on(positions, j, y, x, N as int, M as int));
        if hits(positions[3 * j], positions[3 * j + 1], positions[3 * j + 2], y, x, N as int, M as int) {
            lemma_reached_is_inside(
                positions[3 * j],
                positions[3 * j + 1],
                positions[3 * j + 2],
                y,
                x,
                N as int,
                M as int,
            );
        }
    }
    lemma_last_wins(before.pixel(y, x), shader, positions, y, x, N as int, M as int, count, k);
}

/// After a draw call that has room, a pixel whose centre lies neither
/// inside nor on the border of any triangle holds what it held before.
pub proof fn lemma_keeps_uncontained<S: ShaderProgram + ?Sized, const N: usize, const M: usize>(
    before: Frame<Rational, N, M>,
    after: Frame<Rational, N, M>,
    shader: &S,
    vertices: Seq<Vector3>,
    y: int,
    x: int,
)
    requires
        0 <= y < N,
        0 <= x < M,
        fits(shader, vertices, N as int, M as int),
        drawn(before, after, shader, vertices),
        forall|i: int|
            0 <= i < vertices.len() / 3 ==> #[trigger] planar_triangle(shaded(shader, vertices), i),
        forall|j: int|
            0 <= j < vertices.len() / 3 ==> !#[trigger] center_inside_or_on(
                shaded(shader, vertices),
                j,
                y,
                x,
                N as int,
                M as int,
            ),
    ensures
        after.pixel(y, x) == before.pixel(y, x),
{
    let positions = shaded(shader, vertices);
    let count = (vertices.len() / 3) as nat;
    assert forall|j: int| 0 <= j < count implies !hits(
        #[trigger] positions[3 * j],
        positions[3 * j + 1],
        positions[3 * j + 2],
        y,
        x,
        N as int,
        M as int,
    ) by {
        assert(fits_at(positions, j, N as int, M as int));
        assert(planar_triangle(positions, j));
        assert(!center_inside_or_on(positions, j, y, x, N as int, M as int));
        if hits(positions[3 * j], positions[3 * j + 1], positions[3 * j + 2], y, x, N as int, M as int) {
            lemma_reached_is_inside(
                positions[3 * j],
                positions[3 * j + 1],
                positions[3 * j + 2],
                y,
                x,
                N as int,
                M as int,
            );
        }
    }
    lemma_untouched(before.pixel(y, x), shader, positions, y, x, N as int, M as int, count);
}

} // verus!
