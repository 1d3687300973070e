//! The rasterization pipeline.
pub mod barycentric;
pub mod bounds;
pub mod compositing;
pub mod exact;
pub mod frame;
pub mod geometry;
pub mod grid;
pub mod laws;
pub mod raster;
pub mod shaders;

use crate::color::Color;
use crate::matrix::vector::{Vector2, Vector3};
use crate::pipeline::frame::Frame;
use crate::pipeline::geometry::{
    barycentric, bounding_box, covers, ndc_box, turns_fit, weights_fit, BoundingBox, Triangle,
};
use crate::pipeline::grid::lemma_end_in_frame;
use crate::pipeline::raster::{center_spec, ndc_to_pixel, pixel_center, pixel_index};
use crate::pipeline::shaders::ShaderProgram;
use crate::rational::Rational;
use vstd::prelude::*;

verus! {

/// Whether the pixel in row `y` and column `x` of a frame of `n` rows and
/// `m` columns lies in the pixel range of the triangle `a`, `b`, `c`: the
/// range of the triangle's bounding box, cut to the cube from -1 to 1. It
/// starts at the index of the box's least corner and ends before the index
/// of its greatest.
pub open spec fn in_range(a: Vector3, b: Vector3, c: Vector3, y: int, x: int, n: int, m: int) -> bool {
    let clipped = bounding_box(a, b, c).intersect_spec(ndc_box());
    &&& pixel_index(clipped.x, m) <= x < pixel_index(clipped.xmax, m)
    &&& pixel_index(clipped.y, n) <= y < pixel_index(clipped.ymax, n)
}

/// Whether the triangle `a`, `b`, `c` reaches the pixel in row `y` and column
/// `x` of a frame of `n` rows and `m` columns: the pixel lies in the pixel
/// range of the triangle and the triangle covers the pixel's centre.
pub open spec fn hits(a: Vector3, b: Vector3, c: Vector3, y: int, x: int, n: int, m: int) -> bool {
    in_range(a, b, c, y, x, n, m) && covers_center(a, b, c, y, x, n, m)
}

/// Whether drawing the triangle `a`, `b`, `c` has room at the pixel in row
/// `y` and column `x`: the turns of the pixel's centre are computed without
/// overflow, and so are its weights if the triangle covers the centre.
pub open spec fn pixel_fits(
    a: Vector3,
    b: Vector3,
    c: Vector3,
    y: int,
    x: int,
    n: int,
    m: int,
) -> bool {
    &&& turns_fit(a, b, c, center_spec(x, m), center_spec(y, n))
    &&& covers_center(a, b, c, y, x, n, m) ==> weights_fit(
        a,
        b,
        c,
        center_spec(x, m),
        center_spec(y, n),
    )
}

/// Whether drawing the triangle `a`, `b`, `c` has room at every pixel of its
/// pixel range.
pub open spec fn triangle_fits(a: Vector3, b: Vector3, c: Vector3, n: int, m: int) -> bool {
    forall|y: int, x: int| #[trigger] in_range(a, b, c, y, x, n, m) ==> pixel_fits(a, b, c, y, x, n, m)
}

/// Whether drawing triangle `i` of `positions` has room.
pub open spec fn fits_at(positions: Seq<Vector3>, i: int, n: int, m: int) -> bool {
    triangle_fits(positions[3 * i], positions[3 * i + 1], positions[3 * i + 2], n, m)
}

/// Whether a draw call with `shader` and `vertices` on a frame of `n` rows
/// and `m` columns has room: no turn and no weight that the call computes
/// overflows.
pub open spec fn fits<S: ShaderProgram + ?Sized>(
    shader: &S,
    vertices: Seq<Vector3>,
    n: int,
    m: int,
) -> bool {
    forall|i: int|
        0 <= i < vertices.len() / 3 ==> #[trigger] fits_at(shaded(shader, vertices), i, n, m)
}

/// The colour that the fragment stage gives the pixel in row `y` and column
/// `x` for the triangle `a`, `b`, `c`: its colour for the barycentric
/// coordinate of the pixel's centre.
pub open spec fn shade<S: ShaderProgram + ?Sized>(
    shader: &S,
    a: Vector3,
    b: Vector3,
    c: Vector3,
    y: int,
    x: int,
    n: int,
    m: int,
) -> Color {
    shader.frag_spec(barycentric(a, b, c, center_spec(x, m), center_spec(y, n)))
}

/// Whether the triangle `a`, `b`, `c` covers the centre of the pixel in row
/// `y` and column `x`.
pub open spec fn covers_center(
    a: Vector3,
    b: Vector3,
    c: Vector3,
    y: int,
    x: int,
    n: int,
    m: int,
) -> bool {
    covers(a, b, c, center_spec(x, m), center_spec(y, n))
}

/// The colour of the pixel in row `y` and column `x` after the triangle `a`,
/// `b`, `c` is drawn over the colour `under`: what the fragment stage gives
/// for the barycentric coordinate of the pixel's centre if the triangle
/// reaches the pixel, and `under` if it does not.
pub open spec fn overlaid<S: ShaderProgram + ?Sized>(
    under: Color,
    shader: &S,
    a: Vector3,
    b: Vector3,
    c: Vector3,
    y: int,
    x: int,
    n: int,
    m: int,
) -> Color {
    if hits(a, b, c, y, x, n, m) {
        shade(shader, a, b, c, y, x, n, m)
    } else {
        under
    }
}

/// The colour of the pixel in row `y` and column `x` after the first `count`
/// triangles of `positions`: what the fragment stage gives for the last of
/// them that reaches the pixel, or `base` if none does.
pub open spec fn painted<S: ShaderProgram + ?Sized>(
    base: Color,
    shader: &S,
    positions: Seq<Vector3>,
    y: int,
    x: int,
    n: int,
    m: int,
    count: nat,
) -> Color
    decreases count,
{
    if count == 0 {
        base
    } else {
        let t = count - 1;
        overlaid(
            painted(base, shader, positions, y, x, n, m, t as nat),
            shader,
            positions[3 * t],
            positions[3 * t + 1],
            positions[3 * t + 2],
            y,
            x,
            n,
            m,
        )
    }
}

/// The positions that the vertex stage gives for `vertices`, one by one.
pub open spec fn shaded<S: ShaderProgram + ?Sized>(shader: &S, vertices: Seq<Vector3>) -> Seq<
    Vector3,
> {
    Seq::new(vertices.len(), |i: int| shader.vert_spec(vertices[i]))
}

/// Whether `after` is what a draw call with `shader` and `vertices` makes of
/// `before`: every pixel shows the last triangle that reaches it, or what it
/// held before if none does, and every depth is what it was.
pub open spec fn drawn<S: ShaderProgram + ?Sized, const N: usize, const M: usize>(
    before: Frame<Rational, N, M>,
    after: Frame<Rational, N, M>,
    shader: &S,
    vertices: Seq<Vector3>,
) -> bool {
    &&& forall|y: int, x: int|
        0 <= y < N && 0 <= x < M ==> #[trigger] after.pixel(y, x) == painted(
            before.pixel(y, x),
            shader,
            shaded(shader, vertices),
            y,
            x,
            N as int,
            M as int,
            (vertices.len() / 3) as nat,
        )
    &&& forall|y: int, x: int|
        0 <= y < N && 0 <= x < M ==> #[trigger] after.depth_at(y, x) == before.depth_at(y, x)
}

/// Groups positions into triangles, three by three in order. Positions left
/// over at the end belong to no triangle.
pub fn assemble_triangles(vertices: &[Vector3]) -> (tris: Vec<Triangle>)
    ensures
        tris.len() == vertices.len() / 3,
        forall|i: int|
            0 <= i < tris.len() ==> (#[trigger] tris[i]).a() == vertices[3 * i] && tris[i].b()
                == vertices[3 * i + 1] && tris[i].c() == vertices[3 * i + 2],
{
    let mut tris: Vec<Triangle> = Vec::new();
    let mut i: usize = 0;
    while vertices.len() - i >= 3
        invariant
            i == 3 * tris.len(),
            i <= vertices.len(),
            forall|k: int|
                0 <= k < tris.len() ==> (#[trigger] tris[k]).a() == vertices[3 * k] && tris[k].b()
                    == vertices[3 * k + 1] && tris[k].c() == vertices[3 * k + 2],
        decreases vertices.len() - i,
    {
        tris.push(Triangle { verts: [&vertices[i], &vertices[i + 1], &vertices[i + 2]] });
        i = i + 3;
    }
    tris
}

/// The colour of a pixel while a triangle is being drawn: the colour of the
/// fragment stage if the drawing has `passed` the pixel and the triangle
/// covers its centre, and `under` otherwise.
pub open spec fn partly<S: ShaderProgram + ?Sized>(
    under: Color,
    shader: &S,
    t: Triangle,
    y: int,
    x: int,
    n: int,
    m: int,
    passed: bool,
) -> Color {
    if passed && covers_center(t.a(), t.b(), t.c(), y, x, n, m) {
        shade(shader, t.a(), t.b(), t.c(), y, x, n, m)
    } else {
        under
    }
}

/// Draws the part of one triangle that lies in row `y`, from column
/// `start` up to column `end`: each pixel there whose centre the triangle
/// covers takes the colour of the fragment stage.
fn draw_row<S: ShaderProgram + ?Sized, const N: usize, const M: usize>(
    frame: &mut Frame<Rational, N, M>,
    shader: &S,
    t: &Triangle,
    y: usize,
    start: usize,
    end: usize,
)
    requires
        y < N,
        end <= M,
        forall|xx: int|
            start <= xx < end ==> #[trigger] pixel_fits(
                t.a(),
                t.b(),
                t.c(),
                y as int,
                xx,
                N as int,
                M as int,
            ),
    ensures
        forall|yy: int, xx: int|
            0 <= yy < N && 0 <= xx < M ==> #[trigger] final(frame).pixel(yy, xx) == partly(
                old(frame).pixel(yy, xx),
                shader,
                *t,
                yy,
                xx,
                N as int,
                M as int,
                yy == y && start <= xx < end,
            ),
        forall|yy: int, xx: int|
            0 <= yy < N && 0 <= xx < M ==> #[trigger] final(frame).depth_at(yy, xx) == old(
                frame,
            ).depth_at(yy, xx),
{
    let mut x: usize = start;
    while x < end
        invariant
            y < N,
            end <= M,
            start <= x,
            x <= end || x == start,
            forall|xx: int|
                start <= xx < end ==> #[trigger] pixel_fits(
                    t.a(),
                    t.b(),
                    t.c(),
                    y as int,
                    xx,
                    N as int,
                    M as int,
                ),
            forall|yy: int, xx: int|
                0 <= yy < N && 0 <= xx < M ==> #[trigger] frame.pixel(yy, xx) == partly(
                old(frame).pixel(yy, xx),
                shader,
                *t,
                yy,
                xx,
                N as int,
                M as int,
                yy == y && start <= xx < x,
            ),
            forall|yy: int, xx: int|
                0 <= yy < N && 0 <= xx < M ==> #[trigger] frame.depth_at(yy, xx) == old(
                    frame,
                ).depth_at(yy, xx),
        decreases end - x,
    {
        let pos = Vector2::new2(pixel_center(x, M), pixel_center(y, N));
        assert(pixel_fits(t.a(), t.b(), t.c(), y as int, x as int, N as int, M as int));
        if t.contains_point_2d(&pos) {
            // run fragment shader
            let coord = t.calc_barycentric_coord(pos);
            frame.put(y, x, shader.frag(&coord));
        }
        x = x + 1;
    }
}

/// Draws one triangle: each pixel that the triangle reaches takes the
/// colour of the fragment stage.
fn draw_triangle<S: ShaderProgram + ?Sized, const N: usize, const M: usize>(
    frame: &mut Frame<Rational, N, M>,
    shader: &S,
    t: &Triangle,
    cube: &BoundingBox,
)
    requires
        *cube == ndc_box(),
        triangle_fits(t.a(), t.b(), t.c(), N as int, M as int),
    ensures
        forall|y: int, x: int|
            0 <= y < N && 0 <= x < M ==> #[trigger] final(frame).pixel(y, x) == overlaid(
                old(frame).pixel(y, x),
                shader,
                t.a(),
                t.b(),
                t.c(),
                y,
                x,
                N as int,
                M as int,
            ),
        forall|y: int, x: int|
            0 <= y < N && 0 <= x < M ==> #[trigger] final(frame).depth_at(y, x) == old(
                frame,
            ).depth_at(y, x),
{
    let whole = t.calc_bounding_box();
    let b = whole.intersect(cube);

    let startx = ndc_to_pixel(&b.x, M);
    let starty = ndc_to_pixel(&b.y, N);
    let endx = ndc_to_pixel(&b.xmax, M);
    let endy = ndc_to_pixel(&b.ymax, N);  // indices after last pixel
    proof {
        use_type_invariant(&whole.xmax);
        use_type_invariant(&whole.ymax);
        lemma_end_in_frame(whole.xmax, M as int);
        lemma_end_in_frame(whole.ymax, N as int);
    }
    let mut y: usize = starty;
    while y < endy
        invariant
            endy <= N,
            endx <= M,
            starty <= y,
            y <= endy || y == starty,
            startx == pixel_index(b.x, M as int),
            endx == pixel_index(b.xmax, M as int),
            starty == pixel_index(b.y, N as int),
            endy == pixel_index(b.ymax, N as int),
            b == bounding_box(t.a(), t.b(), t.c()).intersect_spec(ndc_box()),
            triangle_fits(t.a(), t.b(), t.c(), N as int, M as int),
            forall|yy: int, xx: int|
                0 <= yy < N && 0 <= xx < M ==> #[trigger] frame.pixel(yy, xx) == partly(
                old(frame).pixel(yy, xx),
                shader,
                *t,
                yy,
                xx,
                N as int,
                M as int,
                starty <= yy < y && startx <= xx < endx,
            ),
            forall|yy: int, xx: int|
                0 <= yy < N && 0 <= xx < M ==> #[trigger] frame.depth_at(yy, xx) == old(
                    frame,
                ).depth_at(yy, xx),
        decreases endy - y,
    {
        proof {
            assert forall|xx: int| startx <= xx < endx implies #[trigger] pixel_fits(
                t.a(),
                t.b(),
                t.c(),
                y as int,
                xx,
                N as int,
                M as int,
            ) by {
                assert(in_range(t.a(), t.b(), t.c(), y as int, xx, N as int, M as int));
            }
        }
        draw_row(frame, shader, t, y, startx, endx);
        y = y + 1;
    }
}

/// Whether drawing the triangle has room at the pixel in row `y` and column
/// `x`.
fn pixel_has_room<const N: usize, const M: usize>(t: &Triangle, y: usize, x: usize) -> (room: bool)
    ensures
        room == pixel_fits(t.a(), t.b(), t.c(), y as int, x as int, N as int, M as int),
{
    let pos = Vector2::new2(pixel_center(x, M), pixel_center(y, N));
    if !t.coverage_fits(&pos) {
        false
    } else if t.contains_point_2d(&pos) {
        t.barycentric_fits(&pos)
    } else {
        true
    }
}

/// Whether drawing the triangle has room at every pixel of its pixel range.
fn triangle_has_room<const N: usize, const M: usize>(t: &Triangle, cube: &BoundingBox) -> (room:
    bool)
    requires
        *cube == ndc_box(),
    ensures
        room == triangle_fits(t.a(), t.b(), t.c(), N as int, M as int),
{
    let whole = t.calc_bounding_box();
    let b = whole.intersect(cube);

    let startx = ndc_to_pixel(&b.x, M);
    let starty = ndc_to_pixel(&b.y, N);
    let endx = ndc_to_pixel(&b.xmax, M);
    let endy = ndc_to_pixel(&b.ymax, N);
    let mut y: usize = starty;
    while y < endy
        invariant
            starty <= y,
            startx == pixel_index(b.x, M as int),
            endx == pixel_index(b.xmax, M as int),
            starty == pixel_index(b.y, N as int),
            endy == pixel_index(b.ymax, N as int),
            b == bounding_box(t.a(), t.b(), t.c()).intersect_spec(ndc_box()),
            forall|yy: int, xx: int|
                starty <= yy < y && startx <= xx < endx ==> #[trigger] pixel_fits(
                    t.a(),
                    t.b(),
                    t.c(),
                    yy,
                    xx,
                    N as int,
                    M as int,
                ),
        decreases endy - y,
    {
        let mut x: usize = startx;
        while x < endx
            invariant
                starty <= y < endy,
                startx <= x,
                startx == pixel_index(b.x, M as int),
                endx == pixel_index(b.xmax, M as int),
                starty == pixel_index(b.y, N as int),
                endy == pixel_index(b.ymax, N as int),
                b == bounding_box(t.a(), t.b(), t.c()).intersect_spec(ndc_box()),
                forall|yy: int, xx: int|
                    (starty <= yy < y && startx <= xx < endx) || (yy == y && startx <= xx < x)
                        ==> #[trigger] pixel_fits(t.a(), t.b(), t.c(), yy, xx, N as int, M as int),
            decreases endx - x,
        {
            if !pixel_has_room::<N, M>(t, y, x) {
                assert(in_range(t.a(), t.b(), t.c(), y as int, x as int, N as int, M as int));
                return false;
            }
            x = x + 1;
        }
        y = y + 1;
    }
    proof {
        assert forall|yy: int, xx: int| #[trigger]
            in_range(t.a(), t.b(), t.c(), yy, xx, N as int, M as int) implies pixel_fits(
            t.a(),
            t.b(),
            t.c(),
            yy,
            xx,
            N as int,
            M as int,
        ) by {
            assert(starty <= yy < y && startx <= xx < endx);
        }
    }
    true
}

/// Whether a draw call with `shader` and `vertices` on a frame of `N` rows
/// and `M` columns has room: whether no turn and no weight that the call
/// computes overflows. `draw` asks for this.
pub fn draw_fits<S: ShaderProgram + ?Sized, const N: usize, const M: usize>(
    shader: &S,
    vertices: &[Vector3],
) -> (room: bool)
    ensures
        room == fits(shader, vertices@, N as int, M as int),
{
    let mut vertex_positions: Vec<Vector3> = Vec::new();
    for i in 0..vertices.len()
        invariant
            vertex_positions.len() == i,
            forall|k: int| 0 <= k < i ==> vertex_positions[k] == shader.vert_spec(vertices[k]),
    {
        vertex_positions.push(shader.vert(&vertices[i]));
    }
    let ghost positions = shaded(shader, vertices@);
    assert(vertex_positions@ =~= positions);

    let tris = assemble_triangles(vertex_positions.as_slice());

    let cube = BoundingBox {
        x: Rational::from_int(-1),
        y: Rational::from_int(-1),
        z: Rational::from_int(-1),
        xmax: Rational::one(),
        ymax: Rational::one(),
        zmax: Rational::one(),
    };

    let mut ti: usize = 0;
    while ti < tris.len()
        invariant
            ti <= tris.len(),
            tris.len() == positions.len() / 3,
            positions.len() == vertices@.len(),
            positions == shaded(shader, vertices@),
            cube == ndc_box(),
            forall|k: int|
                0 <= k < tris.len() ==> (#[trigger] tris[k]).a() == positions[3 * k] && tris[k].b()
                    == positions[3 * k + 1] && tris[k].c() == positions[3 * k + 2],
            forall|k: int| 0 <= k < ti ==> #[trigger] fits_at(positions, k, N as int, M as int),
        decreases tris.len() - ti,
    {
        if !triangle_has_room::<N, M>(&tris[ti], &cube) {
            assert(!fits_at(positions, ti as int, N as int, M as int));
            return false;
        }
        ti = ti + 1;
    }
    true
}

/// Renders triangles into a frame if the call has room, and says whether it
/// did. Without room the frame stays as it is.
pub fn draw_checked<S: ShaderProgram + ?Sized, const N: usize, const M: usize>(
    frame: &mut Frame<Rational, N, M>,
    shader: Box<S>,
    vertices: &[Vector3],
) -> (done: bool)
    ensures
        done == fits(&*shader, vertices@, N as int, M as int),
        done ==> drawn(*old(frame), *final(frame), &*shader, vertices@),
        !done ==> *final(frame) == *old(frame),
{
    if draw_fits::<S, N, M>(&*shader, vertices) {
        draw(frame, shader, vertices);
        true
    } else {
        false
    }
}

/// Renders triangles into a frame. The vertex stage moves every vertex, the
/// moved vertices form triangles three by three, and every pixel that a
/// triangle reaches takes the colour that the fragment stage gives for the
/// barycentric coordinate of the pixel's centre in that triangle. Later
/// triangles overwrite earlier ones. Pixels that no triangle reaches, and all
/// depths, stay as they are. The call must have room; `draw_fits` tells, and
/// `draw_checked` draws only where it has.
pub fn draw<S: ShaderProgram + ?Sized, const N: usize, const M: usize>(
    frame: &mut Frame<Rational, N, M>,
    shader: Box<S>,
    vertices: &[Vector3],
)
    requires
        fits(&*shader, vertices@, N as int, M as int),
    ensures
        drawn(*old(frame), *final(frame), &*shader, vertices@),
{
    // run vertex shader
    let mut vertex_positions: Vec<Vector3> = Vec::new();
    for i in 0..vertices.len()
        invariant
            vertex_positions.len() == i,
            forall|k: int| 0 <= k < i ==> vertex_positions[k] == shader.vert_spec(vertices[k]),
    {
        vertex_positions.push(shader.vert(&vertices[i]));
    }
    let ghost positions = shaded(&*shader, vertices@);
    assert(vertex_positions@ =~= positions);

    let tris = assemble_triangles(vertex_positions.as_slice());

    let cube = BoundingBox {
        x: Rational::from_int(-1),
        y: Rational::from_int(-1),
        z: Rational::from_int(-1),
        xmax: Rational::one(),
        ymax: Rational::one(),
        zmax: Rational::one(),
    };

    let mut ti: usize = 0;
    while ti < tris.len()
        invariant
            ti <= tris.len(),
            tris.len() == positions.len() / 3,
            positions.len() == vertices@.len(),
            positions == shaded(&*shader, vertices@),
            fits(&*shader, vertices@, N as int, M as int),
            cube == ndc_box(),
            forall|k: int|
                0 <= k < tris.len() ==> (#[trigger] tris[k]).a() == positions[3 * k] && tris[k].b()
                    == positions[3 * k + 1] && tris[k].c() == positions[3 * k + 2],
            forall|y: int, x: int|
                0 <= y < N && 0 <= x < M ==> #[trigger] frame.pixel(y, x) == painted(
                    old(frame).pixel(y, x),
                    &*shader,
                    positions,
                    y,
                    x,
                    N as int,
                    M as int,
                    ti as nat,
                ),
            forall|y: int, x: int|
                0 <= y < N && 0 <= x < M ==> #[trigger] frame.depth_at(y, x) == old(
                    frame,
                ).depth_at(y, x),
        decreases tris.len() - ti,
    {
        assert(fits_at(positions, ti as int, N as int, M as int));
        draw_triangle(frame, &*shader, &tris[ti], &cube);
        ti = ti + 1;
    }
}

} // verus!
