use rasterizer::color::Color;
use rasterizer::matrix::vector::{Vector2, Vector3};
use rasterizer::pipeline::barycentric::BarycentricCoord;
use rasterizer::pipeline::frame::Frame;
use rasterizer::pipeline::geometry::{BoundingBox, Triangle};
use rasterizer::pipeline::shaders::{FragmentShader, ShaderProgram, VertexShader};
use rasterizer::pipeline::raster::{ndc_to_pixel, pixel_center};
use rasterizer::pipeline::{assemble_triangles, draw, draw_checked, draw_fits};
use rasterizer::program::Program;
use rasterizer::rational::Rational;

fn whole(i: i64) -> Rational {
    Rational::from_int(i)
}

fn frac(n: i64, d: i64) -> Rational {
    Rational::new(n, d)
}

fn point(x: i64, y: i64) -> Vector2 {
    Vector2::new2(whole(x), whole(y))
}

fn vertex(x: i64, y: i64, z: i64) -> Vector3 {
    Vector3::new3(whole(x), whole(y), whole(z))
}

fn color(r: Rational, g: Rational, b: Rational, a: Rational) -> Color {
    Color::new(r, g, b, a)
}

fn channels(c: &Color) -> [Rational; 4] {
    [c.r, c.g, c.b, c.a]
}

/// Leaves positions alone and paints one colour.
struct Flat {
    color: Color,
}

impl VertexShader for Flat {
    fn vert_spec(&self, in_pos: Vector3) -> Vector3 {
        in_pos
    }

    fn vert(&self, in_pos: &Vector3) -> Vector3 {
        *in_pos
    }
}

impl FragmentShader for Flat {
    fn frag_spec(&self, _coord: BarycentricCoord) -> Color {
        self.color
    }

    fn frag(&self, _coord: &BarycentricCoord) -> Color {
        self.color
    }
}

impl ShaderProgram for Flat {}

/// Doubles every coordinate and paints the weights as colour.
struct Doubling {}

impl VertexShader for Doubling {
    fn vert_spec(&self, in_pos: Vector3) -> Vector3 {
        self.vert(&in_pos)
    }

    fn vert(&self, in_pos: &Vector3) -> Vector3 {
        Vector3::new3(
            *in_pos.x() * whole(2),
            *in_pos.y() * whole(2),
            *in_pos.z() * whole(2),
        )
    }
}

impl FragmentShader for Doubling {
    fn frag_spec(&self, coord: BarycentricCoord) -> Color {
        self.frag(&coord)
    }

    fn frag(&self, coord: &BarycentricCoord) -> Color {
        Color::new(coord.a, coord.b, coord.c, Rational::one())
    }
}

impl ShaderProgram for Doubling {}

fn red() -> Color {
    color(whole(1), whole(0), whole(0), whole(1))
}

fn blue() -> Color {
    color(whole(0), whole(0), whole(1), whole(1))
}

fn black() -> Color {
    color(whole(0), whole(0), whole(0), whole(1))
}

/// A triangle that contains the whole square from -1 to 1.
fn covering() -> Vec<Vector3> {
    vec![vertex(-1, -1, 0), vertex(3, -1, 0), vertex(-1, 3, 0)]
}

#[test]
fn test_turn() {
    let a = point(0, 0);
    let b = point(1, 2);
    let c = point(2, 1);

    assert!((Triangle::turn(&a, &b, &c) * Triangle::turn(&a, &c, &b)).lt(&Rational::zero()));
}

#[test]
fn turn_is_the_cross_product() {
    let a = point(0, 0);
    let b = point(1, 2);
    let c = point(2, 1);
    assert_eq!(Triangle::turn(&a, &b, &c), whole(-3));
    assert_eq!(Triangle::turn(&a, &c, &b), whole(3));
    assert_eq!(Triangle::turn(&a, &b, &b), whole(0));
    let p = Vector2::new2(frac(1, 2), frac(1, 3));
    assert_eq!(Triangle::turn(&a, &b, &p), frac(-2, 3));
}

#[test]
fn area_is_half_the_shoelace_sum() {
    let a = point(0, 0);
    let b = point(4, 0);
    let c = point(0, 4);
    assert_eq!(Triangle::area(&a, &b, &c), whole(8));
    assert_eq!(Triangle::area(&a, &c, &b), whole(8));
    assert_eq!(Triangle::area(&a, &b, &point(1, 1)), whole(2));
    assert_eq!(Triangle::area(&a, &b, &point(2, 0)), whole(0));
    assert_eq!(Triangle::area(&a, &point(1, 0), &point(0, 1)), frac(1, 2));
}

#[test]
fn bounding_box_is_least_and_greatest_per_axis() {
    let a = vertex(1, 5, -2);
    let b = vertex(-3, 2, 7);
    let c = vertex(4, -6, 0);
    let t = Triangle { verts: [&a, &b, &c] };
    let bb = t.calc_bounding_box();
    assert_eq!(bb.x, whole(-3));
    assert_eq!(bb.xmax, whole(4));
    assert_eq!(bb.y, whole(-6));
    assert_eq!(bb.ymax, whole(5));
    assert_eq!(bb.z, whole(-2));
    assert_eq!(bb.zmax, whole(7));
}

#[test]
fn bounding_box_passes_over_what_is_not_a_number() {
    let a = Vector3::new3(Rational::nan(), whole(1), Rational::nan());
    let b = Vector3::new3(whole(2), whole(3), Rational::nan());
    let c = Vector3::new3(Rational::nan(), whole(-1), Rational::nan());
    let t = Triangle { verts: [&a, &b, &c] };
    let bb = t.calc_bounding_box();
    assert_eq!(bb.x, whole(2));
    assert_eq!(bb.xmax, whole(2));
    assert_eq!(bb.y, whole(-1));
    assert_eq!(bb.ymax, whole(3));
    assert_eq!(bb.z, Rational::max_value());
    assert_eq!(bb.zmax, Rational::min_value());
}

fn boxed(x: i64, y: i64, z: i64, xmax: i64, ymax: i64, zmax: i64) -> BoundingBox {
    BoundingBox {
        x: whole(x),
        y: whole(y),
        z: whole(z),
        xmax: whole(xmax),
        ymax: whole(ymax),
        zmax: whole(zmax),
    }
}

#[test]
fn intersection_takes_the_inner_bounds() {
    let a = boxed(-2, -1, 0, 3, 4, 5);
    let b = boxed(-1, -3, 1, 5, 2, 6);
    let c = a.intersect(&b);
    assert_eq!(c.x, whole(-1));
    assert_eq!(c.y, whole(-1));
    assert_eq!(c.z, whole(1));
    assert_eq!(c.xmax, whole(3));
    assert_eq!(c.ymax, whole(2));
    assert_eq!(c.zmax, whole(5));
}

#[test]
fn intersection_of_disjoint_boxes_is_empty() {
    let a = boxed(2, 2, 2, 3, 3, 3);
    let b = boxed(-1, -1, -1, 1, 1, 1);
    let c = a.intersect(&b);
    assert!(c.x.gt(&c.xmax));
    assert!(c.y.gt(&c.ymax));
    assert!(c.z.gt(&c.zmax));
    assert_eq!(c.x, whole(2));
    assert_eq!(c.xmax, whole(1));
}

#[test]
fn coverage_includes_the_inside() {
    let a = vertex(0, 0, 0);
    let b = vertex(4, 0, 0);
    let c = vertex(0, 4, 0);
    let ccw = Triangle { verts: [&a, &b, &c] };
    let cw = Triangle { verts: [&a, &c, &b] };
    assert!(ccw.contains_point_2d(&point(1, 1)));
    assert!(cw.contains_point_2d(&point(1, 1)));
}

#[test]
fn coverage_includes_edges_and_vertices_in_both_windings() {
    let a = vertex(0, 0, 0);
    let b = vertex(4, 0, 0);
    let c = vertex(0, 4, 0);
    let ccw = Triangle { verts: [&a, &b, &c] };
    let cw = Triangle { verts: [&a, &c, &b] };
    let on_edges = [point(2, 0), point(0, 2), point(2, 2), point(1, 3), point(3, 1)];
    let corners = [point(0, 0), point(4, 0), point(0, 4)];
    for p in on_edges.iter().chain(corners.iter()) {
        assert!(ccw.contains_point_2d(p));
        assert!(cw.contains_point_2d(p));
    }
    let third = Vector2::new2(frac(4, 3), frac(8, 3));
    assert!(ccw.contains_point_2d(&third));
    assert!(cw.contains_point_2d(&third));
}

#[test]
fn coverage_excludes_the_outside() {
    let a = vertex(0, 0, 0);
    let b = vertex(4, 0, 0);
    let c = vertex(0, 4, 0);
    let ccw = Triangle { verts: [&a, &b, &c] };
    let cw = Triangle { verts: [&a, &c, &b] };
    let outside = [point(-1, 1), point(1, -1), point(3, 3), point(5, 0), point(0, 5), point(-1, -1)];
    for p in outside.iter() {
        assert!(!ccw.contains_point_2d(p));
        assert!(!cw.contains_point_2d(p));
    }
    let just_out = Vector2::new2(frac(2001, 1000), whole(2));
    assert!(!ccw.contains_point_2d(&just_out));
}

#[test]
fn turns_of_an_outside_point_disagree() {
    let a = point(0, 0);
    let b = point(4, 0);
    let c = point(0, 4);
    let p = point(3, 3);
    let zero = Rational::zero();
    let turns = [
        Triangle::turn(&a, &b, &p),
        Triangle::turn(&b, &c, &p),
        Triangle::turn(&c, &a, &p),
    ];
    assert!(turns.iter().any(|t| t.gt(&zero)));
    assert!(turns.iter().any(|t| t.lt(&zero)));
}

#[test]
fn coverage_ignores_depth() {
    let a = vertex(0, 0, 5);
    let b = vertex(4, 0, -7);
    let c = vertex(0, 4, 100);
    let t = Triangle { verts: [&a, &b, &c] };
    assert!(t.contains_point_2d(&point(1, 1)));
    assert!(!t.contains_point_2d(&point(3, 3)));
}

#[test]
fn coverage_has_no_room_where_a_turn_is_not_a_number() {
    let a = vertex(0, 0, 0);
    let b = vertex(4, 0, 0);
    let c = vertex(0, 4, 0);
    let t = Triangle { verts: [&a, &b, &c] };
    assert!(t.coverage_fits(&point(1, 1)));
    assert!(!t.coverage_fits(&Vector2::new2(Rational::nan(), whole(1))));
    let far = Vector3::new3(Rational::max_value(), Rational::max_value(), whole(0));
    let wide = Triangle { verts: [&a, &b, &far] };
    assert!(!wide.coverage_fits(&point(1, 1)));
    assert!(!Triangle::turn_fits(&point(0, 0), &Vector2::new2(Rational::max_value(), Rational::max_value()), &point(1, 1)));
    assert!(Triangle::turn_fits(&point(0, 0), &point(1, 2), &point(2, 1)));
}

fn two_to_minus(k: u32) -> Rational {
    Rational::new(1, 1i64 << k)
}

/// A thin triangle with a point strictly inside it whose turns take more
/// than 63 bits.
fn fine_triangle() -> (Vector3, Vector3, Vector3, Vector2) {
    (
        Vector3::new3(whole(-1), two_to_minus(32), whole(0)),
        vertex(0, 0, 0),
        vertex(1, 0, 0),
        Vector2::new2(two_to_minus(31), two_to_minus(34)),
    )
}

#[test]
fn coordinates_too_fine_for_the_turns_are_told_apart() {
    let (a, b, c, p) = fine_triangle();
    let t = Triangle { verts: [&a, &b, &c] };
    assert!(!t.coverage_fits(&p));
    assert!(!t.barycentric_fits(&p));
}

#[test]
fn fine_coordinates_that_fit_are_decided_exactly() {
    let a = Vector3::new3(whole(-1), two_to_minus(20), whole(0));
    let b = vertex(0, 0, 0);
    let c = vertex(1, 0, 0);
    let t = Triangle { verts: [&a, &b, &c] };
    let inside = Vector2::new2(two_to_minus(19), two_to_minus(22));
    assert!(t.coverage_fits(&inside));
    assert!(t.contains_point_2d(&inside));
    assert!(t.barycentric_fits(&inside));
    let w = t.calc_barycentric_coord(inside);
    let zero = Rational::zero();
    assert!(w.a.gt(&zero) && w.b.gt(&zero) && w.c.gt(&zero));
    assert_eq!(w.a + w.b + w.c, whole(1));
    assert_eq!(w.a, frac(1, 4));
    let just_above = Vector2::new2(two_to_minus(19), two_to_minus(20));
    assert!(t.coverage_fits(&just_above));
    assert!(!t.contains_point_2d(&just_above));
}

#[test]
fn drawing_without_room_is_refused_and_leaves_the_frame_alone() {
    let shift = two_to_minus(31);
    let v = vec![
        Vector3::new3(whole(-1) - shift, frac(3, 1i64 << 34), whole(0)),
        Vector3::new3(-shift, -two_to_minus(34), whole(0)),
        Vector3::new3(whole(1) - shift, -two_to_minus(34), whole(0)),
    ];
    assert!(!draw_fits::<Flat, 1, 1>(&Flat { color: red() }, &v));
    let mut frame: Frame<Rational, 1, 1> = Frame::new();
    assert!(!draw_checked(&mut frame, Box::new(Flat { color: red() }), &v));
    assert_eq!(channels(&frame.color_at(0, 0)), channels(&black()));
    let mut twice = v.clone();
    twice.extend(v);
    assert!(!draw_checked(&mut frame, Box::new(Flat { color: red() }), &twice));
    assert_eq!(channels(&frame.color_at(0, 0)), channels(&black()));
}

#[test]
fn drawing_with_room_is_done_and_said_so() {
    let mut frame: Frame<Rational, 3, 3> = Frame::new();
    assert!(draw_fits::<Flat, 3, 3>(&Flat { color: red() }, &covering()));
    assert!(draw_checked(&mut frame, Box::new(Flat { color: red() }), &covering()));
    for y in 0..3 {
        for x in 0..3 {
            assert_eq!(channels(&frame.color_at(y, x)), channels(&red()));
        }
    }
    let verts = vec![vertex(-1, -1, 0), vertex(1, -1, 0), vertex(0, 1, 0)];
    assert!(draw_fits::<Program, 200, 300>(&Program {}, &verts));
    let boxed: Box<dyn ShaderProgram> = Box::new(Program {});
    assert!(draw_fits::<dyn ShaderProgram, 20, 30>(&*boxed, &verts));
}

#[test]
fn a_triangle_without_area_has_room() {
    let a = vertex(0, 0, 0);
    let b = vertex(1, 1, 0);
    let c = vertex(2, 2, 0);
    let t = Triangle { verts: [&a, &b, &c] };
    assert!(t.coverage_fits(&point(1, 1)));
    assert!(t.barycentric_fits(&point(1, 1)));
    assert!(draw_fits::<Program, 2, 2>(&Program {}, &[a, b, c]));
}

#[test]
fn weights_weigh_the_vertices_back_to_the_point() {
    let a = vertex(-3, 1, 0);
    let b = vertex(5, -2, 0);
    let c = vertex(1, 7, 0);
    let t = Triangle { verts: [&a, &b, &c] };
    for p in [Vector2::new2(frac(1, 3), frac(2, 7)), point(1, 1), point(1, 7), Vector2::new2(whole(1), frac(-1, 2))] {
        assert!(t.contains_point_2d(&p));
        let w = t.calc_barycentric_coord(p);
        assert_eq!(w.a + w.b + w.c, whole(1));
        assert_eq!(w.a * *a.x() + w.b * *b.x() + w.c * *c.x(), *p.x());
        assert_eq!(w.a * *a.y() + w.b * *b.y() + w.c * *c.y(), *p.y());
    }
}

#[test]
fn weights_inside_are_positive_and_add_up_to_one() {
    let a = vertex(0, 0, 0);
    let b = vertex(4, 0, 0);
    let c = vertex(0, 4, 0);
    let t = Triangle { verts: [&a, &b, &c] };
    let w = t.calc_barycentric_coord(point(1, 1));
    assert_eq!(w.a, frac(1, 2));
    assert_eq!(w.b, frac(1, 4));
    assert_eq!(w.c, frac(1, 4));
    assert_eq!(w.a + w.b + w.c, whole(1));

    let p = Vector2::new2(frac(1, 3), frac(2, 7));
    let w = t.calc_barycentric_coord(p);
    let zero = Rational::zero();
    assert!(w.a.gt(&zero) && w.b.gt(&zero) && w.c.gt(&zero));
    assert_eq!(w.a + w.b + w.c, whole(1));
    assert_eq!(w.b, frac(1, 12));
    assert_eq!(w.c, frac(1, 14));
}

#[test]
fn weights_at_a_vertex_pick_that_vertex() {
    let a = vertex(0, 0, 0);
    let b = vertex(4, 0, 0);
    let c = vertex(0, 4, 0);
    let t = Triangle { verts: [&a, &b, &c] };
    let at_a = t.calc_barycentric_coord(point(0, 0));
    assert_eq!((at_a.a, at_a.b, at_a.c), (whole(1), whole(0), whole(0)));
    let at_b = t.calc_barycentric_coord(point(4, 0));
    assert_eq!((at_b.a, at_b.b, at_b.c), (whole(0), whole(1), whole(0)));
    let at_c = t.calc_barycentric_coord(point(0, 4));
    assert_eq!((at_c.a, at_c.b, at_c.c), (whole(0), whole(0), whole(1)));
}

#[test]
fn weights_of_a_triangle_without_area_are_not_finite() {
    let a = vertex(0, 0, 0);
    let b = vertex(1, 1, 0);
    let c = vertex(2, 2, 0);
    let t = Triangle { verts: [&a, &b, &c] };
    let w = t.calc_barycentric_coord(point(1, 1));
    assert!(!w.a.is_finite());
    assert!(!w.b.is_finite());
    assert!(!w.c.is_finite());
}

#[test]
fn barymix_weighs_each_channel() {
    let a = color(whole(1), whole(0), whole(0), whole(1));
    let b = color(whole(0), whole(1), whole(0), whole(1));
    let c = color(frac(1, 2), frac(1, 2), whole(1), whole(0));
    let w = BarycentricCoord::new(frac(1, 2), frac(1, 4), frac(1, 4));
    let mixed = Program::barymix_color(&a, &b, &c, &w);
    assert_eq!(channels(&mixed), [frac(5, 8), frac(3, 8), frac(1, 4), frac(3, 4)]);
}

#[test]
fn program_blends_red_green_and_blue() {
    let program = Program {};
    let at_first = program.frag(&BarycentricCoord::new(whole(1), whole(0), whole(0)));
    assert_eq!(channels(&at_first), [whole(1), whole(0), whole(0), whole(1)]);
    let at_second = program.frag(&BarycentricCoord::new(whole(0), whole(1), whole(0)));
    assert_eq!(channels(&at_second), [whole(0), whole(1), whole(0), whole(1)]);
    let at_third = program.frag(&BarycentricCoord::new(whole(0), whole(0), whole(1)));
    assert_eq!(channels(&at_third), [whole(0), whole(0), whole(1), whole(1)]);
    let middle = program.frag(&BarycentricCoord::new(frac(1, 3), frac(1, 3), frac(1, 3)));
    assert_eq!(channels(&middle), [frac(1, 3), frac(1, 3), frac(1, 3), whole(1)]);
}

#[test]
fn program_leaves_positions_alone() {
    let program = Program {};
    let v = Vector3::new3(frac(1, 2), whole(-3), whole(7));
    let out = program.vert(&v);
    assert_eq!((*out.x(), *out.y(), *out.z()), (frac(1, 2), whole(-3), whole(7)));
}

#[test]
fn triangles_are_assembled_three_by_three() {
    let vertices = vec![
        vertex(0, 0, 0),
        vertex(1, 0, 0),
        vertex(2, 0, 0),
        vertex(3, 0, 0),
        vertex(4, 0, 0),
        vertex(5, 0, 0),
    ];
    let tris = assemble_triangles(&vertices);
    assert_eq!(tris.len(), 2);
    for (i, t) in tris.iter().enumerate() {
        for k in 0..3 {
            assert_eq!(*t.verts[k].x(), whole((3 * i + k) as i64));
        }
    }
}

#[test]
fn a_trailing_partial_triangle_is_dropped() {
    let mut vertices = vec![vertex(0, 0, 0), vertex(1, 0, 0)];
    assert_eq!(assemble_triangles(&vertices).len(), 0);
    vertices.push(vertex(2, 0, 0));
    assert_eq!(assemble_triangles(&vertices).len(), 1);
    vertices.push(vertex(3, 0, 0));
    assert_eq!(assemble_triangles(&vertices).len(), 1);
    vertices.push(vertex(4, 0, 0));
    assert_eq!(assemble_triangles(&vertices).len(), 1);
    assert_eq!(assemble_triangles(&[]).len(), 0);
}

#[test]
fn pixel_centers_divide_the_range_evenly() {
    assert_eq!(pixel_center(0, 2), frac(-1, 2));
    assert_eq!(pixel_center(1, 2), frac(1, 2));
    assert_eq!(pixel_center(0, 1), whole(0));
    assert_eq!(pixel_center(0, 300), frac(-299, 300));
    assert_eq!(pixel_center(149, 300), frac(-1, 300));
    assert_eq!(pixel_center(299, 300), frac(299, 300));
    assert_eq!(pixel_center(66, 200), frac(-67, 200));
    assert!(!pixel_center(0, 0).is_finite());
}

#[test]
fn coordinates_map_to_pixel_indices() {
    assert_eq!(ndc_to_pixel(&whole(-1), 300), 0);
    assert_eq!(ndc_to_pixel(&whole(1), 300), 300);
    assert_eq!(ndc_to_pixel(&whole(0), 300), 150);
    assert_eq!(ndc_to_pixel(&whole(0), 3), 2);
    assert_eq!(ndc_to_pixel(&frac(-1, 2), 2), 1);
    assert_eq!(ndc_to_pixel(&frac(-501, 1000), 2), 0);
    assert_eq!(ndc_to_pixel(&frac(499, 1000), 2), 1);
    assert_eq!(ndc_to_pixel(&frac(1, 2), 2), 2);
    assert_eq!(ndc_to_pixel(&whole(0), 0), 0);
}

#[test]
fn coordinates_off_the_range_are_held_at_the_limits() {
    assert_eq!(ndc_to_pixel(&whole(-5), 300), 0);
    assert_eq!(ndc_to_pixel(&Rational::min_value(), 300), 0);
    assert_eq!(ndc_to_pixel(&whole(3), 300), 600);
    assert_eq!(ndc_to_pixel(&Rational::max_value(), usize::MAX), usize::MAX);
    assert_eq!(ndc_to_pixel(&Rational::nan(), 300), 0);
}

#[test]
fn the_center_of_a_pixel_maps_to_the_next_index() {
    for cells in [1usize, 2, 3, 7, 200, 300] {
        for index in 0..cells {
            assert_eq!(ndc_to_pixel(&pixel_center(index, cells), cells), index + 1);
        }
    }
}

#[test]
fn a_coordinate_before_the_center_of_a_pixel_maps_to_its_index() {
    for cells in [1i64, 2, 3, 7, 200, 300] {
        for index in 0..cells {
            let center = pixel_center(index as usize, cells as usize);
            let before = center - frac(1, 1000 * cells);
            let after = center + frac(1, 1000 * cells);
            assert_eq!(ndc_to_pixel(&before, cells as usize), index as usize);
            assert_eq!(ndc_to_pixel(&after, cells as usize), index as usize + 1);
        }
    }
}

#[test]
fn a_covering_triangle_fills_the_frame_with_one_color() {
    let mut frame: Frame<Rational, 5, 7> = Frame::new();
    let fill = color(frac(1, 2), frac(1, 4), whole(1), frac(3, 4));
    draw(&mut frame, Box::new(Flat { color: fill }), &covering());
    for y in 0..5 {
        for x in 0..7 {
            assert_eq!(channels(&frame.color_at(y, x)), channels(&fill));
        }
    }
    let bytes = frame.byte_sequence();
    assert_eq!(bytes.len(), 4 * 5 * 7);
    for pixel in bytes.chunks(4) {
        assert_eq!(pixel, [128, 64, 255, 191]);
    }
}

#[test]
fn a_later_triangle_overwrites_an_earlier_one() {
    let mut frame: Frame<Rational, 4, 4> = Frame::new();
    let mut vertices = covering();
    vertices.extend(vec![vertex(-1, -1, 0), vertex(0, -1, 0), vertex(-1, 0, 0)]);
    draw(&mut frame, Box::new(Doubling {}), &[]);
    draw(&mut frame, Box::new(Flat { color: red() }), &covering());
    draw(&mut frame, Box::new(Flat { color: blue() }), &vertices[3..]);
    assert_eq!(channels(&frame.color_at(0, 0)), channels(&blue()));
    assert_eq!(channels(&frame.color_at(3, 3)), channels(&red()));

    let mut both: Frame<Rational, 4, 4> = Frame::new();
    draw(&mut both, Box::new(Program {}), &vertices);
    let first_only = {
        let mut f: Frame<Rational, 4, 4> = Frame::new();
        draw(&mut f, Box::new(Program {}), &vertices[..3]);
        f
    };
    let second_only = {
        let mut f: Frame<Rational, 4, 4> = Frame::new();
        draw(&mut f, Box::new(Program {}), &vertices[3..]);
        f
    };
    assert_ne!(
        channels(&first_only.color_at(0, 0)),
        channels(&second_only.color_at(0, 0))
    );
    assert_eq!(
        channels(&both.color_at(0, 0)),
        channels(&second_only.color_at(0, 0))
    );
    assert_eq!(
        channels(&both.color_at(3, 3)),
        channels(&first_only.color_at(3, 3))
    );
}

#[test]
fn the_order_of_triangles_decides_the_color() {
    let small = vec![vertex(-1, -1, 0), vertex(0, -1, 0), vertex(-1, 0, 0)];
    let mut forward = covering();
    forward.extend(small.clone());
    let mut backward = small;
    backward.extend(covering());

    let mut f: Frame<Rational, 4, 4> = Frame::new();
    draw(&mut f, Box::new(Program {}), &forward);
    let mut b: Frame<Rational, 4, 4> = Frame::new();
    draw(&mut b, Box::new(Program {}), &backward);
    let mut large_only: Frame<Rational, 4, 4> = Frame::new();
    draw(&mut large_only, Box::new(Program {}), &covering());

    assert_ne!(channels(&f.color_at(0, 0)), channels(&b.color_at(0, 0)));
    assert_eq!(
        channels(&b.color_at(0, 0)),
        channels(&large_only.color_at(0, 0))
    );
}

#[test]
fn pixels_that_no_triangle_reaches_keep_their_color() {
    let mut frame: Frame<Rational, 4, 4> = Frame::new();
    let lower_left = vec![vertex(-1, -1, 0), vertex(0, -1, 0), vertex(-1, 0, 0)];
    draw(&mut frame, Box::new(Flat { color: red() }), &lower_left);
    assert_eq!(channels(&frame.color_at(0, 0)), channels(&red()));
    for (y, x) in [(0, 2), (0, 3), (2, 0), (3, 0), (1, 1), (3, 3), (2, 2)] {
        assert_eq!(channels(&frame.color_at(y, x)), channels(&black()), "row {} column {}", y, x);
    }
}

#[test]
fn a_pixel_whose_center_is_the_least_corner_is_left_out() {
    let mut frame: Frame<Rational, 2, 2> = Frame::new();
    let v = vec![
        Vector3::new3(frac(-1, 2), frac(-1, 2), whole(0)),
        Vector3::new3(whole(3), frac(-1, 2), whole(0)),
        Vector3::new3(frac(-1, 2), whole(3), whole(0)),
    ];
    draw(&mut frame, Box::new(Flat { color: red() }), &v);
    assert_eq!(channels(&frame.color_at(0, 0)), channels(&black()));
    assert_eq!(channels(&frame.color_at(0, 1)), channels(&black()));
    assert_eq!(channels(&frame.color_at(1, 0)), channels(&black()));
    assert_eq!(channels(&frame.color_at(1, 1)), channels(&red()));
}

#[test]
fn triangles_off_the_cube_paint_nothing() {
    let mut frame: Frame<Rational, 4, 4> = Frame::new();
    let right = vec![vertex(2, -1, 0), vertex(5, -1, 0), vertex(2, 3, 0)];
    let left = vec![vertex(-5, -1, 0), vertex(-2, -1, 0), vertex(-5, 3, 0)];
    let above = vec![vertex(-1, 2, 0), vertex(3, 2, 0), vertex(-1, 5, 0)];
    let far = vec![
        Vector3::new3(Rational::max_value(), whole(0), whole(0)),
        Vector3::new3(Rational::max_value(), whole(1), whole(0)),
        Vector3::new3(Rational::max_value() - whole(1), whole(0), whole(0)),
    ];
    for v in [right, left, above, far] {
        draw(&mut frame, Box::new(Flat { color: red() }), &v);
    }
    for y in 0..4 {
        for x in 0..4 {
            assert_eq!(channels(&frame.color_at(y, x)), channels(&black()));
        }
    }
}

#[test]
fn depth_of_the_vertices_does_not_hide_a_triangle() {
    let mut frame: Frame<Rational, 2, 2> = Frame::new();
    let v = vec![vertex(-1, -1, 5), vertex(3, -1, 9), vertex(-1, 3, 7)];
    draw(&mut frame, Box::new(Flat { color: red() }), &v);
    for y in 0..2 {
        for x in 0..2 {
            assert_eq!(channels(&frame.color_at(y, x)), channels(&red()));
        }
    }
}

#[test]
fn drawing_leaves_the_depths_alone() {
    let mut frame: Frame<Rational, 3, 3> = Frame::new();
    let near = vec![vertex(-1, -1, -1), vertex(3, -1, -1), vertex(-1, 3, -1)];
    draw(&mut frame, Box::new(Flat { color: red() }), &near);
    for y in 0..3 {
        for x in 0..3 {
            assert_eq!(channels(&frame.color_at(y, x)), channels(&red()));
            assert_eq!(frame.depth_value(y, x), Rational::one());
        }
    }
}

#[test]
fn a_triangle_without_area_paints_what_the_fragment_stage_makes_of_it() {
    let mut frame: Frame<Rational, 2, 2> = Frame::new();
    let v = vec![
        Vector3::new3(frac(-3, 4), frac(-3, 4), whole(0)),
        Vector3::new3(whole(0), whole(0), whole(0)),
        Vector3::new3(frac(3, 4), frac(3, 4), whole(0)),
    ];
    draw(&mut frame, Box::new(Program {}), &v);
    let on_line = frame.color_at(1, 1);
    assert!(!on_line.r.is_finite());
    assert!(!on_line.g.is_finite());
    assert!(!on_line.b.is_finite());
    assert!(!on_line.a.is_finite());
    assert_eq!(channels(&frame.color_at(0, 1)), channels(&black()));
    assert_eq!(channels(&frame.color_at(1, 0)), channels(&black()));
    let bytes = frame.byte_sequence();
    assert_eq!(&bytes[4..8], [0, 0, 0, 0]);
}

#[test]
fn the_vertex_stage_moves_every_vertex() {
    let mut frame: Frame<Rational, 2, 2> = Frame::new();
    let v = vec![
        Vector3::new3(frac(-1, 2), frac(-1, 2), whole(0)),
        Vector3::new3(frac(3, 2), frac(-1, 2), whole(0)),
        Vector3::new3(frac(-1, 2), frac(3, 2), whole(0)),
    ];
    draw(&mut frame, Box::new(Doubling {}), &v);
    let c = frame.color_at(0, 0);
    assert_eq!(channels(&c), [frac(3, 4), frac(1, 8), frac(1, 8), whole(1)]);
    let d = frame.color_at(1, 1);
    assert_eq!(channels(&d), [frac(1, 4), frac(3, 8), frac(3, 8), whole(1)]);
}

#[test]
fn a_boxed_trait_object_can_be_the_shader() {
    let mut frame: Frame<Rational, 2, 2> = Frame::new();
    let shader: Box<dyn ShaderProgram> = Box::new(Flat { color: blue() });
    draw(&mut frame, shader, &covering());
    assert_eq!(channels(&frame.color_at(1, 0)), channels(&blue()));
}

fn pixel_bytes(bytes: &[u8], rows: usize, columns: usize, y: usize, x: usize) -> [u8; 4] {
    let at = 4 * ((rows - 1 - y) * columns + x);
    [bytes[at], bytes[at + 1], bytes[at + 2], bytes[at + 3]]
}

fn close(actual: [u8; 4], expected: [u8; 4], tolerance: u8) -> bool {
    actual
        .iter()
        .zip(expected.iter())
        .all(|(a, e)| a.abs_diff(*e) <= tolerance)
}

#[test]
fn the_program_blends_the_vertex_colors_across_a_triangle() {
    let mut frame: Frame<Rational, 200, 300> = Frame::new();
    let program = Box::from(Program {});
    let verts = vec![vertex(-1, -1, 0), vertex(1, -1, 0), vertex(0, 1, 0)];
    draw(&mut frame, program, &verts);
    let bytes = frame.byte_sequence();
    assert_eq!(bytes.len(), 4 * 200 * 300);

    let near_first = pixel_bytes(&bytes, 200, 300, 0, 0);
    assert!(close(near_first, [255, 0, 0, 255], 4), "{:?}", near_first);
    let near_second = pixel_bytes(&bytes, 200, 300, 0, 299);
    assert!(close(near_second, [0, 255, 0, 255], 4), "{:?}", near_second);
    let near_third = pixel_bytes(&bytes, 200, 300, 198, 150);
    assert!(close(near_third, [0, 0, 255, 255], 4), "{:?}", near_third);
    let centroid = pixel_bytes(&bytes, 200, 300, 66, 150);
    assert!(close(centroid, [85, 85, 85, 255], 2), "{:?}", centroid);

    assert_eq!(near_first, [254, 0, 1, 255]);
    assert_eq!(pixel_bytes(&bytes, 200, 300, 199, 150), [0, 0, 0, 255]);
    assert_eq!(pixel_bytes(&bytes, 200, 300, 100, 0), [0, 0, 0, 255]);
}
