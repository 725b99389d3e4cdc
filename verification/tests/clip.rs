use pge::fixed::Fixed;
use pge::gfx3d::mat4x4::Mat4x4;
use pge::gfx3d::plane::Plane;
use pge::gfx3d::stages::to_screen_triangles;
use pge::gfx3d::stages::Viewport;
use pge::gfx3d::triangle::clip_pieces;
use pge::gfx3d::triangle::Corner;
use pge::gfx3d::triangle::Piece;
use pge::gfx3d::triangle::Triangle;
use pge::gfx3d::vec3d::Vec3d;
use pge::gfx3d::vec4d::Vec4d;
use pge::pixel::Pixel;

fn fx(v: f64) -> Fixed {
    Fixed { raw: (v * 4294967296.0).round() as i64 }
}

fn val(f: Fixed) -> f64 {
    f.raw as f64 / 4294967296.0
}

fn v4(x: f64, y: f64, z: f64) -> Vec4d {
    Vec4d::new(fx(x), fx(y), fx(z))
}

fn v3(x: f64, y: f64, z: f64) -> Vec3d {
    Vec3d::new(fx(x), fx(y), fx(z))
}

fn near(z: f64) -> Plane {
    Plane { position: v4(0.0, 0.0, z), normal: v4(0.0, 0.0, 1.0) }
}

fn tri(p: [Vec4d; 3]) -> Triangle {
    Triangle { p, t: [v3(0.0, 0.0, 1.0), v3(1.0, 0.0, 1.0), v3(0.0, 1.0, 1.0)], col: Pixel::rgb(1, 2, 3) }
}

/// Twice the area of a triangle's shadow on the plane of x and y.
fn area2(t: &Triangle) -> f64 {
    let (a, b, c) = (t.p[0], t.p[1], t.p[2]);
    ((val(b.x) - val(a.x)) * (val(c.y) - val(a.y)) - (val(b.y) - val(a.y)) * (val(c.x) - val(a.x))).abs()
}

#[test]
fn new_triangle_is_at_the_origin() {
    let t = Triangle::new();
    for i in 0..3 {
        assert_eq!(t.p[i], v4(0.0, 0.0, 0.0));
        assert_eq!(t.t[i], v3(0.0, 0.0, 0.0));
    }
    assert_eq!(t.col, Pixel::rgb(0, 0, 0));
}

#[test]
fn pieces_for_every_way_the_corners_can_lie() {
    let cut = |from, to| Corner::Cut { from, to };
    assert_eq!(clip_pieces(-1, -1, -1), vec![]);
    assert_eq!(clip_pieces(1, 1, 1), vec![Piece { a: Corner::Kept(0), b: Corner::Kept(1), c: Corner::Kept(2) }]);
    // one inside
    assert_eq!(clip_pieces(1, -1, -1), vec![Piece { a: Corner::Kept(0), b: cut(0, 1), c: cut(0, 2) }]);
    assert_eq!(clip_pieces(-1, 1, -1), vec![Piece { a: Corner::Kept(1), b: cut(1, 0), c: cut(1, 2) }]);
    assert_eq!(clip_pieces(-1, -1, 1), vec![Piece { a: Corner::Kept(2), b: cut(2, 0), c: cut(2, 1) }]);
    // two inside
    assert_eq!(
        clip_pieces(1, 1, -1),
        vec![Piece { a: Corner::Kept(0), b: Corner::Kept(1), c: cut(0, 2) }, Piece { a: Corner::Kept(1), b: cut(0, 2), c: cut(1, 2) }]
    );
    assert_eq!(
        clip_pieces(1, -1, 1),
        vec![Piece { a: Corner::Kept(0), b: Corner::Kept(2), c: cut(0, 1) }, Piece { a: Corner::Kept(2), b: cut(0, 1), c: cut(2, 1) }]
    );
    assert_eq!(
        clip_pieces(-1, 1, 1),
        vec![Piece { a: Corner::Kept(1), b: Corner::Kept(2), c: cut(1, 0) }, Piece { a: Corner::Kept(2), b: cut(1, 0), c: cut(2, 0) }]
    );
}

#[test]
fn a_corner_on_the_plane_is_inside() {
    assert_eq!(clip_pieces(0, 5, 7), vec![Piece { a: Corner::Kept(0), b: Corner::Kept(1), c: Corner::Kept(2) }]);
    assert_eq!(clip_pieces(0, 0, 0), vec![Piece { a: Corner::Kept(0), b: Corner::Kept(1), c: Corner::Kept(2) }]);
    assert_eq!(clip_pieces(0, -1, -1).len(), 1);
    // a triangle with one corner exactly on the plane and two inside comes back as it is
    let t = tri([v4(0.0, 0.0, 1.0), v4(1.0, 0.0, 2.0), v4(0.0, 1.0, 3.0)]);
    let out = t.clip_against_plane(&near(1.0));
    assert_eq!(out.len(), 1);
    assert_eq!(out[0].p, t.p);
    assert_eq!(out[0].t, t.t);
    assert_eq!(out[0].col, t.col);
}

#[test]
fn clipping_gives_none_one_or_two_triangles_of_no_more_area() {
    let plane = near(1.0);
    let shapes = [
        [v4(0.0, 0.0, 0.0), v4(1.0, 0.0, 0.5), v4(0.0, 1.0, 0.9)],
        [v4(0.0, 0.0, 2.0), v4(4.0, 0.0, 3.0), v4(0.0, 4.0, 5.0)],
        [v4(0.0, 0.0, 3.0), v4(4.0, 0.0, -1.0), v4(0.0, 4.0, -1.0)],
        [v4(0.0, 0.0, 3.0), v4(4.0, 0.0, 3.0), v4(0.0, 4.0, -1.0)],
        [v4(-2.0, 1.0, 0.0), v4(4.0, 2.0, 3.0), v4(1.0, -4.0, 1.5)],
    ];
    let counts = [0, 1, 1, 2, 2];
    for (shape, count) in shapes.iter().zip(counts) {
        let t = tri(*shape);
        let out = t.clip_against_plane(&plane);
        assert_eq!(out.len(), count);
        let total: f64 = out.iter().map(area2).sum();
        assert!(total <= area2(&t) + 1e-6);
        for piece in &out {
            assert_eq!(piece.col, t.col);
            for p in piece.p {
                assert!(p.z.raw >= fx(1.0).raw);
            }
        }
    }
}

#[test]
fn one_corner_inside_gives_the_cut_triangle() {
    let t = tri([v4(0.0, 0.0, 3.0), v4(4.0, 0.0, -1.0), v4(0.0, 4.0, -1.0)]);
    let out = t.clip_against_plane(&near(1.0));
    assert_eq!(out.len(), 1);
    // both edges are cut half way
    assert_eq!(out[0].p, [v4(0.0, 0.0, 3.0), v4(2.0, 0.0, 1.0), v4(0.0, 2.0, 1.0)]);
    assert_eq!(out[0].t, [v3(0.0, 0.0, 1.0), v3(0.5, 0.0, 1.0), v3(0.0, 0.5, 1.0)]);
}

#[test]
fn two_corners_inside_give_a_quadrilateral() {
    let t = tri([v4(0.0, 0.0, 3.0), v4(4.0, 0.0, 3.0), v4(0.0, 4.0, -1.0)]);
    let out = t.clip_against_plane(&near(1.0));
    assert_eq!(out.len(), 2);
    assert_eq!(out[0].p, [v4(0.0, 0.0, 3.0), v4(4.0, 0.0, 3.0), v4(0.0, 2.0, 1.0)]);
    assert_eq!(out[1].p, [v4(4.0, 0.0, 3.0), v4(0.0, 2.0, 1.0), v4(2.0, 2.0, 1.0)]);
    assert_eq!(out[0].t, [v3(0.0, 0.0, 1.0), v3(1.0, 0.0, 1.0), v3(0.0, 0.5, 1.0)]);
    assert_eq!(out[1].t, [v3(1.0, 0.0, 1.0), v3(0.0, 0.5, 1.0), v3(0.5, 0.5, 1.0)]);
}

/// The twelve triangles of the cube from `lo` to `hi`.
fn cube(lo: f64, hi: f64) -> Vec<Triangle> {
    let c = |x: usize, y: usize, z: usize| {
        let e = [lo, hi];
        v4(e[x], e[y], e[z])
    };
    let faces = [
        [c(0, 0, 0), c(0, 1, 0), c(1, 1, 0), c(1, 0, 0)],
        [c(1, 0, 0), c(1, 1, 0), c(1, 1, 1), c(1, 0, 1)],
        [c(1, 0, 1), c(1, 1, 1), c(0, 1, 1), c(0, 0, 1)],
        [c(0, 0, 1), c(0, 1, 1), c(0, 1, 0), c(0, 0, 0)],
        [c(0, 1, 0), c(0, 1, 1), c(1, 1, 1), c(1, 1, 0)],
        [c(1, 0, 1), c(0, 0, 1), c(0, 0, 0), c(1, 0, 0)],
    ];
    let mut out = Vec::new();
    for f in faces {
        out.push(tri([f[0], f[1], f[2]]));
        out.push(tri([f[0], f[2], f[3]]));
    }
    out
}

#[test]
fn cube_across_the_near_plane_keeps_nothing_before_it() {
    let plane = near(0.1);
    let mut kept = 0;
    for t in cube(-0.5, 0.5) {
        let out = t.clip_against_plane(&plane);
        assert!(out.len() <= 2);
        for piece in &out {
            kept += 1;
            for p in piece.p {
                assert!(p.z.raw >= fx(0.1).raw, "corner at depth {}", val(p.z));
            }
        }
    }
    // the near face is gone, the far face is whole, each side face is cut
    // into the two triangles of the part behind the plane, or into one
    assert_eq!(kept, 2 + 4 * 3);
}

#[test]
fn whole_triangle_comes_back_as_it_is_and_an_outer_one_not_at_all() {
    let plane = near(0.1);
    let inside = tri([v4(-1.0, -1.0, 0.1), v4(0.0, 1.0, 2.0), v4(1.0, -1.0, 3.0)]);
    let out = inside.clip_against_plane(&plane);
    assert_eq!(out.len(), 1);
    assert_eq!(out[0].p, inside.p);
    assert_eq!(out[0].t, inside.t);
    assert_eq!(out[0].col, inside.col);
    let outside = tri([v4(-1.0, -1.0, 0.0), v4(0.0, 1.0, 0.05), v4(1.0, -1.0, -3.0)]);
    assert!(outside.clip_against_plane(&plane).is_empty());
}

#[test]
fn cut_by_a_slanted_plane_lies_between_the_ends_of_its_edge() {
    let plane = Plane { position: v4(0.25, -0.5, 1.0), normal: v4(1.0, 2.0, -3.0) };
    let start = v4(3.0, 1.0, 0.5);
    let end = v4(-2.0, -4.0, 6.0);
    assert!(plane.distance(&start).raw >= 0 && plane.distance(&end).raw < 0);
    let (cut, share) = plane.line_intersect_plane(start, end);
    assert!(0 <= share.raw && share.raw <= fx(1.0).raw);
    assert!(end.x.raw <= cut.x.raw && cut.x.raw <= start.x.raw);
    assert!(end.y.raw <= cut.y.raw && cut.y.raw <= start.y.raw);
    assert!(start.z.raw <= cut.z.raw && cut.z.raw <= end.z.raw);
    // on the plane, up to rounding
    assert!(val(plane.distance(&cut)).abs() < 1e-6);
}

#[test]
fn screen_triangles_stay_within_the_viewport() {
    let view = Viewport { x: fx(10.0), y: fx(20.0), w: fx(100.0), h: fx(50.0) };
    let proj = Mat4x4::make_projection(fx(90.0), fx(2.0), fx(0.1), fx(100.0));
    let eye = Mat4x4::make_identity();
    let mut seen = 0;
    // cubes about the eye and before it, each triangle wound both ways, so
    // that culling leaves one of the two
    for t in cube(-40.0, 40.0).iter().chain(cube(0.05, 30.0).iter()) {
        let back = Triangle { p: [t.p[0], t.p[2], t.p[1]], t: [t.t[0], t.t[2], t.t[1]], col: t.col };
        for wound in [*t, back] {
            for s in to_screen_triangles(&wound, &eye, &proj, &view, fx(0.1)) {
                seen += 1;
                for v in [s.a, s.b, s.c] {
                    assert!(10 <= v.x && v.x <= 110, "x = {}", v.x);
                    assert!(20 <= v.y && v.y <= 70, "y = {}", v.y);
                }
            }
        }
    }
    assert!(seen >= 12);
}

#[test]
fn planes_across_an_axis_leave_nothing_beyond_them() {
    // each plane: where it stands, its normal, the axis, whether it faces
    // the larger coordinates
    let planes = [
        (v4(0.3, 0.0, 0.0), v4(-1.0, 0.0, 0.0), 0, false),
        (v4(-0.17, 0.0, 0.0), v4(1.0, 0.0, 0.0), 0, true),
        (v4(0.0, 0.123456789, 0.0), v4(0.0, -1.0, 0.0), 1, false),
        (v4(0.0, -0.4, 0.0), v4(0.0, 1.0, 0.0), 1, true),
        (v4(0.0, 0.0, 0.25), v4(0.0, 0.0, -1.0), 2, false),
        (v4(0.0, 0.0, 0.1), v4(0.0, 0.0, 1.0), 2, true),
    ];
    for (position, normal, axis, up) in planes {
        let plane = Plane { position, normal };
        let at = [position.x, position.y, position.z][axis].raw;
        let mut kept = 0;
        for t in cube(-0.5, 0.5).iter().chain(cube(-0.3333, 0.7).iter()) {
            for piece in t.clip_against_plane(&plane) {
                kept += 1;
                for p in piece.p {
                    let c = [p.x, p.y, p.z][axis].raw;
                    assert!(if up { c >= at } else { c <= at }, "axis {} at {}: {}", axis, at, c);
                }
            }
        }
        assert!(kept > 0);
    }
}

#[test]
fn slanted_planes_leave_nothing_six_steps_beyond_them() {
    // numbers from a fixed sequence, from -8 to 8
    let mut seed: u64 = 0x2545_f491_4f6c_dd1d;
    let mut next = move || {
        seed ^= seed << 13;
        seed ^= seed >> 7;
        seed ^= seed << 17;
        Fixed { raw: (seed % (1 << 36)) as i64 - (1 << 35) }
    };
    let mut cut = 0;
    for _ in 0..2000 {
        let plane = Plane {
            position: Vec4d::new(next(), next(), next()),
            normal: Vec4d::new(next(), next(), next()),
        };
        let t = tri([
            Vec4d::new(next(), next(), next()),
            Vec4d::new(next(), next(), next()),
            Vec4d::new(next(), next(), next()),
        ]);
        let out = t.clip_against_plane(&plane);
        if out.len() > 0 && (0..3).any(|i| plane.distance(&t.p[i]).raw < 0) {
            cut += 1;
        }
        for piece in out {
            for p in piece.p {
                assert!(plane.distance(&p).raw > -6, "distance {}", plane.distance(&p).raw);
            }
        }
    }
    assert!(cut > 500);
}

/// Twice the area of the shadow of a triangle on the plane across an axis,
/// in steps of the grid squared.
fn shadow(t: &Triangle, axis: usize) -> i128 {
    let pick = |p: &Vec4d| {
        let c = [p.x.raw as i128, p.y.raw as i128, p.z.raw as i128];
        (c[(axis + 1) % 3], c[(axis + 2) % 3])
    };
    let (a, b, c) = (pick(&t.p[0]), pick(&t.p[1]), pick(&t.p[2]));
    ((b.0 - a.0) * (c.1 - a.1) - (b.1 - a.1) * (c.0 - a.0)).abs()
}

#[test]
fn pieces_have_no_more_area_than_the_triangle_up_to_rounding() {
    let mut seed: u64 = 0x9e37_79b9_7f4a_7c15;
    let mut next = move |bits: u32| {
        seed ^= seed << 13;
        seed ^= seed >> 7;
        seed ^= seed << 17;
        Fixed { raw: (seed % (1 << bits)) as i64 - (1 << (bits - 1)) }
    };
    let mut larger = 0;
    for round in 0..3000 {
        // triangles of a few steps of the grid, and of ordinary size
        let bits = if round % 2 == 0 { 4 } else { 36 };
        let plane = Plane {
            position: Vec4d::new(next(bits), next(bits), next(bits)),
            normal: Vec4d::new(next(36), next(36), next(36)),
        };
        let t = tri([
            Vec4d::new(next(bits), next(bits), next(bits)),
            Vec4d::new(next(bits), next(bits), next(bits)),
            Vec4d::new(next(bits), next(bits), next(bits)),
        ]);
        let extent: i128 = 1 << bits;
        let out = t.clip_against_plane(&plane);
        for axis in 0..3 {
            let pieces: i128 = out.iter().map(|p| shadow(p, axis)).sum();
            assert!(pieces <= shadow(&t, axis) + 8 * extent + 1, "{} against {}", pieces, shadow(&t, axis));
            if pieces > shadow(&t, axis) {
                larger += 1;
            }
            if out.len() == 1 && (0..3).all(|i| plane.distance(&t.p[i]).raw >= 0) {
                assert_eq!(pieces, shadow(&t, axis));
            }
        }
    }
    // rounding does make some pieces larger
    assert!(larger > 0);
}
