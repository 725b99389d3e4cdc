use pge::fixed::Fixed;
use pge::gfx3d::mat4x4::Mat4x4;
use pge::gfx3d::plane::Plane;
use pge::gfx3d::vec3d::Vec3d;
use pge::gfx3d::vec4d::Vec4d;

fn fx(v: f64) -> Fixed {
    Fixed { raw: (v * 4294967296.0).round() as i64 }
}

fn val(f: Fixed) -> f64 {
    f.raw as f64 / 4294967296.0
}

fn v3(x: f64, y: f64, z: f64) -> Vec3d {
    Vec3d::new(fx(x), fx(y), fx(z))
}

fn v4(x: f64, y: f64, z: f64) -> Vec4d {
    Vec4d::new(fx(x), fx(y), fx(z))
}

fn close(a: Fixed, b: f64) -> bool {
    (val(a) - b).abs() < 1e-6
}

#[test]
fn vec3d_arithmetic() {
    let a = v3(1.0, 2.0, 3.0);
    let b = v3(4.0, -5.0, 6.0);
    assert_eq!(a.add(b), v3(5.0, -3.0, 9.0));
    assert_eq!(a.sub(b), v3(-3.0, 7.0, -3.0));
    assert_eq!(a.mul(fx(2.0)), v3(2.0, 4.0, 6.0));
    assert_eq!(a.div(fx(2.0)), v3(0.5, 1.0, 1.5));
    assert_eq!(a.dot(&b), fx(12.0));
    assert_eq!(a.cross(&b), v3(27.0, 6.0, -13.0));
    assert_eq!(v3(3.0, 4.0, 0.0).length(), fx(5.0));
    assert_eq!(Vec3d::zero(), v3(0.0, 0.0, 0.0));
    let mut c = a;
    c.add_assign(b);
    assert_eq!(c, v3(5.0, -3.0, 9.0));
    c.sub_assign(b);
    assert_eq!(c, a);
    c.mul_assign(fx(4.0));
    assert_eq!(c, v3(4.0, 8.0, 12.0));
    c.div_assign(fx(8.0));
    assert_eq!(c, v3(0.5, 1.0, 1.5));
}

#[test]
fn vec3d_norm_has_length_one() {
    let n = v3(3.0, 4.0, 12.0).norm();
    assert!(close(n.x, 3.0 / 13.0));
    assert!(close(n.y, 4.0 / 13.0));
    assert!(close(n.z, 12.0 / 13.0));
    assert!(close(n.length(), 1.0));
    // a vector without length stays without length
    assert_eq!(Vec3d::zero().norm(), Vec3d::zero());
}

#[test]
fn vec4d_keeps_or_resets_the_weight() {
    let a = Vec4d { x: fx(1.0), y: fx(2.0), z: fx(3.0), w: fx(7.0) };
    let b = Vec4d { x: fx(4.0), y: fx(5.0), z: fx(6.0), w: fx(9.0) };
    assert_eq!(Vec4d::new(fx(1.0), fx(2.0), fx(3.0)).w, fx(1.0));
    assert_eq!(Vec4d::zero().w, fx(1.0));
    assert_eq!(a.add(b), v4(5.0, 7.0, 9.0));
    assert_eq!(a.sub(b), v4(-3.0, -3.0, -3.0));
    assert_eq!(a.mul(fx(2.0)), v4(2.0, 4.0, 6.0));
    assert_eq!(a.div(fx(2.0)), v4(0.5, 1.0, 1.5));
    assert_eq!(a.dot(&b), fx(32.0));
    assert_eq!(a.cross(&b), v4(-3.0, 6.0, -3.0));
    assert_eq!(Vec4d { x: fx(0.0), y: fx(3.0), z: fx(4.0), w: fx(100.0) }.length(), fx(5.0));
    assert!(close(a.norm().length(), 1.0));
    assert_eq!(a.norm().w, fx(1.0));
    let mut c = a;
    c.add_assign(b);
    assert_eq!(c, Vec4d { x: fx(5.0), y: fx(7.0), z: fx(9.0), w: fx(7.0) });
    c.sub_assign(b);
    assert_eq!(c, a);
    c.mul_assign(fx(2.0));
    assert_eq!(c, Vec4d { x: fx(2.0), y: fx(4.0), z: fx(6.0), w: fx(7.0) });
    c.div_assign(fx(4.0));
    assert_eq!(c, Vec4d { x: fx(0.5), y: fx(1.0), z: fx(1.5), w: fx(7.0) });
}

fn assert_matrix(m: &Mat4x4, want: [[f64; 4]; 4]) {
    for r in 0..4 {
        for c in 0..4 {
            assert!(close(m.m[r][c], want[r][c]), "entry {} {}: {} for {}", r, c, val(m.m[r][c]), want[r][c]);
        }
    }
}

const IDENTITY: [[f64; 4]; 4] =
    [[1.0, 0.0, 0.0, 0.0], [0.0, 1.0, 0.0, 0.0], [0.0, 0.0, 1.0, 0.0], [0.0, 0.0, 0.0, 1.0]];

#[test]
fn identity_scale_translation() {
    let i = Mat4x4::make_identity();
    for r in 0..4 {
        for c in 0..4 {
            assert_eq!(i.m[r][c], if r == c { Fixed::one() } else { Fixed::zero() });
        }
    }
    let p = Vec4d { x: fx(1.0), y: fx(2.0), z: fx(3.0), w: fx(1.0) };
    assert_eq!(i.mul_vec4d(p), p);
    assert_eq!(Mat4x4::make_scale(fx(2.0), fx(3.0), fx(4.0)).mul_vec4d(p), v4(2.0, 6.0, 12.0));
    assert_eq!(Mat4x4::make_translation(fx(2.0), fx(3.0), fx(4.0)).mul_vec4d(p), v4(3.0, 5.0, 7.0));
    assert_eq!(
        Mat4x4::make_translation(fx(2.0), fx(3.0), fx(4.0)).mul_vec3d(v3(1.0, 2.0, 3.0)),
        v3(3.0, 5.0, 7.0)
    );
    // a direction, with weight zero, is not shifted
    let d = Vec4d { x: fx(1.0), y: fx(2.0), z: fx(3.0), w: fx(0.0) };
    assert_eq!(Mat4x4::make_translation(fx(2.0), fx(3.0), fx(4.0)).mul_vec4d(d), d);
}

#[test]
fn rotations_turn_the_axes() {
    let q = std::f64::consts::FRAC_PI_2;
    // about x: y goes to z
    let r = Mat4x4::make_rotation_x(fx(q)).mul_vec4d(v4(0.0, 1.0, 0.0));
    assert!(close(r.x, 0.0) && close(r.y, 0.0) && close(r.z, 1.0));
    // about y: x goes to z
    let r = Mat4x4::make_rotation_y(fx(q)).mul_vec4d(v4(1.0, 0.0, 0.0));
    assert!(close(r.x, 0.0) && close(r.y, 0.0) && close(r.z, 1.0));
    // about z: x goes to y
    let r = Mat4x4::make_rotation_z(fx(q)).mul_vec4d(v4(1.0, 0.0, 0.0));
    assert!(close(r.x, 0.0) && close(r.y, 1.0) && close(r.z, 0.0));
    let a = 0.7;
    assert_matrix(
        &Mat4x4::make_rotation_z(fx(a)),
        [[a.cos(), a.sin(), 0.0, 0.0], [-a.sin(), a.cos(), 0.0, 0.0], [0.0, 0.0, 1.0, 0.0], [0.0, 0.0, 0.0, 1.0]],
    );
}

#[test]
fn product_applies_left_then_right() {
    let t = Mat4x4::make_translation(fx(1.0), fx(0.0), fx(0.0));
    let s = Mat4x4::make_scale(fx(2.0), fx(2.0), fx(2.0));
    let p = v4(1.0, 1.0, 1.0);
    assert_eq!(t.mul(s).mul_vec4d(p), v4(4.0, 2.0, 2.0));
    assert_eq!(s.mul(t).mul_vec4d(p), v4(3.0, 2.0, 2.0));
    assert_eq!(s.mul(t).mul_vec4d(p), t.mul_vec4d(s.mul_vec4d(p)));
}

#[test]
fn inverse_undoes_a_transform() {
    let m = Mat4x4::make_rotation_x(fx(0.3))
        .mul(Mat4x4::make_rotation_y(fx(-1.1)))
        .mul(Mat4x4::make_scale(fx(2.0), fx(0.5), fx(3.0)))
        .mul(Mat4x4::make_translation(fx(4.0), fx(-5.0), fx(6.0)));
    assert_matrix(&m.inverse().mul(m), IDENTITY);
    assert_matrix(&m.mul(m.inverse()), IDENTITY);
}

#[test]
fn point_at_times_its_inverse_is_the_identity() {
    let cases = [
        (v3(0.0, 0.0, 0.0), v3(0.0, 0.0, 1.0), v3(0.0, 1.0, 0.0)),
        (v3(1.0, 2.0, 3.0), v3(-4.0, 0.5, 9.0), v3(0.0, 1.0, 0.0)),
        (v3(-7.0, 3.0, -2.0), v3(0.0, 0.0, 0.0), v3(0.2, 1.0, -0.1)),
        (v3(100.0, -50.0, 25.0), v3(99.0, -50.0, 30.0), v3(1.0, 1.0, 0.0)),
    ];
    for (pos, target, up) in cases {
        let m = Mat4x4::make_point_at(pos, target, up);
        assert_matrix(&m.inverse().mul(m), IDENTITY);
    }
}

#[test]
fn point_at_rows_are_the_camera_axes() {
    let m = Mat4x4::make_point_at(v3(1.0, 2.0, 3.0), v3(1.0, 2.0, 4.0), v3(0.0, 1.0, 0.0));
    assert_matrix(&m, [[1.0, 0.0, 0.0, 0.0], [0.0, 1.0, 0.0, 0.0], [0.0, 0.0, 1.0, 0.0], [1.0, 2.0, 3.0, 1.0]]);
    // looking along x: right is -z
    let m = Mat4x4::make_point_at(v3(0.0, 0.0, 0.0), v3(5.0, 0.0, 0.0), v3(0.0, 1.0, 0.0));
    assert_matrix(&m, [[0.0, 0.0, -1.0, 0.0], [0.0, 1.0, 0.0, 0.0], [1.0, 0.0, 0.0, 0.0], [0.0, 0.0, 0.0, 1.0]]);
}

#[test]
fn projection_weight_is_the_depth() {
    let proj = Mat4x4::make_projection(fx(90.0), fx(0.75), fx(0.1), fx(100.0));
    for (x, y, z) in [(0.3, -0.2, 5.0), (-3.0, 2.0, 0.1), (10.0, 10.0, 99.0)] {
        let p = v4(x, y, z);
        assert_eq!(proj.mul_vec4d(p).w, p.z);
    }
    // for 90 degrees the focal factor is one, up to the rounded pi
    assert!((val(proj.m[1][1]) - 1.0).abs() < 1e-5);
    assert!((val(proj.m[0][0]) - 0.75).abs() < 1e-5);
    assert!(close(proj.m[2][2], 100.0 / 99.9));
    assert!(close(proj.m[3][2], -100.0 * 0.1 / 99.9));
    assert_eq!(proj.m[2][3], Fixed::one());
    assert_eq!(proj.m[3][3], Fixed::zero());
}

#[test]
fn projection_round_trip_recovers_the_depth() {
    let proj = Mat4x4::make_projection(fx(80.0), fx(0.75), fx(0.1), fx(100.0));
    let back = proj.inverse();
    for (x, y, z) in [(0.3, -0.2, 5.0), (-3.0, 2.0, 0.5), (10.0, -10.0, 60.0), (0.0, 0.0, 0.1)] {
        let p = v4(x, y, z);
        let clip = proj.mul_vec4d(p);
        // the perspective divide, and back
        let ndc = Vec4d { x: clip.x.div(clip.w), y: clip.y.div(clip.w), z: clip.z.div(clip.w), w: clip.w };
        let again = Vec4d { x: ndc.x.mul(ndc.w), y: ndc.y.mul(ndc.w), z: ndc.z.mul(ndc.w), w: ndc.w };
        let q = back.mul_vec4d(again);
        assert!((val(q.z) - z).abs() < 1e-5, "depth {} for {}", val(q.z), z);
        assert!((val(q.x) - x).abs() < 1e-5);
        assert!((val(q.y) - y).abs() < 1e-5);
        assert!((val(q.w) - 1.0).abs() < 1e-5);
    }
}

#[test]
fn line_meets_plane_at_its_share_of_the_way() {
    let plane = Plane { position: v4(0.0, 0.0, 1.0), normal: v4(0.0, 0.0, 2.0) };
    let (p, t) = plane.line_intersect_plane(v4(0.0, 0.0, 0.0), v4(4.0, 8.0, 4.0));
    assert_eq!(t, fx(0.25));
    assert_eq!(p, v4(1.0, 2.0, 1.0));
    assert_eq!(plane.distance(&v4(5.0, 5.0, 3.0)), fx(2.0));
    assert_eq!(plane.distance(&v4(5.0, 5.0, -3.0)), fx(-4.0));
    // a slanted plane
    let plane = Plane { position: v4(1.0, 1.0, 0.0), normal: v4(1.0, 1.0, 0.0) };
    let (p, t) = plane.line_intersect_plane(v4(0.0, 0.0, 0.0), v4(4.0, 0.0, 0.0));
    assert!(close(t, 0.5));
    assert!(close(p.x, 2.0) && close(p.y, 0.0) && close(p.z, 0.0));
}

#[test]
fn inverse_of_a_matrix_without_one_gives_numbers_all_the_same() {
    // no inverse exists; what comes out has no meaning, but it comes out
    let z = Fixed::zero();
    let flat = Mat4x4 { m: [[z; 4]; 4] };
    let inv = flat.inverse();
    for r in 0..4 {
        for c in 0..4 {
            assert_eq!(inv.m[r][c], z);
        }
    }
    let squashed = Mat4x4::make_scale(fx(1.0), fx(0.0), fx(1.0));
    let inv = squashed.inverse();
    // the cofactor of the zero entry is one, over a determinant of zero
    assert_eq!(inv.m[1][1], Fixed { raw: i64::MAX });
    assert_eq!(inv.m[0][0], z);
}

#[test]
fn edge_along_the_plane_has_no_crossing() {
    // both ends at the same distance: the share is a quotient by zero
    let plane = Plane { position: v4(0.0, 0.0, 1.0), normal: v4(0.0, 0.0, 1.0) };
    let (_, t) = plane.line_intersect_plane(v4(0.0, 0.0, 3.0), v4(5.0, 0.0, 3.0));
    assert_eq!(t, Fixed { raw: i64::MIN });
    let (p, t) = plane.line_intersect_plane(v4(0.0, 0.0, 1.0), v4(5.0, 0.0, 1.0));
    assert_eq!(t, Fixed::zero());
    assert_eq!(p, v4(0.0, 0.0, 1.0));
}

fn raw3(x: i64, y: i64, z: i64) -> Vec3d {
    Vec3d { x: Fixed { raw: x }, y: Fixed { raw: y }, z: Fixed { raw: z } }
}

const ONE: i64 = 1 << 32;

#[test]
fn short_vectors_have_their_length_and_a_direction_of_length_one() {
    // about 0.00002 long
    let v = raw3(92000, 0, 0);
    assert_eq!(v.length(), Fixed { raw: 92000 });
    assert_eq!(v.norm(), raw3(ONE, 0, 0));
    assert_eq!(v.norm().length(), Fixed::one());
    // the shortest vectors there are
    assert_eq!(raw3(1, 0, 0).length(), Fixed { raw: 1 });
    assert_eq!(raw3(0, -1, 0).norm(), raw3(0, -ONE, 0));
    assert_eq!(raw3(3, 4, 0).length(), Fixed { raw: 5 });
    // three fifths and four fifths, rounded toward zero
    assert_eq!(raw3(3, -4, 0).norm(), raw3(2576980377, -3435973836, 0));
    // the root of two, rounded down, is one step
    assert_eq!(raw3(1, 1, 0).length(), Fixed { raw: 1 });
    let d = raw3(1, 1, 0).norm();
    assert_eq!(d, raw3(3037000499, 3037000499, 0));
    let vectors = [
        raw3(1, 1, 1),
        raw3(1, -1, 0),
        raw3(7, 0, -65535),
        raw3(92000, 1, -3),
        raw3(65535, 65536, 65537),
        raw3(-ONE, 3 * ONE, ONE / 7),
        raw3(i64::MAX, i64::MAX, i64::MAX),
        raw3(i64::MIN, i64::MIN, i64::MIN),
        raw3(i64::MIN, 1, 0),
        raw3(1 << 61, (1 << 61) - 1, 12345),
    ];
    for v in vectors {
        let n = v.norm();
        let l = n.length().raw;
        assert!(ONE - 4 <= l && l <= ONE, "length {} of the direction of {:?}", l, v);
        assert!(n.x.raw.signum() * v.x.raw.signum() >= 0);
        assert!(n.x.raw.abs() <= ONE && n.y.raw.abs() <= ONE && n.z.raw.abs() <= ONE);
    }
}

#[test]
fn long_vectors_have_a_length_up_to_the_top_of_the_range() {
    assert_eq!(raw3(i64::MAX, 0, 0).length(), Fixed { raw: i64::MAX });
    assert_eq!(raw3(i64::MIN, 0, 0).length(), Fixed { raw: i64::MAX });
    assert_eq!(raw3(i64::MAX, i64::MAX, i64::MAX).length(), Fixed { raw: i64::MAX });
    assert_eq!(raw3(3 << 60, 4 << 60, 0).length(), Fixed { raw: 5 << 60 });
    let n = raw3(i64::MIN, 0, 0).norm();
    assert_eq!(n, raw3(-ONE, 0, 0));
}

#[test]
fn camera_close_to_its_target_still_looks_along_the_way() {
    // the target is one step of the grid away from the position
    let pos = v3(1.0, 2.0, 3.0);
    let target = Vec3d { x: pos.x, y: pos.y, z: Fixed { raw: pos.z.raw + 1 } };
    let m = Mat4x4::make_point_at(pos, target, v3(0.0, 1.0, 0.0));
    assert_matrix(&m, [[1.0, 0.0, 0.0, 0.0], [0.0, 1.0, 0.0, 0.0], [0.0, 0.0, 1.0, 0.0], [1.0, 2.0, 3.0, 1.0]]);
}

#[test]
fn inverse_of_a_move_is_the_move_back_exactly() {
    let t = Mat4x4::make_translation(fx(1.5), fx(-2.25), Fixed { raw: 12345678901 });
    let back = Mat4x4::make_translation(fx(-1.5), fx(2.25), Fixed { raw: -12345678901 });
    assert_eq!(t.inverse().m, back.m);
    assert_eq!(t.inverse().mul(t).m, Mat4x4::make_identity().m);
    assert_eq!(t.mul(t.inverse()).m, Mat4x4::make_identity().m);
}

#[test]
fn camera_along_z_is_undone_exactly_by_its_view_transform() {
    let pos = Vec3d::new(Fixed { raw: 7 }, fx(-3.5), fx(100.0));
    let target = Vec3d::new(Fixed { raw: 7 }, fx(-3.5), Fixed { raw: fx(100.0).raw + 1 });
    let placement = Mat4x4::make_point_at(pos, target, v3(0.0, 1.0, 0.0));
    assert_eq!(placement.m, Mat4x4::make_translation(pos.x, pos.y, pos.z).m);
    assert_eq!(placement.inverse().mul(placement).m, Mat4x4::make_identity().m);
    assert_eq!(placement.mul(placement.inverse()).m, Mat4x4::make_identity().m);
}

#[test]
fn projected_depth_is_the_stated_share_of_the_way_between_the_planes() {
    let unit: i128 = 1 << 32;
    for (near, far) in [(0.1, 100.0), (0.5, 2.0), (1.0, 1000.0), (0.001, 30000.0), (3.0, 4.0)] {
        let proj = Mat4x4::make_projection(fx(90.0), fx(1.0), fx(near), fx(far));
        let (n, f) = (fx(near).raw as i128, fx(far).raw as i128);
        let d = f - n;
        let mut last = i64::MIN;
        for step in 0..=64 {
            let z = n + (f - n) * step / 64;
            let p = Vec4d::new(fx(0.3), fx(-0.2), Fixed { raw: z as i64 });
            let c = proj.mul_vec4d(p);
            assert_eq!(c.w, p.z);
            let v = c.z.div(c.w).raw as i128;
            let off = v * z * d - f * unit * (z - n);
            assert!(-(2 * z * d + unit * unit + unit * d) < off, "near {} far {} z {}", near, far, z);
            assert!(off < unit * d + z * d, "near {} far {} z {}", near, far, z);
            // it grows with the depth
            assert!(c.z.div(c.w).raw > last);
            last = c.z.div(c.w).raw;
            if step == 0 {
                assert!(val(c.z.div(c.w)).abs() < 1e-5, "at near: {}", val(c.z.div(c.w)));
            }
            if step == 64 {
                assert!((val(c.z.div(c.w)) - 1.0).abs() < 1e-5, "at far: {}", val(c.z.div(c.w)));
            }
        }
    }
}

#[test]
fn rows_of_a_camera_placement_stand_at_right_angles_up_to_rounding() {
    let mut seed: u64 = 0x1234_5678_9abc_def1;
    let mut next = move || {
        seed ^= seed << 13;
        seed ^= seed >> 7;
        seed ^= seed << 17;
        Fixed { raw: (seed % (1 << 36)) as i64 - (1 << 35) }
    };
    let unit: i128 = 1 << 32;
    let mut worst = 0;
    for _ in 0..2000 {
        let pos = Vec3d::new(next(), next(), next());
        let target = Vec3d::new(next(), next(), next());
        let up = Vec3d::new(next(), next(), next());
        let m = Mat4x4::make_point_at(pos, target, up).m;
        let right = Vec3d::new(m[0][0], m[0][1], m[0][2]);
        let new_up = Vec3d::new(m[1][0], m[1][1], m[1][2]);
        let forward = Vec3d::new(m[2][0], m[2][1], m[2][2]);
        assert!(right.dot(&new_up).raw.abs() < 6);
        assert!(right.dot(&forward).raw.abs() < 6);
        let along = up.dot(&forward);
        let across = up.sub(forward.mul(along));
        let tilt = new_up.dot(&forward).raw.abs() as i128;
        assert!(
            (tilt - 6) * across.length().raw as i128 <= 8 * along.raw.abs() as i128 + 6 * unit,
            "tilt {} along {} across {}",
            tilt,
            along.raw,
            across.length().raw
        );
        worst = worst.max(tilt);
    }
    // an up of length one across the way stands at right angles up to a few steps
    let m = Mat4x4::make_point_at(v3(1.0, 2.0, 3.0), v3(4.0, -1.0, 7.5), v3(0.0, 1.0, 0.0)).m;
    let new_up = Vec3d::new(m[1][0], m[1][1], m[1][2]);
    let forward = Vec3d::new(m[2][0], m[2][1], m[2][2]);
    assert!(new_up.dot(&forward).raw.abs() < 20);
    assert!(worst < 1 << 20);
}
