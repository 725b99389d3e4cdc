//! The stages that take a triangle of a mesh to the screen: transform, cull,
//! clip at the near plane, project, clip to the view, scale to the viewport.

use vstd::prelude::*;
use crate::arith::floor_div;
use crate::fixed::Fixed;
use crate::gfx3d::coverage::ScreenTriangle;
use crate::gfx3d::coverage::Vertex;
use crate::gfx3d::mat4x4::Mat4x4;
use crate::gfx3d::plane::Plane;
use crate::gfx3d::plane::axis_plane;
use crate::gfx3d::triangle::Triangle;
use crate::gfx3d::triangle::near_plane;
use crate::gfx3d::vec3d::Vec3d;
use crate::gfx3d::vec4d::Vec4d;

verus! {

/// The rectangle of the screen that the view is shown in.
#[derive(Debug, Clone, Copy, PartialEq, Eq, Structural)]
pub struct Viewport {
    pub x: Fixed,
    pub y: Fixed,
    pub w: Fixed,
    pub h: Fixed,
}

/// A position after the perspective divide: its coordinates over its
/// weight, the weight kept.
pub open spec fn divided(p: Vec4d) -> Vec4d {
    Vec4d { x: p.x.div(p.w), y: p.y.div(p.w), z: p.z.div(p.w), w: p.w }
}

/// A texture coordinate made ready for interpolation on the screen: `u` and
/// `v` over the corner's depth `w`, and `1 / w` itself.
pub open spec fn divided_texture(t: Vec3d, w: Fixed) -> Vec3d {
    Vec3d { x: t.x.div(w), y: t.y.div(w), z: Fixed::one().div(w) }
}

/// A position moved from the view's square `-1..1` into the viewport: first
/// shifted by one, then scaled by half the viewport's size, then shifted to
/// the viewport's corner.
pub open spec fn placed(p: Vec4d, view: Viewport) -> Vec4d {
    Vec4d {
        x: p.x.add(Fixed::one()).mul(Fixed::half().mul(view.w)).add(view.x),
        y: p.y.add(Fixed::one()).mul(Fixed::half().mul(view.h)).add(view.y),
        z: p.z,
        w: p.w,
    }
}

/// A coordinate rounded to the nearest pixel: a half is added and the sum
/// rounded toward zero.
pub open spec fn pixel_of(c: Fixed) -> i32 {
    c.add(Fixed::half()).to_int()
}

/// A texture attribute as the integer that the rasteriser interpolates:
/// counted in units of `2^-20`, rounded down, held in the range of a 32-bit
/// integer.
pub open spec fn attribute_of(a: Fixed) -> i32 {
    let q = a.raw as int / 0x1000;
    if q > i32::MAX {
        i32::MAX
    } else if q < i32::MIN {
        i32::MIN
    } else {
        q as i32
    }
}

/// A corner on the screen.
pub open spec fn vertex_of(p: Vec4d, t: Vec3d) -> Vertex {
    Vertex { x: pixel_of(p.x), y: pixel_of(p.y), u: attribute_of(t.x), v: attribute_of(t.y), w: attribute_of(t.z) }
}

/// One of the four planes that bound the view after projection, in the
/// order in which they clip: bottom (`y >= -1`), top (`y <= 1`), right (`x
/// <= 1`), left (`x >= -1`).
pub open spec fn frustum_plane(i: int) -> Plane {
    let o = Fixed::one();
    let z = Fixed::zero();
    let m = Fixed { raw: (-0x1_0000_0000) as i64 };
    if i == 0 {
        Plane { position: Vec4d { x: z, y: m, z: z, w: o }, normal: Vec4d { x: z, y: o, z: z, w: o } }
    } else if i == 1 {
        Plane { position: Vec4d { x: z, y: o, z: z, w: o }, normal: Vec4d { x: z, y: m, z: z, w: o } }
    } else if i == 2 {
        Plane { position: Vec4d { x: o, y: z, z: z, w: o }, normal: Vec4d { x: m, y: z, z: z, w: o } }
    } else {
        Plane { position: Vec4d { x: m, y: z, z: z, w: o }, normal: Vec4d { x: o, y: z, z: z, w: o } }
    }
}

/// What clipping at a plane leaves of each of the triangles, in order.
pub open spec fn clip_each(ts: Seq<Triangle>, plane: Plane) -> Seq<Triangle>
    decreases ts.len(),
{
    if ts.len() == 0 {
        seq![]
    } else {
        clip_each(ts.drop_last(), plane) + ts.last().clip_against_plane_spec(&plane)
    }
}

/// What the four planes of the view leave of a projected triangle: each
/// plane clips all that the planes before it have left.
pub open spec fn clip_to_view(t: Triangle) -> Seq<Triangle> {
    clip_each(
        clip_each(clip_each(clip_each(seq![t], frustum_plane(0)), frustum_plane(1)), frustum_plane(2)),
        frustum_plane(3),
    )
}

impl Triangle {
    /// The triangle with its corners transformed by the matrix.
    pub open spec fn transformed(self, m: Mat4x4) -> Triangle {
        Triangle {
            p: [m.mul_vec4d(self.p[0]), m.mul_vec4d(self.p[1]), m.mul_vec4d(self.p[2])],
            ..self
        }
    }

    /// Whether the triangle, in view space, faces away from the viewer: its
    /// normal, the cross product of its first two edges scaled to length
    /// one, points along the way from the eye to its first corner.
    pub open spec fn faces_away(self) -> bool {
        let line1 = self.p[1].sub(self.p[0]);
        let line2 = self.p[2].sub(self.p[0]);
        line1.cross(&line2).norm().dot(&self.p[0]).raw > 0
    }

    /// The triangle projected: corners transformed by the projection and
    /// divided by their weight, texture coordinates divided by the same
    /// weight with its inverse in the third place.
    pub open spec fn projected(self, proj: Mat4x4) -> Triangle {
        let p0 = proj.mul_vec4d(self.p[0]);
        let p1 = proj.mul_vec4d(self.p[1]);
        let p2 = proj.mul_vec4d(self.p[2]);
        Triangle {
            p: [divided(p0), divided(p1), divided(p2)],
            t: [
                divided_texture(self.t[0], p0.w),
                divided_texture(self.t[1], p1.w),
                divided_texture(self.t[2], p2.w),
            ],
            col: self.col,
        }
    }

    /// The triangle moved into the viewport.
    pub open spec fn placed_in(self, view: Viewport) -> Triangle {
        Triangle {
            p: [placed(self.p[0], view), placed(self.p[1], view), placed(self.p[2], view)],
            ..self
        }
    }

    /// The triangle as the rasteriser takes it.
    pub open spec fn on_screen(self) -> ScreenTriangle {
        ScreenTriangle {
            a: vertex_of(self.p[0], self.t[0]),
            b: vertex_of(self.p[1], self.t[1]),
            c: vertex_of(self.p[2], self.t[2]),
        }
    }
}

/// The screen triangles of triangles that stand clipped in the view.
pub open spec fn on_screen_each(ts: Seq<Triangle>, view: Viewport) -> Seq<ScreenTriangle> {
    ts.map_values(|t: Triangle| t.placed_in(view).on_screen())
}

/// The screen triangles of triangles that stand clipped at the near plane,
/// in view space: each is projected, clipped to the view and placed.
pub open spec fn projected_each(ts: Seq<Triangle>, proj: Mat4x4, view: Viewport) -> Seq<ScreenTriangle>
    decreases ts.len(),
{
    if ts.len() == 0 {
        seq![]
    } else {
        projected_each(ts.drop_last(), proj, view) + on_screen_each(
            clip_to_view(ts.last().projected(proj)),
            view,
        )
    }
}

/// The screen triangles of one triangle of a mesh: none if it faces away
/// after the transform to view space; else what the near plane, the
/// projection and the view leave of it.
pub open spec fn screen_triangles(
    t: Triangle,
    world_view: Mat4x4,
    proj: Mat4x4,
    view: Viewport,
    near: Fixed,
) -> Seq<ScreenTriangle> {
    let seen = t.transformed(world_view);
    if seen.faces_away() {
        seq![]
    } else {
        projected_each(seen.clip_against_plane_spec(&near_plane(near)), proj, view)
    }
}

/// Computes [`clip_each`].
fn clip_list(ts: &Vec<Triangle>, plane: &Plane) -> (out: Vec<Triangle>)
    ensures
        out@ == clip_each(ts@, *plane),
{
    let mut out: Vec<Triangle> = Vec::new();
    let mut i: usize = 0;
    assert(ts@.take(0) =~= Seq::<Triangle>::empty());
    while i < ts.len()
        invariant
            i <= ts@.len(),
            out@ == clip_each(ts@.take(i as int), *plane),
        decreases ts@.len() - i,
    {
        let mut pieces = ts[i].clip_against_plane(plane);
        proof {
            assert(ts@.take(i + 1).drop_last() =~= ts@.take(i as int));
            assert(ts@.take(i + 1).last() == ts@[i as int]);
        }
        out.append(&mut pieces);
        i = i + 1;
    }
    assert(ts@.take(ts@.len() as int) =~= ts@);
    out
}

/// Computes [`frustum_plane`].
fn view_plane(i: usize) -> (p: Plane)
    ensures
        p == frustum_plane(i as int),
{
    let o = Fixed::one();
    let z = Fixed::zero();
    let m = Fixed { raw: -0x1_0000_0000 };
    if i == 0 {
        Plane { position: Vec4d { x: z, y: m, z: z, w: o }, normal: Vec4d { x: z, y: o, z: z, w: o } }
    } else if i == 1 {
        Plane { position: Vec4d { x: z, y: o, z: z, w: o }, normal: Vec4d { x: z, y: m, z: z, w: o } }
    } else if i == 2 {
        Plane { position: Vec4d { x: o, y: z, z: z, w: o }, normal: Vec4d { x: m, y: z, z: z, w: o } }
    } else {
        Plane { position: Vec4d { x: m, y: z, z: z, w: o }, normal: Vec4d { x: o, y: z, z: z, w: o } }
    }
}

/// Computes [`divided`].
fn divide(p: Vec4d) -> (r: Vec4d)
    ensures
        r == divided(p),
{
    let mut r = p;
    r.div_assign(p.w);
    r
}

/// Computes [`placed`].
fn place(p: Vec4d, view: &Viewport) -> (r: Vec4d)
    ensures
        r == placed(p, *view),
{
    proof {
        crate::fixed::lemma_units(p.z);
    }
    let mut r = p;
    r.add_assign(Vec4d { x: Fixed::one(), y: Fixed::one(), z: Fixed::zero(), w: Fixed::one() });
    r.x = r.x.mul(Fixed::half().mul(view.w));
    r.y = r.y.mul(Fixed::half().mul(view.h));
    r.add_assign(Vec4d { x: view.x, y: view.y, z: Fixed::zero(), w: Fixed::one() });
    r
}

/// Computes [`attribute_of`].
pub fn attribute(a: Fixed) -> (r: i32)
    ensures
        r == attribute_of(a),
{
    let q: i128 = floor_div(a.raw as i128, 0x1000);
    if q > i32::MAX as i128 {
        i32::MAX
    } else if q < i32::MIN as i128 {
        i32::MIN
    } else {
        q as i32
    }
}

/// Computes [`vertex_of`].
pub fn vertex(p: &Vec4d, t: &Vec3d) -> (v: Vertex)
    ensures
        v == vertex_of(*p, *t),
{
    Vertex {
        x: p.x.add(Fixed::half()).to_int(),
        y: p.y.add(Fixed::half()).to_int(),
        u: attribute(t.x),
        v: attribute(t.y),
        w: attribute(t.z),
    }
}

impl Triangle {
    /// Computes [`Triangle::transformed`].
    pub fn transform(&self, m: &Mat4x4) -> (t: Triangle)
        ensures
            t == self.transformed(*m),
    {
        let t = Triangle {
            p: [m.mul_vec4d(self.p[0]), m.mul_vec4d(self.p[1]), m.mul_vec4d(self.p[2])],
            t: self.t,
            col: self.col,
        };
        assert(t.p =~= self.transformed(*m).p);
        t
    }

    /// Computes [`Triangle::faces_away`].
    pub fn is_culled(&self) -> (b: bool)
        ensures
            b == self.faces_away(),
    {
        let line1 = self.p[1].sub(self.p[0]);
        let line2 = self.p[2].sub(self.p[0]);
        let normal = line1.cross(&line2).norm();
        normal.dot(&self.p[0]).raw > 0
    }

    /// Computes [`Triangle::projected`].
    pub fn project(&self, proj: &Mat4x4) -> (t: Triangle)
        ensures
            t == self.projected(*proj),
    {
        let p0 = proj.mul_vec4d(self.p[0]);
        let p1 = proj.mul_vec4d(self.p[1]);
        let p2 = proj.mul_vec4d(self.p[2]);
        let o = Fixed::one();
        let t = Triangle {
            p: [divide(p0), divide(p1), divide(p2)],
            t: [
                Vec3d { x: self.t[0].x.div(p0.w), y: self.t[0].y.div(p0.w), z: o.div(p0.w) },
                Vec3d { x: self.t[1].x.div(p1.w), y: self.t[1].y.div(p1.w), z: o.div(p1.w) },
                Vec3d { x: self.t[2].x.div(p2.w), y: self.t[2].y.div(p2.w), z: o.div(p2.w) },
            ],
            col: self.col,
        };
        assert(t.p =~= self.projected(*proj).p);
        assert(t.t =~= self.projected(*proj).t);
        t
    }

    /// Computes [`Triangle::on_screen`] of [`Triangle::placed_in`].
    pub fn to_screen(&self, view: &Viewport) -> (s: ScreenTriangle)
        ensures
            s == self.placed_in(*view).on_screen(),
    {
        let p0 = place(self.p[0], view);
        let p1 = place(self.p[1], view);
        let p2 = place(self.p[2], view);
        ScreenTriangle {
            a: vertex(&p0, &self.t[0]),
            b: vertex(&p1, &self.t[1]),
            c: vertex(&p2, &self.t[2]),
        }
    }
}

/// Computes [`screen_triangles`].
pub fn to_screen_triangles(
    t: &Triangle,
    world_view: &Mat4x4,
    proj: &Mat4x4,
    view: &Viewport,
    near: Fixed,
) -> (out: Vec<ScreenTriangle>)
    ensures
        out@ == screen_triangles(*t, *world_view, *proj, *view, near),
{
    let mut out: Vec<ScreenTriangle> = Vec::new();
    let seen = t.transform(world_view);
    if seen.is_culled() {
        return out;
    }
    let o = Fixed::one();
    let z = Fixed::zero();
    let plane = Plane {
        position: Vec4d { x: z, y: z, z: near, w: o },
        normal: Vec4d { x: z, y: z, z: o, w: o },
    };
    let near_clipped = seen.clip_against_plane(&plane);
    let mut i: usize = 0;
    assert(near_clipped@.take(0) =~= Seq::<Triangle>::empty());
    while i < near_clipped.len()
        invariant
            i <= near_clipped@.len(),
            out@ == projected_each(near_clipped@.take(i as int), *proj, *view),
        decreases near_clipped@.len() - i,
    {
        let projected = near_clipped[i].project(proj);
        let mut first: Vec<Triangle> = Vec::new();
        first.push(projected);
        assert(first@ =~= seq![projected]);
        let c0 = clip_list(&first, &view_plane(0));
        let c1 = clip_list(&c0, &view_plane(1));
        let c2 = clip_list(&c1, &view_plane(2));
        let c3 = clip_list(&c2, &view_plane(3));
        let ghost before = out@;
        let mut k: usize = 0;
        while k < c3.len()
            invariant
                k <= c3@.len(),
                c3@ == clip_to_view(projected),
                out@ == before + on_screen_each(c3@, *view).take(k as int),
            decreases c3@.len() - k,
        {
            let s = c3[k].to_screen(view);
            out.push(s);
            proof {
                let all = on_screen_each(c3@, *view);
                assert(all.take(k + 1) =~= all.take(k as int).push(all[k as int]));
                assert(before + all.take(k + 1) =~= (before + all.take(k as int)).push(s));
            }
            k = k + 1;
        }
        proof {
            let all = on_screen_each(c3@, *view);
            assert(all.take(c3@.len() as int) =~= all);
            assert(near_clipped@.take(i + 1).drop_last() =~= near_clipped@.take(i as int));
            assert(near_clipped@.take(i + 1).last() == near_clipped@[i as int]);
        }
        i = i + 1;
    }
    assert(near_clipped@.take(near_clipped@.len() as int) =~= near_clipped@);
    out
}

/// Clipping a list of triangles keeps their depth attributes in their range.
pub proof fn lemma_clip_each_keeps_depths(ts: Seq<Triangle>, plane: Plane, lo: int, hi: int, k: int)
    requires
        hi - lo <= i64::MAX,
        forall|i: int| 0 <= i < ts.len() ==> (#[trigger] ts[i]).depths_within(lo, hi),
        0 <= k < clip_each(ts, plane).len(),
    ensures
        clip_each(ts, plane)[k].depths_within(lo, hi),
    decreases ts.len(),
{
    let before = clip_each(ts.drop_last(), plane);
    if k < before.len() {
        lemma_clip_each_keeps_depths(ts.drop_last(), plane, lo, hi, k);
    } else {
        crate::gfx3d::triangle::lemma_clip_keeps_depths(ts.last(), plane, lo, hi, k - before.len());
    }
}

/// Clipping to the view keeps depth attributes in their range.
pub proof fn lemma_clip_to_view_keeps_depths(t: Triangle, lo: int, hi: int, k: int)
    requires
        hi - lo <= i64::MAX,
        t.depths_within(lo, hi),
        0 <= k < clip_to_view(t).len(),
    ensures
        clip_to_view(t)[k].depths_within(lo, hi),
{
    let c0 = clip_each(seq![t], frustum_plane(0));
    let c1 = clip_each(c0, frustum_plane(1));
    let c2 = clip_each(c1, frustum_plane(2));
    assert forall|i: int| 0 <= i < c0.len() implies (#[trigger] c0[i]).depths_within(lo, hi) by {
        lemma_clip_each_keeps_depths(seq![t], frustum_plane(0), lo, hi, i);
    }
    assert forall|i: int| 0 <= i < c1.len() implies (#[trigger] c1[i]).depths_within(lo, hi) by {
        lemma_clip_each_keeps_depths(c0, frustum_plane(1), lo, hi, i);
    }
    assert forall|i: int| 0 <= i < c2.len() implies (#[trigger] c2[i]).depths_within(lo, hi) by {
        lemma_clip_each_keeps_depths(c1, frustum_plane(2), lo, hi, i);
    }
    lemma_clip_each_keeps_depths(c2, frustum_plane(3), lo, hi, k);
}

/// The integer that the rasteriser takes for an attribute does not fall as
/// the attribute grows.
pub proof fn lemma_attribute_order(a: Fixed, b: Fixed)
    requires
        a.raw <= b.raw,
    ensures
        attribute_of(a) <= attribute_of(b),
        a.raw >= 0 ==> attribute_of(a) >= 0,
{
    vstd::arithmetic::div_mod::lemma_div_is_ordered(a.raw as int, b.raw as int, 0x1000);
    if a.raw >= 0 {
        vstd::arithmetic::div_mod::lemma_div_is_ordered(0, a.raw as int, 0x1000);
    }
}

/// The depth test sees depths in their order: of two corners before the
/// eye, the farther has no larger a depth attribute `1 / w` than the nearer,
/// and neither has a negative one.
pub proof fn lemma_depth_order(nearer: Fixed, farther: Fixed, s: Vec3d, t: Vec3d)
    requires
        0 < nearer.raw <= farther.raw,
    ensures
        0 <= attribute_of(divided_texture(t, farther).z) <= attribute_of(
            divided_texture(s, nearer).z,
        ),
{
    crate::fixed::lemma_inverse_order(nearer, farther);
    lemma_attribute_order(Fixed::one().div(farther), Fixed::one().div(nearer));
}

/// The depth of a corner is recovered from what the projection leaves of
/// it: the third texture coordinate of a projected corner is one over the
/// corner's depth, and one over that is the depth or more, by no more than
/// [`crate::fixed::lemma_inverse_twice`] allows.
pub proof fn lemma_projected_depth_recovers(
    t: Triangle,
    fov: Fixed,
    ar: Fixed,
    near: Fixed,
    far: Fixed,
    i: int,
)
    requires
        0 <= i < 3,
        t.p[i].z.raw >= 3,
    ensures
        ({
            let kept = t.projected(Mat4x4::make_projection(fov, ar, near, far)).t[i].z;
            let back = Fixed::one().div(kept);
            &&& kept == Fixed::one().div(t.p[i].z)
            &&& t.p[i].z.raw <= back.raw
            &&& (back.raw - t.p[i].z.raw) * 0x1_0000_0000_0000_0000 <= back.raw * (t.p[i].z.raw
                - 1)
        }),
{
    crate::gfx3d::mat4x4::lemma_projection_weight(fov, ar, near, far, t.p[i]);
    crate::fixed::lemma_inverse_twice(t.p[i].z);
}

/// The texture coordinates zero and one come through the perspective
/// divide without rounding of their own: a corner with the coordinate zero
/// has the attribute zero, and one with the coordinate one has the depth
/// attribute `1 / w` itself, whatever `w` is.
pub proof fn lemma_whole_coordinates(t: Vec3d, w: Fixed)
    ensures
        t.x == Fixed::zero() ==> attribute_of(divided_texture(t, w).x) == 0,
        t.y == Fixed::zero() ==> attribute_of(divided_texture(t, w).y) == 0,
        t.x == Fixed::one() ==> attribute_of(divided_texture(t, w).x) == attribute_of(
            divided_texture(t, w).z,
        ),
        t.y == Fixed::one() ==> attribute_of(divided_texture(t, w).y) == attribute_of(
            divided_texture(t, w).z,
        ),
{
    reveal(Fixed::div_spec);
    assert(0 * crate::fixed::unit() == 0);
    if w.raw != 0 {
        vstd::arithmetic::div_mod::lemma_div_basics(w.raw as int);
        vstd::arithmetic::div_mod::lemma_div_basics(-w.raw as int);
    }
}

/// The greatest depth attribute that the rasteriser can be handed for a
/// near plane at `near`: that of a corner on the plane.
pub open spec fn nearest_depth(near: Fixed) -> i32 {
    attribute_of(Fixed::one().div(near))
}

/// After projection the depth attribute of a corner that is not nearer than
/// the near plane is at most that of the plane, and not negative.
pub proof fn lemma_projected_depths(
    t: Triangle,
    fov: Fixed,
    ar: Fixed,
    near: Fixed,
    far: Fixed,
)
    requires
        near.raw > 0,
        t.p[0].z.raw >= near.raw,
        t.p[1].z.raw >= near.raw,
        t.p[2].z.raw >= near.raw,
    ensures
        t.projected(Mat4x4::make_projection(fov, ar, near, far)).depths_within(
            0,
            Fixed::one().div(near).raw as int,
        ),
{
    crate::gfx3d::mat4x4::lemma_projection_weight(fov, ar, near, far, t.p[0]);
    crate::gfx3d::mat4x4::lemma_projection_weight(fov, ar, near, far, t.p[1]);
    crate::gfx3d::mat4x4::lemma_projection_weight(fov, ar, near, far, t.p[2]);
    crate::fixed::lemma_inverse_order(near, t.p[0].z);
    crate::fixed::lemma_inverse_order(near, t.p[1].z);
    crate::fixed::lemma_inverse_order(near, t.p[2].z);
}

/// Nothing nearer than the near plane reaches the screen: every corner of
/// every screen triangle of a mesh triangle has a depth attribute that is
/// not negative and at most that of the near plane. The projection is to be
/// a perspective projection with the same near plane, and the near plane to
/// lie in front of the eye.
pub proof fn lemma_screen_depths(
    t: Triangle,
    world_view: Mat4x4,
    fov: Fixed,
    ar: Fixed,
    near: Fixed,
    far: Fixed,
    view: Viewport,
    k: int,
)
    requires
        near.raw > 0,
        0 <= k < screen_triangles(
            t,
            world_view,
            Mat4x4::make_projection(fov, ar, near, far),
            view,
            near,
        ).len(),
    ensures
        ({
            let s = screen_triangles(
                t,
                world_view,
                Mat4x4::make_projection(fov, ar, near, far),
                view,
                near,
            )[k];
            &&& 0 <= s.a.w <= nearest_depth(near)
            &&& 0 <= s.b.w <= nearest_depth(near)
            &&& 0 <= s.c.w <= nearest_depth(near)
        }),
{
    let proj = Mat4x4::make_projection(fov, ar, near, far);
    let seen = t.transformed(world_view);
    let clipped = seen.clip_against_plane_spec(&near_plane(near));
    assert forall|i: int| 0 <= i < clipped.len() implies (#[trigger] clipped[i]).p[0].z.raw
        >= near.raw && clipped[i].p[1].z.raw >= near.raw && clipped[i].p[2].z.raw >= near.raw by {
        crate::gfx3d::triangle::lemma_near_clip(seen, near, i);
    }
    lemma_projected_each_depths(clipped, fov, ar, near, far, view, k);
}

/// [`lemma_screen_depths`] for triangles that stand clipped at the near
/// plane.
proof fn lemma_projected_each_depths(
    ts: Seq<Triangle>,
    fov: Fixed,
    ar: Fixed,
    near: Fixed,
    far: Fixed,
    view: Viewport,
    k: int,
)
    requires
        near.raw > 0,
        forall|i: int|
            0 <= i < ts.len() ==> (#[trigger] ts[i]).p[0].z.raw >= near.raw && ts[i].p[1].z.raw
                >= near.raw && ts[i].p[2].z.raw >= near.raw,
        0 <= k < projected_each(ts, Mat4x4::make_projection(fov, ar, near, far), view).len(),
    ensures
        ({
            let s = projected_each(ts, Mat4x4::make_projection(fov, ar, near, far), view)[k];
            &&& 0 <= s.a.w <= nearest_depth(near)
            &&& 0 <= s.b.w <= nearest_depth(near)
            &&& 0 <= s.c.w <= nearest_depth(near)
        }),
    decreases ts.len(),
{
    let proj = Mat4x4::make_projection(fov, ar, near, far);
    let before = projected_each(ts.drop_last(), proj, view);
    if k < before.len() {
        lemma_projected_each_depths(ts.drop_last(), fov, ar, near, far, view, k);
    } else {
        let cap = Fixed::one().div(near);
        let projected = ts.last().projected(proj);
        let pieces = clip_to_view(projected);
        let j = k - before.len();
        lemma_projected_depths(ts.last(), fov, ar, near, far);
        lemma_clip_to_view_keeps_depths(projected, 0, cap.raw as int, j);
        let piece = pieces[j];
        assert(on_screen_each(pieces, view)[j] == piece.placed_in(view).on_screen());
        lemma_attribute_order(piece.t[0].z, cap);
        lemma_attribute_order(piece.t[1].z, cap);
        lemma_attribute_order(piece.t[2].z, cap);
    }
}

/// Whether a position lies on the inner side of the first `n` planes of
/// the view, or on them: not below `y = -1`, not above `y = 1`, not right
/// of `x = 1`, not left of `x = -1`.
pub open spec fn within_planes(p: Vec4d, n: int) -> bool {
    &&& n >= 1 ==> p.y.raw >= -crate::fixed::unit()
    &&& n >= 2 ==> p.y.raw <= crate::fixed::unit()
    &&& n >= 3 ==> p.x.raw <= crate::fixed::unit()
    &&& n >= 4 ==> p.x.raw >= -crate::fixed::unit()
}

/// Whether a position lies on the inner side of plane `i` of the view, or
/// on it.
pub open spec fn inner_side(i: int, p: Vec4d) -> bool {
    if i == 0 {
        p.y.raw >= -crate::fixed::unit()
    } else if i == 1 {
        p.y.raw <= crate::fixed::unit()
    } else if i == 2 {
        p.x.raw <= crate::fixed::unit()
    } else {
        p.x.raw >= -crate::fixed::unit()
    }
}

impl Triangle {
    /// Whether all three corners lie within the first `n` planes of the
    /// view.
    pub open spec fn within_view(self, n: int) -> bool {
        within_planes(self.p[0], n) && within_planes(self.p[1], n) && within_planes(self.p[2], n)
    }
}

/// Each plane of the view stands across an axis: which axis, which way it
/// faces and where it stands.
pub open spec fn frustum_axis(i: int) -> (int, bool, Fixed) {
    if i == 0 {
        (1, true, Fixed { raw: -0x1_0000_0000i64 })
    } else if i == 1 {
        (1, false, Fixed::one())
    } else if i == 2 {
        (0, false, Fixed::one())
    } else {
        (0, true, Fixed { raw: -0x1_0000_0000i64 })
    }
}

/// A position is on the inner side of a plane of the view, or on it,
/// exactly if its coordinate is within the plane's bound.
proof fn lemma_view_side(i: int, p: Vec4d)
    requires
        0 <= i < 4,
    ensures
        (frustum_plane(i).distance(&p).raw >= 0) == inner_side(i, p),
{
    let (axis, up, at) = frustum_axis(i);
    assert(frustum_plane(i) == axis_plane(axis, up, at));
    crate::gfx3d::plane::lemma_axis_side(axis, up, at, p);
}

/// The point where an edge from a kept corner to a dropped one meets a
/// plane of the view is not beyond the plane, and not further in than the
/// kept corner.
proof fn lemma_view_cut(i: int, start: Vec4d, end: Vec4d)
    requires
        0 <= i < 4,
        inner_side(i, start),
        !inner_side(i, end),
    ensures
        ({
            let cut = frustum_plane(i).line_intersect_plane(start, end).0;
            let u = crate::fixed::unit();
            if i == 0 {
                -u <= cut.y.raw <= start.y.raw
            } else if i == 1 {
                start.y.raw <= cut.y.raw <= u
            } else if i == 2 {
                start.x.raw <= cut.x.raw <= u
            } else {
                -u <= cut.x.raw <= start.x.raw
            }
        }),
{
    let (axis, up, at) = frustum_axis(i);
    assert(frustum_plane(i) == axis_plane(axis, up, at));
    crate::gfx3d::plane::lemma_axis_cut(axis, up, at, start, end);
}

/// A corner that can stand in a piece cut by plane `i` of the view lies
/// within that plane, and within the planes before it if the triangle did.
proof fn lemma_view_corner(t: Triangle, i: int, c: crate::gfx3d::triangle::Corner)
    requires
        0 <= i < 4,
        t.within_view(i),
        crate::gfx3d::triangle::corner_sound(t.distances(frustum_plane(i)), c),
    ensures
        within_planes(t.corner_position(frustum_plane(i), c), i + 1),
{
    let plane = frustum_plane(i);
    let u = crate::fixed::unit();
    lemma_view_side(i, t.p[0]);
    lemma_view_side(i, t.p[1]);
    lemma_view_side(i, t.p[2]);
    match c {
        crate::gfx3d::triangle::Corner::Kept(k) => {},
        crate::gfx3d::triangle::Corner::Cut { from, to } => {
            let start = t.p[from as int];
            let end = t.p[to as int];
            lemma_view_cut(i, start, end);
            if i >= 2 {
                crate::gfx3d::plane::lemma_cut_share(plane, start, end);
                crate::fixed::lemma_mix_between(
                    start.y,
                    end.y,
                    plane.line_intersect_plane(start, end).1,
                    -u,
                    u,
                );
            }
        },
    }
}

/// What a plane of the view leaves of a triangle lies within that plane,
/// and within the planes before it if the triangle did.
pub proof fn lemma_view_clip(t: Triangle, i: int, k: int)
    requires
        0 <= i < 4,
        t.within_view(i),
        0 <= k < t.clip_against_plane_spec(&frustum_plane(i)).len(),
    ensures
        t.clip_against_plane_spec(&frustum_plane(i))[k].within_view(i + 1),
{
    let plane = frustum_plane(i);
    let dist = t.distances(plane);
    crate::gfx3d::triangle::lemma_clipped(dist);
    let piece = crate::gfx3d::triangle::clipped(dist)[k];
    lemma_view_corner(t, i, piece.a);
    lemma_view_corner(t, i, piece.b);
    lemma_view_corner(t, i, piece.c);
}

/// [`lemma_view_clip`] for a list of triangles.
proof fn lemma_view_clip_each(ts: Seq<Triangle>, i: int, k: int)
    requires
        0 <= i < 4,
        forall|j: int| 0 <= j < ts.len() ==> (#[trigger] ts[j]).within_view(i),
        0 <= k < clip_each(ts, frustum_plane(i)).len(),
    ensures
        clip_each(ts, frustum_plane(i))[k].within_view(i + 1),
    decreases ts.len(),
{
    let before = clip_each(ts.drop_last(), frustum_plane(i));
    if k < before.len() {
        lemma_view_clip_each(ts.drop_last(), i, k);
    } else {
        lemma_view_clip(ts.last(), i, k - before.len());
    }
}

/// Nothing that clipping to the view leaves lies outside the view: of
/// whatever triangle, every corner of every triangle left has `x` and `y`
/// from minus one to one. Rounding and saturation never take a cut across
/// a plane, nor back across one that clipped before.
pub proof fn lemma_clip_to_view(t: Triangle, k: int)
    requires
        0 <= k < clip_to_view(t).len(),
    ensures
        clip_to_view(t)[k].within_view(4),
{
    let c0 = clip_each(seq![t], frustum_plane(0));
    let c1 = clip_each(c0, frustum_plane(1));
    let c2 = clip_each(c1, frustum_plane(2));
    assert forall|j: int| 0 <= j < c0.len() implies (#[trigger] c0[j]).within_view(1) by {
        lemma_view_clip_each(seq![t], 0, j);
    }
    assert forall|j: int| 0 <= j < c1.len() implies (#[trigger] c1[j]).within_view(2) by {
        lemma_view_clip_each(c0, 1, j);
    }
    assert forall|j: int| 0 <= j < c2.len() implies (#[trigger] c2[j]).within_view(3) by {
        lemma_view_clip_each(c1, 2, j);
    }
    lemma_view_clip_each(c2, 3, k);
}

/// A coordinate's pixel does not fall as the coordinate grows.
pub proof fn lemma_pixel_order(a: Fixed, b: Fixed)
    requires
        a.raw <= b.raw,
    ensures
        pixel_of(a) <= pixel_of(b),
{
    reveal(Fixed::add_spec);
    reveal(Fixed::to_int_spec);
    let u = crate::fixed::unit();
    let x = a.add(Fixed::half()).raw as int;
    let y = b.add(Fixed::half()).raw as int;
    assert(x <= y);
    if x >= 0 {
        vstd::arithmetic::div_mod::lemma_div_is_ordered(x, y, u);
    } else if y >= 0 {
        vstd::arithmetic::div_mod::lemma_div_is_ordered(0, -x, u);
        vstd::arithmetic::div_mod::lemma_div_is_ordered(0, y, u);
    } else {
        vstd::arithmetic::div_mod::lemma_div_is_ordered(-y, -x, u);
    }
}

/// A coordinate from minus one to one is placed within the viewport: not
/// before its origin and not beyond its far side.
proof fn lemma_placed_within(c: Fixed, size: Fixed, origin: Fixed)
    requires
        -crate::fixed::unit() <= c.raw <= crate::fixed::unit(),
        size.raw >= 0,
    ensures
        origin.raw <= c.add(Fixed::one()).mul(Fixed::half().mul(size)).add(origin).raw
            <= origin.add(size).raw,
{
    reveal(Fixed::add_spec);
    reveal(Fixed::mul_spec);
    let u = crate::fixed::unit();
    let s = c.raw + u;
    let half = Fixed::half().mul(size).raw as int;
    assert(0 * u <= 0x8000_0000 * size.raw && 2 * (0x8000_0000 * size.raw) == size.raw * u)
        by (nonlinear_arith)
        requires
            size.raw >= 0,
            u == 0x1_0000_0000,
    ;
    crate::arith::lemma_div_between(0x8000_0000 * size.raw, u, 0, size.raw as int);
    vstd::arithmetic::div_mod::lemma_fundamental_div_mod(0x8000_0000 * size.raw, u);
    vstd::arithmetic::div_mod::lemma_mod_bound(0x8000_0000 * size.raw, u);
    assert(0 <= half && 2 * half <= size.raw);
    assert(0 * u <= s * half <= size.raw * u) by (nonlinear_arith)
        requires
            0 <= s <= 2 * u,
            0 <= half,
            2 * half <= size.raw,
            u > 0,
    ;
    crate::arith::lemma_div_between(s * half, u, 0, size.raw as int);
}

/// Whether a corner on the screen lies within the viewport, its far sides
/// included.
pub open spec fn vertex_within(v: Vertex, view: Viewport) -> bool {
    &&& pixel_of(view.x) <= v.x <= pixel_of(view.x.add(view.w))
    &&& pixel_of(view.y) <= v.y <= pixel_of(view.y.add(view.h))
}

/// A position within the view is placed on a pixel within the viewport.
proof fn lemma_vertex_within(p: Vec4d, t: Vec3d, view: Viewport)
    requires
        within_planes(p, 4),
        view.w.raw >= 0,
        view.h.raw >= 0,
    ensures
        vertex_within(vertex_of(placed(p, view), t), view),
{
    lemma_placed_within(p.x, view.w, view.x);
    lemma_placed_within(p.y, view.h, view.y);
    let q = placed(p, view);
    lemma_pixel_order(view.x, q.x);
    lemma_pixel_order(q.x, view.x.add(view.w));
    lemma_pixel_order(view.y, q.y);
    lemma_pixel_order(q.y, view.y.add(view.h));
}

/// [`lemma_screen_within`] for triangles that stand clipped at the near
/// plane.
proof fn lemma_projected_each_within(ts: Seq<Triangle>, proj: Mat4x4, view: Viewport, k: int)
    requires
        view.w.raw >= 0,
        view.h.raw >= 0,
        0 <= k < projected_each(ts, proj, view).len(),
    ensures
        vertex_within(projected_each(ts, proj, view)[k].a, view),
        vertex_within(projected_each(ts, proj, view)[k].b, view),
        vertex_within(projected_each(ts, proj, view)[k].c, view),
    decreases ts.len(),
{
    let before = projected_each(ts.drop_last(), proj, view);
    if k < before.len() {
        lemma_projected_each_within(ts.drop_last(), proj, view, k);
    } else {
        let pieces = clip_to_view(ts.last().projected(proj));
        let j = k - before.len();
        lemma_clip_to_view(ts.last().projected(proj), j);
        let piece = pieces[j];
        assert(on_screen_each(pieces, view)[j] == piece.placed_in(view).on_screen());
        lemma_vertex_within(piece.p[0], piece.t[0], view);
        lemma_vertex_within(piece.p[1], piece.t[1], view);
        lemma_vertex_within(piece.p[2], piece.t[2], view);
    }
}

/// Nothing outside the view reaches the screen: whatever the triangle, the
/// camera and the projection, every corner of every screen triangle lies on
/// a pixel within the viewport, its far sides included. The viewport is to
/// have a width and a height that are not negative.
pub proof fn lemma_screen_within(
    t: Triangle,
    world_view: Mat4x4,
    proj: Mat4x4,
    view: Viewport,
    near: Fixed,
    k: int,
)
    requires
        view.w.raw >= 0,
        view.h.raw >= 0,
        0 <= k < screen_triangles(t, world_view, proj, view, near).len(),
    ensures
        vertex_within(screen_triangles(t, world_view, proj, view, near)[k].a, view),
        vertex_within(screen_triangles(t, world_view, proj, view, near)[k].b, view),
        vertex_within(screen_triangles(t, world_view, proj, view, near)[k].c, view),
{
    let seen = t.transformed(world_view);
    lemma_projected_each_within(seen.clip_against_plane_spec(&near_plane(near)), proj, view, k);
}

} // verus!
