//! The pipeline: what persists from frame to frame, rendering a mesh, and
//! the depth-tested rasteriser.
//!
//! A pipeline owns the transforms, the viewport and a depth buffer. It takes
//! the triangles of a mesh to the screen and fills them into a drawing
//! surface. Depth is the interpolated `1 / w` attribute: larger is nearer,
//! `0` is the far end, and a pixel is written only where the triangle is
//! strictly nearer than what the buffer holds.

use vstd::prelude::*;
use crate::arith::lemma_div_between;
use crate::arith::lemma_mul_bound;
use crate::arith::trunc_div;
use crate::fixed::Fixed;
use crate::gfx3d::coverage::ScreenTriangle;
use crate::gfx3d::coverage::Vertex;
use crate::gfx3d::coverage::clamp_high;
use crate::gfx3d::coverage::clamp_low;
use crate::gfx3d::coverage::edge_value;
use crate::gfx3d::coverage::is_top_left;
use crate::gfx3d::coverage::lemma_edge_bound;
use crate::gfx3d::coverage::lemma_front;
use crate::gfx3d::coverage::lemma_orient_steps;
use crate::gfx3d::coverage::lemma_owns_in_box;
use crate::gfx3d::coverage::lemma_weights_sum;
use crate::gfx3d::coverage::max3;
use crate::gfx3d::coverage::min3;
use crate::gfx3d::mat4x4::Mat4x4;
use crate::gfx3d::stages::Viewport;
use crate::color::Color;
use crate::gfx3d::stages::attribute;
use crate::gfx3d::stages::attribute_of;
use crate::gfx3d::stages::nearest_depth;
use crate::gfx3d::stages::pixel_of;
use crate::gfx3d::stages::vertex;
use crate::gfx3d::stages::vertex_of;
use crate::gfx3d::stages::vertex_within;
use crate::gfx3d::vec4d::Vec4d;
use crate::gfx3d::stages::screen_triangles;
use crate::gfx3d::stages::to_screen_triangles;
use crate::gfx3d::triangle::Triangle;
use crate::gfx3d::vec3d::Vec3d;
use crate::pge::Canvas;
use crate::pge::PGE;
use crate::pge::lemma_painted_nothing;
use crate::pge::lemma_painted_same;
use crate::pge::lemma_scan_done;
use crate::pge::lemma_scan_row;
use crate::pge::lemma_scan_start;
use crate::pge::lemma_scan_step;
use crate::pge::scan_of;
use crate::pge::scanned;
use crate::pixel::Pixel;
use crate::pixel::PixelMode;
use crate::pixel::blend;
use crate::pixel::lemma_overwrites;
use crate::pixel::overwrites;
use crate::sprite::Image;
use crate::sprite::Sprite;
use crate::sprite::lemma_index;
use crate::sprite::lemma_index_injective;

verus! {

/// What a pipeline draws of a mesh.
#[derive(Debug, Clone, Copy, PartialEq, Eq, Structural)]
pub enum RenderOptions {
    Wire,
    Flat,
    Textured,
}

/// The winding that back-face culling drops.
#[derive(Debug, Clone, Copy, PartialEq, Eq, Structural)]
pub enum CullDirection {
    Cw,
    Ccw,
}

impl ScreenTriangle {
    /// The corner values `ka`, `kb`, `kc` of an attribute, each times the
    /// weight of its corner at `(x, y)`, summed: twice the triangle's area
    /// times the attribute's value there, with nothing rounded.
    pub open spec fn weighted_sum(self, ka: int, kb: int, kc: int, x: int, y: int) -> int {
        self.weight_a(x, y) * ka + self.weight_b(x, y) * kb + self.weight_c(x, y) * kc
    }

    /// For a triangle of positive area: the value at `(x, y)` of an attribute
    /// that is `ka`, `kb`, `kc` at the corners, interpolated linearly over the
    /// screen and rounded down.
    pub open spec fn interpolate(self, ka: int, kb: int, kc: int, x: int, y: int) -> int {
        self.weighted_sum(ka, kb, kc, x, y) / self.area2()
    }

    /// The depth (`1 / w`) of the triangle at `(x, y)`.
    pub open spec fn depth_at(self, x: int, y: int) -> int {
        let f = self.front();
        f.interpolate(f.a.w as int, f.b.w as int, f.c.w as int, x, y)
    }

    /// The `u / w` attribute of the triangle at `(x, y)`, times twice the
    /// triangle's area.
    pub open spec fn u_sum(self, x: int, y: int) -> int {
        let f = self.front();
        f.weighted_sum(f.a.u as int, f.b.u as int, f.c.u as int, x, y)
    }

    /// The `v / w` attribute of the triangle at `(x, y)`, times twice the
    /// triangle's area.
    pub open spec fn v_sum(self, x: int, y: int) -> int {
        let f = self.front();
        f.weighted_sum(f.a.v as int, f.b.v as int, f.c.v as int, x, y)
    }

    /// The `1 / w` attribute of the triangle at `(x, y)`, times twice the
    /// triangle's area.
    pub open spec fn w_sum(self, x: int, y: int) -> int {
        let f = self.front();
        f.weighted_sum(f.a.w as int, f.b.w as int, f.c.w as int, x, y)
    }

    /// The texel the triangle shows at `(x, y)`: the texture coordinates
    /// there are the interpolated `u / w` and `v / w` over the interpolated
    /// `1 / w`, which undoes the perspective. The quotients are taken of the
    /// sums as they stand, in which twice the area cancels, so that the
    /// only rounding is that of the texture coordinate to its texel.
    pub open spec fn texel(self, tex: Image, x: int, y: int) -> Pixel {
        tex.get(
            trunc_div(self.u_sum(x, y) * tex.width, self.w_sum(x, y)),
            trunc_div(self.v_sum(x, y) * tex.height, self.w_sum(x, y)),
        )
    }
}

/// The mathematical state of a pipeline: a depth for every position of its
/// buffer, the texture it holds, and the transforms and the viewport that
/// take a mesh to the screen.
pub struct PipelineView {
    pub width: nat,
    pub height: nat,
    pub depth: Map<(int, int), int>,
    pub texture: Image,
    pub proj: Mat4x4,
    pub view: Mat4x4,
    pub world: Mat4x4,
    pub viewport: Viewport,
    pub near: Fixed,
}

impl PipelineView {
    /// Whether `(x, y)` is a position of the buffer.
    pub open spec fn contains(self, x: int, y: int) -> bool {
        0 <= x < self.width && 0 <= y < self.height
    }

    /// Whether the triangle writes the pixel `(x, y)`: the position is in the
    /// buffer, the triangle covers it, and is strictly nearer there than what
    /// the buffer holds.
    pub open spec fn hit(self, t: ScreenTriangle, x: int, y: int) -> bool {
        self.contains(x, y) && t.covers(x, y) && t.depth_at(x, y) > self.depth[(x, y)]
    }

    /// The colour that the triangle hands to the surface at `(x, y)`, if it
    /// writes the pixel.
    pub open spec fn fragment(self, t: ScreenTriangle, tex: Image, x: int, y: int) -> Option<
        Pixel,
    > {
        if self.hit(t, x, y) {
            Some(t.texel(tex, x, y))
        } else {
            None
        }
    }

    /// The depths after the triangle has been filled over the positions that
    /// `region` holds.
    pub open spec fn shaded_in(
        self,
        t: ScreenTriangle,
        region: spec_fn(int, int) -> bool,
    ) -> PipelineView {
        PipelineView {
            depth: Map::new(
                |k: (int, int)| self.contains(k.0, k.1),
                |k: (int, int)|
                    if region(k.0, k.1) && self.hit(t, k.0, k.1) {
                        t.depth_at(k.0, k.1)
                    } else {
                        self.depth[k]
                    },
            ),
            ..self
        }
    }

    /// The depths after the triangle has been filled.
    pub open spec fn shaded(self, t: ScreenTriangle) -> PipelineView {
        self.shaded_in(t, |x: int, y: int| true)
    }

    /// The depths after a clear: `0`, the far end, everywhere.
    pub open spec fn cleared(self) -> PipelineView {
        PipelineView {
            depth: Map::new(|k: (int, int)| self.contains(k.0, k.1), |k: (int, int)| 0int),
            ..self
        }
    }
}

impl PipelineView {
    /// The view has a depth exactly at the positions of its buffer, and
    /// none of them is negative.
    pub open spec fn wf(self) -> bool {
        &&& forall|k: (int, int)| self.depth.dom().contains(k) <==> self.contains(k.0, k.1)
        &&& forall|k: (int, int)| self.contains(k.0, k.1) ==> (#[trigger] self.depth[k]) >= 0
    }
}

/// A triangle without area draws nothing: filling it leaves the depths and
/// the canvas as they were.
pub proof fn lemma_without_area(c: Canvas, v: PipelineView, t: ScreenTriangle, tex: Image)
    requires
        c.wf(),
        v.wf(),
        t.area2() == 0,
    ensures
        v.shaded(t) == v,
        c.painted(|x: int, y: int| v.fragment(t, tex, x, y)) == c,
        v.shaded_all(seq![t]) == v,
        rendered(c, v, seq![t], tex) == c,
{
    assert(forall|x: int, y: int| !t.covers(x, y));
    assert(v.shaded(t).depth =~= v.depth);
    lemma_painted_nothing(c, |x: int, y: int| v.fragment(t, tex, x, y));
    let one = seq![t];
    assert(one.drop_last() =~= Seq::<ScreenTriangle>::empty());
    reveal_with_fuel(PipelineView::shaded_all, 2);
    reveal_with_fuel(rendered, 2);
    assert(v.shaded_all(one.drop_last()) == v);
    lemma_painted_same(
        c,
        |x: int, y: int| v.shaded_all(one.drop_last()).fragment(one.last(), tex, x, y),
        |x: int, y: int| v.fragment(t, tex, x, y),
    );
}

impl PipelineView {
    /// The depths after the triangles have been filled, first to last.
    pub open spec fn shaded_all(self, ts: Seq<ScreenTriangle>) -> PipelineView
        decreases ts.len(),
    {
        if ts.len() == 0 {
            self
        } else {
            self.shaded_all(ts.drop_last()).shaded(ts.last())
        }
    }
}

/// The canvas after the triangles have been filled into it, first to last,
/// over the depths `v`.
pub open spec fn rendered(c: Canvas, v: PipelineView, ts: Seq<ScreenTriangle>, tex: Image) -> Canvas
    decreases ts.len(),
{
    if ts.len() == 0 {
        c
    } else {
        rendered(c, v, ts.drop_last(), tex).painted(
            |x: int, y: int| v.shaded_all(ts.drop_last()).fragment(ts.last(), tex, x, y),
        )
    }
}

impl PipelineView {
    /// The screen triangles of one triangle of a mesh under the pipeline's
    /// transforms.
    pub open spec fn on_screen(self, t: Triangle) -> Seq<ScreenTriangle> {
        screen_triangles(t, self.world.mul(self.view), self.proj, self.viewport, self.near)
    }

    /// The screen triangles of a mesh, triangle by triangle.
    pub open spec fn on_screen_all(self, ts: Seq<Triangle>) -> Seq<ScreenTriangle>
        decreases ts.len(),
    {
        if ts.len() == 0 {
            seq![]
        } else {
            self.on_screen_all(ts.drop_last()) + self.on_screen(ts.last())
        }
    }
}

/// Filling changes the depths and nothing else of a pipeline.
pub proof fn lemma_shaded_all_keeps(v: PipelineView, ts: Seq<ScreenTriangle>)
    ensures
        v.shaded_all(ts) == (PipelineView { depth: v.shaded_all(ts).depth, ..v }),
    decreases ts.len(),
{
    if ts.len() > 0 {
        lemma_shaded_all_keeps(v, ts.drop_last());
    }
}

/// Filling two lists of triangles, one after the other, is filling the
/// joined list.
pub proof fn lemma_rendered_concat(
    c: Canvas,
    v: PipelineView,
    first: Seq<ScreenTriangle>,
    second: Seq<ScreenTriangle>,
    tex: Image,
)
    ensures
        v.shaded_all(first + second) == v.shaded_all(first).shaded_all(second),
        rendered(c, v, first + second, tex) == rendered(
            rendered(c, v, first, tex),
            v.shaded_all(first),
            second,
            tex,
        ),
    decreases second.len(),
{
    if second.len() == 0 {
        assert(first + second =~= first);
    } else {
        assert((first + second).drop_last() =~= first + second.drop_last());
        lemma_rendered_concat(c, v, first, second.drop_last(), tex);
    }
}

/// Inside a triangle the depth stays between bounds that it keeps at the
/// corners.
pub proof fn lemma_depth_at_bounds(t: ScreenTriangle, x: int, y: int, lo: int, hi: int)
    requires
        t.covers(x, y),
        lo <= t.a.w <= hi,
        lo <= t.b.w <= hi,
        lo <= t.c.w <= hi,
    ensures
        lo <= t.depth_at(x, y) <= hi,
{
    let f = t.front();
    lemma_interpolate_bounds(f, f.a.w as int, f.b.w as int, f.c.w as int, x, y, lo, hi);
}

/// Depths only grow, and a pixel that no triangle covers keeps its depth.
pub proof fn lemma_depths_grow(v: PipelineView, ts: Seq<ScreenTriangle>, x: int, y: int)
    requires
        v.contains(x, y),
    ensures
        v.shaded_all(ts).contains(x, y),
        v.shaded_all(ts).depth[(x, y)] >= v.depth[(x, y)],
        (forall|k: int| 0 <= k < ts.len() ==> !(#[trigger] ts[k]).covers(x, y)) ==> v.shaded_all(
            ts,
        ).depth[(x, y)] == v.depth[(x, y)],
    decreases ts.len(),
{
    if ts.len() > 0 {
        lemma_depths_grow(v, ts.drop_last(), x, y);
        assert(forall|k: int|
            0 <= k < ts.drop_last().len() ==> (#[trigger] ts.drop_last()[k]) == ts[k]);
        assert(ts.last() == ts[ts.len() - 1]);
    }
}

/// A pixel that no triangle of a list covers keeps its colour.
pub proof fn lemma_uncovered_keeps_colour(
    c: Canvas,
    v: PipelineView,
    ts: Seq<ScreenTriangle>,
    tex: Image,
    x: int,
    y: int,
)
    requires
        c.has_target(),
        forall|k: int| 0 <= k < ts.len() ==> !(#[trigger] ts[k]).covers(x, y),
    ensures
        rendered(c, v, ts, tex).has_target(),
        rendered(c, v, ts, tex).target().contains(x, y) == c.target().contains(x, y),
        rendered(c, v, ts, tex).target().get(x, y) == c.target().get(x, y),
    decreases ts.len(),
{
    if ts.len() > 0 {
        assert(forall|k: int|
            0 <= k < ts.drop_last().len() ==> (#[trigger] ts.drop_last()[k]) == ts[k]);
        assert(ts.last() == ts[ts.len() - 1]);
        lemma_uncovered_keeps_colour(c, v, ts.drop_last(), tex, x, y);
    }
}

/// If no corner of the triangles of a list carries a depth beyond `cap`, or
/// a negative one, then no depth that filling them writes is beyond `cap`:
/// a depth is what it was or at most `cap`.
pub proof fn lemma_depths_capped(v: PipelineView, ts: Seq<ScreenTriangle>, cap: int, x: int, y: int)
    requires
        v.contains(x, y),
        forall|k: int|
            0 <= k < ts.len() ==> 0 <= (#[trigger] ts[k]).a.w <= cap && 0 <= ts[k].b.w <= cap && 0
                <= ts[k].c.w <= cap,
    ensures
        v.shaded_all(ts).depth[(x, y)] == v.depth[(x, y)] || v.shaded_all(ts).depth[(x, y)] <= cap,
    decreases ts.len(),
{
    if ts.len() > 0 {
        assert(forall|k: int|
            0 <= k < ts.drop_last().len() ==> (#[trigger] ts.drop_last()[k]) == ts[k]);
        assert(ts.last() == ts[ts.len() - 1]);
        lemma_depths_capped(v, ts.drop_last(), cap, x, y);
        lemma_depths_grow(v, ts.drop_last(), x, y);
        let before = v.shaded_all(ts.drop_last());
        if before.hit(ts.last(), x, y) {
            lemma_depth_at_bounds(ts.last(), x, y, 0, cap);
        }
    }
}

/// Rendering draws nothing that is nearer than the near plane: after a mesh has
/// been rendered, a depth in the buffer is what it was or at most the depth
/// of the near plane. The projection is to be a perspective projection with
/// the pipeline's near plane, and the near plane to lie in front of the eye.
pub proof fn lemma_render_near_plane(
    v: PipelineView,
    mesh: Seq<Triangle>,
    fov: Fixed,
    ar: Fixed,
    far: Fixed,
    x: int,
    y: int,
)
    requires
        v.contains(x, y),
        v.proj == Mat4x4::make_projection(fov, ar, v.near, far),
        v.near.raw > 0,
    ensures
        v.shaded_all(v.on_screen_all(mesh)).depth[(x, y)] == v.depth[(x, y)] || v.shaded_all(
            v.on_screen_all(mesh),
        ).depth[(x, y)] <= nearest_depth(v.near),
{
    let ts = v.on_screen_all(mesh);
    assert forall|k: int| 0 <= k < ts.len() implies 0 <= (#[trigger] ts[k]).a.w <= nearest_depth(
        v.near,
    ) && 0 <= ts[k].b.w <= nearest_depth(v.near) && 0 <= ts[k].c.w <= nearest_depth(v.near) by {
        lemma_on_screen_all_depths(v, mesh, fov, ar, far, k);
    }
    lemma_depths_capped(v, ts, nearest_depth(v.near) as int, x, y);
}

/// [`crate::gfx3d::stages::lemma_screen_depths`] for a whole mesh.
proof fn lemma_on_screen_all_depths(
    v: PipelineView,
    mesh: Seq<Triangle>,
    fov: Fixed,
    ar: Fixed,
    far: Fixed,
    k: int,
)
    requires
        v.proj == Mat4x4::make_projection(fov, ar, v.near, far),
        v.near.raw > 0,
        0 <= k < v.on_screen_all(mesh).len(),
    ensures
        0 <= v.on_screen_all(mesh)[k].a.w <= nearest_depth(v.near),
        0 <= v.on_screen_all(mesh)[k].b.w <= nearest_depth(v.near),
        0 <= v.on_screen_all(mesh)[k].c.w <= nearest_depth(v.near),
    decreases mesh.len(),
{
    let before = v.on_screen_all(mesh.drop_last());
    if k < before.len() {
        lemma_on_screen_all_depths(v, mesh.drop_last(), fov, ar, far, k);
    } else {
        crate::gfx3d::stages::lemma_screen_depths(
            mesh.last(),
            v.world.mul(v.view),
            fov,
            ar,
            v.near,
            far,
            v.viewport,
            k - before.len(),
        );
    }
}

/// Whether the pixel `(x, y)` lies in the viewport: from the pixel of its
/// origin up to, but not including, the pixel of its far sides.
pub open spec fn in_viewport(view: Viewport, x: int, y: int) -> bool {
    &&& pixel_of(view.x) <= x < pixel_of(view.x.add(view.w))
    &&& pixel_of(view.y) <= y < pixel_of(view.y.add(view.h))
}

/// Rendering writes nothing outside the viewport: whatever the mesh, the
/// camera and the projection, a pixel outside the viewport keeps its colour
/// and its depth. The viewport is to have a width and a height that are not
/// negative.
pub proof fn lemma_render_within_viewport(
    c: Canvas,
    v: PipelineView,
    mesh: Seq<Triangle>,
    tex: Image,
    x: int,
    y: int,
)
    requires
        c.has_target(),
        v.viewport.w.raw >= 0,
        v.viewport.h.raw >= 0,
        !in_viewport(v.viewport, x, y),
    ensures
        rendered(c, v, v.on_screen_all(mesh), tex).target().get(x, y) == c.target().get(x, y),
        v.contains(x, y) ==> v.shaded_all(v.on_screen_all(mesh)).depth[(x, y)] == v.depth[(x, y)],
{
    let ts = v.on_screen_all(mesh);
    assert forall|k: int| 0 <= k < ts.len() implies !(#[trigger] ts[k]).covers(x, y) by {
        lemma_on_screen_all_within(v, mesh, k);
        if ts[k].covers(x, y) {
            crate::gfx3d::coverage::lemma_owns_in_box(ts[k].front(), x, y);
        }
    }
    lemma_uncovered_keeps_colour(c, v, ts, tex, x, y);
    if v.contains(x, y) {
        lemma_depths_grow(v, ts, x, y);
    }
}

/// [`crate::gfx3d::stages::lemma_screen_within`] for a whole mesh.
proof fn lemma_on_screen_all_within(v: PipelineView, mesh: Seq<Triangle>, k: int)
    requires
        v.viewport.w.raw >= 0,
        v.viewport.h.raw >= 0,
        0 <= k < v.on_screen_all(mesh).len(),
    ensures
        vertex_within(v.on_screen_all(mesh)[k].a, v.viewport),
        vertex_within(v.on_screen_all(mesh)[k].b, v.viewport),
        vertex_within(v.on_screen_all(mesh)[k].c, v.viewport),
    decreases mesh.len(),
{
    let before = v.on_screen_all(mesh.drop_last());
    if k < before.len() {
        lemma_on_screen_all_within(v, mesh.drop_last(), k);
    } else {
        crate::gfx3d::stages::lemma_screen_within(
            mesh.last(),
            v.world.mul(v.view),
            v.proj,
            v.viewport,
            v.near,
            k - before.len(),
        );
    }
}

/// Depth testing makes the order of two triangles immaterial.
///
/// Let the writes of both triangles be opaque wherever both would write over
/// the depths `v`, and let them hand over the same colour wherever they are
/// equally near there. Then filling one and then the other leaves the same
/// depths and the same canvas as filling them the other way round.
pub proof fn lemma_order_independent(
    c: Canvas,
    v: PipelineView,
    t1: ScreenTriangle,
    t2: ScreenTriangle,
    tex: Image,
)
    requires
        c.wf(),
        forall|x: int, y: int|
            #![trigger v.hit(t1, x, y), v.hit(t2, x, y)]
            v.hit(t1, x, y) && v.hit(t2, x, y) ==> {
                &&& overwrites(c.pixel_mode, c.blend_factor, t1.texel(tex, x, y))
                &&& overwrites(c.pixel_mode, c.blend_factor, t2.texel(tex, x, y))
                &&& t1.depth_at(x, y) == t2.depth_at(x, y) ==> t1.texel(tex, x, y) == t2.texel(
                    tex,
                    x,
                    y,
                )
            },
    ensures
        v.shaded(t1).shaded(t2) == v.shaded(t2).shaded(t1),
        c.painted(|x: int, y: int| v.fragment(t1, tex, x, y)).painted(
            |x: int, y: int| v.shaded(t1).fragment(t2, tex, x, y),
        ) == c.painted(|x: int, y: int| v.fragment(t2, tex, x, y)).painted(
            |x: int, y: int| v.shaded(t2).fragment(t1, tex, x, y),
        ),
{
    assert(v.shaded(t1).shaded(t2).depth =~= v.shaded(t2).shaded(t1).depth);
    if c.has_target() {
        let c12 = c.painted(|x: int, y: int| v.fragment(t1, tex, x, y)).painted(
            |x: int, y: int| v.shaded(t1).fragment(t2, tex, x, y),
        );
        let c21 = c.painted(|x: int, y: int| v.fragment(t2, tex, x, y)).painted(
            |x: int, y: int| v.shaded(t2).fragment(t1, tex, x, y),
        );
        assert forall|k: (int, int)| c.target().contains(k.0, k.1) implies c12.target().at[k]
            == c21.target().at[k] by {
            let p0 = c.target().at[k];
            let p1 = t1.texel(tex, k.0, k.1);
            let p2 = t2.texel(tex, k.0, k.1);
            if v.hit(t1, k.0, k.1) && v.hit(t2, k.0, k.1) {
                lemma_overwrites(c.pixel_mode, c.blend_factor, p0, p1);
                lemma_overwrites(c.pixel_mode, c.blend_factor, p0, p2);
                lemma_overwrites(
                    c.pixel_mode,
                    c.blend_factor,
                    blend(c.pixel_mode, c.blend_factor, p0, p1),
                    p2,
                );
                lemma_overwrites(
                    c.pixel_mode,
                    c.blend_factor,
                    blend(c.pixel_mode, c.blend_factor, p0, p2),
                    p1,
                );
            }
        }
        assert(c12.target().at =~= c21.target().at);
        assert(c12.layers =~= c21.layers);
    }
}

/// What [`Pipeline::render_screen`] leaves of a list of two triangles,
/// written out.
pub proof fn lemma_rendered_pair(
    c: Canvas,
    v: PipelineView,
    t1: ScreenTriangle,
    t2: ScreenTriangle,
    tex: Image,
)
    requires
        c.wf(),
    ensures
        v.shaded_all(seq![t1, t2]) == v.shaded(t1).shaded(t2),
        rendered(c, v, seq![t1, t2], tex) == c.painted(
            |x: int, y: int| v.fragment(t1, tex, x, y),
        ).painted(|x: int, y: int| v.shaded(t1).fragment(t2, tex, x, y)),
{
    let both = seq![t1, t2];
    let one = seq![t1];
    assert(both.drop_last() =~= one);
    assert(one.drop_last() =~= Seq::<ScreenTriangle>::empty());
    reveal_with_fuel(PipelineView::shaded_all, 3);
    reveal_with_fuel(rendered, 3);
    assert(v.shaded_all(one) == v.shaded(t1));
    assert(v.shaded_all(both) == v.shaded(t1).shaded(t2));
    assert(v.shaded_all(one.drop_last()) == v);
    lemma_painted_same(
        c,
        |x: int, y: int| v.shaded_all(one.drop_last()).fragment(one.last(), tex, x, y),
        |x: int, y: int| v.fragment(t1, tex, x, y),
    );
    lemma_painted_same(
        c.painted(|x: int, y: int| v.fragment(t1, tex, x, y)),
        |x: int, y: int| v.shaded_all(both.drop_last()).fragment(both.last(), tex, x, y),
        |x: int, y: int| v.shaded(t1).fragment(t2, tex, x, y),
    );
}

/// Rendering two triangles in either order gives the same picture and the
/// same depths, under the conditions of [`lemma_order_independent`].
pub proof fn lemma_render_order(
    c: Canvas,
    v: PipelineView,
    t1: ScreenTriangle,
    t2: ScreenTriangle,
    tex: Image,
)
    requires
        c.wf(),
        forall|x: int, y: int|
            #![trigger v.hit(t1, x, y), v.hit(t2, x, y)]
            v.hit(t1, x, y) && v.hit(t2, x, y) ==> {
                &&& overwrites(c.pixel_mode, c.blend_factor, t1.texel(tex, x, y))
                &&& overwrites(c.pixel_mode, c.blend_factor, t2.texel(tex, x, y))
                &&& t1.depth_at(x, y) == t2.depth_at(x, y) ==> t1.texel(tex, x, y) == t2.texel(
                    tex,
                    x,
                    y,
                )
            },
    ensures
        v.shaded_all(seq![t1, t2]) == v.shaded_all(seq![t2, t1]),
        rendered(c, v, seq![t1, t2], tex) == rendered(c, v, seq![t2, t1], tex),
{
    lemma_rendered_pair(c, v, t1, t2, tex);
    lemma_rendered_pair(c, v, t2, t1, tex);
    lemma_order_independent(c, v, t1, t2, tex);
}

/// The nearer of two triangles stays visible: at a pixel that both cover,
/// where one is nearer than the other and than what the buffer holds, and
/// its write is opaque, the buffer ends with its depth and the picture with
/// its colour, whichever of the two is filled first.
pub proof fn lemma_nearer_wins(
    c: Canvas,
    v: PipelineView,
    near: ScreenTriangle,
    far: ScreenTriangle,
    tex: Image,
    x: int,
    y: int,
)
    requires
        c.wf(),
        c.has_target(),
        c.target().contains(x, y),
        v.contains(x, y),
        near.covers(x, y),
        far.covers(x, y),
        near.depth_at(x, y) > far.depth_at(x, y),
        near.depth_at(x, y) > v.depth[(x, y)],
        overwrites(c.pixel_mode, c.blend_factor, near.texel(tex, x, y)),
    ensures
        v.shaded_all(seq![near, far]).depth[(x, y)] == near.depth_at(x, y),
        v.shaded_all(seq![far, near]).depth[(x, y)] == near.depth_at(x, y),
        rendered(c, v, seq![near, far], tex).target().get(x, y) == near.texel(tex, x, y),
        rendered(c, v, seq![far, near], tex).target().get(x, y) == near.texel(tex, x, y),
{
    lemma_rendered_pair(c, v, near, far, tex);
    lemma_rendered_pair(c, v, far, near, tex);
    let p = near.texel(tex, x, y);
    let first_far = c.painted(|px: int, py: int| v.fragment(far, tex, px, py));
    lemma_overwrites(c.pixel_mode, c.blend_factor, c.target().at[(x, y)], p);
    lemma_overwrites(c.pixel_mode, c.blend_factor, first_far.target().at[(x, y)], p);
    assert(v.hit(near, x, y));
    assert(v.shaded(far).hit(near, x, y));
    assert(!v.shaded(near).hit(far, x, y));
}

/// Where only one of two triangles covers a pixel, that one shows: if it
/// is nearer there than what the buffer holds, and its write is opaque, the
/// buffer ends with its depth and the picture with its colour, whichever of
/// the two is filled first.
pub proof fn lemma_lone_triangle_shows(
    c: Canvas,
    v: PipelineView,
    lone: ScreenTriangle,
    other: ScreenTriangle,
    tex: Image,
    x: int,
    y: int,
)
    requires
        c.wf(),
        c.has_target(),
        c.target().contains(x, y),
        v.contains(x, y),
        lone.covers(x, y),
        !other.covers(x, y),
        lone.depth_at(x, y) > v.depth[(x, y)],
        overwrites(c.pixel_mode, c.blend_factor, lone.texel(tex, x, y)),
    ensures
        v.shaded_all(seq![lone, other]).depth[(x, y)] == lone.depth_at(x, y),
        v.shaded_all(seq![other, lone]).depth[(x, y)] == lone.depth_at(x, y),
        rendered(c, v, seq![lone, other], tex).target().get(x, y) == lone.texel(tex, x, y),
        rendered(c, v, seq![other, lone], tex).target().get(x, y) == lone.texel(tex, x, y),
{
    lemma_rendered_pair(c, v, lone, other, tex);
    lemma_rendered_pair(c, v, other, lone, tex);
    let p = lone.texel(tex, x, y);
    let first_other = c.painted(|px: int, py: int| v.fragment(other, tex, px, py));
    lemma_overwrites(c.pixel_mode, c.blend_factor, c.target().at[(x, y)], p);
    lemma_overwrites(c.pixel_mode, c.blend_factor, first_other.target().at[(x, y)], p);
    assert(v.hit(lone, x, y));
    assert(!v.hit(other, x, y));
    assert(v.shaded(other).hit(lone, x, y));
    assert(!v.shaded(lone).hit(other, x, y));
}

/// A depth in the buffer is what it was, or the depth there of one of the
/// triangles filled that covers the position.
pub proof fn lemma_depth_source(v: PipelineView, ts: Seq<ScreenTriangle>, x: int, y: int)
    requires
        v.contains(x, y),
    ensures
        v.shaded_all(ts).contains(x, y),
        v.shaded_all(ts).depth[(x, y)] == v.depth[(x, y)] || exists|j: int|
            0 <= j < ts.len() && (#[trigger] ts[j]).covers(x, y) && v.shaded_all(ts).depth[(x, y)]
                == ts[j].depth_at(x, y),
    decreases ts.len(),
{
    if ts.len() > 0 {
        let rest = ts.drop_last();
        lemma_depth_source(v, rest, x, y);
        let before = v.shaded_all(rest);
        if before.hit(ts.last(), x, y) {
            assert(ts[ts.len() - 1].covers(x, y));
        } else if before.depth[(x, y)] != v.depth[(x, y)] {
            let j = choose|j: int|
                0 <= j < rest.len() && (#[trigger] rest[j]).covers(x, y) && before.depth[(x, y)]
                    == rest[j].depth_at(x, y);
            assert(ts[j] == rest[j]);
        }
    }
}

/// Among any number of triangles the nearest shows: at a pixel that a
/// triangle of the list covers, where it is nearer than what the buffer
/// holds and than every other triangle of the list that covers the pixel,
/// and its write is opaque, the buffer ends with its depth and the picture
/// with its colour, wherever in the list the triangle stands. The list may
/// be the screen triangles of a mesh, as [`PipelineView::on_screen_all`]
/// gives them.
pub proof fn lemma_nearest_shows(
    c: Canvas,
    v: PipelineView,
    ts: Seq<ScreenTriangle>,
    tex: Image,
    k: int,
    x: int,
    y: int,
)
    requires
        c.wf(),
        c.has_target(),
        c.target().contains(x, y),
        v.contains(x, y),
        0 <= k < ts.len(),
        ts[k].covers(x, y),
        ts[k].depth_at(x, y) > v.depth[(x, y)],
        forall|j: int|
            0 <= j < ts.len() && j != k && (#[trigger] ts[j]).covers(x, y) ==> ts[j].depth_at(x, y)
                < ts[k].depth_at(x, y),
        overwrites(c.pixel_mode, c.blend_factor, ts[k].texel(tex, x, y)),
    ensures
        v.shaded_all(ts).depth[(x, y)] == ts[k].depth_at(x, y),
        rendered(c, v, ts, tex).has_target(),
        rendered(c, v, ts, tex).target().contains(x, y),
        rendered(c, v, ts, tex).target().get(x, y) == ts[k].texel(tex, x, y),
    decreases ts.len(),
{
    let rest = ts.drop_last();
    let last = ts.last();
    let before = v.shaded_all(rest);
    let canvas = rendered(c, v, rest, tex);
    lemma_rendered_keeps(c, v, rest, tex);
    lemma_rendered_target(c, v, rest, tex, x, y);
    lemma_depth_source(v, rest, x, y);
    assert(forall|j: int| 0 <= j < rest.len() ==> (#[trigger] rest[j]) == ts[j]);
    if k == ts.len() - 1 {
        assert(before.hit(last, x, y));
        lemma_overwrites(
            c.pixel_mode,
            c.blend_factor,
            canvas.target().at[(x, y)],
            last.texel(tex, x, y),
        );
    } else {
        assert(rest[k] == ts[k]);
        lemma_nearest_shows(c, v, rest, tex, k, x, y);
        assert(ts[ts.len() - 1] == last);
        assert(!before.hit(last, x, y));
    }
}

/// Filling triangles leaves the draw target where it is, and as large as
/// it is.
proof fn lemma_rendered_target(
    c: Canvas,
    v: PipelineView,
    ts: Seq<ScreenTriangle>,
    tex: Image,
    x: int,
    y: int,
)
    requires
        c.has_target(),
    ensures
        rendered(c, v, ts, tex).has_target(),
        rendered(c, v, ts, tex).target().contains(x, y) == c.target().contains(x, y),
    decreases ts.len(),
{
    if ts.len() > 0 {
        lemma_rendered_target(c, v, ts.drop_last(), tex, x, y);
    }
}

/// Whether `t` has the corners `p`, `q` and `r`, in whatever order.
pub open spec fn has_corners(t: ScreenTriangle, p: Vertex, q: Vertex, r: Vertex) -> bool {
    ||| (t.a == p && t.b == q && t.c == r)
    ||| (t.a == q && t.b == r && t.c == p)
    ||| (t.a == r && t.b == p && t.c == q)
    ||| (t.a == p && t.b == r && t.c == q)
    ||| (t.a == r && t.b == q && t.c == p)
    ||| (t.a == q && t.b == p && t.c == r)
}

/// Naming a triangle from its second corner on changes nothing of what it
/// shows.
proof fn lemma_rotated_shows(t: ScreenTriangle, tex: Image, x: int, y: int)
    ensures
        t.rotated().area2() == t.area2(),
        t.rotated().covers(x, y) == t.covers(x, y),
        t.area2() != 0 ==> t.rotated().depth_at(x, y) == t.depth_at(x, y) && t.rotated().texel(
            tex,
            x,
            y,
        ) == t.texel(tex, x, y),
{
    crate::gfx3d::coverage::lemma_covers_any_order(t, x, y);
    crate::gfx3d::coverage::lemma_rotated(t, x, y);
    crate::gfx3d::coverage::lemma_rotated(t.front(), x, y);
    crate::gfx3d::coverage::lemma_rotated(t.front().rotated(), x, y);
    lemma_front(t);
}

/// Winding a triangle the other way changes nothing of what it shows.
proof fn lemma_flipped_shows(t: ScreenTriangle, tex: Image, x: int, y: int)
    ensures
        (ScreenTriangle { a: t.a, b: t.c, c: t.b }).area2() == -t.area2(),
        (ScreenTriangle { a: t.a, b: t.c, c: t.b }).covers(x, y) == t.covers(x, y),
        t.area2() != 0 ==> (ScreenTriangle { a: t.a, b: t.c, c: t.b }).depth_at(x, y) == t.depth_at(
            x,
            y,
        ) && (ScreenTriangle { a: t.a, b: t.c, c: t.b }).texel(tex, x, y) == t.texel(tex, x, y),
{
    crate::gfx3d::coverage::lemma_covers_any_order(t, x, y);
    lemma_front(t);
}

/// What a triangle shows belongs to the triangle, not to the order of its
/// corners: two triangles with the same corners cover the same pixels, and
/// where they have an area they have the same depth and show the same
/// texel everywhere.
pub proof fn lemma_shows_any_order(t: ScreenTriangle, s: ScreenTriangle, tex: Image, x: int, y: int)
    requires
        has_corners(t, s.a, s.b, s.c),
    ensures
        t.covers(x, y) == s.covers(x, y),
        s.area2() != 0 ==> t.depth_at(x, y) == s.depth_at(x, y) && t.texel(tex, x, y) == s.texel(
            tex,
            x,
            y,
        ),
{
    let turned = s.rotated();
    let flipped = ScreenTriangle { a: s.a, b: s.c, c: s.b };
    lemma_rotated_shows(s, tex, x, y);
    lemma_rotated_shows(turned, tex, x, y);
    lemma_flipped_shows(s, tex, x, y);
    lemma_rotated_shows(flipped, tex, x, y);
    lemma_rotated_shows(flipped.rotated(), tex, x, y);
    if t.a == s.a && t.b == s.b && t.c == s.c {
        assert(t == s);
    } else if t.a == s.b && t.b == s.c && t.c == s.a {
        assert(t == turned);
    } else if t.a == s.c && t.b == s.a && t.c == s.b {
        assert(t == turned.rotated());
    } else if t.a == s.a && t.b == s.c && t.c == s.b {
        assert(t == flipped);
    } else if t.a == s.c && t.b == s.b && t.c == s.a {
        assert(t == flipped.rotated());
    } else {
        assert(t == flipped.rotated().rotated());
    }
}

/// A pixel at which no triangle of a list is nearer than what the buffer
/// holds keeps its colour and its depth.
pub proof fn lemma_not_nearer_keeps(
    c: Canvas,
    v: PipelineView,
    ts: Seq<ScreenTriangle>,
    tex: Image,
    x: int,
    y: int,
)
    requires
        c.has_target(),
        v.contains(x, y),
        forall|k: int|
            0 <= k < ts.len() && (#[trigger] ts[k]).covers(x, y) ==> ts[k].depth_at(x, y)
                <= v.depth[(x, y)],
    ensures
        rendered(c, v, ts, tex).has_target(),
        rendered(c, v, ts, tex).target().contains(x, y) == c.target().contains(x, y),
        rendered(c, v, ts, tex).target().get(x, y) == c.target().get(x, y),
        v.shaded_all(ts).contains(x, y),
        v.shaded_all(ts).depth[(x, y)] == v.depth[(x, y)],
    decreases ts.len(),
{
    if ts.len() > 0 {
        assert(forall|k: int|
            0 <= k < ts.drop_last().len() ==> (#[trigger] ts.drop_last()[k]) == ts[k]);
        assert(ts.last() == ts[ts.len() - 1]);
        lemma_not_nearer_keeps(c, v, ts.drop_last(), tex, x, y);
        assert(!v.shaded_all(ts.drop_last()).hit(ts.last(), x, y));
    }
}

/// Whether two screen triangles may be filled in either order, whatever
/// the depths: wherever both cover a pixel, the writes of both are opaque
/// under the pixel mode, and where they are equally near there they hand
/// over the same colour.
pub open spec fn commute(
    mode: PixelMode,
    factor: u8,
    t1: ScreenTriangle,
    t2: ScreenTriangle,
    tex: Image,
) -> bool {
    forall|x: int, y: int|
        #![trigger t1.covers(x, y), t2.covers(x, y)]
        t1.covers(x, y) && t2.covers(x, y) ==> {
            &&& overwrites(mode, factor, t1.texel(tex, x, y))
            &&& overwrites(mode, factor, t2.texel(tex, x, y))
            &&& t1.depth_at(x, y) == t2.depth_at(x, y) ==> t1.texel(tex, x, y) == t2.texel(
                tex,
                x,
                y,
            )
        }
}

/// Filling triangles leaves a canvas well formed, and leaves its pixel mode
/// and blend factor as they are.
pub proof fn lemma_rendered_keeps(c: Canvas, v: PipelineView, ts: Seq<ScreenTriangle>, tex: Image)
    requires
        c.wf(),
    ensures
        rendered(c, v, ts, tex).wf(),
        rendered(c, v, ts, tex).pixel_mode == c.pixel_mode,
        rendered(c, v, ts, tex).blend_factor == c.blend_factor,
    decreases ts.len(),
{
    if ts.len() > 0 {
        lemma_rendered_keeps(c, v, ts.drop_last(), tex);
    }
}

/// A triangle that may change places with each triangle of a list may be
/// filled before the list instead of after it.
pub proof fn lemma_move_to_front(
    c: Canvas,
    v: PipelineView,
    ts: Seq<ScreenTriangle>,
    b: ScreenTriangle,
    tex: Image,
)
    requires
        c.wf(),
        forall|i: int|
            0 <= i < ts.len() ==> commute(c.pixel_mode, c.blend_factor, #[trigger] ts[i], b, tex),
    ensures
        v.shaded_all(ts.push(b)) == v.shaded_all(seq![b] + ts),
        rendered(c, v, ts.push(b), tex) == rendered(c, v, seq![b] + ts, tex),
    decreases ts.len(),
{
    if ts.len() == 0 {
        assert(ts.push(b) =~= seq![b] + ts);
    } else {
        let rest = ts.drop_last();
        let a = ts.last();
        let c1 = rendered(c, v, rest, tex);
        let v1 = v.shaded_all(rest);
        lemma_rendered_keeps(c, v, rest, tex);
        assert(commute(c.pixel_mode, c.blend_factor, a, b, tex));
        lemma_render_order(c1, v1, a, b, tex);
        lemma_rendered_concat(c, v, rest, seq![a, b], tex);
        lemma_rendered_concat(c, v, rest, seq![b, a], tex);
        assert(ts.push(b) =~= rest + seq![a, b]);
        assert(rest + seq![b, a] =~= rest.push(b) + seq![a]);
        lemma_rendered_concat(c, v, rest.push(b), seq![a], tex);
        assert(forall|i: int| 0 <= i < rest.len() ==> rest[i] == ts[i]);
        lemma_move_to_front(c, v, rest, b, tex);
        lemma_rendered_concat(c, v, seq![b] + rest, seq![a], tex);
        assert((seq![b] + rest) + seq![a] =~= seq![b] + ts);
    }
}

/// Two lists of triangles of which each of the one may change places with
/// each of the other may be filled in either order of the lists: the depths
/// and the picture come out the same.
pub proof fn lemma_lists_order(
    c: Canvas,
    v: PipelineView,
    first: Seq<ScreenTriangle>,
    second: Seq<ScreenTriangle>,
    tex: Image,
)
    requires
        c.wf(),
        forall|i: int, j: int|
            0 <= i < first.len() && 0 <= j < second.len() ==> commute(
                c.pixel_mode,
                c.blend_factor,
                #[trigger] first[i],
                #[trigger] second[j],
                tex,
            ),
    ensures
        v.shaded_all(first + second) == v.shaded_all(second + first),
        rendered(c, v, first + second, tex) == rendered(c, v, second + first, tex),
    decreases second.len(),
{
    if second.len() == 0 {
        assert(first + second =~= second + first);
    } else {
        let rest = second.drop_last();
        let b = second.last();
        assert(forall|j: int| 0 <= j < rest.len() ==> rest[j] == second[j]);
        lemma_lists_order(c, v, first, rest, tex);
        assert(first + second =~= (first + rest) + seq![b]);
        lemma_rendered_concat(c, v, first + rest, seq![b], tex);
        lemma_rendered_concat(c, v, rest + first, seq![b], tex);
        assert((rest + first) + seq![b] =~= rest + first.push(b));
        lemma_rendered_concat(c, v, rest, first.push(b), tex);
        let c2 = rendered(c, v, rest, tex);
        let v2 = v.shaded_all(rest);
        lemma_rendered_keeps(c, v, rest, tex);
        assert forall|i: int| 0 <= i < first.len() implies commute(
            c2.pixel_mode,
            c2.blend_factor,
            #[trigger] first[i],
            b,
            tex,
        ) by {
            assert(b == second[second.len() - 1]);
        }
        lemma_move_to_front(c2, v2, first, b, tex);
        lemma_rendered_concat(c, v, rest, seq![b] + first, tex);
        assert(rest + (seq![b] + first) =~= second + first);
    }
}

/// Rendering two triangles of a mesh in either order gives the same
/// picture and the same depths, whatever clipping makes of them: it is
/// enough that each screen triangle of the one may change places with each
/// of the other.
pub proof fn lemma_mesh_order(
    c: Canvas,
    v: PipelineView,
    n: Triangle,
    f: Triangle,
    tex: Image,
)
    requires
        c.wf(),
        forall|i: int, j: int|
            0 <= i < v.on_screen(n).len() && 0 <= j < v.on_screen(f).len() ==> commute(
                c.pixel_mode,
                c.blend_factor,
                #[trigger] v.on_screen(n)[i],
                #[trigger] v.on_screen(f)[j],
                tex,
            ),
    ensures
        v.shaded_all(v.on_screen_all(seq![n, f])) == v.shaded_all(v.on_screen_all(seq![f, n])),
        rendered(c, v, v.on_screen_all(seq![n, f]), tex) == rendered(
            c,
            v,
            v.on_screen_all(seq![f, n]),
            tex,
        ),
{
    lemma_on_screen_pair(v, n, f);
    lemma_on_screen_pair(v, f, n);
    lemma_lists_order(c, v, v.on_screen(n), v.on_screen(f), tex);
}

/// The screen triangles of a mesh of two triangles are those of the first
/// and then those of the second.
proof fn lemma_on_screen_pair(v: PipelineView, n: Triangle, f: Triangle)
    ensures
        v.on_screen_all(seq![n, f]) == v.on_screen(n) + v.on_screen(f),
{
    let both = seq![n, f];
    let one = seq![n];
    assert(both.drop_last() =~= one);
    assert(one.drop_last() =~= Seq::<Triangle>::empty());
    reveal_with_fuel(PipelineView::on_screen_all, 3);
    assert(v.on_screen_all(one) =~= v.on_screen(n));
    assert(v.on_screen_all(both) =~= v.on_screen(n) + v.on_screen(f));
}

/// The corner on the screen at the pixel `(x, y)` with the texture
/// coordinate `(u, v, w)`.
pub open spec fn corner_of(x: i32, y: i32, u: Fixed, v: Fixed, w: Fixed) -> Vertex {
    Vertex { x, y, u: attribute_of(u), v: attribute_of(v), w: attribute_of(w) }
}

/// The state that persists from frame to frame: the projection, the view
/// and the world transform, the viewport, the near plane, a texture, and the
/// depth buffer.
pub struct Pipeline {
    proj: Mat4x4,
    view: Mat4x4,
    world: Mat4x4,
    texture: Sprite,
    viewport: Viewport,
    near: Fixed,
    width: usize,
    height: usize,
    depth_buffer: Vec<i32>,
}

impl View for Pipeline {
    type V = PipelineView;

    closed spec fn view(&self) -> PipelineView {
        PipelineView {
            width: self.width as nat,
            height: self.height as nat,
            depth: Map::new(
                |k: (int, int)| 0 <= k.0 < self.width && 0 <= k.1 < self.height,
                |k: (int, int)| self.depth_buffer@[k.1 * self.width + k.0] as int,
            ),
            texture: self.texture@,
            proj: self.proj,
            view: self.view,
            world: self.world,
            viewport: self.viewport,
            near: self.near,
        }
    }
}

impl Pipeline {
    /// The buffer holds one depth, not negative, for each of its positions,
    /// and the texture is well formed.
    pub closed spec fn wf(&self) -> bool {
        &&& self.depth_buffer@.len() == self.width * self.height
        &&& forall|i: int| 0 <= i < self.depth_buffer@.len() ==> self.depth_buffer@[i] >= 0
        &&& self.texture.wf()
    }

    /// The view of a well-formed pipeline is well formed: it has a depth
    /// exactly at the positions of the buffer, none negative, and its
    /// texture has a pixel exactly at its positions.
    pub proof fn lemma_view(&self)
        requires
            self.wf(),
        ensures
            self@.wf(),
            self@.texture.wf(),
    {
        assert forall|k: (int, int)| self@.contains(k.0, k.1) implies (#[trigger] self@.depth[k])
            >= 0 by {
            lemma_index(self.width as int, self.height as int, k.0, k.1);
        }
    }

    /// A pipeline for a screen of the given size, with every depth at the far
    /// end, an empty texture, all transforms the identity, and a viewport
    /// and a near plane of zero.
    pub fn new(width: usize, height: usize) -> (p: Pipeline)
        requires
            width * height <= usize::MAX,
        ensures
            p.wf(),
            p@.width == width,
            p@.height == height,
            p@ == p@.cleared(),
            p@.texture == (Image {
                width: 0,
                height: 0,
                mode: crate::sprite::Mode::Normal,
                at: Map::<(int, int), Pixel>::empty(),
            }),
            p@.proj == Mat4x4::make_identity(),
            p@.view == Mat4x4::make_identity(),
            p@.world == Mat4x4::make_identity(),
            p@.viewport == (Viewport {
                x: Fixed::zero(),
                y: Fixed::zero(),
                w: Fixed::zero(),
                h: Fixed::zero(),
            }),
            p@.near == Fixed::zero(),
    {
        let depth_buffer = vec![0i32; width * height];
        let texture = Sprite::new(0, 0);
        let p = Pipeline {
            proj: Mat4x4::make_identity(),
            view: Mat4x4::make_identity(),
            world: Mat4x4::make_identity(),
            texture,
            viewport: Viewport {
                x: Fixed::zero(),
                y: Fixed::zero(),
                w: Fixed::zero(),
                h: Fixed::zero(),
            },
            near: Fixed::zero(),
            width,
            height,
            depth_buffer,
        };
        proof {
            assert forall|k: (int, int)| 0 <= k.0 < width && 0 <= k.1 < height implies p.depth_buffer@[k.1
                * width + k.0] == 0 by {
                lemma_index(width as int, height as int, k.0, k.1);
            }
            assert(p@.depth =~= p@.cleared().depth);
            assert(p@.texture.at =~= Map::<(int, int), Pixel>::empty());
        }
        p
    }

    /// Sets every depth back to `0`, the far end. Due once per frame.
    pub fn clear_depth(&mut self)
        requires
            old(self).wf(),
        ensures
            final(self).wf(),
            final(self)@ == old(self)@.cleared(),
    {
        let n = self.depth_buffer.len();
        let mut i: usize = 0;
        while i < n
            invariant
                i <= n,
                n == self.depth_buffer@.len(),
                self.width == old(self).width,
                self.height == old(self).height,
                self.texture == old(self).texture,
                self.proj == old(self).proj,
                self.view == old(self).view,
                self.world == old(self).world,
                self.viewport == old(self).viewport,
                self.near == old(self).near,
                self.depth_buffer@.len() == self.width * self.height,
                forall|k: int| 0 <= k < i ==> self.depth_buffer@[k] == 0,
                forall|k: int| 0 <= k < n ==> self.depth_buffer@[k] >= 0,
            decreases n - i,
        {
            self.depth_buffer.set(i, 0);
            i = i + 1;
        }
        proof {
            assert forall|k: (int, int)| 0 <= k.0 < self.width && 0 <= k.1 < self.height implies self.depth_buffer@[k.1
                * self.width + k.0] == 0 by {
                lemma_index(self.width as int, self.height as int, k.0, k.1);
            }
            assert(self@.depth =~= old(self)@.cleared().depth);
        }
    }

    /// Sets the projection and the viewport: a vertical field of view in
    /// degrees, the aspect ratio, the near and the far plane, and the
    /// viewport's corner and size on the screen. The near plane is to lie
    /// in front of the eye and the far plane beyond it, and the field of
    /// view between 0 and 180 degrees; nothing checks it.
    pub fn set_projection(
        &mut self,
        fov_degrees: Fixed,
        aspect_ratio: Fixed,
        near: Fixed,
        far: Fixed,
        left: Fixed,
        top: Fixed,
        width: Fixed,
        height: Fixed,
    )
        requires
            old(self).wf(),
        ensures
            final(self).wf(),
            final(self)@ == (PipelineView {
                proj: Mat4x4::make_projection(fov_degrees, aspect_ratio, near, far),
                viewport: Viewport { x: left, y: top, w: width, h: height },
                near: near,
                ..old(self)@
            }),
    {
        self.proj = Mat4x4::make_projection(fov_degrees, aspect_ratio, near, far);
        self.viewport = Viewport { x: left, y: top, w: width, h: height };
        self.near = near;
        proof {
            assert(self@.depth =~= old(self)@.depth);
        }
    }

    /// Sets the camera: the view transform becomes the inverse of the
    /// camera's placement at `pos`, looking at `look_at`.
    pub fn set_camera(&mut self, pos: Vec3d, look_at: Vec3d, up: Vec3d)
        requires
            old(self).wf(),
        ensures
            final(self).wf(),
            final(self)@ == (PipelineView {
                view: Mat4x4::make_point_at(pos, look_at, up).inverse(),
                ..old(self)@
            }),
    {
        let t = Mat4x4::make_point_at(pos, look_at, up);
        self.view = t.inverse();
        proof {
            assert(self@.depth =~= old(self)@.depth);
        }
    }

    /// Sets the transform that places the mesh in the world.
    pub fn set_transform(&mut self, transform: Mat4x4)
        requires
            old(self).wf(),
        ensures
            final(self).wf(),
            final(self)@ == (PipelineView { world: transform, ..old(self)@ }),
    {
        self.world = transform;
        proof {
            assert(self@.depth =~= old(self)@.depth);
        }
    }

    /// Takes a copy of the texture.
    pub fn set_texture(&mut self, texture: &Sprite)
        requires
            old(self).wf(),
            texture.wf(),
        ensures
            final(self).wf(),
            final(self)@ == (PipelineView { texture: texture@, ..old(self)@ }),
    {
        self.texture = texture.clone();
        proof {
            assert(self.texture@.at =~= texture@.at);
            assert(self@.depth =~= old(self)@.depth);
        }
    }

    /// The depth held at `(x, y)`; `0` outside the buffer.
    pub fn depth(&self, x: i32, y: i32) -> (d: i32)
        requires
            self.wf(),
        ensures
            d == (if self@.contains(x as int, y as int) {
                self@.depth[(x as int, y as int)]
            } else {
                0
            }),
    {
        if x >= 0 && y >= 0 && (x as u32 as usize) < self.width && (y as u32 as usize) < self.height {
            proof {
                lemma_index(self.width as int, self.height as int, x as int, y as int);
                assert(self.depth_buffer@.len() == self.depth_buffer.len());
                assert(y * self.width <= y * self.width + x);
            }
            self.depth_buffer[(y as usize) * self.width + (x as usize)]
        } else {
            0
        }
    }
}

/// Inside a triangle an interpolated attribute stays between bounds that it
/// keeps at the corners.
pub proof fn lemma_interpolate_bounds(
    t: ScreenTriangle,
    ka: int,
    kb: int,
    kc: int,
    x: int,
    y: int,
    lo: int,
    hi: int,
)
    requires
        t.owns(x, y),
        lo <= ka <= hi,
        lo <= kb <= hi,
        lo <= kc <= hi,
    ensures
        lo <= t.interpolate(ka, kb, kc, x, y) <= hi,
        lo * t.area2() <= t.weighted_sum(ka, kb, kc, x, y) <= hi * t.area2(),
{
    let (wa, wb, wc) = (t.weight_a(x, y), t.weight_b(x, y), t.weight_c(x, y));
    lemma_weights_sum(t, x, y);
    assert(wa * lo <= wa * ka <= wa * hi) by (nonlinear_arith)
        requires
            wa >= 0,
            lo <= ka <= hi,
    ;
    assert(wb * lo <= wb * kb <= wb * hi) by (nonlinear_arith)
        requires
            wb >= 0,
            lo <= kb <= hi,
    ;
    assert(wc * lo <= wc * kc <= wc * hi) by (nonlinear_arith)
        requires
            wc >= 0,
            lo <= kc <= hi,
    ;
    assert(wa * lo + wb * lo + wc * lo == lo * (wa + wb + wc)) by (nonlinear_arith);
    assert(wa * hi + wb * hi + wc * hi == hi * (wa + wb + wc)) by (nonlinear_arith);
    lemma_div_between(wa * ka + wb * kb + wc * kc, t.area2(), lo, hi);
}

/// The numerator of an interpolated attribute.
fn weighted(wa: i128, wb: i128, wc: i128, ka: i32, kb: i32, kc: i32) -> (n: i128)
    requires
        -0x2_0000_0000_0000_0000 <= wa <= 0x2_0000_0000_0000_0000,
        -0x2_0000_0000_0000_0000 <= wb <= 0x2_0000_0000_0000_0000,
        -0x2_0000_0000_0000_0000 <= wc <= 0x2_0000_0000_0000_0000,
    ensures
        n == wa * ka + wb * kb + wc * kc,
        -0x4_0000_0000_0000_0000_0000_0000 <= n <= 0x4_0000_0000_0000_0000_0000_0000,
{
    proof {
        lemma_mul_bound(wa as int, ka as int, 0x2_0000_0000_0000_0000, 0x8000_0000);
        lemma_mul_bound(wb as int, kb as int, 0x2_0000_0000_0000_0000, 0x8000_0000);
        lemma_mul_bound(wc as int, kc as int, 0x2_0000_0000_0000_0000, 0x8000_0000);
    }
    wa * (ka as i128) + wb * (kb as i128) + wc * (kc as i128)
}

impl Pipeline {
    /// Depth-tests and writes the one pixel `(x, y)` of a triangle of
    /// positive area, given its weights there.
    fn shade(
        &mut self,
        pge: &mut PGE,
        t: &ScreenTriangle,
        area: i128,
        wa: i128,
        wb: i128,
        wc: i128,
        x: i64,
        y: i64,
        tex: &Sprite,
    )
        requires
            old(self).wf(),
            old(pge).wf(),
            tex.wf(),
            area == t.area2(),
            area > 0,
            wa == t.weight_a(x as int, y as int),
            wb == t.weight_b(x as int, y as int),
            wc == t.weight_c(x as int, y as int),
            0 <= x < old(self).width,
            0 <= y < old(self).height,
            x <= 0x7fff_ffff,
            y <= 0x7fff_ffff,
        ensures
            final(self).wf(),
            final(pge).wf(),
            final(self)@ == (PipelineView {
                depth: if old(self)@.hit(*t, x as int, y as int) {
                    old(self)@.depth.insert((x as int, y as int), t.depth_at(x as int, y as int))
                } else {
                    old(self)@.depth
                },
                ..old(self)@
            }),
            final(pge)@ == (match old(self)@.fragment(*t, tex@, x as int, y as int) {
                Some(p) => old(pge)@.drawn(x as int, y as int, p),
                None => old(pge)@,
            }),
    {
        proof {
            lemma_edge_bound(t.b, t.c, x as int, y as int);
            lemma_edge_bound(t.c, t.a, x as int, y as int);
            lemma_edge_bound(t.a, t.b, x as int, y as int);
            lemma_weights_sum(*t, x as int, y as int);
            assert(self@.depth =~= old(self)@.depth);
        }
        let pass_a = wa > 0 || (wa == 0 && is_top_left(&t.b, &t.c));
        let pass_b = wb > 0 || (wb == 0 && is_top_left(&t.c, &t.a));
        let pass_c = wc > 0 || (wc == 0 && is_top_left(&t.a, &t.b));
        if !(pass_a && pass_b && pass_c) {
            return ;
        }
        assert(t.owns(x as int, y as int));
        let nw = weighted(wa, wb, wc, t.a.w, t.b.w, t.c.w);
        proof {
            lemma_index(self.width as int, self.height as int, x as int, y as int);
            assert(self.depth_buffer@.len() == self.depth_buffer.len());
            assert(y * self.width <= y * self.width + x);
            lemma_interpolate_bounds(
                *t,
                t.a.w as int,
                t.b.w as int,
                t.c.w as int,
                x as int,
                y as int,
                -0x8000_0000,
                0x7fff_ffff,
            );
        }
        let i: usize = (y as usize) * self.width + (x as usize);
        let stored: i32 = self.depth_buffer[i];
        if nw <= 0 {
            proof {
                lemma_div_between(nw as int, area as int, -0x8000_0000, 0);
            }
            return ;
        }
        let d: i128 = nw / area;
        if d <= stored as i128 {
            return ;
        }
        let nu = weighted(wa, wb, wc, t.a.u, t.b.u, t.c.u);
        let nv = weighted(wa, wb, wc, t.a.v, t.b.v, t.c.v);
        proof {
            lemma_edge_bound(t.a, t.b, t.c.x as int, t.c.y as int);
            lemma_interpolate_bounds(
                *t,
                t.a.u as int,
                t.b.u as int,
                t.c.u as int,
                x as int,
                y as int,
                -0x8000_0000,
                0x8000_0000,
            );
            lemma_interpolate_bounds(
                *t,
                t.a.v as int,
                t.b.v as int,
                t.c.v as int,
                x as int,
                y as int,
                -0x8000_0000,
                0x8000_0000,
            );
            lemma_interpolate_bounds(
                *t,
                t.a.w as int,
                t.b.w as int,
                t.c.w as int,
                x as int,
                y as int,
                -0x8000_0000,
                0x8000_0000,
            );
            lemma_mul_bound(0x8000_0000, area as int, 0x8000_0000, 0x2_0000_0000_0000_0000);
            assert((-0x8000_0000) * area == -(0x8000_0000 * area)) by (nonlinear_arith);
        }
        let s = tex.sample_ratio(nu, nv, nw);
        pge.draw(x as i32, y as i32, &s);
        self.depth_buffer.set(i, d as i32);
        proof {
            let w = self.width as int;
            assert forall|k: (int, int)| 0 <= k.0 < self.width && 0 <= k.1 < self.height implies
                self.depth_buffer@[k.1 * w + k.0] == (if k == (x as int, y as int) {
                    d as i32
                } else {
                    old(self).depth_buffer@[k.1 * w + k.0]
                }) by {
                lemma_index(w, self.height as int, k.0, k.1);
                if k.1 * w + k.0 == y * w + x {
                    lemma_index_injective(w, k.0, k.1, x as int, y as int);
                }
            }
            assert(self@.depth =~= old(self)@.depth.insert(
                (x as int, y as int),
                t.depth_at(x as int, y as int),
            ));
        }
    }
}

impl Pipeline {
    /// Fills one textured triangle, given as the rasteriser takes it, into
    /// the draw target of `pge`, with perspective-correct texturing and the
    /// depth test.
    ///
    /// The triangle may be wound either way; one without area draws nothing.
    /// Each position of the depth buffer that the triangle covers and where
    /// it is strictly nearer than the buffer gets the triangle's depth, and
    /// its texel is handed to the surface there. Everything else is left as
    /// it was.
    pub fn rasterize(
        &mut self,
        pge: &mut PGE,
        a: &Vertex,
        b: &Vertex,
        c: &Vertex,
        tex: &Sprite,
    )
        requires
            old(self).wf(),
            old(pge).wf(),
            tex.wf(),
        ensures
            final(self).wf(),
            final(pge).wf(),
            final(self)@ == old(self)@.shaded(ScreenTriangle { a: *a, b: *b, c: *c }),
            final(pge)@ == old(pge)@.painted(
                |x: int, y: int|
                    old(self)@.fragment(ScreenTriangle { a: *a, b: *b, c: *c }, tex@, x, y),
            ),
    {
        let ghost t0 = ScreenTriangle { a: *a, b: *b, c: *c };
        let ghost v0 = self@;
        let ghost c0 = pge@;
        let ghost paint = |x: int, y: int| v0.fragment(t0, tex@, x, y);
        let t = (ScreenTriangle { a: *a, b: *b, c: *c }).facing();
        let area = edge_value(&t.a, &t.b, t.c.x as i64, t.c.y as i64);
        let x0 = clamp_low(min3(t.a.x, t.b.x, t.c.x));
        let x1 = clamp_high(max3(t.a.x, t.b.x, t.c.x), self.width);
        let y0 = clamp_low(min3(t.a.y, t.b.y, t.c.y));
        let y1 = clamp_high(max3(t.a.y, t.b.y, t.c.y), self.height);
        proof {
            lemma_front(t0);
            assert(t.front() == t);
            assert forall|px: int, py: int| v0.hit(t0, px, py) implies x0 <= px < x1 && y0 <= py
                < y1 by {
                lemma_owns_in_box(t, px, py);
            }
        }
        if area <= 0 || x0 >= x1 || y0 >= y1 {
            proof {
                assert(self@.depth =~= v0.shaded(t0).depth);
                lemma_painted_nothing(c0, paint);
            }
            return ;
        }
        let step_ax: i128 = (t.b.y as i128) - (t.c.y as i128);
        let step_ay: i128 = (t.c.x as i128) - (t.b.x as i128);
        let step_bx: i128 = (t.c.y as i128) - (t.a.y as i128);
        let step_by: i128 = (t.a.x as i128) - (t.c.x as i128);
        let step_cx: i128 = (t.a.y as i128) - (t.b.y as i128);
        let step_cy: i128 = (t.b.x as i128) - (t.a.x as i128);
        let mut row_a = edge_value(&t.b, &t.c, x0, y0);
        let mut row_b = edge_value(&t.c, &t.a, x0, y0);
        let mut row_c = edge_value(&t.a, &t.b, x0, y0);
        let mut y: i64 = y0;
        proof {
            assert(self@.depth =~= v0.shaded_in(
                t0,
                |px: int, py: int| scanned(x0 as int, x1 as int, y0 as int, x0 as int, y as int, px, py),
            ).depth);
            lemma_scan_start(c0, paint, x0 as int, x1 as int, y0 as int);
        }
        while y < y1
            invariant
                self.wf(),
                pge.wf(),
                tex.wf(),
                c0.wf(),
                t == t0.front(),
                t.front() == t,
                area == t.area2(),
                area > 0,
                v0.width == self.width,
                v0.height == self.height,
                0 <= x0 < x1 <= self.width,
                x1 <= 0x7fff_ffff,
                0 <= y0 <= y <= y1 <= self.height,
                y1 <= 0x7fff_ffff,
                step_ax == t.b.y - t.c.y,
                step_ay == t.c.x - t.b.x,
                step_bx == t.c.y - t.a.y,
                step_by == t.a.x - t.c.x,
                step_cx == t.a.y - t.b.y,
                step_cy == t.b.x - t.a.x,
                row_a == t.weight_a(x0 as int, y as int),
                row_b == t.weight_b(x0 as int, y as int),
                row_c == t.weight_c(x0 as int, y as int),
                self@ == v0.shaded_in(
                    t0,
                    |px: int, py: int|
                        scanned(x0 as int, x1 as int, y0 as int, x0 as int, y as int, px, py),
                ),
                paint == (|x: int, y: int| v0.fragment(t0, tex@, x, y)),
                pge@ == c0.painted(scan_of(paint, x0 as int, x1 as int, y0 as int, x0 as int, y as int)),
            decreases y1 - y,
        {
            let mut wa = row_a;
            let mut wb = row_b;
            let mut wc = row_c;
            let mut x: i64 = x0;
            while x < x1
                invariant
                    self.wf(),
                    pge.wf(),
                    tex.wf(),
                    c0.wf(),
                    t == t0.front(),
                    t.front() == t,
                    area == t.area2(),
                    area > 0,
                    v0.width == self.width,
                    v0.height == self.height,
                    0 <= x0 <= x <= x1 <= self.width,
                    x1 <= 0x7fff_ffff,
                    0 <= y0 <= y < y1 <= self.height,
                    y1 <= 0x7fff_ffff,
                    step_ax == t.b.y - t.c.y,
                    step_bx == t.c.y - t.a.y,
                    step_cx == t.a.y - t.b.y,
                    wa == t.weight_a(x as int, y as int),
                    wb == t.weight_b(x as int, y as int),
                    wc == t.weight_c(x as int, y as int),
                    self@ == v0.shaded_in(
                        t0,
                        |px: int, py: int|
                            scanned(x0 as int, x1 as int, y0 as int, x as int, y as int, px, py),
                    ),
                    paint == (|x: int, y: int| v0.fragment(t0, tex@, x, y)),
                    pge@ == c0.painted(
                        scan_of(paint, x0 as int, x1 as int, y0 as int, x as int, y as int),
                    ),
                decreases x1 - x,
            {
                let ghost v1 = self@;
                self.shade(pge, &t, area, wa, wb, wc, x, y, tex);
                proof {
                    lemma_orient_steps(t.b.x as int, t.b.y as int, t.c.x as int, t.c.y as int, x as int, y as int);
                    lemma_orient_steps(t.c.x as int, t.c.y as int, t.a.x as int, t.a.y as int, x as int, y as int);
                    lemma_orient_steps(t.a.x as int, t.a.y as int, t.b.x as int, t.b.y as int, x as int, y as int);
                    lemma_edge_bound(t.b, t.c, x as int, y as int);
                    lemma_edge_bound(t.c, t.a, x as int, y as int);
                    lemma_edge_bound(t.a, t.b, x as int, y as int);
                    assert(v1.depth[(x as int, y as int)] == v0.depth[(x as int, y as int)]);
                    assert(v1.hit(t, x as int, y as int) == v0.hit(t0, x as int, y as int));
                    assert(v1.fragment(t, tex@, x as int, y as int) == v0.fragment(
                        t0,
                        tex@,
                        x as int,
                        y as int,
                    ));
                    assert(self@.depth =~= v0.shaded_in(
                        t0,
                        |px: int, py: int|
                            scanned(x0 as int, x1 as int, y0 as int, x + 1, y as int, px, py),
                    ).depth);
                    lemma_scan_step(c0, paint, x0 as int, x1 as int, y0 as int, x as int, y as int);
                }
                wa = wa + step_ax;
                wb = wb + step_bx;
                wc = wc + step_cx;
                x = x + 1;
            }
            proof {
                lemma_orient_steps(t.b.x as int, t.b.y as int, t.c.x as int, t.c.y as int, x0 as int, y as int);
                lemma_orient_steps(t.c.x as int, t.c.y as int, t.a.x as int, t.a.y as int, x0 as int, y as int);
                lemma_orient_steps(t.a.x as int, t.a.y as int, t.b.x as int, t.b.y as int, x0 as int, y as int);
                lemma_edge_bound(t.b, t.c, x0 as int, y as int);
                lemma_edge_bound(t.c, t.a, x0 as int, y as int);
                lemma_edge_bound(t.a, t.b, x0 as int, y as int);
                assert(self@.depth =~= v0.shaded_in(
                    t0,
                    |px: int, py: int|
                        scanned(x0 as int, x1 as int, y0 as int, x0 as int, y + 1, px, py),
                ).depth);
                lemma_scan_row(c0, paint, x0 as int, x1 as int, y0 as int, y as int);
            }
            row_a = row_a + step_ay;
            row_b = row_b + step_by;
            row_c = row_c + step_cy;
            y = y + 1;
        }
        proof {
            assert(self@.depth =~= v0.shaded(t0).depth);
            lemma_scan_done(c0, paint, x0 as int, x1 as int, y0 as int, y1 as int);
        }
    }

    /// Fills triangles that stand in screen space into the draw target of
    /// `pge`, first to last, each as [`Pipeline::rasterize`] does.
    pub fn render_screen(&mut self, pge: &mut PGE, triangles: &Vec<ScreenTriangle>, tex: &Sprite)
        requires
            old(self).wf(),
            old(pge).wf(),
            tex.wf(),
        ensures
            final(self).wf(),
            final(pge).wf(),
            final(self)@ == old(self)@.shaded_all(triangles@),
            final(pge)@ == rendered(old(pge)@, old(self)@, triangles@, tex@),
    {
        let n = triangles.len();
        let mut i: usize = 0;
        while i < n
            invariant
                self.wf(),
                pge.wf(),
                tex.wf(),
                n == triangles@.len(),
                i <= n,
                self@ == old(self)@.shaded_all(triangles@.take(i as int)),
                pge@ == rendered(old(pge)@, old(self)@, triangles@.take(i as int), tex@),
            decreases n - i,
        {
            let t = triangles[i];
            self.rasterize(pge, &t.a, &t.b, &t.c, tex);
            proof {
                assert(triangles@.take(i + 1).drop_last() =~= triangles@.take(i as int));
                assert(triangles@.take(i + 1).last() == t);
            }
            i = i + 1;
        }
        assert(triangles@.take(n as int) =~= triangles@);
    }

    /// Fills one textured triangle given in screen space: three positions,
    /// of which `x` and `y` count, and for each its texture coordinate `(u /
    /// w, v / w, 1 / w)`. Positions are rounded to pixels and texture
    /// coordinates taken in units of `2^-20`; then the triangle is filled as
    /// [`Pipeline::rasterize`] fills it.
    pub fn render_triangle_texture(
        &mut self,
        pge: &mut PGE,
        a: &Vec4d,
        b: &Vec4d,
        c: &Vec4d,
        auv: &Vec3d,
        buv: &Vec3d,
        cuv: &Vec3d,
        tex: &Sprite,
    )
        requires
            old(self).wf(),
            old(pge).wf(),
            tex.wf(),
        ensures
            final(self).wf(),
            final(pge).wf(),
            final(self)@ == old(self)@.shaded(
                ScreenTriangle {
                    a: vertex_of(*a, *auv),
                    b: vertex_of(*b, *buv),
                    c: vertex_of(*c, *cuv),
                },
            ),
            final(pge)@ == old(pge)@.painted(
                |x: int, y: int|
                    old(self)@.fragment(
                        ScreenTriangle {
                            a: vertex_of(*a, *auv),
                            b: vertex_of(*b, *buv),
                            c: vertex_of(*c, *cuv),
                        },
                        tex@,
                        x,
                        y,
                    ),
            ),
    {
        let va = vertex(a, auv);
        let vb = vertex(b, buv);
        let vc = vertex(c, cuv);
        self.rasterize(pge, &va, &vb, &vc, tex);
    }

    /// Fills one textured triangle given corner by corner: the pixel, then
    /// the texture coordinate `u / w`, `v / w` and `1 / w`. It draws what
    /// [`Pipeline::rasterize`] draws of the same corners, with the texture
    /// coordinates taken in units of `2^-20`.
    pub fn textured_triangle(
        &mut self,
        pge: &mut PGE,
        x1: i32,
        y1: i32,
        u1: Fixed,
        v1: Fixed,
        w1: Fixed,
        x2: i32,
        y2: i32,
        u2: Fixed,
        v2: Fixed,
        w2: Fixed,
        x3: i32,
        y3: i32,
        u3: Fixed,
        v3: Fixed,
        w3: Fixed,
        tex: &Sprite,
    )
        requires
            old(self).wf(),
            old(pge).wf(),
            tex.wf(),
        ensures
            final(self).wf(),
            final(pge).wf(),
            final(self)@ == old(self)@.shaded(
                ScreenTriangle {
                    a: corner_of(x1, y1, u1, v1, w1),
                    b: corner_of(x2, y2, u2, v2, w2),
                    c: corner_of(x3, y3, u3, v3, w3),
                },
            ),
            final(pge)@ == old(pge)@.painted(
                |x: int, y: int|
                    old(self)@.fragment(
                        ScreenTriangle {
                            a: corner_of(x1, y1, u1, v1, w1),
                            b: corner_of(x2, y2, u2, v2, w2),
                            c: corner_of(x3, y3, u3, v3, w3),
                        },
                        tex@,
                        x,
                        y,
                    ),
            ),
    {
        let a = Vertex { x: x1, y: y1, u: attribute(u1), v: attribute(v1), w: attribute(w1) };
        let b = Vertex { x: x2, y: y2, u: attribute(u2), v: attribute(v2), w: attribute(w2) };
        let c = Vertex { x: x3, y: y3, u: attribute(u3), v: attribute(v3), w: attribute(w3) };
        self.rasterize(pge, &a, &b, &c, tex);
    }

    /// Fills one textured triangle whose corners also carry a colour. The
    /// colours are taken and not used: the texture alone decides what is
    /// drawn, so this draws what [`Pipeline::textured_triangle`] draws.
    pub fn shaded_textured_triangle(
        &mut self,
        pge: &mut PGE,
        x1: i32,
        y1: i32,
        u1: Fixed,
        v1: Fixed,
        w1: Fixed,
        c1: Color,
        x2: i32,
        y2: i32,
        u2: Fixed,
        v2: Fixed,
        w2: Fixed,
        c2: Color,
        x3: i32,
        y3: i32,
        u3: Fixed,
        v3: Fixed,
        w3: Fixed,
        c3: Color,
        tex: &Sprite,
    )
        requires
            old(self).wf(),
            old(pge).wf(),
            tex.wf(),
        ensures
            final(self).wf(),
            final(pge).wf(),
            final(self)@ == old(self)@.shaded(
                ScreenTriangle {
                    a: corner_of(x1, y1, u1, v1, w1),
                    b: corner_of(x2, y2, u2, v2, w2),
                    c: corner_of(x3, y3, u3, v3, w3),
                },
            ),
            final(pge)@ == old(pge)@.painted(
                |x: int, y: int|
                    old(self)@.fragment(
                        ScreenTriangle {
                            a: corner_of(x1, y1, u1, v1, w1),
                            b: corner_of(x2, y2, u2, v2, w2),
                            c: corner_of(x3, y3, u3, v3, w3),
                        },
                        tex@,
                        x,
                        y,
                    ),
            ),
    {
        self.textured_triangle(pge, x1, y1, u1, v1, w1, x2, y2, u2, v2, w2, x3, y3, u3, v3, w3, tex);
    }

    /// Renders a mesh into the draw target of `pge`.
    ///
    /// Each triangle, in order, is transformed by world and view; dropped if
    /// it then faces away from the viewer; clipped at the near plane;
    /// projected, with the perspective divide of positions and texture
    /// coordinates; clipped at the four sides of the view; scaled into the
    /// viewport; and filled with the depth test, as [`Pipeline::rasterize`]
    /// does.
    pub fn render(&mut self, pge: &mut PGE, triangles: &Vec<Triangle>, tex: &Sprite)
        requires
            old(self).wf(),
            old(pge).wf(),
            tex.wf(),
        ensures
            final(self).wf(),
            final(pge).wf(),
            final(self)@ == old(self)@.shaded_all(old(self)@.on_screen_all(triangles@)),
            final(pge)@ == rendered(
                old(pge)@,
                old(self)@,
                old(self)@.on_screen_all(triangles@),
                tex@,
            ),
    {
        let ghost v0 = self@;
        let ghost c0 = pge@;
        let world_view = self.world.mul(self.view);
        let n = triangles.len();
        let mut i: usize = 0;
        proof {
            assert(triangles@.take(0) =~= Seq::<Triangle>::empty());
        }
        while i < n
            invariant
                self.wf(),
                pge.wf(),
                tex.wf(),
                n == triangles@.len(),
                i <= n,
                world_view == v0.world.mul(v0.view),
                self.proj == v0.proj,
                self.viewport == v0.viewport,
                self.near == v0.near,
                self@ == v0.shaded_all(v0.on_screen_all(triangles@.take(i as int))),
                pge@ == rendered(c0, v0, v0.on_screen_all(triangles@.take(i as int)), tex@),
            decreases n - i,
        {
            let list = to_screen_triangles(
                &triangles[i],
                &world_view,
                &self.proj,
                &self.viewport,
                self.near,
            );
            let ghost done = v0.on_screen_all(triangles@.take(i as int));
            self.render_screen(pge, &list, tex);
            proof {
                assert(triangles@.take(i + 1).drop_last() =~= triangles@.take(i as int));
                assert(triangles@.take(i + 1).last() == triangles@[i as int]);
                lemma_rendered_concat(c0, v0, done, list@, tex@);
                lemma_shaded_all_keeps(v0, done + list@);
            }
            i = i + 1;
        }
        assert(triangles@.take(n as int) =~= triangles@);
    }
}

} // verus!
