//! Triangles of a mesh, and clipping them against a plane.
//!
//! Which triangles clipping gives out, and of which corners, depends only on
//! the signed distances of the three corners from the plane. That decision
//! stands by itself; the triangle's own clipping places the new corners.

use vstd::prelude::*;
use crate::fixed::Fixed;
use crate::gfx3d::plane::Plane;
use crate::gfx3d::plane::axis_plane;
use crate::gfx3d::plane::lemma_axis_cut;
use crate::gfx3d::plane::lemma_axis_side;
use crate::gfx3d::plane::on_inner_side;
use crate::gfx3d::vec3d::Vec3d;
use crate::gfx3d::vec4d::Vec4d;
use crate::pixel::Pixel;

verus! {

/// A corner of a triangle that clipping gives out.
#[derive(Debug, Clone, Copy, PartialEq, Eq, Structural)]
pub enum Corner {
    /// Corner number `0`, `1` or `2` of the triangle that was clipped.
    Kept(usize),
    /// The point where the edge from the kept corner `from` to the dropped
    /// corner `to` meets the plane.
    Cut { from: usize, to: usize },
}

/// A triangle that clipping gives out, by its corners in order.
#[derive(Debug, Clone, Copy, PartialEq, Eq, Structural)]
pub struct Piece {
    pub a: Corner,
    pub b: Corner,
    pub c: Corner,
}

/// Whether a corner at signed distance `dist` from the plane is kept. A
/// corner exactly on the plane is.
pub open spec fn inside(dist: int) -> bool {
    dist >= 0
}

/// The numbers of the corners that are kept, in rising order.
pub open spec fn kept(dist: Seq<int>) -> Seq<usize> {
    (if inside(dist[0]) {
        seq![0usize]
    } else {
        seq![]
    }) + (if inside(dist[1]) {
        seq![1usize]
    } else {
        seq![]
    }) + (if inside(dist[2]) {
        seq![2usize]
    } else {
        seq![]
    })
}

/// The numbers of the corners that are dropped, in rising order.
pub open spec fn dropped(dist: Seq<int>) -> Seq<usize> {
    (if inside(dist[0]) {
        seq![]
    } else {
        seq![0usize]
    }) + (if inside(dist[1]) {
        seq![]
    } else {
        seq![1usize]
    }) + (if inside(dist[2]) {
        seq![]
    } else {
        seq![2usize]
    })
}

/// The triangles left of a triangle whose corners are at the signed
/// distances `dist` from the plane.
///
/// With no corner kept nothing is left, with all three the triangle itself.
/// One kept corner gives the triangle of that corner and the two cuts of its
/// edges. Two kept corners leave a quadrilateral, given as the triangle of
/// the two corners and the first one's cut, and the triangle of the second
/// corner and both cuts.
pub open spec fn clipped(dist: Seq<int>) -> Seq<Piece> {
    let k = kept(dist);
    let d = dropped(dist);
    if k.len() == 0 {
        seq![]
    } else if k.len() == 3 {
        seq![Piece { a: Corner::Kept(0), b: Corner::Kept(1), c: Corner::Kept(2) }]
    } else if k.len() == 1 {
        seq![
            Piece {
                a: Corner::Kept(k[0]),
                b: Corner::Cut { from: k[0], to: d[0] },
                c: Corner::Cut { from: k[0], to: d[1] },
            },
        ]
    } else {
        seq![
            Piece {
                a: Corner::Kept(k[0]),
                b: Corner::Kept(k[1]),
                c: Corner::Cut { from: k[0], to: d[0] },
            },
            Piece {
                a: Corner::Kept(k[1]),
                b: Corner::Cut { from: k[0], to: d[0] },
                c: Corner::Cut { from: k[1], to: d[0] },
            },
        ]
    }
}

/// Whether the corner can stand in a piece: a kept corner is on the kept
/// side or on the plane, and a cut runs from such a corner to one strictly
/// on the other side.
pub open spec fn corner_sound(dist: Seq<int>, c: Corner) -> bool {
    match c {
        Corner::Kept(i) => i < 3 && dist[i as int] >= 0,
        Corner::Cut { from, to } => from < 3 && to < 3 && dist[from as int] >= 0 && dist[to as int]
            < 0,
    }
}

/// A triangle with no corner on the outer side of the plane stays whole: a
/// corner exactly on the plane counts as inside.
pub proof fn lemma_on_plane_is_inside(dist: Seq<int>)
    requires
        dist.len() == 3,
        dist[0] >= 0,
        dist[1] >= 0,
        dist[2] >= 0,
    ensures
        clipped(dist) == seq![Piece { a: Corner::Kept(0), b: Corner::Kept(1), c: Corner::Kept(2) }],
{
}

/// Clipping gives at most two triangles, one for each way the corners can
/// lie, and every corner of them is on the kept side of the plane or on it.
pub proof fn lemma_clipped(dist: Seq<int>)
    requires
        dist.len() == 3,
    ensures
        clipped(dist).len() <= 2,
        clipped(dist).len() == 0 <==> kept(dist).len() == 0,
        clipped(dist).len() == 2 <==> kept(dist).len() == 2,
        kept(dist).len() + dropped(dist).len() == 3,
        forall|i: int|
            0 <= i < clipped(dist).len() ==> {
                let p = #[trigger] clipped(dist)[i];
                corner_sound(dist, p.a) && corner_sound(dist, p.b) && corner_sound(dist, p.c)
            },
{
}

/// Decides what clipping leaves of a triangle, given the signed distances of
/// its three corners from the plane in any unit, positive on the kept side.
pub fn clip_pieces(d0: i64, d1: i64, d2: i64) -> (pieces: Vec<Piece>)
    ensures
        pieces@ == clipped(seq![d0 as int, d1 as int, d2 as int]),
{
    let ghost dist = seq![d0 as int, d1 as int, d2 as int];
    let mut ins: [usize; 3] = [0, 0, 0];
    let mut outs: [usize; 3] = [0, 0, 0];
    let mut n_in: usize = 0;
    let mut n_out: usize = 0;
    if d0 >= 0 {
        ins[n_in] = 0;
        n_in = n_in + 1;
    } else {
        outs[n_out] = 0;
        n_out = n_out + 1;
    }
    if d1 >= 0 {
        ins[n_in] = 1;
        n_in = n_in + 1;
    } else {
        outs[n_out] = 1;
        n_out = n_out + 1;
    }
    if d2 >= 0 {
        ins[n_in] = 2;
        n_in = n_in + 1;
    } else {
        outs[n_out] = 2;
        n_out = n_out + 1;
    }
    assert(ins@.take(n_in as int) =~= kept(dist));
    assert(outs@.take(n_out as int) =~= dropped(dist));
    let mut pieces: Vec<Piece> = Vec::new();
    if n_in == 3 {
        pieces.push(Piece { a: Corner::Kept(0), b: Corner::Kept(1), c: Corner::Kept(2) });
    } else if n_in == 1 {
        pieces.push(
            Piece {
                a: Corner::Kept(ins[0]),
                b: Corner::Cut { from: ins[0], to: outs[0] },
                c: Corner::Cut { from: ins[0], to: outs[1] },
            },
        );
    } else if n_in == 2 {
        let cut = Corner::Cut { from: ins[0], to: outs[0] };
        pieces.push(Piece { a: Corner::Kept(ins[0]), b: Corner::Kept(ins[1]), c: cut });
        pieces.push(Piece { a: Corner::Kept(ins[1]), b: cut, c: Corner::Cut { from: ins[1], to: outs[0] } });
    }
    assert(pieces@ =~= clipped(dist));
    pieces
}

/// A triangle of a mesh: three positions, a texture coordinate `(u, v, 1 /
/// w)` for each, and a colour.
#[derive(Debug, Clone, Copy)]
pub struct Triangle {
    pub p: [Vec4d; 3],
    pub t: [Vec3d; 3],
    pub col: Pixel,
}

/// A mesh: its triangles, in the order they are drawn.
#[derive(Debug, Clone)]
pub struct Mesh {
    pub tris: Vec<Triangle>,
}

impl Triangle {
    /// The triangle with all corners at the origin, without texture, black.
    pub open spec fn new_spec() -> Triangle {
        Triangle {
            p: [Vec4d::zero(), Vec4d::zero(), Vec4d::zero()],
            t: [Vec3d::zero(), Vec3d::zero(), Vec3d::zero()],
            col: Pixel { r: 0, g: 0, b: 0, a: 255 },
        }
    }

    /// The signed distances of the three corners from the plane.
    pub open spec fn distances(self, plane: Plane) -> Seq<int> {
        seq![
            plane.distance(&self.p[0]).raw as int,
            plane.distance(&self.p[1]).raw as int,
            plane.distance(&self.p[2]).raw as int,
        ]
    }

    /// Where a corner of a piece lies: a kept corner where it was, a cut
    /// where its edge meets the plane.
    pub open spec fn corner_position(self, plane: Plane, c: Corner) -> Vec4d {
        match c {
            Corner::Kept(i) => self.p[i as int],
            Corner::Cut { from, to } => plane.line_intersect_plane(
                self.p[from as int],
                self.p[to as int],
            ).0,
        }
    }

    /// The texture coordinate of a corner of a piece: that of a kept corner,
    /// and for a cut the coordinates of the edge's two ends mixed by the
    /// cut's share of the edge.
    pub open spec fn corner_texture(self, plane: Plane, c: Corner) -> Vec3d {
        match c {
            Corner::Kept(i) => self.t[i as int],
            Corner::Cut { from, to } => self.t[from as int].add(
                self.t[to as int].sub(self.t[from as int]).mul(
                    plane.line_intersect_plane(self.p[from as int], self.p[to as int]).1,
                ),
            ),
        }
    }

    /// The triangle that a piece stands for.
    pub open spec fn piece(self, plane: Plane, piece: Piece) -> Triangle {
        Triangle {
            p: [
                self.corner_position(plane, piece.a),
                self.corner_position(plane, piece.b),
                self.corner_position(plane, piece.c),
            ],
            t: [
                self.corner_texture(plane, piece.a),
                self.corner_texture(plane, piece.b),
                self.corner_texture(plane, piece.c),
            ],
            col: self.col,
        }
    }

    /// What is left of the triangle on the inner side of the plane: the
    /// pieces that the corners' distances decide, each placed.
    pub open spec fn clip_against_plane_spec(&self, plane: &Plane) -> Seq<Triangle> {
        clipped(self.distances(*plane)).map_values(|piece: Piece| self.piece(*plane, piece))
    }

    /// A triangle with all corners at the origin, without texture, black.
    #[verifier::when_used_as_spec(new_spec)]
    pub fn new() -> (t: Triangle)
        ensures
            t == Triangle::new_spec(),
    {
        Triangle {
            p: [Vec4d::zero(), Vec4d::zero(), Vec4d::zero()],
            t: [Vec3d::zero(), Vec3d::zero(), Vec3d::zero()],
            col: Pixel::rgb(0, 0, 0),
        }
    }

    /// Places one corner of a piece.
    fn place(&self, plane: &Plane, c: Corner) -> (r: (Vec4d, Vec3d))
        requires
            corner_sound(self.distances(*plane), c),
        ensures
            r.0 == self.corner_position(*plane, c),
            r.1 == self.corner_texture(*plane, c),
    {
        match c {
            Corner::Kept(i) => (self.p[i], self.t[i]),
            Corner::Cut { from, to } => {
                let cut = plane.line_intersect_plane(self.p[from], self.p[to]);
                (cut.0, self.t[from].add(self.t[to].sub(self.t[from]).mul(cut.1)))
            },
        }
    }

    /// Clips the triangle against the plane: gives what is left of it on
    /// the inner side, as no, one or two triangles.
    ///
    /// A corner is inside where its distance from the plane is not negative,
    /// so a corner exactly on the plane is inside. With no corner inside
    /// nothing is left; with all three the triangle itself. One corner
    /// inside leaves the triangle of that corner and the two points where
    /// its edges meet the plane. Two corners inside leave a quadrilateral,
    /// given as two triangles. Texture coordinates of new corners are mixed
    /// from the ends of the edge by the share at which the plane cuts it.
    pub fn clip_against_plane(&self, plane: &Plane) -> (out: Vec<Triangle>)
        ensures
            out@ == self.clip_against_plane_spec(plane),
            out@.len() <= 2,
    {
        let d0 = plane.distance(&self.p[0]);
        let d1 = plane.distance(&self.p[1]);
        let d2 = plane.distance(&self.p[2]);
        let pieces = clip_pieces(d0.raw, d1.raw, d2.raw);
        let ghost dist = self.distances(*plane);
        proof {
            assert(dist =~= seq![d0.raw as int, d1.raw as int, d2.raw as int]);
            lemma_clipped(dist);
        }
        let mut out: Vec<Triangle> = Vec::new();
        let mut i: usize = 0;
        while i < pieces.len()
            invariant
                i <= pieces@.len(),
                pieces@ == clipped(dist),
                dist == self.distances(*plane),
                dist.len() == 3,
                forall|k: int|
                    0 <= k < clipped(dist).len() ==> {
                        let p = #[trigger] clipped(dist)[k];
                        corner_sound(dist, p.a) && corner_sound(dist, p.b) && corner_sound(dist, p.c)
                    },
                out@.len() == i,
                forall|k: int| 0 <= k < i ==> out@[k] == self.piece(*plane, pieces@[k]),
            decreases pieces@.len() - i,
        {
            let piece = pieces[i];
            assert(piece == clipped(dist)[i as int]);
            let a = self.place(plane, piece.a);
            let b = self.place(plane, piece.b);
            let c = self.place(plane, piece.c);
            let tri = Triangle { p: [a.0, b.0, c.0], t: [a.1, b.1, c.1], col: self.col };
            assert(tri.p =~= self.piece(*plane, piece).p);
            assert(tri.t =~= self.piece(*plane, piece).t);
            out.push(tri);
            i = i + 1;
        }
        assert(out@ =~= self.clip_against_plane_spec(plane));
        out
    }
}

/// The plane at depth `near` whose inner side is the far side: the near
/// plane of a camera that looks along `z`.
pub open spec fn near_plane(near: Fixed) -> Plane {
    Plane {
        position: Vec4d { x: Fixed::zero(), y: Fixed::zero(), z: near, w: Fixed::one() },
        normal: Vec4d { x: Fixed::zero(), y: Fixed::zero(), z: Fixed::one(), w: Fixed::one() },
    }
}

/// Clipping at a plane across an axis, wherever it stands, leaves nothing
/// beyond the plane: every corner of every triangle left is on the plane's
/// inner side or on it. A plane that faces the smaller coordinates is to
/// stand where the coordinate has a negative.
pub proof fn lemma_axis_clip(t: Triangle, axis: int, up: bool, at: Fixed, k: int)
    requires
        up || at.raw > i64::MIN,
        0 <= k < t.clip_against_plane_spec(&axis_plane(axis, up, at)).len(),
    ensures
        on_inner_side(axis, up, at, t.clip_against_plane_spec(&axis_plane(axis, up, at))[k].p[0]),
        on_inner_side(axis, up, at, t.clip_against_plane_spec(&axis_plane(axis, up, at))[k].p[1]),
        on_inner_side(axis, up, at, t.clip_against_plane_spec(&axis_plane(axis, up, at))[k].p[2]),
{
    let plane = axis_plane(axis, up, at);
    let dist = t.distances(plane);
    lemma_clipped(dist);
    let piece = clipped(dist)[k];
    assert(corner_sound(dist, piece.a) && corner_sound(dist, piece.b) && corner_sound(dist, piece.c));
    lemma_axis_corner(t, axis, up, at, piece.a);
    lemma_axis_corner(t, axis, up, at, piece.b);
    lemma_axis_corner(t, axis, up, at, piece.c);
}

/// [`lemma_axis_clip`] for one corner.
proof fn lemma_axis_corner(t: Triangle, axis: int, up: bool, at: Fixed, c: Corner)
    requires
        up || at.raw > i64::MIN,
        corner_sound(t.distances(axis_plane(axis, up, at)), c),
    ensures
        on_inner_side(axis, up, at, t.corner_position(axis_plane(axis, up, at), c)),
{
    lemma_axis_side(axis, up, at, t.p[0]);
    lemma_axis_side(axis, up, at, t.p[1]);
    lemma_axis_side(axis, up, at, t.p[2]);
    match c {
        Corner::Kept(i) => {},
        Corner::Cut { from, to } => {
            lemma_axis_cut(axis, up, at, t.p[from as int], t.p[to as int]);
        },
    }
}

/// Nothing that clipping at the near plane leaves is nearer than the plane:
/// every corner of every triangle left has a depth of at least `near`.
pub proof fn lemma_near_clip(t: Triangle, near: Fixed, k: int)
    requires
        0 <= k < t.clip_against_plane_spec(&near_plane(near)).len(),
    ensures
        t.clip_against_plane_spec(&near_plane(near))[k].p[0].z.raw >= near.raw,
        t.clip_against_plane_spec(&near_plane(near))[k].p[1].z.raw >= near.raw,
        t.clip_against_plane_spec(&near_plane(near))[k].p[2].z.raw >= near.raw,
{
    assert(near_plane(near) == axis_plane(2, true, near));
    lemma_axis_clip(t, 2, true, near, k);
}

impl Triangle {
    /// Whether the third texture coordinate of every corner, which after
    /// projection is the depth attribute `1 / w`, lies from `lo` to `hi`.
    pub open spec fn depths_within(self, lo: int, hi: int) -> bool {
        &&& lo <= self.t[0].z.raw <= hi
        &&& lo <= self.t[1].z.raw <= hi
        &&& lo <= self.t[2].z.raw <= hi
    }
}

/// The depth attribute of a corner of a piece lies between those of the
/// triangle's corners.
proof fn lemma_corner_depth(t: Triangle, plane: Plane, c: Corner, lo: int, hi: int)
    requires
        hi - lo <= i64::MAX,
        t.depths_within(lo, hi),
        corner_sound(t.distances(plane), c),
    ensures
        lo <= t.corner_texture(plane, c).z.raw <= hi,
{
    match c {
        Corner::Kept(i) => {},
        Corner::Cut { from, to } => {
            let a = t.t[from as int];
            let b = t.t[to as int];
            crate::gfx3d::plane::lemma_cut_share(plane, t.p[from as int], t.p[to as int]);
            let share = plane.line_intersect_plane(t.p[from as int], t.p[to as int]).1;
            crate::fixed::lemma_mix_between(a.z, b.z, share, lo, hi);
        },
    }
}

/// Clipping mixes depth attributes and so keeps them in their range: if the
/// depth attributes of a triangle's corners lie from `lo` to `hi`, which are
/// no further apart than the range of numbers is wide, so do those of every
/// triangle that clipping leaves.
pub proof fn lemma_clip_keeps_depths(t: Triangle, plane: Plane, lo: int, hi: int, k: int)
    requires
        hi - lo <= i64::MAX,
        t.depths_within(lo, hi),
        0 <= k < t.clip_against_plane_spec(&plane).len(),
    ensures
        t.clip_against_plane_spec(&plane)[k].depths_within(lo, hi),
{
    let dist = t.distances(plane);
    lemma_clipped(dist);
    let piece = clipped(dist)[k];
    assert(corner_sound(dist, piece.a) && corner_sound(dist, piece.b) && corner_sound(dist, piece.c));
    lemma_corner_depth(t, plane, piece.a, lo, hi);
    lemma_corner_depth(t, plane, piece.b, lo, hi);
    lemma_corner_depth(t, plane, piece.c, lo, hi);
}

/// A triangle with no corner on the outer side of the plane comes back as
/// it is, so with its area; one with every corner on the outer side leaves
/// nothing.
pub proof fn lemma_whole_or_nothing(t: Triangle, plane: Plane)
    ensures
        plane.distance(&t.p[0]).raw >= 0 && plane.distance(&t.p[1]).raw >= 0 && plane.distance(
            &t.p[2],
        ).raw >= 0 ==> t.clip_against_plane_spec(&plane) == seq![t],
        plane.distance(&t.p[0]).raw < 0 && plane.distance(&t.p[1]).raw < 0 && plane.distance(
            &t.p[2],
        ).raw < 0 ==> t.clip_against_plane_spec(&plane) == Seq::<Triangle>::empty(),
{
    let dist = t.distances(plane);
    if dist[0] >= 0 && dist[1] >= 0 && dist[2] >= 0 {
        lemma_on_plane_is_inside(dist);
        let whole = Piece { a: Corner::Kept(0), b: Corner::Kept(1), c: Corner::Kept(2) };
        assert(t.piece(plane, whole).p =~= t.p);
        assert(t.piece(plane, whole).t =~= t.t);
        assert(t.clip_against_plane_spec(&plane) =~= seq![t]);
    }
    if dist[0] < 0 && dist[1] < 0 && dist[2] < 0 {
        assert(t.clip_against_plane_spec(&plane) =~= Seq::<Triangle>::empty());
    }
}

/// Every corner that clipping gives out is a corner of the triangle on the
/// inner side of the plane or on it, or lies on an edge that crosses the
/// plane, at a share of the edge from zero to one.
pub proof fn lemma_corners(t: Triangle, plane: Plane, k: int)
    requires
        0 <= k < t.clip_against_plane_spec(&plane).len(),
    ensures
        t.corner_inside_or_cut(plane, t.clip_against_plane_spec(&plane)[k].p[0]),
        t.corner_inside_or_cut(plane, t.clip_against_plane_spec(&plane)[k].p[1]),
        t.corner_inside_or_cut(plane, t.clip_against_plane_spec(&plane)[k].p[2]),
{
    let dist = t.distances(plane);
    lemma_clipped(dist);
    let piece = clipped(dist)[k];
    assert(corner_sound(dist, piece.a) && corner_sound(dist, piece.b) && corner_sound(dist, piece.c));
    lemma_corner(t, plane, piece.a);
    lemma_corner(t, plane, piece.b);
    lemma_corner(t, plane, piece.c);
}

/// [`lemma_corners`] for one corner.
proof fn lemma_corner(t: Triangle, plane: Plane, c: Corner)
    requires
        corner_sound(t.distances(plane), c),
    ensures
        t.corner_inside_or_cut(plane, t.corner_position(plane, c)),
{
    match c {
        Corner::Kept(i) => {
            assert(t.p[i as int] == t.corner_position(plane, c));
        },
        Corner::Cut { from, to } => {
            crate::gfx3d::plane::lemma_cut_share(plane, t.p[from as int], t.p[to as int]);
        },
    }
}

impl Triangle {
    /// Whether `q` is a corner of the triangle that is not on the outer side
    /// of the plane, or the point where an edge of the triangle from such a
    /// corner to one on the outer side meets the plane, at a share of the
    /// edge from zero to one.
    pub open spec fn corner_inside_or_cut(self, plane: Plane, q: Vec4d) -> bool {
        ||| exists|i: int| 0 <= i < 3 && q == #[trigger] self.p[i] && plane.distance(&self.p[i]).raw >= 0
        ||| exists|i: int, j: int|
            0 <= i < 3 && 0 <= j < 3 && plane.distance(&self.p[i]).raw >= 0 && plane.distance(
                &self.p[j],
            ).raw < 0 && q == #[trigger] plane.line_intersect_plane(self.p[i], self.p[j]).0 && 0
                <= plane.line_intersect_plane(self.p[i], self.p[j]).1.raw <= crate::fixed::unit()
    }
}

/// The least of three numbers.
pub open spec fn least(a: int, b: int, c: int) -> int {
    vstd::math::min(vstd::math::min(a, b), c)
}

/// The greatest of three numbers.
pub open spec fn greatest(a: int, b: int, c: int) -> int {
    vstd::math::max(vstd::math::max(a, b), c)
}

impl Triangle {
    /// Whether `q` lies in the box about the triangle's corners.
    pub open spec fn in_box(self, q: Vec4d) -> bool {
        let (a, b, c) = (self.p[0], self.p[1], self.p[2]);
        &&& least(a.x.raw as int, b.x.raw as int, c.x.raw as int) <= q.x.raw <= greatest(
            a.x.raw as int,
            b.x.raw as int,
            c.x.raw as int,
        )
        &&& least(a.y.raw as int, b.y.raw as int, c.y.raw as int) <= q.y.raw <= greatest(
            a.y.raw as int,
            b.y.raw as int,
            c.y.raw as int,
        )
        &&& least(a.z.raw as int, b.z.raw as int, c.z.raw as int) <= q.z.raw <= greatest(
            a.z.raw as int,
            b.z.raw as int,
            c.z.raw as int,
        )
    }

    /// Whether the box about the triangle's corners is no wider along any
    /// axis than the range of numbers, so that no difference of two
    /// coordinates saturates.
    pub open spec fn box_fits(self) -> bool {
        let (a, b, c) = (self.p[0], self.p[1], self.p[2]);
        &&& greatest(a.x.raw as int, b.x.raw as int, c.x.raw as int) - least(
            a.x.raw as int,
            b.x.raw as int,
            c.x.raw as int,
        ) <= i64::MAX
        &&& greatest(a.y.raw as int, b.y.raw as int, c.y.raw as int) - least(
            a.y.raw as int,
            b.y.raw as int,
            c.y.raw as int,
        ) <= i64::MAX
        &&& greatest(a.z.raw as int, b.z.raw as int, c.z.raw as int) - least(
            a.z.raw as int,
            b.z.raw as int,
            c.z.raw as int,
        ) <= i64::MAX
    }
}

/// Clipping takes nothing out of the triangle's reach: every corner of
/// every piece lies in the box about the triangle's corners, whatever the
/// plane.
pub proof fn lemma_pieces_in_box(t: Triangle, plane: Plane, k: int)
    requires
        t.box_fits(),
        0 <= k < t.clip_against_plane_spec(&plane).len(),
    ensures
        t.in_box(t.clip_against_plane_spec(&plane)[k].p[0]),
        t.in_box(t.clip_against_plane_spec(&plane)[k].p[1]),
        t.in_box(t.clip_against_plane_spec(&plane)[k].p[2]),
{
    let dist = t.distances(plane);
    lemma_clipped(dist);
    let piece = clipped(dist)[k];
    assert(corner_sound(dist, piece.a) && corner_sound(dist, piece.b) && corner_sound(dist, piece.c));
    lemma_corner_in_box(t, plane, piece.a);
    lemma_corner_in_box(t, plane, piece.b);
    lemma_corner_in_box(t, plane, piece.c);
}

/// [`lemma_pieces_in_box`] for one corner.
proof fn lemma_corner_in_box(t: Triangle, plane: Plane, c: Corner)
    requires
        t.box_fits(),
        corner_sound(t.distances(plane), c),
    ensures
        t.in_box(t.corner_position(plane, c)),
{
    match c {
        Corner::Kept(i) => {},
        Corner::Cut { from, to } => {
            crate::gfx3d::plane::lemma_cut_in_box(plane, t.p[from as int], t.p[to as int]);
        },
    }
}

} // verus!
