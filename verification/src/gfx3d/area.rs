//! The area of what clipping leaves of a triangle.
//!
//! In exact arithmetic the pieces lie in the triangle, so their area is no
//! larger than the triangle's. On the grid each cut is rounded, by less than
//! one step along each axis, and the pieces can be larger by as much as that
//! adds: by no more than a strip eight steps wide along the triangle's
//! extent, and one step squared. The law is stated of each component of the
//! area, which is the area of the triangle's shadow on the plane across one
//! axis.

use vstd::prelude::*;
use crate::arith::lemma_mul_bound;
use crate::fixed::unit;
use crate::gfx3d::cut::lemma_cut_on_edge;
use crate::gfx3d::cut::moderate;
use crate::gfx3d::plane::Plane;
use crate::gfx3d::triangle::clipped;
use crate::gfx3d::triangle::dropped;
use crate::gfx3d::triangle::kept;
use crate::gfx3d::triangle::lemma_clipped;
use crate::gfx3d::triangle::lemma_whole_or_nothing;
use crate::gfx3d::triangle::Triangle;
use crate::gfx3d::vec4d::Vec4d;

verus! {

/// The cross product of two vectors of the plane: twice the area of the
/// triangle that they span, with a sign.
pub open spec fn cross(x1: int, y1: int, x2: int, y2: int) -> int {
    x1 * y2 - y1 * x2
}

/// A number without its sign.
pub open spec fn size(v: int) -> int {
    if v >= 0 {
        v
    } else {
        -v
    }
}

/// The cross product takes sums and factors apart.
proof fn lemma_cross(k: int, a1: int, a2: int, b1: int, b2: int, c1: int, c2: int)
    ensures
        cross(a1 + b1, a2 + b2, c1, c2) == cross(a1, a2, c1, c2) + cross(b1, b2, c1, c2),
        cross(a1 - b1, a2 - b2, c1, c2) == cross(a1, a2, c1, c2) - cross(b1, b2, c1, c2),
        cross(c1, c2, a1 + b1, a2 + b2) == cross(c1, c2, a1, a2) + cross(c1, c2, b1, b2),
        cross(c1, c2, a1 - b1, a2 - b2) == cross(c1, c2, a1, a2) - cross(c1, c2, b1, b2),
        cross(k * a1, k * a2, c1, c2) == k * cross(a1, a2, c1, c2),
        cross(c1, c2, k * a1, k * a2) == k * cross(c1, c2, a1, a2),
        cross(a1, a2, c1, c2) == -cross(c1, c2, a1, a2),
        cross(a1, a2, a1, a2) == 0,
{
    assert((a1 + b1) * c2 == a1 * c2 + b1 * c2 && (a2 + b2) * c1 == a2 * c1 + b2 * c1)
        by (nonlinear_arith);
    assert((a1 - b1) * c2 == a1 * c2 - b1 * c2 && (a2 - b2) * c1 == a2 * c1 - b2 * c1)
        by (nonlinear_arith);
    assert(c1 * (a2 + b2) == c1 * a2 + c1 * b2 && c2 * (a1 + b1) == c2 * a1 + c2 * b1)
        by (nonlinear_arith);
    assert(c1 * (a2 - b2) == c1 * a2 - c1 * b2 && c2 * (a1 - b1) == c2 * a1 - c2 * b1)
        by (nonlinear_arith);
    assert((k * a1) * c2 == k * (a1 * c2) && (k * a2) * c1 == k * (a2 * c1)) by (nonlinear_arith);
    assert(c1 * (k * a2) == k * (c1 * a2) && c2 * (k * a1) == k * (c2 * a1)) by (nonlinear_arith);
    assert(k * (a1 * c2 - a2 * c1) == k * (a1 * c2) - k * (a2 * c1)) by (nonlinear_arith);
    assert(k * (c1 * a2 - c2 * a1) == k * (c1 * a2) - k * (c2 * a1)) by (nonlinear_arith);
    assert(a1 * c2 == c2 * a1 && a2 * c1 == c1 * a2 && a1 * a2 == a2 * a1) by (nonlinear_arith);
}

/// The cross product of a vector no longer than `l` along either axis with
/// what rounding took, which is from zero to `m` along either axis.
proof fn lemma_lost(x: int, y: int, p: int, q: int, l: int, m: int)
    requires
        -l <= x <= l,
        -l <= y <= l,
        0 <= p <= m,
        0 <= q <= m,
    ensures
        -(2 * (l * m)) <= cross(x, y, p, q) <= 2 * (l * m),
        -(2 * (l * m)) <= cross(p, q, x, y) <= 2 * (l * m),
{
    lemma_mul_bound(x, q, l, m);
    lemma_mul_bound(y, p, l, m);
    assert(p * y == y * p && q * x == x * q) by (nonlinear_arith);
}

/// What rounding took along one axis: the way times the share is the
/// rounded way times the unit and a rest below the unit.
pub open spec fn rounded(way: int, share: int, m: int) -> bool {
    unit() * m <= way * share < unit() * m + unit()
}

/// One kept corner: the piece is the triangle of the two rounded ways from
/// that corner, `(px, py)` toward the second corner by the share `s` and
/// `(qx, qy)` toward the third by the share `t`. Its area is the share `s *
/// t` of the triangle's, up to four times the extent and one.
proof fn lemma_one_kept(
    d1x: int,
    d1y: int,
    d2x: int,
    d2y: int,
    s: int,
    t: int,
    px: int,
    py: int,
    qx: int,
    qy: int,
    l: int,
)
    requires
        -l <= d1x <= l && -l <= d1y <= l && -l <= d2x <= l && -l <= d2y <= l,
        0 <= s <= unit(),
        0 <= t <= unit(),
        rounded(d1x, s, px) && rounded(d1y, s, py),
        rounded(d2x, t, qx) && rounded(d2y, t, qy),
    ensures
        size(cross(px, py, qx, qy)) <= size(cross(d1x, d1y, d2x, d2y)) + 4 * l + 1,
{
    let u = unit();
    let uu = u * u;
    let whole = cross(d1x, d1y, d2x, d2y);
    let piece = cross(px, py, qx, qy);
    // what rounding took
    let (ax, ay) = (d1x * s - u * px, d1y * s - u * py);
    let (bx, by) = (d2x * t - u * qx, d2y * t - u * qy);
    assert(d1x * s == s * d1x && d1y * s == s * d1y && d2x * t == t * d2x && d2y * t == t * d2y)
        by (nonlinear_arith);
    // u * u * piece, taken apart
    lemma_cross(u, px, py, 0, 0, u * qx, u * qy);
    lemma_cross(u, qx, qy, 0, 0, px, py);
    assert(cross(u * px, u * py, u * qx, u * qy) == u * (u * piece));
    lemma_cross(0, s * d1x, s * d1y, ax, ay, u * qx, u * qy);
    lemma_cross(0, t * d2x, t * d2y, bx, by, s * d1x, s * d1y);
    lemma_cross(0, t * d2x, t * d2y, bx, by, ax, ay);
    lemma_cross(s, d1x, d1y, 0, 0, t * d2x, t * d2y);
    lemma_cross(t, d2x, d2y, 0, 0, d1x, d1y);
    lemma_cross(s, d1x, d1y, 0, 0, bx, by);
    lemma_cross(t, d2x, d2y, 0, 0, ax, ay);
    let first = cross(d1x, d1y, bx, by);
    let second = cross(ax, ay, d2x, d2y);
    let third = cross(ax, ay, bx, by);
    assert(u * (u * piece) == s * (t * whole) - s * first - t * second + third);
    // the size of each part
    lemma_lost(d1x, d1y, bx, by, l, u);
    lemma_lost(d2x, d2y, ax, ay, l, u);
    lemma_mul_bound(ax, by, u, u);
    lemma_mul_bound(ay, bx, u, u);
    assert(l >= 0);
    lemma_mul_bound(s, first, u, 2 * (l * u));
    lemma_mul_bound(t, second, u, 2 * (l * u));
    lemma_mul_bound(t, whole, u, size(whole));
    lemma_mul_bound(s, t * whole, u, u * size(whole));
    assert(ax * by >= 0 && ay * bx >= 0) by (nonlinear_arith)
        requires
            ax >= 0,
            ay >= 0,
            bx >= 0,
            by >= 0,
    ;
    assert(u * (2 * (l * u)) == 2 * (l * uu) && u * (u * size(whole)) == uu * size(whole) && u * (u
        * piece) == uu * piece) by (nonlinear_arith)
        requires
            uu == u * u,
    ;
    assert(-(uu * (size(whole) + 4 * l + 1)) <= uu * piece <= uu * (size(whole) + 4 * l + 1))
        by (nonlinear_arith)
        requires
            uu * piece == s * (t * whole) - s * first - t * second + third,
            -(uu * size(whole)) <= s * (t * whole) <= uu * size(whole),
            -(2 * (l * uu)) <= s * first <= 2 * (l * uu),
            -(2 * (l * uu)) <= t * second <= 2 * (l * uu),
            -uu <= third <= uu,
    ;
    assert(size(piece) <= size(whole) + 4 * l + 1) by (nonlinear_arith)
        requires
            -(uu * (size(whole) + 4 * l + 1)) <= uu * piece <= uu * (size(whole) + 4 * l + 1),
            uu > 0,
            size(piece) == piece || size(piece) == -piece,
    ;
}

/// Two kept corners: with `d1` the way from the first kept corner to the
/// second, `d2` the way from the first to the dropped corner and `d3` the
/// way from the second to it, the pieces are the triangle of `d1` and the
/// rounded way `(px, py)` along `d2` by the share `s`, and the triangle of
/// that way less `d1` and the rounded way `(qx, qy)` along `d3` by the share
/// `t`. Their areas together are the share `1 - (1 - s) * (1 - t)` of the
/// triangle's, up to eight times the extent and one.
proof fn lemma_two_kept(
    d1x: int,
    d1y: int,
    d2x: int,
    d2y: int,
    s: int,
    t: int,
    px: int,
    py: int,
    qx: int,
    qy: int,
    l: int,
)
    requires
        -l <= d1x <= l && -l <= d1y <= l && -l <= d2x <= l && -l <= d2y <= l,
        -l <= d2x - d1x <= l && -l <= d2y - d1y <= l,
        0 <= s <= unit(),
        0 <= t <= unit(),
        rounded(d2x, s, px) && rounded(d2y, s, py),
        rounded(d2x - d1x, t, qx) && rounded(d2y - d1y, t, qy),
    ensures
        size(cross(d1x, d1y, px, py)) + size(cross(px - d1x, py - d1y, qx, qy)) <= size(
            cross(d1x, d1y, d2x, d2y),
        ) + 8 * l + 1,
{
    let u = unit();
    let uu = u * u;
    let (d3x, d3y) = (d2x - d1x, d2y - d1y);
    let whole = cross(d1x, d1y, d2x, d2y);
    let one = cross(d1x, d1y, px, py);
    let two = cross(px - d1x, py - d1y, qx, qy);
    // what rounding took
    let (ax, ay) = (d2x * s - u * px, d2y * s - u * py);
    let (bx, by) = (d3x * t - u * qx, d3y * t - u * qy);
    assert(d2x * s == s * d2x && d2y * s == s * d2y && d3x * t == t * d3x && d3y * t == t * d3y)
        by (nonlinear_arith);
    // the first piece
    lemma_cross(u, px, py, 0, 0, d1x, d1y);
    lemma_cross(0, s * d2x, s * d2y, ax, ay, d1x, d1y);
    lemma_cross(s, d2x, d2y, 0, 0, d1x, d1y);
    let lost = cross(d1x, d1y, ax, ay);
    assert(u * one == s * whole - lost);
    lemma_lost(d1x, d1y, ax, ay, l, u);
    lemma_mul_bound(s, whole, u, size(whole));
    assert(l >= 0);
    // the second piece
    lemma_cross(u, px - d1x, py - d1y, 0, 0, u * qx, u * qy);
    lemma_cross(u, qx, qy, 0, 0, px - d1x, py - d1y);
    assert(cross(u * (px - d1x), u * (py - d1y), u * qx, u * qy) == u * (u * two));
    assert(u * (px - d1x) == s * d2x - u * d1x - ax && u * (py - d1y) == s * d2y - u * d1y - ay)
        by (nonlinear_arith)
        requires
            ax == s * d2x - u * px,
            ay == s * d2y - u * py,
    ;
    let (ex, ey) = (s * d2x - u * d1x, s * d2y - u * d1y);
    lemma_cross(0, ex, ey, ax, ay, u * qx, u * qy);
    lemma_cross(0, t * d3x, t * d3y, bx, by, ex, ey);
    lemma_cross(0, t * d3x, t * d3y, bx, by, ax, ay);
    lemma_cross(t, d3x, d3y, 0, 0, ex, ey);
    lemma_cross(t, d3x, d3y, 0, 0, ax, ay);
    lemma_cross(0, s * d2x, s * d2y, u * d1x, u * d1y, d3x, d3y);
    lemma_cross(0, s * d2x, s * d2y, u * d1x, u * d1y, bx, by);
    lemma_cross(s, d2x, d2y, 0, 0, d3x, d3y);
    lemma_cross(u, d1x, d1y, 0, 0, d3x, d3y);
    lemma_cross(s, d2x, d2y, 0, 0, bx, by);
    lemma_cross(u, d1x, d1y, 0, 0, bx, by);
    lemma_cross(0, d2x, d2y, d1x, d1y, d2x, d2y);
    lemma_cross(0, d2x, d2y, d1x, d1y, d1x, d1y);
    assert(cross(d2x, d2y, d3x, d3y) == whole);
    assert(cross(d1x, d1y, d3x, d3y) == whole);
    let first = cross(d2x, d2y, bx, by);
    let second = cross(d1x, d1y, bx, by);
    let third = cross(ax, ay, d3x, d3y);
    let fourth = cross(ax, ay, bx, by);
    assert(t * (s * whole - u * whole) == t * ((s - u) * whole)) by (nonlinear_arith);
    assert(u * (u * two) == t * ((s - u) * whole) - (s * first - u * second) - t * third + fourth);
    lemma_lost(d2x, d2y, bx, by, l, u);
    lemma_lost(d1x, d1y, bx, by, l, u);
    lemma_lost(d3x, d3y, ax, ay, l, u);
    lemma_mul_bound(ax, by, u, u);
    lemma_mul_bound(ay, bx, u, u);
    lemma_mul_bound(s, first, u, 2 * (l * u));
    lemma_mul_bound(u, second, u, 2 * (l * u));
    lemma_mul_bound(t, third, u, 2 * (l * u));
    lemma_mul_bound(s - u, whole, u - s, size(whole));
    lemma_mul_bound(t, (s - u) * whole, t, (u - s) * size(whole));
    assert(ax * by >= 0 && ay * bx >= 0) by (nonlinear_arith)
        requires
            ax >= 0,
            ay >= 0,
            bx >= 0,
            by >= 0,
    ;
    let most = size(whole);
    assert(u * (2 * (l * u)) == 2 * (l * uu) && u * (u * two) == uu * two && u * (u * one) == uu
        * one) by (nonlinear_arith)
        requires
            uu == u * u,
    ;
    assert(u * (s * most) + t * ((u - s) * most) <= uu * most) by (nonlinear_arith)
        requires
            0 <= s <= u,
            0 <= t <= u,
            most >= 0,
            uu == u * u,
    ;
    assert(u * (s * whole) == u * (s * whole) && -(u * (s * most)) <= u * (s * whole) <= u * (s
        * most)) by (nonlinear_arith)
        requires
            -(u * most) <= s * whole <= u * most,
            -most <= whole <= most,
            0 <= s <= u,
            u > 0,
    ;
    assert(u * (u * one) == u * (s * whole) - u * lost) by (nonlinear_arith)
        requires
            u * one == s * whole - lost,
    ;
    assert(-(2 * (l * uu)) <= u * lost <= 2 * (l * uu)) by (nonlinear_arith)
        requires
            -(2 * (l * u)) <= lost <= 2 * (l * u),
            u > 0,
            uu == u * u,
    ;
    let cap1 = u * (s * most) + 2 * (l * uu);
    let cap2 = t * ((u - s) * most) + 6 * (l * uu) + uu;
    assert(-cap1 <= uu * one <= cap1);
    assert(-cap2 <= uu * two <= cap2);
    assert(cap1 + cap2 <= uu * (most + 8 * l + 1)) by (nonlinear_arith)
        requires
            cap1 == u * (s * most) + 2 * (l * uu),
            cap2 == t * ((u - s) * most) + 6 * (l * uu) + uu,
            u * (s * most) + t * ((u - s) * most) <= uu * most,
    ;
    assert(uu * size(one) <= cap1 && uu * size(two) <= cap2) by (nonlinear_arith)
        requires
            -cap1 <= uu * one <= cap1,
            -cap2 <= uu * two <= cap2,
            size(one) == one || size(one) == -one,
            size(two) == two || size(two) == -two,
    ;
    assert(size(one) + size(two) <= most + 8 * l + 1) by (nonlinear_arith)
        requires
            uu * size(one) + uu * size(two) <= uu * (most + 8 * l + 1),
            uu > 0,
    ;
}

/// The first of the two coordinates that the shadow of a position on the
/// plane across `axis` keeps: `y`, `z`, `x` for the axes 0, 1, 2.
pub open spec fn first(p: Vec4d, axis: int) -> int {
    if axis == 0 {
        p.y.raw as int
    } else if axis == 1 {
        p.z.raw as int
    } else {
        p.x.raw as int
    }
}

/// The second of the two coordinates that the shadow keeps: `z`, `x`, `y`.
pub open spec fn second(p: Vec4d, axis: int) -> int {
    if axis == 0 {
        p.z.raw as int
    } else if axis == 1 {
        p.x.raw as int
    } else {
        p.y.raw as int
    }
}

/// Twice the area, with a sign, of the shadow that the triangle with the
/// corners `a`, `b`, `c` throws on the plane across `axis`, in steps of the
/// grid squared: the component along `axis` of the cross product of two of
/// its sides.
pub open spec fn shadow(a: Vec4d, b: Vec4d, c: Vec4d, axis: int) -> int {
    cross(
        first(b, axis) - first(a, axis),
        second(b, axis) - second(a, axis),
        first(c, axis) - first(a, axis),
        second(c, axis) - second(a, axis),
    )
}

impl Triangle {
    /// Twice the area of the triangle's shadow on the plane across `axis`.
    /// The three of them are the components of the triangle's area.
    pub open spec fn area_part(self, axis: int) -> int {
        size(shadow(self.p[0], self.p[1], self.p[2], axis))
    }

    /// Whether no two corners of the triangle lie further apart than `l`
    /// along either coordinate of the plane across `axis`.
    pub open spec fn extent_within(self, axis: int, l: int) -> bool {
        &&& -l <= first(self.p[1], axis) - first(self.p[0], axis) <= l
        &&& -l <= first(self.p[2], axis) - first(self.p[0], axis) <= l
        &&& -l <= first(self.p[2], axis) - first(self.p[1], axis) <= l
        &&& -l <= second(self.p[1], axis) - second(self.p[0], axis) <= l
        &&& -l <= second(self.p[2], axis) - second(self.p[0], axis) <= l
        &&& -l <= second(self.p[2], axis) - second(self.p[1], axis) <= l
    }
}

/// The areas of the shadows of the triangles of a list, summed.
pub open spec fn areas(ts: Seq<Triangle>, axis: int) -> int
    decreases ts.len(),
{
    if ts.len() == 0 {
        0
    } else {
        areas(ts.drop_last(), axis) + ts.last().area_part(axis)
    }
}

/// The area of a shadow does not depend on the order of the corners.
proof fn lemma_any_order(a: Vec4d, b: Vec4d, c: Vec4d, axis: int)
    ensures
        size(shadow(b, a, c, axis)) == size(shadow(a, b, c, axis)),
        size(shadow(c, a, b, axis)) == size(shadow(a, b, c, axis)),
        size(shadow(a, c, b, axis)) == size(shadow(a, b, c, axis)),
        size(shadow(b, c, a, axis)) == size(shadow(a, b, c, axis)),
{
    let (ax, ay) = (first(a, axis), second(a, axis));
    let (bx, by) = (first(b, axis), second(b, axis));
    let (cx, cy) = (first(c, axis), second(c, axis));
    lemma_cross(0, cx - ax, cy - ay, bx - ax, by - ay, bx - ax, by - ay);
    lemma_cross(0, bx - ax, by - ay, cx - ax, cy - ay, cx - ax, cy - ay);
    lemma_cross(0, 0, 0, bx - ax, by - ay, cx - ax, cy - ay);
    lemma_cross(0, 0, 0, bx - ax, by - ay, cx - bx, cy - by);
    lemma_cross(0, 0, 0, cx - ax, cy - ay, cx - bx, cy - by);
    lemma_cross(0, cx - ax, cy - ay, bx - ax, by - ay, cx - ax, cy - ay);
    lemma_cross(0, 0, 0, cx - ax, cy - ay, bx - cx, by - cy);
    lemma_cross(0, bx - ax, by - ay, cx - ax, cy - ay, cx - ax, cy - ay);
    lemma_cross(0, cx - ax, cy - ay, 0, 0, bx - ax, by - ay);
    let whole = shadow(a, b, c, axis);
    assert(shadow(a, c, b, axis) == -whole);
    assert(shadow(b, a, c, axis) == -whole);
    assert(shadow(b, c, a, axis) == whole);
    assert(shadow(c, a, b, axis) == whole);
}

/// The piece that one kept corner `a` leaves, with the dropped corners `b`
/// and `c`, is no larger than the triangle of the three, up to rounding.
proof fn lemma_piece_of_one(plane: Plane, a: Vec4d, b: Vec4d, c: Vec4d, axis: int, l: int)
    requires
        moderate(a) && moderate(b) && moderate(c),
        plane.distance(&a).raw >= 0,
        plane.distance(&b).raw < 0,
        plane.distance(&c).raw < 0,
        -l <= first(b, axis) - first(a, axis) <= l && -l <= second(b, axis) - second(a, axis) <= l,
        -l <= first(c, axis) - first(a, axis) <= l && -l <= second(c, axis) - second(a, axis) <= l,
    ensures
        size(
            shadow(a, plane.line_intersect_plane(a, b).0, plane.line_intersect_plane(a, c).0, axis),
        ) <= size(shadow(a, b, c, axis)) + 4 * l + 1,
{
    lemma_cut_on_edge(plane, a, b);
    lemma_cut_on_edge(plane, a, c);
    let (p, s) = plane.line_intersect_plane(a, b);
    let (q, t) = plane.line_intersect_plane(a, c);
    lemma_one_kept(
        first(b, axis) - first(a, axis),
        second(b, axis) - second(a, axis),
        first(c, axis) - first(a, axis),
        second(c, axis) - second(a, axis),
        s.raw as int,
        t.raw as int,
        first(p, axis) - first(a, axis),
        second(p, axis) - second(a, axis),
        first(q, axis) - first(a, axis),
        second(q, axis) - second(a, axis),
        l,
    );
}

/// The two pieces that two kept corners `a` and `b` leave, with the dropped
/// corner `c`, are together no larger than the triangle of the three, up to
/// rounding.
proof fn lemma_pieces_of_two(plane: Plane, a: Vec4d, b: Vec4d, c: Vec4d, axis: int, l: int)
    requires
        moderate(a) && moderate(b) && moderate(c),
        plane.distance(&a).raw >= 0,
        plane.distance(&b).raw >= 0,
        plane.distance(&c).raw < 0,
        -l <= first(b, axis) - first(a, axis) <= l && -l <= second(b, axis) - second(a, axis) <= l,
        -l <= first(c, axis) - first(a, axis) <= l && -l <= second(c, axis) - second(a, axis) <= l,
        -l <= first(c, axis) - first(b, axis) <= l && -l <= second(c, axis) - second(b, axis) <= l,
    ensures
        size(shadow(a, b, plane.line_intersect_plane(a, c).0, axis)) + size(
            shadow(b, plane.line_intersect_plane(a, c).0, plane.line_intersect_plane(b, c).0, axis),
        ) <= size(shadow(a, b, c, axis)) + 8 * l + 1,
{
    lemma_cut_on_edge(plane, a, c);
    lemma_cut_on_edge(plane, b, c);
    let (p, s) = plane.line_intersect_plane(a, c);
    let (q, t) = plane.line_intersect_plane(b, c);
    lemma_two_kept(
        first(b, axis) - first(a, axis),
        second(b, axis) - second(a, axis),
        first(c, axis) - first(a, axis),
        second(c, axis) - second(a, axis),
        s.raw as int,
        t.raw as int,
        first(p, axis) - first(a, axis),
        second(p, axis) - second(a, axis),
        first(q, axis) - first(b, axis),
        second(q, axis) - second(b, axis),
        l,
    );
}

/// The areas of a list of one triangle and of two, written out.
proof fn lemma_areas(ts: Seq<Triangle>, axis: int)
    ensures
        ts.len() == 0 ==> areas(ts, axis) == 0,
        ts.len() == 1 ==> areas(ts, axis) == ts[0].area_part(axis),
        ts.len() == 2 ==> areas(ts, axis) == ts[0].area_part(axis) + ts[1].area_part(axis),
{
    reveal_with_fuel(areas, 3);
    if ts.len() == 2 {
        assert(ts.drop_last()[0] == ts[0]);
        assert(ts.drop_last().drop_last().len() == 0);
    }
}

/// Clipping does not add to a triangle's area, up to rounding: along each
/// axis, the areas of the shadows of the pieces are together no larger than
/// the area of the triangle's shadow and that of a strip eight steps of the
/// grid wide along its extent, and one step squared; and they are the
/// triangle's area where no corner lies outside. The extent `l` is a bound
/// on how far apart two corners lie along either coordinate of the shadow,
/// in steps of the grid, and the corners are to be within
/// [`crate::gfx3d::cut::reach`].
pub proof fn lemma_clip_area(t: Triangle, plane: Plane, axis: int, l: int)
    requires
        moderate(t.p[0]) && moderate(t.p[1]) && moderate(t.p[2]),
        t.extent_within(axis, l),
    ensures
        areas(t.clip_against_plane_spec(&plane), axis) <= t.area_part(axis) + 8 * l + 1,
        plane.distance(&t.p[0]).raw >= 0 && plane.distance(&t.p[1]).raw >= 0 && plane.distance(
            &t.p[2],
        ).raw >= 0 ==> areas(t.clip_against_plane_spec(&plane), axis) == t.area_part(axis),
{
    let dist = t.distances(plane);
    let pieces = t.clip_against_plane_spec(&plane);
    let (a, b, c) = (t.p[0], t.p[1], t.p[2]);
    lemma_clipped(dist);
    lemma_whole_or_nothing(t, plane);
    lemma_areas(pieces, axis);
    lemma_any_order(a, b, c, axis);
    let (in0, in1, in2) = (dist[0] >= 0, dist[1] >= 0, dist[2] >= 0);
    let k = kept(dist);
    let d = dropped(dist);
    if in0 && in1 && in2 {
        assert(pieces[0] == t);
    } else if !in0 && !in1 && !in2 {
    } else if k.len() == 1 {
        assert(pieces[0] == t.piece(plane, clipped(dist)[0]));
        if in0 {
            assert(k[0] == 0 && d[0] == 1 && d[1] == 2);
            lemma_piece_of_one(plane, a, b, c, axis, l);
        } else if in1 {
            assert(k[0] == 1 && d[0] == 0 && d[1] == 2);
            lemma_piece_of_one(plane, b, a, c, axis, l);
        } else {
            assert(k[0] == 2 && d[0] == 0 && d[1] == 1);
            lemma_piece_of_one(plane, c, a, b, axis, l);
        }
    } else {
        assert(pieces[0] == t.piece(plane, clipped(dist)[0]));
        assert(pieces[1] == t.piece(plane, clipped(dist)[1]));
        if !in2 {
            assert(k[0] == 0 && k[1] == 1 && d[0] == 2);
            lemma_pieces_of_two(plane, a, b, c, axis, l);
        } else if !in1 {
            assert(k[0] == 0 && k[1] == 2 && d[0] == 1);
            lemma_pieces_of_two(plane, a, c, b, axis, l);
        } else {
            assert(k[0] == 1 && k[1] == 2 && d[0] == 0);
            lemma_pieces_of_two(plane, b, c, a, axis, l);
        }
    }
}

} // verus!
