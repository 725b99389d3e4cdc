//! Which pixels a screen-space triangle covers.
//!
//! Coverage is decided with integer edge functions and the top-left fill
//! rule, so that two triangles sharing an edge never both own a pixel on it
//! and never both disown it.

use vstd::prelude::*;
use crate::arith::lemma_mul_bound;

verus! {

/// A triangle corner on the screen: its pixel position, and the texture
/// attributes `u / w`, `v / w` and `1 / w` of the corner as integers over one
/// scale of the caller's choosing. Larger `w` is nearer to the viewer.
#[derive(Debug, Clone, Copy, PartialEq, Eq, Structural)]
pub struct Vertex {
    pub x: i32,
    pub y: i32,
    pub u: i32,
    pub v: i32,
    pub w: i32,
}

/// A triangle on the screen.
#[derive(Debug, Clone, Copy, PartialEq, Eq, Structural)]
pub struct ScreenTriangle {
    pub a: Vertex,
    pub b: Vertex,
    pub c: Vertex,
}

/// Twice the signed area of the triangle `a`, `b`, `p`: positive where `p`
/// lies on the inner side of the directed edge from `a` to `b` of a triangle
/// wound the way the rasteriser fills it.
pub open spec fn orient(ax: int, ay: int, bx: int, by: int, px: int, py: int) -> int {
    (bx - ax) * (py - ay) - (by - ay) * (px - ax)
}

/// The edge function of the directed edge from `from` to `to` at `(x, y)`.
pub open spec fn edge(from: Vertex, to: Vertex, x: int, y: int) -> int {
    orient(from.x as int, from.y as int, to.x as int, to.y as int, x, y)
}

/// Whether the directed edge is a top or a left edge of a triangle that the
/// rasteriser fills: it runs upward on the screen, or level and rightward.
/// Pixels exactly on such an edge belong to the triangle.
pub open spec fn top_left(from: Vertex, to: Vertex) -> bool {
    from.y > to.y || (from.y == to.y && to.x > from.x)
}

/// Whether `(x, y)` is on the inner side of the edge, the edge itself
/// counting only if it is a top or left edge.
pub open spec fn edge_passes(from: Vertex, to: Vertex, x: int, y: int) -> bool {
    edge(from, to, x, y) > 0 || (edge(from, to, x, y) == 0 && top_left(from, to))
}

impl ScreenTriangle {
    /// Twice the signed area.
    pub open spec fn area2(self) -> int {
        edge(self.a, self.b, self.c.x as int, self.c.y as int)
    }

    /// The same triangle wound so that its area is not negative.
    pub open spec fn front(self) -> ScreenTriangle {
        if self.area2() < 0 {
            ScreenTriangle { a: self.a, b: self.c, c: self.b }
        } else {
            self
        }
    }

    /// The barycentric weight of corner `a` at `(x, y)`, times `area2`.
    pub open spec fn weight_a(self, x: int, y: int) -> int {
        edge(self.b, self.c, x, y)
    }

    /// The barycentric weight of corner `b` at `(x, y)`, times `area2`.
    pub open spec fn weight_b(self, x: int, y: int) -> int {
        edge(self.c, self.a, x, y)
    }

    /// The barycentric weight of corner `c` at `(x, y)`, times `area2`.
    pub open spec fn weight_c(self, x: int, y: int) -> int {
        edge(self.a, self.b, x, y)
    }

    /// Whether a triangle of positive area, as it is wound, owns `(x, y)`.
    pub open spec fn owns(self, x: int, y: int) -> bool {
        &&& self.area2() > 0
        &&& edge_passes(self.b, self.c, x, y)
        &&& edge_passes(self.c, self.a, x, y)
        &&& edge_passes(self.a, self.b, x, y)
    }

    /// Whether the triangle covers the pixel `(x, y)`, however it is wound.
    /// A triangle without area covers nothing.
    pub open spec fn covers(self, x: int, y: int) -> bool {
        self.front().owns(x, y)
    }

    /// The smallest `x` of the corners.
    pub open spec fn min_x(self) -> int {
        vstd::math::min(vstd::math::min(self.a.x as int, self.b.x as int), self.c.x as int)
    }

    /// The largest `x` of the corners.
    pub open spec fn max_x(self) -> int {
        vstd::math::max(vstd::math::max(self.a.x as int, self.b.x as int), self.c.x as int)
    }

    /// The smallest `y` of the corners.
    pub open spec fn min_y(self) -> int {
        vstd::math::min(vstd::math::min(self.a.y as int, self.b.y as int), self.c.y as int)
    }

    /// The largest `y` of the corners.
    pub open spec fn max_y(self) -> int {
        vstd::math::max(vstd::math::max(self.a.y as int, self.b.y as int), self.c.y as int)
    }
}

/// An edge function changes by a fixed amount per pixel to the right and per
/// pixel down.
pub proof fn lemma_orient_steps(ax: int, ay: int, bx: int, by: int, px: int, py: int)
    ensures
        orient(ax, ay, bx, by, px + 1, py) == orient(ax, ay, bx, by, px, py) + (ay - by),
        orient(ax, ay, bx, by, px, py + 1) == orient(ax, ay, bx, by, px, py) + (bx - ax),
{
    assert((by - ay) * (px + 1 - ax) == (by - ay) * (px - ax) + (by - ay)) by (nonlinear_arith);
    assert((bx - ax) * (py + 1 - ay) == (bx - ax) * (py - ay) + (bx - ax)) by (nonlinear_arith);
}

/// An edge function written out in products of coordinates.
proof fn lemma_orient_expand(ax: int, ay: int, bx: int, by: int, px: int, py: int)
    ensures
        orient(ax, ay, bx, by, px, py) == bx * py - bx * ay - ax * py - by * px + by * ax + ay * px,
{
    assert((bx - ax) * (py - ay) == bx * py - bx * ay - ax * py + ax * ay) by (nonlinear_arith);
    assert((by - ay) * (px - ax) == by * px - by * ax - ay * px + ay * ax) by (nonlinear_arith);
    assert(ax * ay == ay * ax) by (nonlinear_arith);
}

/// A sum of six products times one more factor.
proof fn lemma_distribute(m1: int, m2: int, m3: int, m4: int, m5: int, m6: int, z: int)
    ensures
        (m1 - m2 - m3 - m4 + m5 + m6) * z == m1 * z - m2 * z - m3 * z - m4 * z + m5 * z + m6 * z,
{
    assert((m1 - m2 - m3 - m4 + m5 + m6) * z == m1 * z - m2 * z - m3 * z - m4 * z + m5 * z + m6
        * z) by (nonlinear_arith);
}

/// The three weights at a point add up to twice the area.
pub proof fn lemma_weights_sum(t: ScreenTriangle, x: int, y: int)
    ensures
        t.weight_a(x, y) + t.weight_b(x, y) + t.weight_c(x, y) == t.area2(),
{
    let (ax, ay) = (t.a.x as int, t.a.y as int);
    let (bx, by) = (t.b.x as int, t.b.y as int);
    let (cx, cy) = (t.c.x as int, t.c.y as int);
    lemma_orient_expand(bx, by, cx, cy, x, y);
    lemma_orient_expand(cx, cy, ax, ay, x, y);
    lemma_orient_expand(ax, ay, bx, by, x, y);
    lemma_orient_expand(ax, ay, bx, by, cx, cy);
    assert(cx * by == by * cx) by (nonlinear_arith);
    assert(ax * cy == cy * ax) by (nonlinear_arith);
    assert(bx * ay == ay * bx) by (nonlinear_arith);
}

/// `orient(a, b, p) * z` written out in products of coordinates.
proof fn lemma_orient_times(ax: int, ay: int, bx: int, by: int, px: int, py: int, z: int)
    ensures
        orient(ax, ay, bx, by, px, py) * z == bx * py * z - bx * ay * z - ax * py * z - by * px * z
            + by * ax * z + ay * px * z,
{
    lemma_orient_expand(ax, ay, bx, by, px, py);
    lemma_distribute(bx * py, bx * ay, ax * py, by * px, by * ax, ay * px, z);
}

/// A product of three factors does not depend on their order.
proof fn lemma_mul3(a: int, b: int, c: int)
    ensures
        a * b * c == a * c * b,
        a * b * c == b * a * c,
        a * b * c == b * c * a,
        a * b * c == c * a * b,
        a * b * c == c * b * a,
{
    assert(a * b * c == a * c * b) by (nonlinear_arith);
    assert(a * b * c == b * a * c) by (nonlinear_arith);
    assert(a * b * c == b * c * a) by (nonlinear_arith);
    assert(a * b * c == c * a * b) by (nonlinear_arith);
    assert(a * b * c == c * b * a) by (nonlinear_arith);
}

/// The identity behind barycentric coordinates, for the first axis.
proof fn lemma_barycentric_x(ax: int, ay: int, bx: int, by: int, cx: int, cy: int, x: int, y: int)
    ensures
        orient(bx, by, cx, cy, x, y) * ax + orient(cx, cy, ax, ay, x, y) * bx + orient(
            ax,
            ay,
            bx,
            by,
            x,
            y,
        ) * cx == orient(ax, ay, bx, by, cx, cy) * x,
{
    lemma_orient_times(bx, by, cx, cy, x, y, ax);
    lemma_orient_times(cx, cy, ax, ay, x, y, bx);
    lemma_orient_times(ax, ay, bx, by, x, y, cx);
    lemma_orient_times(ax, ay, bx, by, cx, cy, x);
    // Both sides are now sums of products of three coordinates; what is
    // left is to match the products up to the order of their factors.
    lemma_mul3(cx, y, ax);
    lemma_mul3(ax, y, cx);
    lemma_mul3(bx, y, ax);
    lemma_mul3(ax, y, bx);
    lemma_mul3(cx, y, bx);
    lemma_mul3(bx, y, cx);
    lemma_mul3(cx, by, ax);
    lemma_mul3(by, ax, cx);
    lemma_mul3(cy, bx, ax);
    lemma_mul3(ax, cy, bx);
    lemma_mul3(ay, cx, bx);
    lemma_mul3(bx, ay, cx);
    lemma_mul3(cy, x, ax);
    lemma_mul3(ax, cy, x);
    lemma_mul3(by, x, ax);
    lemma_mul3(by, ax, x);
    lemma_mul3(ay, x, bx);
    lemma_mul3(bx, ay, x);
    lemma_mul3(cy, x, bx);
    lemma_mul3(bx, cy, x);
    lemma_mul3(by, x, cx);
    lemma_mul3(by, cx, x);
    lemma_mul3(ay, x, cx);
    lemma_mul3(ay, cx, x);
}

/// A point is the average of the corners under its weights.
pub proof fn lemma_barycentric(t: ScreenTriangle, x: int, y: int)
    ensures
        t.weight_a(x, y) * t.a.x + t.weight_b(x, y) * t.b.x + t.weight_c(x, y) * t.c.x
            == t.area2() * x,
        t.weight_a(x, y) * t.a.y + t.weight_b(x, y) * t.b.y + t.weight_c(x, y) * t.c.y
            == t.area2() * y,
{
    let (ax, ay) = (t.a.x as int, t.a.y as int);
    let (bx, by) = (t.b.x as int, t.b.y as int);
    let (cx, cy) = (t.c.x as int, t.c.y as int);
    lemma_barycentric_x(ax, ay, bx, by, cx, cy, x, y);
    // The same identity with the two axes exchanged: exchanging them negates
    // every edge function.
    lemma_barycentric_x(ay, ax, by, bx, cy, cx, y, x);
    lemma_orient_flip(bx, by, cx, cy, x, y);
    lemma_orient_flip(cx, cy, ax, ay, x, y);
    lemma_orient_flip(ax, ay, bx, by, x, y);
    lemma_orient_flip(ax, ay, bx, by, cx, cy);
    assert((-orient(bx, by, cx, cy, x, y)) * ay == -(orient(bx, by, cx, cy, x, y) * ay))
        by (nonlinear_arith);
    assert((-orient(cx, cy, ax, ay, x, y)) * by == -(orient(cx, cy, ax, ay, x, y) * by))
        by (nonlinear_arith);
    assert((-orient(ax, ay, bx, by, x, y)) * cy == -(orient(ax, ay, bx, by, x, y) * cy))
        by (nonlinear_arith);
    assert((-orient(ax, ay, bx, by, cx, cy)) * y == -(orient(ax, ay, bx, by, cx, cy) * y))
        by (nonlinear_arith);
}

/// Exchanging the two axes negates an edge function.
proof fn lemma_orient_flip(ax: int, ay: int, bx: int, by: int, px: int, py: int)
    ensures
        orient(ay, ax, by, bx, py, px) == -orient(ax, ay, bx, by, px, py),
{
}

impl ScreenTriangle {
    /// The same triangle named from its second corner on.
    pub open spec fn rotated(self) -> ScreenTriangle {
        ScreenTriangle { a: self.b, b: self.c, c: self.a }
    }
}

/// Naming a triangle from another corner on changes neither its area nor the
/// pixels it owns.
pub proof fn lemma_rotated(t: ScreenTriangle, x: int, y: int)
    ensures
        t.rotated().area2() == t.area2(),
        t.rotated().owns(x, y) == t.owns(x, y),
{
    lemma_weights_sum(t, t.a.x as int, t.a.y as int);
}

/// The sign of a product from the signs of its factors.
proof fn lemma_sign(p: int, q: int)
    ensures
        p > 0 && q > 0 ==> p * q > 0,
        p < 0 && q < 0 ==> p * q > 0,
        p > 0 && q < 0 ==> p * q < 0,
        p < 0 && q > 0 ==> p * q < 0,
        p == 0 || q == 0 ==> p * q == 0,
{
    assert(p > 0 && q > 0 ==> p * q > 0) by (nonlinear_arith);
    assert(p < 0 && q < 0 ==> p * q > 0) by (nonlinear_arith);
    assert(p > 0 && q < 0 ==> p * q < 0) by (nonlinear_arith);
    assert(p < 0 && q > 0 ==> p * q < 0) by (nonlinear_arith);
    assert(p == 0 || q == 0 ==> p * q == 0) by (nonlinear_arith);
}

/// Weights that are not negative, with a positive sum, put the weighted
/// average of three values between the least and the greatest of them; and a
/// value that differs from the average has weight zero when the average is
/// the greatest or the least.
proof fn lemma_average(wa: int, wb: int, wc: int, za: int, zb: int, zc: int, z: int)
    requires
        wa >= 0,
        wb >= 0,
        wc >= 0,
        wa + wb + wc > 0,
        wa * za + wb * zb + wc * zc == (wa + wb + wc) * z,
    ensures
        za <= z || zb <= z || zc <= z,
        za >= z || zb >= z || zc >= z,
        za <= z && zb <= z && zc <= z ==> (wa == 0 || za == z) && (wb == 0 || zb == z) && (wc == 0
            || zc == z),
{
    assert((wa + wb + wc) * z == wa * z + wb * z + wc * z) by (nonlinear_arith);
    assert(wa * z - wa * za == wa * (z - za)) by (nonlinear_arith);
    assert(wb * z - wb * zb == wb * (z - zb)) by (nonlinear_arith);
    assert(wc * z - wc * zc == wc * (z - zc)) by (nonlinear_arith);
    lemma_sign(wa, z - za);
    lemma_sign(wb, z - zb);
    lemma_sign(wc, z - zc);
}

/// A pixel in the column of a rightmost corner `a`, with no corner further
/// right, is not owned.
proof fn lemma_right_column(t: ScreenTriangle, x: int, y: int)
    requires
        t.a.x == x,
        t.b.x <= x,
        t.c.x <= x,
    ensures
        !t.owns(x, y),
{
    if t.owns(x, y) {
        lemma_weights_sum(t, x, y);
        lemma_barycentric(t, x, y);
        lemma_average(
            t.weight_a(x, y),
            t.weight_b(x, y),
            t.weight_c(x, y),
            t.a.x as int,
            t.b.x as int,
            t.c.x as int,
            x,
        );
        lemma_sign(t.b.x - t.a.x, t.c.y - t.a.y);
        lemma_sign(t.b.y - t.a.y, t.c.x - t.a.x);
    }
}

/// A pixel in the row of a lowest corner `a`, with no corner further down,
/// is not owned.
proof fn lemma_bottom_row(t: ScreenTriangle, x: int, y: int)
    requires
        t.a.y == y,
        t.b.y <= y,
        t.c.y <= y,
    ensures
        !t.owns(x, y),
{
    if t.owns(x, y) {
        lemma_weights_sum(t, x, y);
        lemma_barycentric(t, x, y);
        lemma_average(
            t.weight_a(x, y),
            t.weight_b(x, y),
            t.weight_c(x, y),
            t.a.y as int,
            t.b.y as int,
            t.c.y as int,
            y,
        );
        lemma_sign(t.b.x - t.a.x, t.c.y - t.a.y);
        lemma_sign(t.b.y - t.a.y, t.c.x - t.a.x);
    }
}

/// A pixel that a triangle owns lies in the bounding box of the corners, the
/// box's last column and last row left out.
pub proof fn lemma_owns_in_box(t: ScreenTriangle, x: int, y: int)
    requires
        t.owns(x, y),
    ensures
        t.min_x() <= x < t.max_x(),
        t.min_y() <= y < t.max_y(),
{
    lemma_weights_sum(t, x, y);
    lemma_barycentric(t, x, y);
    let (wa, wb, wc) = (t.weight_a(x, y), t.weight_b(x, y), t.weight_c(x, y));
    lemma_average(wa, wb, wc, t.a.x as int, t.b.x as int, t.c.x as int, x);
    lemma_average(wa, wb, wc, t.a.y as int, t.b.y as int, t.c.y as int, y);
    let r = t.rotated();
    let rr = r.rotated();
    lemma_rotated(t, x, y);
    lemma_rotated(r, x, y);
    if x >= t.max_x() {
        if t.a.x == t.max_x() {
            lemma_right_column(t, x, y);
        } else if t.b.x == t.max_x() {
            lemma_right_column(r, x, y);
        } else {
            lemma_right_column(rr, x, y);
        }
    }
    if y >= t.max_y() {
        if t.a.y == t.max_y() {
            lemma_bottom_row(t, x, y);
        } else if t.b.y == t.max_y() {
            lemma_bottom_row(r, x, y);
        } else {
            lemma_bottom_row(rr, x, y);
        }
    }
}

/// Winding a triangle the other way negates its area; so the fill winding
/// of a triangle has no negative area, and is its own fill winding.
pub proof fn lemma_front(t: ScreenTriangle)
    ensures
        (ScreenTriangle { a: t.a, b: t.c, c: t.b }).area2() == -t.area2(),
        t.front().area2() >= 0,
        t.front().front() == t.front(),
{
    lemma_orient_expand(t.a.x as int, t.a.y as int, t.b.x as int, t.b.y as int, t.c.x as int, t.c.y as int);
    lemma_orient_expand(t.a.x as int, t.a.y as int, t.c.x as int, t.c.y as int, t.b.x as int, t.b.y as int);
    assert(t.c.x * t.b.y == t.b.y * t.c.x) by (nonlinear_arith);
    assert(t.b.x * t.c.y == t.c.y * t.b.x) by (nonlinear_arith);
    assert(t.c.x * t.a.y == t.a.y * t.c.x) by (nonlinear_arith);
    assert(t.b.x * t.a.y == t.a.y * t.b.x) by (nonlinear_arith);
    assert(t.a.x * t.c.y == t.c.y * t.a.x) by (nonlinear_arith);
    assert(t.a.x * t.b.y == t.b.y * t.a.x) by (nonlinear_arith);
}

/// Winding a triangle the other way leaves the pixels it covers unchanged,
/// and so does naming it from another corner on: coverage belongs to the
/// triangle, not to the order of its corners.
pub proof fn lemma_covers_any_order(t: ScreenTriangle, x: int, y: int)
    ensures
        (ScreenTriangle { a: t.a, b: t.c, c: t.b }).covers(x, y) == t.covers(x, y),
        t.rotated().covers(x, y) == t.covers(x, y),
{
    lemma_front(t);
    lemma_rotated(t, x, y);
    lemma_rotated(t.front(), x, y);
    lemma_rotated(t.front().rotated(), x, y);
}

/// No seam: let two triangles of the same winding share the edge between
/// `a` and `b`, one on each side of it. Then no pixel is covered by both, and
/// a pixel that passes the two other edges of each is covered by one of them.
pub proof fn lemma_shared_edge(a: Vertex, b: Vertex, c: Vertex, d: Vertex, x: int, y: int)
    requires
        (ScreenTriangle { a, b, c }).area2() > 0,
        (ScreenTriangle { a: b, b: a, c: d }).area2() > 0,
    ensures
        !((ScreenTriangle { a, b, c }).covers(x, y) && (ScreenTriangle { a: b, b: a, c: d }).covers(
            x,
            y,
        )),
        edge_passes(b, c, x, y) && edge_passes(c, a, x, y) && edge_passes(a, d, x, y)
            && edge_passes(d, b, x, y) ==> (ScreenTriangle { a, b, c }).covers(x, y) || (
        ScreenTriangle { a: b, b: a, c: d }).covers(x, y),
{
    lemma_orient_expand(a.x as int, a.y as int, b.x as int, b.y as int, x, y);
    lemma_orient_expand(b.x as int, b.y as int, a.x as int, a.y as int, x, y);
    assert(a.x * b.y == b.y * a.x) by (nonlinear_arith);
    assert(b.x * a.y == a.y * b.x) by (nonlinear_arith);
    assert(edge(b, a, x, y) == -edge(a, b, x, y));
    // The corners of the shared edge differ, or the triangles had no area.
    if a.x == b.x && a.y == b.y {
        lemma_sign(b.x - a.x, c.y - a.y);
        lemma_sign(b.y - a.y, c.x - a.x);
    }
}

/// An edge function of corners on the screen, at a point whose coordinates
/// fit in 32 bits, fits in 66 bits.
pub proof fn lemma_edge_bound(from: Vertex, to: Vertex, x: int, y: int)
    requires
        -0x8000_0000 <= x <= 0x8000_0000,
        -0x8000_0000 <= y <= 0x8000_0000,
    ensures
        -0x2_0000_0000_0000_0000 <= edge(from, to, x, y) <= 0x2_0000_0000_0000_0000,
{
    lemma_mul_bound(to.x - from.x, y - from.y, 0x1_0000_0000, 0x1_0000_0000);
    lemma_mul_bound(to.y - from.y, x - from.x, 0x1_0000_0000, 0x1_0000_0000);
}

/// Computes [`edge`].
pub fn edge_value(from: &Vertex, to: &Vertex, x: i64, y: i64) -> (e: i128)
    requires
        -0x8000_0000 <= x <= 0x8000_0000,
        -0x8000_0000 <= y <= 0x8000_0000,
    ensures
        e == edge(*from, *to, x as int, y as int),
{
    proof {
        lemma_mul_bound(to.x - from.x, y - from.y, 0x1_0000_0000, 0x1_0000_0000);
        lemma_mul_bound(to.y - from.y, x - from.x, 0x1_0000_0000, 0x1_0000_0000);
    }
    let dx: i128 = (to.x as i128) - (from.x as i128);
    let dy: i128 = (to.y as i128) - (from.y as i128);
    dx * ((y as i128) - (from.y as i128)) - dy * ((x as i128) - (from.x as i128))
}

/// Computes [`top_left`].
pub fn is_top_left(from: &Vertex, to: &Vertex) -> (b: bool)
    ensures
        b == top_left(*from, *to),
{
    from.y > to.y || (from.y == to.y && to.x > from.x)
}

/// The least of three numbers.
pub fn min3(a: i32, b: i32, c: i32) -> (m: i32)
    ensures
        m == vstd::math::min(vstd::math::min(a as int, b as int), c as int),
{
    let ab = if a < b {
        a
    } else {
        b
    };
    if ab < c {
        ab
    } else {
        c
    }
}

/// The greatest of three numbers.
pub fn max3(a: i32, b: i32, c: i32) -> (m: i32)
    ensures
        m == vstd::math::max(vstd::math::max(a as int, b as int), c as int),
{
    let ab = if a > b {
        a
    } else {
        b
    };
    if ab > c {
        ab
    } else {
        c
    }
}

/// The lower end of a span clamped to the buffer.
pub fn clamp_low(v: i32) -> (r: i64)
    ensures
        r == vstd::math::max(v as int, 0),
{
    if v < 0 {
        0
    } else {
        v as i64
    }
}

/// The upper end of a span clamped to the buffer.
pub fn clamp_high(v: i32, limit: usize) -> (r: i64)
    ensures
        r == vstd::math::min(v as int, limit as int),
{
    if v < 0 {
        v as i64
    } else if (v as u32 as usize) < limit {
        v as i64
    } else {
        limit as i64
    }
}

impl ScreenTriangle {
    /// Computes [`ScreenTriangle::front`].
    pub fn facing(&self) -> (t: ScreenTriangle)
        ensures
            t == self.front(),
    {
        let area = edge_value(&self.a, &self.b, self.c.x as i64, self.c.y as i64);
        if area < 0 {
            ScreenTriangle { a: self.a, b: self.c, c: self.b }
        } else {
            *self
        }
    }

    /// Whether a triangle, as it is wound, owns the pixel `(x, y)`.
    pub fn owns_pixel(&self, x: i64, y: i64) -> (b: bool)
        requires
            -0x8000_0000 <= x <= 0x8000_0000,
            -0x8000_0000 <= y <= 0x8000_0000,
        ensures
            b == self.owns(x as int, y as int),
    {
        let area = edge_value(&self.a, &self.b, self.c.x as i64, self.c.y as i64);
        if area <= 0 {
            return false;
        }
        let wa = edge_value(&self.b, &self.c, x, y);
        let wb = edge_value(&self.c, &self.a, x, y);
        let wc = edge_value(&self.a, &self.b, x, y);
        (wa > 0 || (wa == 0 && is_top_left(&self.b, &self.c))) && (wb > 0 || (wb == 0 && is_top_left(
            &self.c,
            &self.a,
        ))) && (wc > 0 || (wc == 0 && is_top_left(&self.a, &self.b)))
    }
}

} // verus!
