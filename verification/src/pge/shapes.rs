//! Lines, rectangles, triangles and circles.

use vstd::prelude::*;
use crate::arith::floor_div;
use crate::arith::lemma_mul_bound;
use crate::gfx3d::coverage::ScreenTriangle;
use crate::gfx3d::coverage::Vertex;
use crate::gfx3d::coverage::clamp_high;
use crate::gfx3d::coverage::clamp_low;
use crate::gfx3d::coverage::lemma_front;
use crate::gfx3d::coverage::lemma_owns_in_box;
use crate::gfx3d::coverage::max3;
use crate::gfx3d::coverage::min3;
use crate::pge::PGE;
use crate::pge::lemma_drawn_all_concat;
use crate::pge::lemma_drawn_all_push;
use crate::pge::lemma_scan_done;
use crate::pge::lemma_scan_row;
use crate::pge::lemma_scan_start;
use crate::pge::lemma_scan_step;
use crate::pge::scan_of;
use crate::pixel::Pixel;

verus! {

/// `v` held between `lo` and `hi`.
pub open spec fn clamp(v: int, lo: int, hi: int) -> int {
    if v < lo {
        lo
    } else if v > hi {
        hi
    } else {
        v
    }
}

/// The paint that puts `p` on every position of the box `x0..x1` by `y0..y1`.
pub open spec fn box_paint(x0: int, x1: int, y0: int, y1: int, p: Pixel) -> spec_fn(int, int) -> Option<
    Pixel,
> {
    |px: int, py: int|
        if x0 <= px < x1 && y0 <= py < y1 {
            Some(p)
        } else {
            None
        }
}

/// The screen triangle with the given corners and no texture attributes.
pub open spec fn flat_triangle(x1: i32, y1: i32, x2: i32, y2: i32, x3: i32, y3: i32) -> ScreenTriangle {
    ScreenTriangle {
        a: Vertex { x: x1, y: y1, u: 0, v: 0, w: 0 },
        b: Vertex { x: x2, y: y2, u: 0, v: 0, w: 0 },
        c: Vertex { x: x3, y: y3, u: 0, v: 0, w: 0 },
    }
}

/// The paint that puts `p` on every position of a `width` by `height` screen
/// that the triangle covers.
pub open spec fn triangle_paint(t: ScreenTriangle, width: int, height: int, p: Pixel) -> spec_fn(
    int,
    int,
) -> Option<Pixel> {
    |px: int, py: int|
        if 0 <= px < width && 0 <= py < height && t.covers(px, py) {
            Some(p)
        } else {
            None
        }
}

/// The number of steps of a line: the longer of its two extents.
pub open spec fn line_steps(x1: int, y1: int, x2: int, y2: int) -> int {
    vstd::math::max(vstd::math::abs(x2 - x1) as int, vstd::math::abs(y2 - y1) as int)
}

/// `k * delta / n` rounded to the nearest integer, halves upward.
pub open spec fn along(k: int, delta: int, n: int) -> int {
    (2 * k * delta + n) / (2 * n)
}

/// The `k`-th point of the line from `(x1, y1)` to `(x2, y2)`: the grid point
/// nearest the straight line after `k` steps along the longer axis.
pub open spec fn line_point(x1: int, y1: int, x2: int, y2: int, k: int) -> (int, int) {
    let n = line_steps(x1, y1, x2, y2);
    if n == 0 {
        (x1, y1)
    } else {
        (x1 + along(k, x2 - x1, n), y1 + along(k, y2 - y1, n))
    }
}

/// The points of the line from `(x1, y1)` to `(x2, y2)`, both ends included,
/// in order.
pub open spec fn line_points(x1: int, y1: int, x2: int, y2: int) -> Seq<(int, int)> {
    Seq::new(
        (line_steps(x1, y1, x2, y2) + 1) as nat,
        |k: int| line_point(x1, y1, x2, y2, k),
    )
}

/// A step along a line stays between the line's ends, and the first and the
/// last step are the ends.
pub proof fn lemma_along(k: int, delta: int, n: int)
    requires
        n > 0,
        0 <= k <= n,
        -n <= delta <= n,
    ensures
        delta >= 0 ==> 0 <= along(k, delta, n) <= delta,
        delta <= 0 ==> delta <= along(k, delta, n) <= 0,
        along(0, delta, n) == 0,
        along(n, delta, n) == delta,
{
    let m = 2 * n;
    assert(2 * 0 * delta == 0) by (nonlinear_arith);
    assert(2 * n * delta + n == delta * m + n) by (nonlinear_arith)
        requires
            m == 2 * n,
    ;
    vstd::arithmetic::div_mod::lemma_fundamental_div_mod_converse(0 + n, m, 0, n);
    vstd::arithmetic::div_mod::lemma_fundamental_div_mod_converse(delta * m + n, m, delta, n);
    assert(2 * k * delta == k * delta * 2) by (nonlinear_arith);
    if delta >= 0 {
        assert(0 <= k * delta <= n * delta) by (nonlinear_arith)
            requires
                0 <= k <= n,
                delta >= 0,
        ;
        assert(0 * m <= 2 * k * delta + n);
        assert(2 * k * delta + n <= delta * m + n) by (nonlinear_arith)
            requires
                k * delta <= n * delta,
                m == 2 * n,
                2 * k * delta == k * delta * 2,
        ;
        vstd::arithmetic::div_mod::lemma_div_is_ordered(0, 2 * k * delta + n, m);
        vstd::arithmetic::div_mod::lemma_div_is_ordered(2 * k * delta + n, delta * m + n, m);
        assert(0int / m == 0);
    } else {
        assert(n * delta <= k * delta <= 0) by (nonlinear_arith)
            requires
                0 <= k <= n,
                delta <= 0,
        ;
        assert(delta * m + n <= 2 * k * delta + n) by (nonlinear_arith)
            requires
                n * delta <= k * delta,
                m == 2 * n,
                2 * k * delta == k * delta * 2,
        ;
        vstd::arithmetic::div_mod::lemma_div_is_ordered(delta * m + n, 2 * k * delta + n, m);
        vstd::arithmetic::div_mod::lemma_div_is_ordered(2 * k * delta + n, n, m);
    }
}

/// A line starts and ends at its ends and stays in the box between them.
pub proof fn lemma_line_points(x1: int, y1: int, x2: int, y2: int, k: int)
    requires
        0 <= k <= line_steps(x1, y1, x2, y2),
    ensures
        line_points(x1, y1, x2, y2).first() == (x1, y1),
        line_points(x1, y1, x2, y2).last() == (x2, y2),
        vstd::math::min(x1, x2) <= line_point(x1, y1, x2, y2, k).0 <= vstd::math::max(x1, x2),
        vstd::math::min(y1, y2) <= line_point(x1, y1, x2, y2, k).1 <= vstd::math::max(y1, y2),
{
    let n = line_steps(x1, y1, x2, y2);
    if n > 0 {
        lemma_along(k, x2 - x1, n);
        lemma_along(k, y2 - y1, n);
        lemma_along(0, x2 - x1, n);
        lemma_along(0, y2 - y1, n);
        lemma_along(n, x2 - x1, n);
        lemma_along(n, y2 - y1, n);
    }
}

/// The point `(x0, y0)` of the first octant mirrored into all eight, about
/// the centre `(cx, cy)`.
pub open spec fn octants(cx: int, cy: int, x0: int, y0: int) -> Seq<(int, int)> {
    seq![
        (cx - x0, cy - y0),
        (cx - y0, cy - x0),
        (cx + y0, cy - x0),
        (cx + x0, cy - y0),
        (cx - x0, cy + y0),
        (cx - y0, cy + x0),
        (cx + y0, cy + x0),
        (cx + x0, cy + y0),
    ]
}

/// The points that the midpoint circle algorithm gives from column `x0`, row
/// `y0` of the first octant and decision value `d` on, until it has crossed
/// the diagonal. Each step goes one column on, and one row in where the
/// decision value is not negative.
pub open spec fn circle_walk(cx: int, cy: int, x0: int, y0: int, d: int) -> Seq<(int, int)>
    decreases
        (if y0 >= x0 {
            y0 - x0 + 2
        } else {
            0
        }),
{
    if y0 < x0 {
        seq![]
    } else if d < 0 {
        octants(cx, cy, x0, y0) + circle_walk(cx, cy, x0 + 1, y0, d + 4 * x0 + 6)
    } else {
        octants(cx, cy, x0, y0) + circle_walk(
            cx,
            cy,
            x0 + 1,
            y0 - 1,
            d + 4 * ((x0 + 1) - (y0 - 1)) + 10,
        )
    }
}

/// The points of the circle about `(cx, cy)` with the given radius, in the
/// order drawn. A radius that is not positive gives none.
pub open spec fn circle_points(cx: int, cy: int, radius: int) -> Seq<(int, int)> {
    if radius <= 0 {
        seq![]
    } else {
        circle_walk(cx, cy, 0, radius, 3 - 2 * radius)
    }
}

/// The rows with one more: `row` gets the half-width `half` unless it has one
/// already.
pub open spec fn first_span(rows: Map<int, int>, row: int, half: int) -> Map<int, int> {
    if rows.dom().contains(row) {
        rows
    } else {
        rows.insert(row, half)
    }
}

/// The rows with the four that the point `(x0, y0)` of the walk gives: above
/// and below the centre, each at both distances, in the order they are
/// filled.
pub open spec fn four_spans(rows: Map<int, int>, x0: int, y0: int) -> Map<int, int> {
    first_span(first_span(first_span(first_span(rows, -y0, x0), -x0, y0), y0, x0), x0, y0)
}

/// The rows of a filled circle, each with the half-width of its span, by
/// their offset from the centre's row. The walk goes as that of the outline
/// does, but for the decision value, which a step without a row change
/// raises by the new column's share. A row keeps the span that the walk
/// gives it first.
pub open spec fn disc_rows(x0: int, y0: int, d: int, rows: Map<int, int>) -> Map<int, int>
    decreases
        (if y0 >= x0 {
            y0 - x0 + 2
        } else {
            0
        }),
{
    if y0 < x0 {
        rows
    } else if d < 0 {
        disc_rows(x0 + 1, y0, d + 4 * (x0 + 1) + 6, four_spans(rows, x0, y0))
    } else {
        disc_rows(x0 + 1, y0 - 1, d + 4 * ((x0 + 1) - (y0 - 1)) + 10, four_spans(rows, x0, y0))
    }
}

/// The paint that puts `p` on the spans of the rows, about the centre `(cx,
/// cy)`, on a screen `height` rows high. The screen's first row is left out.
pub open spec fn disc_paint(cx: int, cy: int, rows: Map<int, int>, height: int, p: Pixel) -> spec_fn(
    int,
    int,
) -> Option<Pixel> {
    |px: int, py: int|
        if 0 < py < height && rows.dom().contains(py - cy) && cx - rows[py - cy] <= px <= cx
            + rows[py - cy] {
            Some(p)
        } else {
            None
        }
}

/// The paint with `p` on the columns `left..upto` of the row besides.
pub open spec fn with_span(
    paint: spec_fn(int, int) -> Option<Pixel>,
    row: int,
    left: int,
    upto: int,
    p: Pixel,
) -> spec_fn(int, int) -> Option<Pixel> {
    |qx: int, qy: int|
        if qy == row && left <= qx < upto {
            Some(p)
        } else {
            paint(qx, qy)
        }
}

/// The rows of the filled circle with the given radius; none for a radius
/// that is not positive.
pub open spec fn disc(radius: int) -> Map<int, int> {
    if radius <= 0 {
        Map::empty()
    } else {
        disc_rows(0, radius, 3 - 2 * radius, Map::empty())
    }
}

/// Computes [`line_point`] for a line that has steps.
fn nth_point(x1: i32, y1: i32, x2: i32, y2: i32, n: i64, k: i64) -> (pt: (i32, i32))
    requires
        n > 0,
        n == line_steps(x1 as int, y1 as int, x2 as int, y2 as int),
        0 <= k <= n,
    ensures
        (pt.0 as int, pt.1 as int) == line_point(x1 as int, y1 as int, x2 as int, y2 as int, k as int),
{
    let dx: i64 = (x2 as i64) - (x1 as i64);
    let dy: i64 = (y2 as i64) - (y1 as i64);
    proof {
        lemma_line_points(x1 as int, y1 as int, x2 as int, y2 as int, k as int);
        lemma_mul_bound(2 * k, dx as int, 0x2_0000_0000, 0x1_0000_0000);
        lemma_mul_bound(2 * k, dy as int, 0x2_0000_0000, 0x1_0000_0000);
    }
    let sx: i128 = floor_div(2 * (k as i128) * (dx as i128) + (n as i128), 2 * (n as i128));
    let sy: i128 = floor_div(2 * (k as i128) * (dy as i128) + (n as i128), 2 * (n as i128));
    (((x1 as i128) + sx) as i32, ((y1 as i128) + sy) as i32)
}

fn abs_diff(a: i32, b: i32) -> (d: i64)
    ensures
        d == vstd::math::abs(b - a),
{
    let d: i64 = (b as i64) - (a as i64);
    if d < 0 {
        -d
    } else {
        d
    }
}

impl PGE {
    /// Paints the rectangle with corner `(x, y)`, `w` wide and `h` high, as
    /// far as it lies on the screen.
    pub fn fill_rect(&mut self, x: i32, y: i32, w: i32, h: i32, p: &Pixel)
        requires
            old(self).wf(),
            i32::MIN <= x + w <= i32::MAX,
            i32::MIN <= y + h <= i32::MAX,
        ensures
            final(self).wf(),
            final(self)@ == old(self)@.painted(
                box_paint(
                    clamp(x as int, 0, old(self)@.screen_width as int),
                    clamp(x + w, 0, old(self)@.screen_width as int),
                    clamp(y as int, 0, old(self)@.screen_height as int),
                    clamp(y + h, 0, old(self)@.screen_height as int),
                    *p,
                ),
            ),
    {
        let x0 = clamp_high(clamp_low(x) as i32, self.screen_width);
        let x1 = clamp_high(clamp_low(x + w) as i32, self.screen_width);
        let y0 = clamp_high(clamp_low(y) as i32, self.screen_height);
        let y1 = clamp_high(clamp_low(y + h) as i32, self.screen_height);
        let ghost c0 = self@;
        let ghost paint = box_paint(x0 as int, x1 as int, y0 as int, y1 as int, *p);
        proof {
            lemma_scan_start(c0, paint, x0 as int, x1 as int, y0 as int);
        }
        let mut j: i64 = y0;
        while j < y1
            invariant
                self.wf(),
                c0.wf(),
                0 <= x0 <= 0x7fff_ffff,
                0 <= x1 <= 0x7fff_ffff,
                0 <= y0 <= j,
                y1 <= 0x7fff_ffff,
                y0 <= y1 ==> j <= y1,
                paint == box_paint(x0 as int, x1 as int, y0 as int, y1 as int, *p),
                self@ == c0.painted(scan_of(paint, x0 as int, x1 as int, y0 as int, x0 as int, j as int)),
            decreases y1 - j,
        {
            let mut i: i64 = x0;
            while i < x1
                invariant
                    self.wf(),
                    c0.wf(),
                    0 <= x0 <= i,
                    x1 <= 0x7fff_ffff,
                    x0 <= x1 ==> i <= x1,
                    0 <= y0 <= j < y1 <= 0x7fff_ffff,
                    paint == box_paint(x0 as int, x1 as int, y0 as int, y1 as int, *p),
                    self@ == c0.painted(
                        scan_of(paint, x0 as int, x1 as int, y0 as int, i as int, j as int),
                    ),
                decreases x1 - i,
            {
                self.draw(i as i32, j as i32, p);
                proof {
                    lemma_scan_step(c0, paint, x0 as int, x1 as int, y0 as int, i as int, j as int);
                }
                i = i + 1;
            }
            proof {
                if x0 > x1 {
                    crate::pge::lemma_painted_same(
                        c0,
                        scan_of(paint, x0 as int, x1 as int, y0 as int, i as int, j as int),
                        scan_of(paint, x0 as int, x1 as int, y0 as int, x1 as int, j as int),
                    );
                }
                lemma_scan_row(c0, paint, x0 as int, x1 as int, y0 as int, j as int);
            }
            j = j + 1;
        }
        proof {
            if y0 > y1 {
                crate::pge::lemma_painted_same(
                    c0,
                    scan_of(paint, x0 as int, x1 as int, y0 as int, x0 as int, j as int),
                    paint,
                );
            } else {
                lemma_scan_done(c0, paint, x0 as int, x1 as int, y0 as int, y1 as int);
            }
        }
    }

    /// Paints every pixel of the screen that the triangle covers, by the
    /// same top-left rule as the textured rasteriser: of two triangles that
    /// share an edge exactly one paints a pixel on it.
    pub fn fill_triangle(&mut self, x1: i32, y1: i32, x2: i32, y2: i32, x3: i32, y3: i32, col: &Pixel)
        requires
            old(self).wf(),
        ensures
            final(self).wf(),
            final(self)@ == old(self)@.painted(
                triangle_paint(
                    flat_triangle(x1, y1, x2, y2, x3, y3),
                    old(self)@.screen_width as int,
                    old(self)@.screen_height as int,
                    *col,
                ),
            ),
    {
        let ghost t0 = flat_triangle(x1, y1, x2, y2, x3, y3);
        let t = (ScreenTriangle {
            a: Vertex { x: x1, y: y1, u: 0, v: 0, w: 0 },
            b: Vertex { x: x2, y: y2, u: 0, v: 0, w: 0 },
            c: Vertex { x: x3, y: y3, u: 0, v: 0, w: 0 },
        }).facing();
        let bx0 = clamp_low(min3(t.a.x, t.b.x, t.c.x));
        let bx1 = clamp_high(max3(t.a.x, t.b.x, t.c.x), self.screen_width);
        let by0 = clamp_low(min3(t.a.y, t.b.y, t.c.y));
        let by1 = clamp_high(max3(t.a.y, t.b.y, t.c.y), self.screen_height);
        let ghost c0 = self@;
        let ghost paint = triangle_paint(t0, c0.screen_width as int, c0.screen_height as int, *col);
        proof {
            lemma_front(t0);
            assert forall|px: int, py: int| (#[trigger] paint(px, py)) is Some implies bx0 <= px
                < bx1 && by0 <= py < by1 by {
                lemma_owns_in_box(t, px, py);
            }
            lemma_scan_start(c0, paint, bx0 as int, bx1 as int, by0 as int);
        }
        if bx0 >= bx1 || by0 >= by1 {
            proof {
                crate::pge::lemma_painted_nothing(c0, paint);
            }
            return ;
        }
        let mut y: i64 = by0;
        while y < by1
            invariant
                self.wf(),
                c0.wf(),
                t == t0.front(),
                0 <= bx0 < bx1 <= 0x7fff_ffff,
                0 <= by0 <= y <= by1 <= 0x7fff_ffff,
                bx1 <= c0.screen_width,
                by1 <= c0.screen_height,
                paint == triangle_paint(t0, c0.screen_width as int, c0.screen_height as int, *col),
                self@ == c0.painted(scan_of(paint, bx0 as int, bx1 as int, by0 as int, bx0 as int, y as int)),
            decreases by1 - y,
        {
            let mut x: i64 = bx0;
            while x < bx1
                invariant
                    self.wf(),
                    c0.wf(),
                    t == t0.front(),
                    0 <= bx0 <= x <= bx1 <= 0x7fff_ffff,
                    0 <= by0 <= y < by1 <= 0x7fff_ffff,
                    bx1 <= c0.screen_width,
                    by1 <= c0.screen_height,
                    paint == triangle_paint(
                        t0,
                        c0.screen_width as int,
                        c0.screen_height as int,
                        *col,
                    ),
                    self@ == c0.painted(
                        scan_of(paint, bx0 as int, bx1 as int, by0 as int, x as int, y as int),
                    ),
                decreases bx1 - x,
            {
                if t.owns_pixel(x, y) {
                    self.draw(x as i32, y as i32, col);
                }
                proof {
                    lemma_scan_step(c0, paint, bx0 as int, bx1 as int, by0 as int, x as int, y as int);
                }
                x = x + 1;
            }
            proof {
                lemma_scan_row(c0, paint, bx0 as int, bx1 as int, by0 as int, y as int);
            }
            y = y + 1;
        }
        proof {
            lemma_scan_done(c0, paint, bx0 as int, bx1 as int, by0 as int, by1 as int);
        }
    }

    /// Draws the line from `(x1, y1)` to `(x2, y2)`, both ends included: one
    /// pixel per step along the longer axis, each the nearest to the straight
    /// line.
    pub fn draw_line(&mut self, x1: i32, y1: i32, x2: i32, y2: i32, p: &Pixel)
        requires
            old(self).wf(),
        ensures
            final(self).wf(),
            final(self)@ == old(self)@.drawn_all(
                line_points(x1 as int, y1 as int, x2 as int, y2 as int),
                *p,
            ),
    {
        let ax = abs_diff(x1, x2);
        let ay = abs_diff(y1, y2);
        let n: i64 = if ax > ay {
            ax
        } else {
            ay
        };
        let ghost c0 = self@;
        let ghost pts = line_points(x1 as int, y1 as int, x2 as int, y2 as int);
        if n == 0 {
            self.draw(x1, y1, p);
            proof {
                assert(pts =~= Seq::<(int, int)>::empty().push((x1 as int, y1 as int)));
                lemma_drawn_all_push(c0, Seq::<(int, int)>::empty(), (x1 as int, y1 as int), *p);
            }
            return ;
        }
        let mut k: i64 = 0;
        proof {
            assert(pts.take(0) =~= Seq::<(int, int)>::empty());
        }
        while k <= n
            invariant
                self.wf(),
                0 <= k <= n + 1,
                0 < n <= 0xffff_ffff,
                n == line_steps(x1 as int, y1 as int, x2 as int, y2 as int),
                pts == line_points(x1 as int, y1 as int, x2 as int, y2 as int),
                self@ == c0.drawn_all(pts.take(k as int), *p),
            decreases n + 1 - k,
        {
            let pt = nth_point(x1, y1, x2, y2, n, k);
            self.draw(pt.0, pt.1, p);
            proof {
                assert(pts.take(k + 1) =~= pts.take(k as int).push(pts[k as int]));
                lemma_drawn_all_push(c0, pts.take(k as int), pts[k as int], *p);
            }
            k = k + 1;
        }
        assert(pts.take(n + 1) =~= pts);
    }

    /// Draws the outline of the rectangle with corner `(x, y)`, `w` wide and
    /// `h` high: its four sides as lines, top, right, bottom, left.
    pub fn draw_rect(&mut self, x: i32, y: i32, w: i32, h: i32, p: &Pixel)
        requires
            old(self).wf(),
            i32::MIN <= x + w <= i32::MAX,
            i32::MIN <= y + h <= i32::MAX,
        ensures
            final(self).wf(),
            final(self)@ == old(self)@.drawn_all(
                line_points(x as int, y as int, x + w, y as int) + line_points(
                    x + w,
                    y as int,
                    x + w,
                    y + h,
                ) + line_points(x + w, y + h, x as int, y + h) + line_points(
                    x as int,
                    y + h,
                    x as int,
                    y as int,
                ),
                *p,
            ),
    {
        let ghost c0 = self@;
        let ghost l1 = line_points(x as int, y as int, x + w, y as int);
        let ghost l2 = line_points(x + w, y as int, x + w, y + h);
        let ghost l3 = line_points(x + w, y + h, x as int, y + h);
        let ghost l4 = line_points(x as int, y + h, x as int, y as int);
        self.draw_line(x, y, x + w, y, p);
        self.draw_line(x + w, y, x + w, y + h, p);
        self.draw_line(x + w, y + h, x, y + h, p);
        self.draw_line(x, y + h, x, y, p);
        proof {
            lemma_drawn_all_concat(c0, l1, l2, *p);
            lemma_drawn_all_concat(c0, l1 + l2, l3, *p);
            lemma_drawn_all_concat(c0, l1 + l2 + l3, l4, *p);
        }
    }

    /// Draws the outline of a triangle: its three sides as lines.
    pub fn draw_triangle(&mut self, x1: i32, y1: i32, x2: i32, y2: i32, x3: i32, y3: i32, p: &Pixel)
        requires
            old(self).wf(),
        ensures
            final(self).wf(),
            final(self)@ == old(self)@.drawn_all(
                line_points(x1 as int, y1 as int, x2 as int, y2 as int) + line_points(
                    x2 as int,
                    y2 as int,
                    x3 as int,
                    y3 as int,
                ) + line_points(x3 as int, y3 as int, x1 as int, y1 as int),
                *p,
            ),
    {
        let ghost c0 = self@;
        let ghost l1 = line_points(x1 as int, y1 as int, x2 as int, y2 as int);
        let ghost l2 = line_points(x2 as int, y2 as int, x3 as int, y3 as int);
        let ghost l3 = line_points(x3 as int, y3 as int, x1 as int, y1 as int);
        self.draw_line(x1, y1, x2, y2, p);
        self.draw_line(x2, y2, x3, y3, p);
        self.draw_line(x3, y3, x1, y1, p);
        proof {
            lemma_drawn_all_concat(c0, l1, l2, *p);
            lemma_drawn_all_concat(c0, l1 + l2, l3, *p);
        }
    }

    /// Draws the eight mirror images of a point of the first octant.
    fn draw_octants(&mut self, cx: i32, cy: i32, x0: i64, y0: i64, p: &Pixel)
        requires
            old(self).wf(),
            0 <= x0 <= y0,
            i32::MIN <= cx - y0,
            cx + y0 <= i32::MAX,
            i32::MIN <= cy - y0,
            cy + y0 <= i32::MAX,
        ensures
            final(self).wf(),
            final(self)@ == old(self)@.drawn_all(octants(cx as int, cy as int, x0 as int, y0 as int), *p),
    {
        let ghost c0 = self@;
        let ghost o = octants(cx as int, cy as int, x0 as int, y0 as int);
        let x = cx as i64;
        let y = cy as i64;
        proof {
            assert(o.take(0) =~= Seq::<(int, int)>::empty());
        }
        self.draw((x - x0) as i32, (y - y0) as i32, p);
        proof {
            assert(o.take(1) =~= o.take(0).push(o[0]));
            lemma_drawn_all_push(c0, o.take(0), o[0], *p);
        }
        self.draw((x - y0) as i32, (y - x0) as i32, p);
        proof {
            assert(o.take(2) =~= o.take(1).push(o[1]));
            lemma_drawn_all_push(c0, o.take(1), o[1], *p);
        }
        self.draw((x + y0) as i32, (y - x0) as i32, p);
        proof {
            assert(o.take(3) =~= o.take(2).push(o[2]));
            lemma_drawn_all_push(c0, o.take(2), o[2], *p);
        }
        self.draw((x + x0) as i32, (y - y0) as i32, p);
        proof {
            assert(o.take(4) =~= o.take(3).push(o[3]));
            lemma_drawn_all_push(c0, o.take(3), o[3], *p);
        }
        self.draw((x - x0) as i32, (y + y0) as i32, p);
        proof {
            assert(o.take(5) =~= o.take(4).push(o[4]));
            lemma_drawn_all_push(c0, o.take(4), o[4], *p);
        }
        self.draw((x - y0) as i32, (y + x0) as i32, p);
        proof {
            assert(o.take(6) =~= o.take(5).push(o[5]));
            lemma_drawn_all_push(c0, o.take(5), o[5], *p);
        }
        self.draw((x + y0) as i32, (y + x0) as i32, p);
        proof {
            assert(o.take(7) =~= o.take(6).push(o[6]));
            lemma_drawn_all_push(c0, o.take(6), o[6], *p);
        }
        self.draw((x + x0) as i32, (y + y0) as i32, p);
        proof {
            assert(o.take(8) =~= o.take(7).push(o[7]));
            lemma_drawn_all_push(c0, o.take(7), o[7], *p);
            assert(o.take(8) =~= o);
        }
    }

    /// Draws the circle about `(x, y)` with the given radius by the midpoint
    /// algorithm, eight mirrored points per step. A radius that is not
    /// positive draws nothing.
    pub fn draw_circle(&mut self, x: i32, y: i32, radius: i32, p: &Pixel)
        requires
            old(self).wf(),
            radius > 0 ==> i32::MIN <= x - radius && x + radius <= i32::MAX,
            radius > 0 ==> i32::MIN <= y - radius && y + radius <= i32::MAX,
        ensures
            final(self).wf(),
            final(self)@ == old(self)@.drawn_all(circle_points(x as int, y as int, radius as int), *p),
    {
        if radius <= 0 {
            return ;
        }
        let ghost c0 = self@;
        let ghost all = circle_points(x as int, y as int, radius as int);
        let ghost mut done = Seq::<(int, int)>::empty();
        let r: i64 = radius as i64;
        let mut x0: i64 = 0;
        let mut y0: i64 = r;
        let mut d: i128 = 3 - 2 * (r as i128);
        proof {
            assert(done + circle_walk(x as int, y as int, 0, r as int, d as int) =~= all);
            assert(0 * (4 * r + 18) == 0);
        }
        while y0 >= x0
            invariant
                self.wf(),
                0 < r <= 0x7fff_ffff,
                0 <= x0 <= r + 1,
                -1 <= y0 <= r,
                x0 <= y0 + 2,
                i32::MIN <= x - r,
                x + r <= i32::MAX,
                i32::MIN <= y - r,
                y + r <= i32::MAX,
                -(3 + 2 * r + x0 * (4 * r + 18)) <= d <= 3 + 2 * r + x0 * (4 * r + 18),
                all == circle_points(x as int, y as int, radius as int),
                done + circle_walk(x as int, y as int, x0 as int, y0 as int, d as int) == all,
                self@ == c0.drawn_all(done, *p),
            decreases
                (if y0 >= x0 {
                    y0 - x0 + 2
                } else {
                    0
                }),
        {
            let ghost here = octants(x as int, y as int, x0 as int, y0 as int);
            let ghost rest = if d < 0 {
                circle_walk(x as int, y as int, x0 + 1, y0 as int, d + 4 * x0 + 6)
            } else {
                circle_walk(x as int, y as int, x0 + 1, y0 - 1, d + 4 * ((x0 + 1) - (y0 - 1)) + 10)
            };
            self.draw_octants(x, y, x0, y0, p);
            proof {
                lemma_drawn_all_concat(c0, done, here, *p);
                assert((done + here) + rest =~= done + circle_walk(
                    x as int,
                    y as int,
                    x0 as int,
                    y0 as int,
                    d as int,
                ));
                done = done + here;
                lemma_mul_bound(x0 as int, 4 * r + 18, 0x8000_0000, 0x2_0000_0012);
                assert((x0 + 1) * (4 * r + 18) == x0 * (4 * r + 18) + (4 * r + 18))
                    by (nonlinear_arith);
            }
            if d < 0 {
                d = d + 4 * (x0 as i128) + 6;
                x0 = x0 + 1;
            } else {
                x0 = x0 + 1;
                y0 = y0 - 1;
                d = d + 4 * ((x0 as i128) - (y0 as i128)) + 10;
            }
        }
        proof {
            assert(circle_walk(x as int, y as int, x0 as int, y0 as int, d as int) =~= Seq::<
                (int, int),
            >::empty());
            assert(done + Seq::<(int, int)>::empty() =~= done);
        }
    }

    /// Fills the span of one row of a circle, unless the row is off the
    /// screen or has its span.
    fn fill_span(
        &mut self,
        cx: i32,
        cy: i32,
        offset: i64,
        half: i64,
        rendered: &mut Vec<bool>,
        p: &Pixel,
        Ghost(c0): Ghost<crate::pge::Canvas>,
        Ghost(rows): Ghost<Map<int, int>>,
    )
        requires
            old(self).wf(),
            c0.wf(),
            0 <= half,
            i32::MIN <= cx - half,
            cx + half <= i32::MAX,
            i32::MIN <= cy + offset <= i32::MAX,
            old(rendered)@.len() == c0.screen_height,
            forall|row: int|
                0 < row < old(rendered)@.len() ==> old(rendered)@[row] == rows.dom().contains(
                    row - cy,
                ),
            old(self)@ == c0.painted(
                disc_paint(cx as int, cy as int, rows, c0.screen_height as int, *p),
            ),
        ensures
            final(self).wf(),
            final(rendered)@.len() == c0.screen_height,
            forall|row: int|
                0 < row < final(rendered)@.len() ==> final(rendered)@[row] == first_span(
                    rows,
                    offset as int,
                    half as int,
                ).dom().contains(row - cy),
            final(self)@ == c0.painted(
                disc_paint(
                    cx as int,
                    cy as int,
                    first_span(rows, offset as int, half as int),
                    c0.screen_height as int,
                    *p,
                ),
            ),
    {
        let row: i64 = (cy as i64) + offset;
        let ghost height = c0.screen_height as int;
        let ghost before = disc_paint(cx as int, cy as int, rows, height, *p);
        let ghost after = disc_paint(
            cx as int,
            cy as int,
            first_span(rows, offset as int, half as int),
            height,
            *p,
        );
        if row <= 0 || row as u64 >= rendered.len() as u64 {
            proof {
                crate::pge::lemma_painted_same(c0, before, after);
            }
            return ;
        }
        if rendered[row as usize] {
            return ;
        }
        let left: i64 = (cx as i64) - half;
        let right: i64 = (cx as i64) + half;
        let mut px: i64 = left;
        proof {
            crate::pge::lemma_painted_same(
                c0,
                before,
                with_span(before, row as int, left as int, px as int, *p),
            );
        }
        while px <= right
            invariant
                self.wf(),
                c0.wf(),
                left <= px <= right + 1,
                i32::MIN <= left,
                right <= i32::MAX,
                0 < row < height,
                row <= i32::MAX,
                row == cy + offset,
                !rows.dom().contains(offset as int),
                before == disc_paint(cx as int, cy as int, rows, height, *p),
                self@ == c0.painted(
                    with_span(before, row as int, left as int, px as int, *p),
                ),
            decreases right + 1 - px,
        {
            self.draw(px as i32, row as i32, p);
            proof {
                crate::pge::lemma_painted_one_more(
                    c0,
                    with_span(before, row as int, left as int, px as int, *p),
                    with_span(before, row as int, left as int, px + 1, *p),
                    px as int,
                    row as int,
                    *p,
                );
            }
            px = px + 1;
        }
        rendered.set(row as usize, true);
        proof {
            crate::pge::lemma_painted_same(
                c0,
                with_span(before, row as int, left as int, px as int, *p),
                after,
            );
        }
    }

    /// Fills the circle about `(x, y)` with the given radius, as far as it
    /// lies in the rows of the screen: one span per row, those of the
    /// midpoint algorithm. A radius that is not positive fills nothing.
    pub fn fill_circle(&mut self, x: i32, y: i32, radius: i32, p: &Pixel)
        requires
            old(self).wf(),
            radius > 0 ==> i32::MIN <= x - radius && x + radius <= i32::MAX,
            radius > 0 ==> i32::MIN <= y - radius && y + radius <= i32::MAX,
        ensures
            final(self).wf(),
            final(self)@ == old(self)@.painted(
                disc_paint(
                    x as int,
                    y as int,
                    disc(radius as int),
                    old(self)@.screen_height as int,
                    *p,
                ),
            ),
    {
        let ghost c0 = self@;
        let ghost all = disc(radius as int);
        let ghost mut rows = Map::<int, int>::empty();
        proof {
            crate::pge::lemma_painted_nothing(
                c0,
                disc_paint(x as int, y as int, rows, c0.screen_height as int, *p),
            );
        }
        if radius <= 0 {
            return ;
        }
        let mut rendered: Vec<bool> = vec![false; self.screen_height];
        let r: i64 = radius as i64;
        let mut x0: i64 = 0;
        let mut y0: i64 = r;
        let mut d: i128 = 3 - 2 * (r as i128);
        proof {
            assert(0 * (4 * r + 18) == 0);
        }
        while y0 >= x0
            invariant
                self.wf(),
                c0.wf(),
                0 < r <= 0x7fff_ffff,
                0 <= x0 <= r + 1,
                -1 <= y0 <= r,
                x0 <= y0 + 2,
                i32::MIN <= x - r,
                x + r <= i32::MAX,
                i32::MIN <= y - r,
                y + r <= i32::MAX,
                -(3 + 2 * r + x0 * (4 * r + 18)) <= d <= 3 + 2 * r + x0 * (4 * r + 18),
                rendered@.len() == c0.screen_height,
                forall|row: int|
                    0 < row < rendered@.len() ==> rendered@[row] == rows.dom().contains(row - y),
                disc_rows(x0 as int, y0 as int, d as int, rows) == all,
                self@ == c0.painted(disc_paint(x as int, y as int, rows, c0.screen_height as int, *p)),
            decreases
                (if y0 >= x0 {
                    y0 - x0 + 2
                } else {
                    0
                }),
        {
            self.fill_span(x, y, -y0, x0, &mut rendered, p, Ghost(c0), Ghost(rows));
            proof {
                rows = first_span(rows, -y0, x0 as int);
            }
            self.fill_span(x, y, -x0, y0, &mut rendered, p, Ghost(c0), Ghost(rows));
            proof {
                rows = first_span(rows, -x0, y0 as int);
            }
            self.fill_span(x, y, y0, x0, &mut rendered, p, Ghost(c0), Ghost(rows));
            proof {
                rows = first_span(rows, y0 as int, x0 as int);
            }
            self.fill_span(x, y, x0, y0, &mut rendered, p, Ghost(c0), Ghost(rows));
            proof {
                rows = first_span(rows, x0 as int, y0 as int);
                lemma_mul_bound(x0 as int, 4 * r + 18, 0x8000_0000, 0x2_0000_0012);
                assert((x0 + 1) * (4 * r + 18) == x0 * (4 * r + 18) + (4 * r + 18))
                    by (nonlinear_arith);
            }
            if d < 0 {
                x0 = x0 + 1;
                d = d + 4 * (x0 as i128) + 6;
            } else {
                x0 = x0 + 1;
                y0 = y0 - 1;
                d = d + 4 * ((x0 as i128) - (y0 as i128)) + 10;
            }
        }
    }
}

} // verus!
