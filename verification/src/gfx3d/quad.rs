//! A rectangle of the screen, filled as two triangles that share its
//! diagonal: which pixels it covers, what its attributes are there, and
//! that it shows a texture texel for pixel.

use vstd::prelude::*;
use crate::arith::trunc_div;
use crate::gfx3d::coverage::ScreenTriangle;
use crate::gfx3d::coverage::Vertex;
use crate::gfx3d::pipeline::has_corners;
use crate::gfx3d::pipeline::lemma_lone_triangle_shows;
use crate::gfx3d::pipeline::lemma_not_nearer_keeps;
use crate::gfx3d::pipeline::lemma_shows_any_order;
use crate::gfx3d::pipeline::rendered;
use crate::gfx3d::pipeline::PipelineView;
use crate::gfx3d::triangle::Triangle;
use crate::pge::Canvas;
use crate::pixel::Pixel;
use crate::pixel::PixelMode;
use crate::sprite::Image;

verus! {

/// Whether `a`, `b`, `c`, `d` are the corners of a rectangle with sides
/// along the axes, named around it from the top left: `a` top left, `b` top
/// right, `c` bottom right, `d` bottom left. The depth is the same at all
/// four, and positive; `u` changes only along `x` and `v` only along `y`.
pub open spec fn rectangle(a: Vertex, b: Vertex, c: Vertex, d: Vertex) -> bool {
    &&& a.y == b.y && d.y == c.y && a.x == d.x && b.x == c.x
    &&& a.x < b.x && a.y < d.y
    &&& a.u == d.u && b.u == c.u && a.v == b.v && d.v == c.v
    &&& a.w > 0 && a.w == b.w && a.w == c.w && a.w == d.w
}

/// The half of the rectangle above its diagonal from `a` to `c`.
pub open spec fn upper_half(a: Vertex, b: Vertex, c: Vertex) -> ScreenTriangle {
    ScreenTriangle { a: a, b: b, c: c }
}

/// The half of the rectangle below its diagonal from `a` to `c`.
pub open spec fn lower_half(a: Vertex, c: Vertex, d: Vertex) -> ScreenTriangle {
    ScreenTriangle { a: a, b: c, c: d }
}

/// The half of the rectangle left of its diagonal from `b` to `d`.
pub open spec fn left_half(a: Vertex, b: Vertex, d: Vertex) -> ScreenTriangle {
    ScreenTriangle { a: a, b: b, c: d }
}

/// The half of the rectangle right of its diagonal from `b` to `d`.
pub open spec fn right_half(b: Vertex, c: Vertex, d: Vertex) -> ScreenTriangle {
    ScreenTriangle { a: b, b: c, c: d }
}

/// Whether the two triangles are the two halves of the rectangle along
/// one of its diagonals, whichever comes first and however each is wound.
pub open spec fn halves_of(
    first: ScreenTriangle,
    second: ScreenTriangle,
    a: Vertex,
    b: Vertex,
    c: Vertex,
    d: Vertex,
) -> bool {
    ||| has_corners(first, a, b, c) && has_corners(second, a, c, d)
    ||| has_corners(first, a, c, d) && has_corners(second, a, b, c)
    ||| has_corners(first, a, b, d) && has_corners(second, b, c, d)
    ||| has_corners(first, b, c, d) && has_corners(second, a, b, d)
}

/// Whether the pixel `(x, y)` lies in the rectangle: from its left column
/// up to but not including the column of its right side, and likewise for
/// the rows.
pub open spec fn in_rectangle(a: Vertex, c: Vertex, x: int, y: int) -> bool {
    a.x <= x < c.x && a.y <= y < c.y
}

/// An attribute that is `lo` at one side of a span of `n` pixels and `hi`
/// at the other, at the pixel `i` of the span, times `n`.
pub open spec fn along(lo: int, hi: int, n: int, i: int) -> int {
    (n - i) * lo + i * hi
}

/// The texel that the rectangle shows at `(x, y)`: the texture coordinate
/// there, which runs along each side from the one corner's to the other's,
/// over the depth, scaled to the texture's size and rounded toward zero.
pub open spec fn rectangle_texel(a: Vertex, c: Vertex, tex: Image, x: int, y: int) -> Pixel {
    tex.get(
        trunc_div(along(a.u as int, c.u as int, c.x - a.x, x - a.x) * tex.width, (c.x - a.x) * a.w),
        trunc_div(along(a.v as int, c.v as int, c.y - a.y, y - a.y) * tex.height, (c.y - a.y) * a.w),
    )
}

/// The edge functions of the two halves, written out.
proof fn lemma_halves(a: Vertex, b: Vertex, c: Vertex, d: Vertex, x: int, y: int)
    requires
        rectangle(a, b, c, d),
    ensures
        ({
            let n = c.x - a.x;
            let m = c.y - a.y;
            let i = x - a.x;
            let j = y - a.y;
            let up = upper_half(a, b, c);
            let low = lower_half(a, c, d);
            &&& n * m > 0
            &&& up.front() == up && low.front() == low
            &&& up.area2() == n * m && low.area2() == n * m
            &&& up.weight_a(x, y) == m * (n - i)
            &&& up.weight_b(x, y) == m * i - n * j
            &&& up.weight_c(x, y) == n * j
            &&& low.weight_a(x, y) == n * (m - j)
            &&& low.weight_b(x, y) == m * i
            &&& low.weight_c(x, y) == n * j - m * i
        }),
{
    let n = c.x - a.x;
    let m = c.y - a.y;
    let i = x - a.x;
    let j = y - a.y;
    assert(n * m > 0) by (nonlinear_arith)
        requires
            n > 0,
            m > 0,
    ;
    assert(n * m - 0 * n == n * m && n * m - m * 0 == n * m) by (nonlinear_arith);
    assert(0 * j - m * (i - n) == m * (n - i)) by (nonlinear_arith);
    assert((-n) * (j - m) - (-m) * (i - n) == m * i - n * j) by (nonlinear_arith);
    assert(n * j - 0 * i == n * j) by (nonlinear_arith);
    assert((-n) * (j - m) - 0 * (i - n) == n * (m - j)) by (nonlinear_arith);
    assert(0 * (j - m) - (-m) * i == m * i) by (nonlinear_arith);
}

/// The two halves cover the rectangle's pixels and no others, each pixel
/// once.
pub proof fn lemma_rectangle_covers(a: Vertex, b: Vertex, c: Vertex, d: Vertex, x: int, y: int)
    requires
        rectangle(a, b, c, d),
    ensures
        in_rectangle(a, c, x, y) == (upper_half(a, b, c).covers(x, y) || lower_half(a, c, d).covers(
            x,
            y,
        )),
        !(upper_half(a, b, c).covers(x, y) && lower_half(a, c, d).covers(x, y)),
{
    lemma_halves(a, b, c, d, x, y);
    let n = c.x - a.x;
    let m = c.y - a.y;
    let i = x - a.x;
    let j = y - a.y;
    assert((m * (n - i) > 0) == (i < n)) by (nonlinear_arith)
        requires
            m > 0,
    ;
    assert((n * (m - j) > 0) == (j < m)) by (nonlinear_arith)
        requires
            n > 0,
    ;
    assert((n * j >= 0) == (j >= 0)) by (nonlinear_arith)
        requires
            n > 0,
    ;
    assert((m * i >= 0) == (i >= 0)) by (nonlinear_arith)
        requires
            m > 0,
    ;
    assert(i < n ==> m * i < n * m) by (nonlinear_arith)
        requires
            m > 0,
    ;
    assert(j < m ==> n * j < n * m) by (nonlinear_arith)
        requires
            n > 0,
    ;
    assert(j >= m ==> n * j >= n * m) by (nonlinear_arith)
        requires
            n > 0,
    ;
    assert(i >= n ==> m * i >= n * m) by (nonlinear_arith)
        requires
            m > 0,
    ;
}

/// Weights of one attribute gathered.
proof fn lemma_gather(p: int, q: int, r: int, k: int, l: int)
    ensures
        p * k + q * l + r * l == p * k + (q + r) * l,
        p * k + r * l + q * k == (p + q) * k + r * l,
        p * k + q * k + r * l == (p + q) * k + r * l,
{
    assert(q * l + r * l == (q + r) * l) by (nonlinear_arith);
    assert(p * k + q * k == (p + q) * k) by (nonlinear_arith);
}

/// Weights of one value gathered.
proof fn lemma_total(p: int, q: int, r: int, k: int)
    ensures
        p * k + q * k + r * k == (p + q + r) * k,
{
    assert(p * k + q * k + r * k == (p + q + r) * k) by (nonlinear_arith);
}

/// A weighted sum whose weights share a factor.
proof fn lemma_scaled(f: int, p: int, q: int, k: int, l: int)
    ensures
        (f * p) * k + (f * q) * l == f * (p * k + q * l),
{
    assert((f * p) * k == f * (p * k)) by (nonlinear_arith);
    assert((f * q) * l == f * (q * l)) by (nonlinear_arith);
    assert(f * (p * k) + f * (q * l) == f * (p * k + q * l)) by (nonlinear_arith);
}

/// A factor shared by dividend and divisor cancels under rounding toward
/// zero.
proof fn lemma_cancel(k: int, x: int, d: int)
    requires
        k > 0,
        d > 0,
    ensures
        trunc_div(k * x, k * d) == trunc_div(x, d),
{
    let t = if x >= 0 {
        x
    } else {
        -x
    };
    let q = t / d;
    let r = t % d;
    vstd::arithmetic::div_mod::lemma_fundamental_div_mod(t, d);
    vstd::arithmetic::div_mod::lemma_mod_bound(t, d);
    assert(k * t == q * (k * d) + k * r && 0 <= k * r < k * d && k * d > 0) by (nonlinear_arith)
        requires
            t == d * q + r,
            0 <= r < d,
            k > 0,
    ;
    vstd::arithmetic::div_mod::lemma_fundamental_div_mod_converse(k * t, k * d, q, k * r);
    assert(k * (-x) == -(k * x)) by (nonlinear_arith);
    assert(x >= 0 ==> k * x >= 0) by (nonlinear_arith)
        requires
            k > 0,
    ;
    assert(x < 0 ==> k * x < 0) by (nonlinear_arith)
        requires
            k > 0,
    ;
}

/// Over the rectangle the depth is that of the corners, `u` runs along `x`
/// from the left side's to the right side's, and `v` along `y` from the
/// top's to the bottom's, in either half; so each half shows the
/// rectangle's texel.
pub proof fn lemma_rectangle_attributes(
    a: Vertex,
    b: Vertex,
    c: Vertex,
    d: Vertex,
    tex: Image,
    x: int,
    y: int,
)
    requires
        rectangle(a, b, c, d),
    ensures
        upper_half(a, b, c).depth_at(x, y) == a.w,
        lower_half(a, c, d).depth_at(x, y) == a.w,
        upper_half(a, b, c).texel(tex, x, y) == rectangle_texel(a, c, tex, x, y),
        lower_half(a, c, d).texel(tex, x, y) == rectangle_texel(a, c, tex, x, y),
{
    lemma_halves(a, b, c, d, x, y);
    let n = c.x - a.x;
    let m = c.y - a.y;
    let i = x - a.x;
    let j = y - a.y;
    let (w, ua, ub, va, vb) = (a.w as int, a.u as int, c.u as int, a.v as int, c.v as int);
    let up = upper_half(a, b, c);
    let low = lower_half(a, c, d);
    assert(n * (m - j) == n * m - n * j && m * (n - i) == n * m - m * i) by (nonlinear_arith);
    assert(n * m == m * n) by (nonlinear_arith);
    // the depth
    lemma_total(m * (n - i), m * i - n * j, n * j, w);
    lemma_total(n * (m - j), m * i, n * j - m * i, w);
    assert((n * m) * w == m * (n * w) && (n * m) * w == n * (m * w)) by (nonlinear_arith);
    assert(up.w_sum(x, y) == (n * m) * w);
    assert(low.w_sum(x, y) == (n * m) * w);
    vstd::arithmetic::div_mod::lemma_fundamental_div_mod_converse((n * m) * w, n * m, w, 0);
    assert(n * w > 0 && m * w > 0) by (nonlinear_arith)
        requires
            n > 0,
            m > 0,
            w > 0,
    ;
    // along x
    let xs = along(ua, ub, n, i);
    lemma_gather(m * (n - i), m * i - n * j, n * j, ua, ub);
    lemma_gather(n * (m - j), n * j - m * i, m * i, ua, ub);
    lemma_scaled(m, n - i, i, ua, ub);
    assert(up.u_sum(x, y) == m * xs);
    assert(low.u_sum(x, y) == m * xs);
    assert((m * xs) * tex.width == m * (xs * tex.width)) by (nonlinear_arith);
    lemma_cancel(m, xs * tex.width, n * w);
    // along y
    let ys = along(va, vb, m, j);
    lemma_gather(m * (n - i), m * i - n * j, n * j, va, vb);
    lemma_gather(n * (m - j), n * j - m * i, m * i, va, vb);
    lemma_scaled(n, m - j, j, va, vb);
    assert(up.v_sum(x, y) == n * ys);
    assert(low.v_sum(x, y) == n * ys);
    assert((n * ys) * tex.height == n * (ys * tex.height)) by (nonlinear_arith);
    lemma_cancel(n, ys * tex.height, m * w);
}

/// The edge functions of the two halves along the other diagonal, from `b`
/// to `d`, written out.
proof fn lemma_other_halves(a: Vertex, b: Vertex, c: Vertex, d: Vertex, x: int, y: int)
    requires
        rectangle(a, b, c, d),
    ensures
        ({
            let n = c.x - a.x;
            let m = c.y - a.y;
            let i = x - a.x;
            let j = y - a.y;
            let up = left_half(a, b, d);
            let low = right_half(b, c, d);
            &&& n * m > 0
            &&& up.front() == up && low.front() == low
            &&& up.area2() == n * m && low.area2() == n * m
            &&& up.weight_a(x, y) == n * m - n * j - m * i
            &&& up.weight_b(x, y) == m * i
            &&& up.weight_c(x, y) == n * j
            &&& low.weight_a(x, y) == n * (m - j)
            &&& low.weight_b(x, y) == n * j + m * i - n * m
            &&& low.weight_c(x, y) == m * (n - i)
        }),
{
    let n = c.x - a.x;
    let m = c.y - a.y;
    let i = x - a.x;
    let j = y - a.y;
    assert(n * m > 0) by (nonlinear_arith)
        requires
            n > 0,
            m > 0,
    ;
    assert(n * m - 0 * 0 == n * m && 0 * m - m * (-n) == n * m) by (nonlinear_arith);
    assert((-n) * j - m * (i - n) == n * m - n * j - m * i) by (nonlinear_arith);
    assert(0 * (j - m) - (-m) * i == m * i) by (nonlinear_arith);
    assert(n * j - 0 * i == n * j) by (nonlinear_arith);
    assert((-n) * (j - m) - 0 * (i - n) == n * (m - j)) by (nonlinear_arith);
    assert(n * (j - m) - (-m) * i == n * j + m * i - n * m) by (nonlinear_arith);
    assert(0 * j - m * (i - n) == m * (n - i)) by (nonlinear_arith);
}

/// The two halves along the other diagonal cover the rectangle's pixels
/// and no others, each pixel once.
pub proof fn lemma_other_covers(a: Vertex, b: Vertex, c: Vertex, d: Vertex, x: int, y: int)
    requires
        rectangle(a, b, c, d),
    ensures
        in_rectangle(a, c, x, y) == (left_half(a, b, d).covers(x, y) || right_half(b, c, d).covers(
            x,
            y,
        )),
        !(left_half(a, b, d).covers(x, y) && right_half(b, c, d).covers(x, y)),
{
    lemma_other_halves(a, b, c, d, x, y);
    let n = c.x - a.x;
    let m = c.y - a.y;
    let i = x - a.x;
    let j = y - a.y;
    assert((m * (n - i) > 0) == (i < n)) by (nonlinear_arith)
        requires
            m > 0,
    ;
    assert((n * (m - j) > 0) == (j < m)) by (nonlinear_arith)
        requires
            n > 0,
    ;
    assert((n * j >= 0) == (j >= 0)) by (nonlinear_arith)
        requires
            n > 0,
    ;
    assert((m * i >= 0) == (i >= 0)) by (nonlinear_arith)
        requires
            m > 0,
    ;
    assert((i < n) == (m * i < n * m)) by (nonlinear_arith)
        requires
            m > 0,
    ;
    assert((j < m) == (n * j < n * m)) by (nonlinear_arith)
        requires
            n > 0,
    ;
}

/// [`lemma_rectangle_attributes`] for the halves along the other
/// diagonal.
pub proof fn lemma_other_attributes(
    a: Vertex,
    b: Vertex,
    c: Vertex,
    d: Vertex,
    tex: Image,
    x: int,
    y: int,
)
    requires
        rectangle(a, b, c, d),
    ensures
        left_half(a, b, d).depth_at(x, y) == a.w,
        right_half(b, c, d).depth_at(x, y) == a.w,
        left_half(a, b, d).texel(tex, x, y) == rectangle_texel(a, c, tex, x, y),
        right_half(b, c, d).texel(tex, x, y) == rectangle_texel(a, c, tex, x, y),
{
    lemma_other_halves(a, b, c, d, x, y);
    let n = c.x - a.x;
    let m = c.y - a.y;
    let i = x - a.x;
    let j = y - a.y;
    let (w, ua, ub, va, vb) = (a.w as int, a.u as int, c.u as int, a.v as int, c.v as int);
    let up = left_half(a, b, d);
    let low = right_half(b, c, d);
    assert(n * (m - j) == n * m - n * j && m * (n - i) == n * m - m * i) by (nonlinear_arith);
    assert(n * m == m * n) by (nonlinear_arith);
    // the depth
    lemma_total(n * m - n * j - m * i, m * i, n * j, w);
    lemma_total(n * (m - j), n * j + m * i - n * m, m * (n - i), w);
    assert((n * m) * w == m * (n * w) && (n * m) * w == n * (m * w)) by (nonlinear_arith);
    assert(up.w_sum(x, y) == (n * m) * w);
    assert(low.w_sum(x, y) == (n * m) * w);
    vstd::arithmetic::div_mod::lemma_fundamental_div_mod_converse((n * m) * w, n * m, w, 0);
    assert(n * w > 0 && m * w > 0) by (nonlinear_arith)
        requires
            n > 0,
            m > 0,
            w > 0,
    ;
    // along x
    let xs = along(ua, ub, n, i);
    lemma_gather(n * m - n * j - m * i, n * j, m * i, ua, ub);
    lemma_gather(m * (n - i), n * (m - j), n * j + m * i - n * m, ua, ub);
    lemma_scaled(m, n - i, i, ua, ub);
    assert(up.u_sum(x, y) == m * xs);
    assert(low.u_sum(x, y) == m * xs);
    assert((m * xs) * tex.width == m * (xs * tex.width)) by (nonlinear_arith);
    lemma_cancel(m, xs * tex.width, n * w);
    // along y
    let ys = along(va, vb, m, j);
    lemma_gather(n * m - n * j - m * i, m * i, n * j, va, vb);
    lemma_gather(n * (m - j), n * j + m * i - n * m, m * (n - i), va, vb);
    lemma_scaled(n, m - j, j, va, vb);
    assert(up.v_sum(x, y) == n * ys);
    assert(low.v_sum(x, y) == n * ys);
    assert((n * ys) * tex.height == n * (ys * tex.height)) by (nonlinear_arith);
    lemma_cancel(n, ys * tex.height, m * w);
}

/// With the texture coordinates zero at the rectangle's top left corner
/// and one at its bottom right corner, the rectangle shows the texture
/// scaled to its size: its pixel `i`, `j` shows the texel `i * width / n`,
/// `j * height / m`, for a rectangle of `n` by `m` pixels. Where the
/// texture is as large as the rectangle that is the texel `i`, `j`.
pub proof fn lemma_corner_coordinates(a: Vertex, c: Vertex, tex: Image, x: int, y: int)
    requires
        a.w > 0,
        a.u == 0 && a.v == 0,
        c.u == a.w && c.v == a.w,
        in_rectangle(a, c, x, y),
    ensures
        rectangle_texel(a, c, tex, x, y) == tex.get(
            ((x - a.x) * tex.width) / (c.x - a.x),
            ((y - a.y) * tex.height) / (c.y - a.y),
        ),
        tex.width == c.x - a.x ==> ((x - a.x) * tex.width) / (c.x - a.x) == x - a.x,
        tex.height == c.y - a.y ==> ((y - a.y) * tex.height) / (c.y - a.y) == y - a.y,
{
    let w = a.w as int;
    lemma_one_over(w, c.x - a.x, x - a.x, tex.width as int);
    lemma_one_over(w, c.y - a.y, y - a.y, tex.height as int);
}

/// [`lemma_corner_coordinates`] along one side.
proof fn lemma_one_over(w: int, n: int, i: int, size: int)
    requires
        w > 0,
        0 <= i < n,
        size >= 0,
    ensures
        trunc_div(along(0, w, n, i) * size, n * w) == (i * size) / n,
        size == n ==> (i * size) / n == i,
{
    assert((n - i) * 0 == 0);
    assert((i * w) * size == w * (i * size) && n * w == w * n) by (nonlinear_arith);
    assert(i * size >= 0) by (nonlinear_arith)
        requires
            i >= 0,
            size >= 0,
    ;
    lemma_cancel(w, i * size, n);
    if size == n {
        vstd::arithmetic::div_mod::lemma_fundamental_div_mod_converse(i * n, n, i, 0);
    }
}

/// Whether an attribute that is `lo` at the left of a span of `n` pixels
/// and `hi` at its right puts the centre of texel `i` of `n` on pixel `i`,
/// at the depth `w`: `lo` is half a texel and `hi` a whole texture and half
/// a texel, each times `w` and each up to `e` units of the attribute, which
/// are to be less than half a texel.
pub open spec fn centred(lo: int, hi: int, w: int, n: int, e: int) -> bool {
    &&& e >= 0 && n > 0
    &&& w > 2 * (n * e)
    &&& w - 2 * (n * e) <= 2 * (n * lo) <= w + 2 * (n * e)
    &&& w + 2 * (n * w) - 2 * (n * e) <= 2 * (n * hi) <= w + 2 * (n * w) + 2 * (n * e)
}

/// With a centred attribute pixel `i` of the span shows texel `i`.
proof fn lemma_centred(lo: int, hi: int, w: int, n: int, e: int, i: int)
    requires
        centred(lo, hi, w, n, e),
        0 <= i < n,
    ensures
        trunc_div(along(lo, hi, n, i) * n, n * w) == i,
{
    let s = 2 * (n * e);
    let p = n - i;
    let low = 2 * (n * lo);
    let high = 2 * (n * hi);
    let xs = along(lo, hi, n, i);
    assert(s >= 0) by (nonlinear_arith)
        requires
            s == 2 * (n * e),
            n > 0,
            e >= 0,
    ;
    assert(i * w >= 0 && n * w > 0) by (nonlinear_arith)
        requires
            i >= 0,
            n > 0,
            w > 0,
    ;
    assert(p * low + i * high == n * (2 * xs)) by (nonlinear_arith)
        requires
            low == 2 * (n * lo),
            high == 2 * (n * hi),
            xs == p * lo + i * hi,
    ;
    assert(p * (w - s) <= p * low <= p * (w + s)) by (nonlinear_arith)
        requires
            p >= 0,
            w - s <= low <= w + s,
    ;
    assert(i * (w + 2 * (n * w) - s) <= i * high <= i * (w + 2 * (n * w) + s)) by (nonlinear_arith)
        requires
            i >= 0,
            w + 2 * (n * w) - s <= high <= w + 2 * (n * w) + s,
    ;
    assert(p * (w - s) + i * (w + 2 * (n * w) - s) == n * (w + 2 * (i * w) - s)) by (nonlinear_arith)
        requires
            p == n - i,
    ;
    assert(p * (w + s) + i * (w + 2 * (n * w) + s) == n * (w + 2 * (i * w) + s)) by (nonlinear_arith)
        requires
            p == n - i,
    ;
    assert(w + 2 * (i * w) - s <= 2 * xs <= w + 2 * (i * w) + s) by (nonlinear_arith)
        requires
            n > 0,
            n * (w + 2 * (i * w) - s) <= n * (2 * xs) <= n * (w + 2 * (i * w) + s),
    ;
    assert(i * w <= xs < i * w + w);
    assert(xs * n == n * xs) by (nonlinear_arith);
    lemma_cancel(n, xs, w);
    assert(w * i == i * w) by (nonlinear_arith);
    vstd::arithmetic::div_mod::lemma_fundamental_div_mod_converse(xs, w, i, xs - w * i);
}

/// A rectangle whose texture coordinates lie on the centres of the texels
/// at its corners shows the texture texel for pixel, if the texture is as
/// large as the rectangle.
pub proof fn lemma_centred_coordinates(a: Vertex, c: Vertex, tex: Image, e: int, x: int, y: int)
    requires
        tex.width == c.x - a.x,
        tex.height == c.y - a.y,
        centred(a.u as int, c.u as int, a.w as int, c.x - a.x, e),
        centred(a.v as int, c.v as int, a.w as int, c.y - a.y, e),
        in_rectangle(a, c, x, y),
    ensures
        rectangle_texel(a, c, tex, x, y) == tex.get(x - a.x, y - a.y),
{
    lemma_centred(a.u as int, c.u as int, a.w as int, c.x - a.x, e, x - a.x);
    lemma_centred(a.v as int, c.v as int, a.w as int, c.y - a.y, e, y - a.y);
}

/// The scene of one textured rectangle: filled as its two halves, in
/// either order and each wound either way, over depths that are farther
/// and in the mode that overwrites, each pixel of the rectangle shows the
/// rectangle's texel and has its depth; every pixel outside the rectangle
/// keeps colour and depth, and so does one inside that held something as
/// near or nearer.
pub proof fn lemma_rectangle_rendered(
    canvas: Canvas,
    v: PipelineView,
    first: ScreenTriangle,
    second: ScreenTriangle,
    a: Vertex,
    b: Vertex,
    c: Vertex,
    d: Vertex,
    tex: Image,
    x: int,
    y: int,
)
    requires
        canvas.wf(),
        canvas.has_target(),
        canvas.pixel_mode == PixelMode::Normal,
        rectangle(a, b, c, d),
        halves_of(first, second, a, b, c, d),
        canvas.target().contains(x, y),
        v.contains(x, y),
    ensures
        ({
            let picture = rendered(canvas, v, seq![first, second], tex).target();
            let depths = v.shaded_all(seq![first, second]).depth;
            if in_rectangle(a, c, x, y) && v.depth[(x, y)] < a.w {
                picture.get(x, y) == rectangle_texel(a, c, tex, x, y) && depths[(x, y)] == a.w
            } else {
                picture.get(x, y) == canvas.target().get(x, y) && depths[(x, y)] == v.depth[(x, y)]
            }
        }),
{
    lemma_halves(a, b, c, d, x, y);
    lemma_rectangle_covers(a, b, c, d, x, y);
    lemma_rectangle_attributes(a, b, c, d, tex, x, y);
    lemma_other_halves(a, b, c, d, x, y);
    lemma_other_covers(a, b, c, d, x, y);
    lemma_other_attributes(a, b, c, d, tex, x, y);
    if has_corners(first, a, b, c) && has_corners(second, a, c, d) {
        lemma_shows_any_order(first, upper_half(a, b, c), tex, x, y);
        lemma_shows_any_order(second, lower_half(a, c, d), tex, x, y);
    } else if has_corners(first, a, c, d) && has_corners(second, a, b, c) {
        lemma_shows_any_order(first, lower_half(a, c, d), tex, x, y);
        lemma_shows_any_order(second, upper_half(a, b, c), tex, x, y);
    } else if has_corners(first, a, b, d) && has_corners(second, b, c, d) {
        lemma_shows_any_order(first, left_half(a, b, d), tex, x, y);
        lemma_shows_any_order(second, right_half(b, c, d), tex, x, y);
    } else {
        lemma_shows_any_order(first, right_half(b, c, d), tex, x, y);
        lemma_shows_any_order(second, left_half(a, b, d), tex, x, y);
    }
    let both = seq![first, second];
    if in_rectangle(a, c, x, y) && v.depth[(x, y)] < a.w {
        if first.covers(x, y) {
            lemma_lone_triangle_shows(canvas, v, first, second, tex, x, y);
        } else {
            lemma_lone_triangle_shows(canvas, v, second, first, tex, x, y);
        }
    } else {
        assert forall|k: int| 0 <= k < both.len() && (#[trigger] both[k]).covers(x, y) implies both[k].depth_at(
            x,
            y,
        ) <= v.depth[(x, y)] by {
            assert(both[k] == first || both[k] == second);
        }
        lemma_not_nearer_keeps(canvas, v, both, tex, x, y);
    }
}

/// The scene of one textured quad: a mesh that the pipeline's transforms
/// take to the two halves of a rectangle of the screen, in either order and
/// each wound either way, with the texture coordinates zero at the
/// rectangle's top left corner and one at its bottom right corner, and a
/// texture of one texel for each pixel of the rectangle. Rendered over
/// depths that are farther, in the mode that overwrites, the rectangle
/// reproduces the texture texel for pixel; nothing outside it changes.
pub proof fn lemma_quad_scene(
    canvas: Canvas,
    v: PipelineView,
    mesh: Seq<Triangle>,
    a: Vertex,
    b: Vertex,
    c: Vertex,
    d: Vertex,
    tex: Image,
    x: int,
    y: int,
)
    requires
        canvas.wf(),
        canvas.has_target(),
        canvas.pixel_mode == PixelMode::Normal,
        v.on_screen_all(mesh).len() == 2,
        halves_of(v.on_screen_all(mesh)[0], v.on_screen_all(mesh)[1], a, b, c, d),
        rectangle(a, b, c, d),
        a.u == 0 && a.v == 0,
        c.u == a.w && c.v == a.w,
        tex.width == c.x - a.x,
        tex.height == c.y - a.y,
        canvas.target().contains(x, y),
        v.contains(x, y),
    ensures
        ({
            let picture = rendered(canvas, v, v.on_screen_all(mesh), tex).target();
            let depths = v.shaded_all(v.on_screen_all(mesh)).depth;
            if in_rectangle(a, c, x, y) && v.depth[(x, y)] < a.w {
                picture.get(x, y) == tex.get(x - a.x, y - a.y) && depths[(x, y)] == a.w
            } else {
                picture.get(x, y) == canvas.target().get(x, y) && depths[(x, y)] == v.depth[(x, y)]
            }
        }),
{
    let ts = v.on_screen_all(mesh);
    assert(ts =~= seq![ts[0], ts[1]]);
    lemma_rectangle_rendered(canvas, v, ts[0], ts[1], a, b, c, d, tex, x, y);
    if in_rectangle(a, c, x, y) {
        lemma_corner_coordinates(a, c, tex, x, y);
    }
}

} // verus!
