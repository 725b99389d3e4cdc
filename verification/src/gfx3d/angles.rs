//! Right angles on the grid.
//!
//! A cross product stands at right angles to both of its factors. On the
//! grid each product is rounded, and the cross product of two vectors with
//! components from minus one to one, as directions have them, is at right
//! angles to each up to six steps of the grid.

use vstd::prelude::*;
use crate::arith::lemma_mul_bound;
use crate::arith::trunc_div;
use crate::fixed::is_root;
use crate::fixed::lemma_root_exists;
use crate::fixed::root;
use crate::fixed::unit;
use crate::fixed::Fixed;
use crate::length::component_of;
use crate::length::largest;
use crate::length::lemma_enlarged;
use crate::length::lift;
use crate::length::sum_squares;
use crate::gfx3d::cut::lemma_product;
use crate::gfx3d::mat4x4::Mat4x4;
use crate::gfx3d::vec3d::Vec3d;

verus! {

/// Whether no component of the vector is beyond one.
pub open spec fn within_one(v: Vec3d) -> bool {
    &&& -unit() <= v.x.raw <= unit()
    &&& -unit() <= v.y.raw <= unit()
    &&& -unit() <= v.z.raw <= unit()
}

/// The product of a vector with its exact cross product with another is
/// zero.
proof fn lemma_triple(ax: int, ay: int, az: int, bx: int, by: int, bz: int)
    ensures
        ax * (ay * bz - az * by) + ay * (az * bx - ax * bz) + az * (ax * by - ay * bx) == 0,
        bx * (ay * bz - az * by) + by * (az * bx - ax * bz) + bz * (ax * by - ay * bx) == 0,
{
    assert(ax * (ay * bz - az * by) == ax * (ay * bz) - ax * (az * by)) by (nonlinear_arith);
    assert(ay * (az * bx - ax * bz) == ay * (az * bx) - ay * (ax * bz)) by (nonlinear_arith);
    assert(az * (ax * by - ay * bx) == az * (ax * by) - az * (ay * bx)) by (nonlinear_arith);
    assert(ax * (ay * bz) == ay * (ax * bz)) by (nonlinear_arith);
    assert(ax * (az * by) == az * (ax * by)) by (nonlinear_arith);
    assert(ay * (az * bx) == az * (ay * bx)) by (nonlinear_arith);
    assert(bx * (ay * bz - az * by) == bx * (ay * bz) - bx * (az * by)) by (nonlinear_arith);
    assert(by * (az * bx - ax * bz) == by * (az * bx) - by * (ax * bz)) by (nonlinear_arith);
    assert(bz * (ax * by - ay * bx) == bz * (ax * by) - bz * (ay * bx)) by (nonlinear_arith);
    assert(bx * (ay * bz) == bz * (ay * bx)) by (nonlinear_arith);
    assert(bx * (az * by) == by * (az * bx)) by (nonlinear_arith);
    assert(by * (ax * bz) == bz * (ax * by)) by (nonlinear_arith);
}

/// From the rounded cross product to its product with a factor: `e` is the
/// exact cross product, `c` the rounded one, `d` the rounded product of `c`
/// with `a`.
proof fn lemma_tilt(
    ax: int,
    ay: int,
    az: int,
    cx: int,
    cy: int,
    cz: int,
    ex: int,
    ey: int,
    ez: int,
    d: int,
)
    requires
        -unit() <= ax <= unit() && -unit() <= ay <= unit() && -unit() <= az <= unit(),
        ex - unit() < unit() * cx < ex + unit(),
        ey - unit() < unit() * cy < ey + unit(),
        ez - unit() < unit() * cz < ez + unit(),
        ax * ex + ay * ey + az * ez == 0,
        unit() * d <= ax * cx + ay * cy + az * cz < unit() * d + 3 * unit(),
    ensures
        -6 < d <= 3,
{
    let u = unit();
    let uu = u * u;
    lemma_part(ax, cx, ex);
    lemma_part(ay, cy, ey);
    lemma_part(az, cz, ez);
    let sum = ax * cx + ay * cy + az * cz;
    assert(ax * (u * cx) == u * (ax * cx)) by (nonlinear_arith);
    assert(ay * (u * cy) == u * (ay * cy)) by (nonlinear_arith);
    assert(az * (u * cz) == u * (az * cz)) by (nonlinear_arith);
    let (tx, ty, tz) = (ax * cx, ay * cy, az * cz);
    assert(u * (tx + ty + tz) == u * tx + u * ty + u * tz) by (nonlinear_arith);
    assert(-(3 * uu) <= u * sum <= 3 * uu);
    assert(u * (u * d) <= u * sum < u * (u * d) + 3 * uu) by (nonlinear_arith)
        requires
            u * d <= sum < u * d + 3 * u,
            u > 0,
            uu == u * u,
    ;
    assert(u * (u * d) == uu * d) by (nonlinear_arith)
        requires
            uu == u * u,
    ;
    assert(-6 < d <= 3) by (nonlinear_arith)
        requires
            uu * d <= u * sum,
            u * sum < uu * d + 3 * uu,
            -(3 * uu) <= u * sum <= 3 * uu,
            uu > 0,
    ;
}

/// One component's share of [`lemma_tilt`].
proof fn lemma_part(a: int, c: int, e: int)
    requires
        -unit() <= a <= unit(),
        e - unit() < unit() * c < e + unit(),
    ensures
        a * e - unit() * unit() <= a * (unit() * c) <= a * e + unit() * unit(),
{
    let u = unit();
    let r = e - u * c;
    assert(a * (u * c) == a * e - a * r) by (nonlinear_arith)
        requires
            r == e - u * c,
    ;
    crate::arith::lemma_mul_bound(a, r, u, u);
}

/// The cross product of two vectors whose components are from minus one
/// to one stands at right angles to both, up to six steps of the grid: its
/// dot product with either is less than six steps from zero.
pub proof fn lemma_cross_right_angles(a: Vec3d, b: Vec3d)
    requires
        within_one(a),
        within_one(b),
    ensures
        -6 < a.cross(&b).dot(&a).raw < 6,
        -6 < a.cross(&b).dot(&b).raw < 6,
{
    reveal(Fixed::add_spec);
    reveal(Fixed::sub_spec);
    let u = unit();
    let c = a.cross(&b);
    lemma_product(a.y, b.z, u);
    lemma_product(a.z, b.y, u);
    lemma_product(a.z, b.x, u);
    lemma_product(a.x, b.z, u);
    lemma_product(a.x, b.y, u);
    lemma_product(a.y, b.x, u);
    lemma_product(a.x, c.x, 2 * u);
    lemma_product(a.y, c.y, 2 * u);
    lemma_product(a.z, c.z, 2 * u);
    lemma_product(b.x, c.x, 2 * u);
    lemma_product(b.y, c.y, 2 * u);
    lemma_product(b.z, c.z, 2 * u);
    let (ax, ay, az) = (a.x.raw as int, a.y.raw as int, a.z.raw as int);
    let (bx, by, bz) = (b.x.raw as int, b.y.raw as int, b.z.raw as int);
    lemma_triple(ax, ay, az, bx, by, bz);
    lemma_tilt(
        ax,
        ay,
        az,
        c.x.raw as int,
        c.y.raw as int,
        c.z.raw as int,
        ay * bz - az * by,
        az * bx - ax * bz,
        ax * by - ay * bx,
        c.dot(&a).raw as int,
    );
    lemma_tilt(
        bx,
        by,
        bz,
        c.x.raw as int,
        c.y.raw as int,
        c.z.raw as int,
        ay * bz - az * by,
        az * bx - ax * bz,
        ax * by - ay * bx,
        c.dot(&b).raw as int,
    );
}

/// The right direction of a camera's placement stands at right angles to
/// its up and its forward direction, up to six steps of the grid, whatever
/// the camera.
pub proof fn lemma_point_at_right_angles(pos: Vec3d, target: Vec3d, up: Vec3d)
    ensures
        ({
            let m = Mat4x4::make_point_at(pos, target, up);
            let right = Vec3d { x: m.at(0, 0), y: m.at(0, 1), z: m.at(0, 2) };
            let new_up = Vec3d { x: m.at(1, 0), y: m.at(1, 1), z: m.at(1, 2) };
            let forward = Vec3d { x: m.at(2, 0), y: m.at(2, 1), z: m.at(2, 2) };
            &&& -6 < right.dot(&new_up).raw < 6
            &&& -6 < right.dot(&forward).raw < 6
        }),
{
    let forward = target.sub(pos).norm();
    let rest = up.sub(forward.mul(up.dot(&forward)));
    let new_up = rest.norm();
    lemma_direction(target.sub(pos));
    lemma_direction(rest);
    lemma_cross_right_angles(new_up, forward);
    let m = Mat4x4::make_point_at(pos, target, up);
    assert(Vec3d { x: m.at(0, 0), y: m.at(0, 1), z: m.at(0, 2) } == new_up.cross(&forward));
    assert(Vec3d { x: m.at(1, 0), y: m.at(1, 1), z: m.at(1, 2) } == new_up);
    assert(Vec3d { x: m.at(2, 0), y: m.at(2, 1), z: m.at(2, 2) } == forward);
}

/// A direction has no component beyond one.
proof fn lemma_direction(v: Vec3d)
    ensures
        within_one(v.norm()),
{
    if v.x.raw != 0 || v.y.raw != 0 || v.z.raw != 0 {
        crate::length::lemma_direction_length(v.x, v.y, v.z);
    }
}

/// A number without its sign.
pub open spec fn size(v: int) -> int {
    if v >= 0 {
        v
    } else {
        -v
    }
}

/// The squares of the components of a direction sum to one, up to rounding,
/// or the direction is that of the vector without length.
proof fn lemma_direction_squares(v: Vec3d)
    ensures
        within_one(v.norm()),
        v.norm() == Vec3d::zero() || (unit() - 4) * (unit() - 4) <= sum_squares(
            v.norm().x.raw as int,
            v.norm().y.raw as int,
            v.norm().z.raw as int,
        ) < (unit() + 1) * (unit() + 1),
{
    if v.x.raw != 0 || v.y.raw != 0 || v.z.raw != 0 {
        crate::length::lemma_direction_length(v.x, v.y, v.z);
        let d = v.norm();
        let s = sum_squares(d.x.raw as int, d.y.raw as int, d.z.raw as int);
        assert(d.x.raw * d.x.raw >= 0 && d.y.raw * d.y.raw >= 0 && d.z.raw * d.z.raw >= 0)
            by (nonlinear_arith);
        lemma_root_exists(s);
        let r = root(s);
        assert(unit() - 4 <= r <= unit());
        assert((unit() - 4) * (unit() - 4) <= r * r && (r + 1) * (r + 1) <= (unit() + 1) * (unit()
            + 1)) by (nonlinear_arith)
            requires
                0 <= unit() - 4 <= r <= unit(),
        ;
    }
}

/// One component of the part of `up` along `forward`, times `forward`'s
/// component: `g` is `f * k` rounded down.
proof fn lemma_back(f: int, k: int, g: int)
    requires
        -unit() <= f <= unit(),
        unit() * g <= f * k < unit() * g + unit(),
    ensures
        (f * f) * k - unit() * unit() <= unit() * (g * f) <= (f * f) * k + unit() * unit(),
{
    let u = unit();
    let lost = f * k - u * g;
    assert(u * (g * f) == (f * f) * k - f * lost) by (nonlinear_arith)
        requires
            lost == f * k - u * g,
    ;
    lemma_mul_bound(f, lost, u, u);
}

/// How far the part of `up` across `forward` is from standing at right
/// angles to `forward`, before it is scaled to length one: `k` is the
/// rounded product of `up` and `forward`, `squares` the sum of the squares
/// of `forward`'s components, `ups` and `backs` the exact products of `up`
/// and of the part along `forward` with `forward`.
proof fn lemma_across(k: int, squares: int, ups: int, backs: int)
    requires
        unit() * k <= ups < unit() * k + 3 * unit(),
        squares * k - 3 * (unit() * unit()) <= unit() * backs <= squares * k + 3 * (unit()
            * unit()),
        (squares == 0 && k == 0) || (unit() - 4) * (unit() - 4) <= squares < (unit() + 1) * (unit()
            + 1),
    ensures
        -(8 * size(k) + 6 * unit()) <= ups - backs <= 8 * size(k) + 6 * unit(),
{
    let u = unit();
    let uu = u * u;
    let gap = uu - squares;
    assert(uu * k <= u * ups < uu * k + 3 * uu) by (nonlinear_arith)
        requires
            u * k <= ups < u * k + 3 * u,
            u > 0,
            uu == u * u,
    ;
    assert(uu * k - squares * k == gap * k) by (nonlinear_arith)
        requires
            gap == uu - squares,
    ;
    if squares == 0 && k == 0 {
        assert(gap * k == 0) by (nonlinear_arith)
            requires
                k == 0,
        ;
    } else {
        assert(-(2 * u) - 1 < gap <= 8 * u - 16) by (nonlinear_arith)
            requires
                gap == u * u - squares,
                (u - 4) * (u - 4) <= squares < (u + 1) * (u + 1),
        ;
        lemma_mul_bound(gap, k, 8 * u, size(k));
    }
    assert((8 * u) * size(k) == u * (8 * size(k))) by (nonlinear_arith);
    assert(-(u * (8 * size(k) + 6 * u)) <= u * (ups - backs) <= u * (8 * size(k) + 6 * u))
        by (nonlinear_arith)
        requires
            uu * k <= u * ups < uu * k + 3 * uu,
            squares * k - 3 * uu <= u * backs <= squares * k + 3 * uu,
            uu * k - squares * k == gap * k,
            -(u * (8 * size(k))) <= gap * k <= u * (8 * size(k)),
            uu == u * u,
    ;
    assert(-(8 * size(k) + 6 * u) <= ups - backs <= 8 * size(k) + 6 * u) by (nonlinear_arith)
        requires
            -(u * (8 * size(k) + 6 * u)) <= u * (ups - backs) <= u * (8 * size(k) + 6 * u),
            u > 0,
    ;
}

/// A quotient rounded toward zero, times the divisor, is less than the
/// divisor from the dividend.
proof fn lemma_trunc(n: int, l: int)
    requires
        l > 0,
    ensures
        n - l < trunc_div(n, l) * l < n + l,
{
    let t = if n >= 0 {
        n
    } else {
        -n
    };
    vstd::arithmetic::div_mod::lemma_fundamental_div_mod(t, l);
    vstd::arithmetic::div_mod::lemma_mod_bound(t, l);
    assert((t / l) * l == l * (t / l) && (-(t / l)) * l == -(l * (t / l))) by (nonlinear_arith);
}

/// One component of a direction times the same component of `forward`: `n`
/// is the component `a` of the enlarged vector over its length `l`.
proof fn lemma_scaled_part(a: int, l: int, n: int, f: int)
    requires
        l > 0,
        -unit() <= f <= unit(),
        a * unit() - l < n * l < a * unit() + l,
    ensures
        unit() * (a * f) - unit() * l <= l * (n * f) <= unit() * (a * f) + unit() * l,
{
    let u = unit();
    let lost = a * u - n * l;
    assert(l * (n * f) == u * (a * f) - lost * f) by (nonlinear_arith)
        requires
            lost == a * u - n * l,
    ;
    lemma_mul_bound(lost, f, l, u);
    assert(l * u == u * l) by (nonlinear_arith);
}

/// From the parts to the tilt: `l` and `f` are the length and the factor of
/// the enlarged vector, `e` the exact product of the vector with `forward`,
/// `g` that of its direction, `d` the rounded one, `len` the vector's own
/// length.
proof fn lemma_tilt_of_up(l: int, f: int, e: int, g: int, d: int, bound: int, len: int)
    requires
        l > 0,
        f >= 1,
        -bound <= e <= bound,
        unit() * (f * e) - 3 * (unit() * l) <= l * g <= unit() * (f * e) + 3 * (unit() * l),
        unit() * d <= g < unit() * d + 3 * unit(),
        0 <= f * len <= l,
        len >= 0,
    ensures
        (size(d) - 6) * len <= bound,
{
    let u = unit();
    assert(l * (u * d) <= l * g < l * (u * d) + 3 * (u * l)) by (nonlinear_arith)
        requires
            u * d <= g < u * d + 3 * u,
            l > 0,
    ;
    lemma_mul_bound(f, e, f, bound);
    assert(-(u * (f * bound)) <= u * (f * e) <= u * (f * bound)) by (nonlinear_arith)
        requires
            -(f * bound) <= f * e <= f * bound,
            u > 0,
    ;
    assert(l * (u * d) == u * (l * d)) by (nonlinear_arith);
    assert(-(f * bound) - 6 * l <= l * d <= f * bound + 3 * l) by (nonlinear_arith)
        requires
            u * (l * d) <= u * (f * bound) + 3 * (u * l),
            u * (l * d) > -(u * (f * bound)) - 6 * (u * l),
            u > 0,
    ;
    let over = size(d) - 6;
    if over > 0 {
        assert(l * size(d) == l * d || l * size(d) == -(l * d)) by (nonlinear_arith)
            requires
                size(d) == d || size(d) == -d,
        ;
        assert(l * over == l * size(d) - 6 * l) by (nonlinear_arith)
            requires
                over == size(d) - 6,
        ;
        assert((f * len) * over <= l * over) by (nonlinear_arith)
            requires
                f * len <= l,
                over > 0,
        ;
        assert((f * len) * over == f * (over * len)) by (nonlinear_arith);
        assert(over * len <= bound) by (nonlinear_arith)
            requires
                f * (over * len) <= f * bound,
                f >= 1,
        ;
    } else {
        assert(over * len <= 0) by (nonlinear_arith)
            requires
                over <= 0,
                len >= 0,
        ;
        assert(bound >= 0);
    }
}

/// The length of a vector, enlarged, is at most the length of the enlarged
/// vector.
proof fn lemma_lengths(x: int, y: int, z: int, f: int)
    requires
        f >= 1,
    ensures
        0 <= f * root(sum_squares(x, y, z)) <= root(sum_squares(x * f, y * f, z * f)),
{
    let s = sum_squares(x, y, z);
    let t = sum_squares(x * f, y * f, z * f);
    assert(x * x >= 0 && y * y >= 0 && z * z >= 0) by (nonlinear_arith);
    assert((x * f) * (x * f) == (f * f) * (x * x) && (y * f) * (y * f) == (f * f) * (y * y) && (z
        * f) * (z * f) == (f * f) * (z * z)) by (nonlinear_arith);
    assert((f * f) * (x * x) + (f * f) * (y * y) + (f * f) * (z * z) == (f * f) * s)
        by (nonlinear_arith)
        requires
            s == x * x + y * y + z * z,
    ;
    assert((f * f) * s >= 0) by (nonlinear_arith)
        requires
            s >= 0,
    ;
    lemma_root_exists(s);
    lemma_root_exists(t);
    let r = root(s);
    let big = root(t);
    assert((f * r) * (f * r) <= (f * f) * s) by (nonlinear_arith)
        requires
            r * r <= s,
            f >= 1,
            r >= 0,
    ;
    assert(f * r >= 0) by (nonlinear_arith)
        requires
            f >= 1,
            r >= 0,
    ;
    if f * r > big {
        assert((f * r) * (f * r) >= (big + 1) * (big + 1)) by (nonlinear_arith)
            requires
                f * r >= big + 1,
                big >= 0,
        ;
    }
}

/// The up direction of a camera's placement stands at right angles to its
/// forward direction, up to rounding: their product is beyond six steps of
/// the grid by no more than eight times the size of the product of `up`
/// with forward, and six, over the length of the part of `up` across
/// forward, which is what is scaled to length one. So for an `up` of about
/// length one that does not lie near the way to the target the two stand at
/// right angles up to some twenty steps of the grid. The components of `up`
/// are to be at most `2^28`.
pub proof fn lemma_point_at_up_forward(pos: Vec3d, target: Vec3d, up: Vec3d)
    requires
        -0x1000_0000_0000_0000 <= up.x.raw <= 0x1000_0000_0000_0000,
        -0x1000_0000_0000_0000 <= up.y.raw <= 0x1000_0000_0000_0000,
        -0x1000_0000_0000_0000 <= up.z.raw <= 0x1000_0000_0000_0000,
    ensures
        ({
            let m = Mat4x4::make_point_at(pos, target, up);
            let new_up = Vec3d { x: m.at(1, 0), y: m.at(1, 1), z: m.at(1, 2) };
            let forward = Vec3d { x: m.at(2, 0), y: m.at(2, 1), z: m.at(2, 2) };
            let along = up.dot(&forward);
            let across = up.sub(forward.mul(along));
            (size(new_up.dot(&forward).raw as int) - 6) * root(
                sum_squares(across.x.raw as int, across.y.raw as int, across.z.raw as int),
            ) <= 8 * size(along.raw as int) + 6 * unit()
        }),
{
    reveal(Fixed::add_spec);
    reveal(Fixed::sub_spec);
    let u = unit();
    let reach = 0x1000_0000_0000_0000int;
    let way = target.sub(pos);
    let fw = way.norm();
    lemma_direction_squares(way);
    let (fx, fy, fz) = (fw.x.raw as int, fw.y.raw as int, fw.z.raw as int);
    let squares = sum_squares(fx, fy, fz);
    // up along forward
    lemma_product(fw.x, up.x, reach);
    lemma_product(fw.y, up.y, reach);
    lemma_product(fw.z, up.z, reach);
    let k = up.dot(&fw);
    let ups = up.x.raw * fx + up.y.raw * fy + up.z.raw * fz;
    assert(fx * up.x.raw == up.x.raw * fx && fy * up.y.raw == up.y.raw * fy && fz * up.z.raw
        == up.z.raw * fz) by (nonlinear_arith);
    assert(u * k.raw <= ups < u * k.raw + 3 * u);
    if fw == Vec3d::zero() {
        assert(0 * up.x.raw == 0 && 0 * up.y.raw == 0 && 0 * up.z.raw == 0);
        assert(squares == 0 && k.raw == 0);
    }
    // the part along forward, and what is left
    lemma_product(fw.x, k, 3 * reach);
    lemma_product(fw.y, k, 3 * reach);
    lemma_product(fw.z, k, 3 * reach);
    let back = fw.mul(k);
    let rest = up.sub(back);
    let (gx, gy, gz) = (back.x.raw as int, back.y.raw as int, back.z.raw as int);
    let (rx, ry, rz) = (rest.x.raw as int, rest.y.raw as int, rest.z.raw as int);
    assert(rx == up.x.raw - gx && ry == up.y.raw - gy && rz == up.z.raw - gz);
    lemma_back(fx, k.raw as int, gx);
    lemma_back(fy, k.raw as int, gy);
    lemma_back(fz, k.raw as int, gz);
    let backs = gx * fx + gy * fy + gz * fz;
    assert(u * backs == u * (gx * fx) + u * (gy * fy) + u * (gz * fz)) by (nonlinear_arith)
        requires
            backs == gx * fx + gy * fy + gz * fz,
    ;
    assert(squares * k.raw == (fx * fx) * k.raw + (fy * fy) * k.raw + (fz * fz) * k.raw)
        by (nonlinear_arith)
        requires
            squares == fx * fx + fy * fy + fz * fz,
    ;
    lemma_across(k.raw as int, squares, ups, backs);
    let e = rx * fx + ry * fy + rz * fz;
    assert(e == ups - backs) by (nonlinear_arith)
        requires
            e == rx * fx + ry * fy + rz * fz,
            ups == up.x.raw * fx + up.y.raw * fy + up.z.raw * fz,
            backs == gx * fx + gy * fy + gz * fz,
            rx == up.x.raw - gx,
            ry == up.y.raw - gy,
            rz == up.z.raw - gz,
    ;
    let bound = 8 * size(k.raw as int) + 6 * u;
    // scaled to length one
    let nu = rest.norm();
    let m = Mat4x4::make_point_at(pos, target, up);
    assert(Vec3d { x: m.at(1, 0), y: m.at(1, 1), z: m.at(1, 2) } == nu);
    assert(Vec3d { x: m.at(2, 0), y: m.at(2, 1), z: m.at(2, 2) } == fw);
    lemma_direction(rest);
    lemma_product(fw.x, nu.x, u);
    lemma_product(fw.y, nu.y, u);
    lemma_product(fw.z, nu.z, u);
    let d = nu.dot(&fw).raw as int;
    let g = nu.x.raw * fx + nu.y.raw * fy + nu.z.raw * fz;
    assert(fx * nu.x.raw == nu.x.raw * fx && fy * nu.y.raw == nu.y.raw * fy && fz * nu.z.raw
        == nu.z.raw * fz) by (nonlinear_arith);
    assert(u * d <= g < u * d + 3 * u);
    let len = root(sum_squares(rx, ry, rz));
    if rx == 0 && ry == 0 && rz == 0 {
        assert(nu == Vec3d::zero());
        assert(0 * fx == 0 && 0 * fy == 0 && 0 * fz == 0);
        assert(d == 0);
        assert(is_root(0, 0));
        crate::fixed::lemma_root(0, 0);
        assert(0 * 0 == 0);
        assert(len == 0);
    } else {
        lemma_enlarged(rx, ry, rz);
        let f = lift(largest(rx, ry, rz));
        let l = root(sum_squares(rx * f, ry * f, rz * f));
        lemma_lengths(rx, ry, rz, f);
        lemma_trunc((rx * f) * u, l);
        lemma_trunc((ry * f) * u, l);
        lemma_trunc((rz * f) * u, l);
        lemma_whole(rx * f, l);
        lemma_whole(ry * f, l);
        lemma_whole(rz * f, l);
        assert(nu.x.raw == trunc_div((rx * f) * u, l));
        assert(nu.y.raw == trunc_div((ry * f) * u, l));
        assert(nu.z.raw == trunc_div((rz * f) * u, l));
        lemma_scaled_part(rx * f, l, nu.x.raw as int, fx);
        lemma_scaled_part(ry * f, l, nu.y.raw as int, fy);
        lemma_scaled_part(rz * f, l, nu.z.raw as int, fz);
        assert(l * g == l * (nu.x.raw * fx) + l * (nu.y.raw * fy) + l * (nu.z.raw * fz))
            by (nonlinear_arith)
            requires
                g == nu.x.raw * fx + nu.y.raw * fy + nu.z.raw * fz,
        ;
        assert((rx * f) * fx == f * (rx * fx) && (ry * f) * fy == f * (ry * fy) && (rz * f) * fz
            == f * (rz * fz)) by (nonlinear_arith);
        assert(f * e == f * (rx * fx) + f * (ry * fy) + f * (rz * fz)) by (nonlinear_arith)
            requires
                e == rx * fx + ry * fy + rz * fz,
        ;
        assert(u * (f * e) == u * (f * (rx * fx)) + u * (f * (ry * fy)) + u * (f * (rz * fz)))
            by (nonlinear_arith)
            requires
                f * e == f * (rx * fx) + f * (ry * fy) + f * (rz * fz),
        ;
        lemma_root_exists(0);
        assert(rx * rx >= 0 && ry * ry >= 0 && rz * rz >= 0) by (nonlinear_arith);
        lemma_root_exists(sum_squares(rx, ry, rz));
        lemma_tilt_of_up(l, f, e, g, d, bound, len);
    }
}

/// The quotient of a component of the enlarged vector by the vector's
/// length is from minus one to one.
proof fn lemma_whole(a: int, l: int)
    requires
        l > 0,
        -l <= a <= l,
    ensures
        -unit() <= trunc_div(a * unit(), l) <= unit(),
        component_of(a, l).raw == trunc_div(a * unit(), l),
{
    let u = unit();
    lemma_trunc(a * u, l);
    let q = trunc_div(a * u, l);
    lemma_mul_bound(a, u, l, u);
    assert(-(u + 1) < q < u + 1) by (nonlinear_arith)
        requires
            a * u - l < q * l < a * u + l,
            -(l * u) <= a * u <= l * u,
            l > 0,
    ;
}

} // verus!
