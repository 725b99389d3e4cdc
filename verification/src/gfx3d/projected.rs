//! What the projection makes of a depth.
//!
//! A position at the depth `z` before the eye is projected to the depth
//! `q * (1 - near / z)` with `q = far / (far - near)`: zero on the near
//! plane, one on the far plane, growing in between. On the grid each step
//! of the way is rounded; the law here says by how much at most.

use vstd::prelude::*;
use crate::arith::trunc_div;
use crate::fixed::saturated;
use crate::fixed::unit;
use crate::fixed::Fixed;
use crate::gfx3d::mat4x4::Mat4x4;
use crate::gfx3d::stages::divided;
use crate::gfx3d::vec4d::Vec4d;

verus! {

/// Whether the planes of a projection lie so that nothing on the way from
/// a depth between them to its projected depth leaves the range of
/// numbers: `near` is before `far` and behind the eye's own plane, `far` is
/// at most `2^15`, and `far / (far - near)` and `far` times that are at
/// most `2^30`.
pub open spec fn planes_fit(near: Fixed, far: Fixed) -> bool {
    &&& 0 < near.raw < far.raw <= 0x8000_0000_0000
    &&& far.raw * unit() <= 0x4000_0000_0000_0000 * (far.raw - near.raw)
    &&& far.raw * far.raw <= 0x4000_0000_0000_0000 * (far.raw - near.raw)
}

/// The chain of bounds from the rounded quotients and products to the
/// projected depth, on whole numbers: `q`, `p`, `t`, `m`, `v` are the
/// quotient `far / (far - near)`, the product `-far * near`, the quotient
/// of that by `far - near`, the product `z * q` and the projected depth,
/// each rounded as the grid rounds it.
proof fn lemma_chain(n: int, f: int, z: int, q: int, p: int, t: int, m: int, v: int)
    requires
        0 < n < f,
        n <= z,
        q * (f - n) <= f * unit() < q * (f - n) + (f - n),
        unit() * p <= -(f * n) < unit() * p + unit(),
        p * unit() <= t * (f - n) < p * unit() + (f - n),
        unit() * m <= z * q < unit() * m + unit(),
        (m + t) * unit() - z < v * z < (m + t) * unit() + z,
    ensures
        -(2 * (z * (f - n)) + unit() * unit() + unit() * (f - n)) < (v * z) * (f - n) - (f * unit())
            * (z - n) < unit() * (f - n) + z * (f - n),
{
    let u = unit();
    let d = f - n;
    let k = m + t;
    assert((k * u - z) * d < (v * z) * d < (k * u + z) * d) by (nonlinear_arith)
        requires
            k * u - z < v * z < k * u + z,
            d > 0,
    ;
    assert((k * u) * d == (u * m) * d + (t * d) * u && (k * u - z) * d == (k * u) * d - z * d && (k
        * u + z) * d == (k * u) * d + z * d) by (nonlinear_arith)
        requires
            k == m + t,
    ;
    assert((z * q - u) * d < (u * m) * d <= (z * q) * d) by (nonlinear_arith)
        requires
            u * m <= z * q < u * m + u,
            d > 0,
    ;
    assert((z * q) * d == z * (q * d) && (z * q - u) * d == z * (q * d) - u * d) by (nonlinear_arith);
    assert(z * (f * u - d) < z * (q * d) <= z * (f * u)) by (nonlinear_arith)
        requires
            q * d <= f * u < q * d + d,
            z > 0,
    ;
    assert(z * (f * u - d) == (f * u) * z - z * d && z * (f * u) == (f * u) * z) by (nonlinear_arith);
    assert((p * u) * u <= (t * d) * u < (p * u + d) * u) by (nonlinear_arith)
        requires
            p * u <= t * d < p * u + d,
            u > 0,
    ;
    assert((p * u) * u == u * (u * p) && (p * u + d) * u == u * (u * p) + u * d) by (nonlinear_arith);
    assert(u * (-(f * n) - u) < u * (u * p) <= u * (-(f * n))) by (nonlinear_arith)
        requires
            u * p <= -(f * n) < u * p + u,
            u > 0,
    ;
    assert(u * (-(f * n)) == -((f * u) * n) && u * (-(f * n) - u) == -((f * u) * n) - u * u)
        by (nonlinear_arith);
    assert((f * u) * (z - n) == (f * u) * z - (f * u) * n) by (nonlinear_arith);
}

/// A quotient of a number that is not negative by a positive one, rounded
/// down, and what it is times the divisor.
proof fn lemma_floor(a: int, b: int, top: int)
    requires
        b > 0,
        0 <= a <= top * b,
    ensures
        0 <= a / b <= top,
        (a / b) * b <= a < (a / b) * b + b,
        trunc_div(a, b) == a / b,
        trunc_div(-a, b) == -(a / b),
{
    crate::arith::lemma_div_between(a, b, 0, top);
    vstd::arithmetic::div_mod::lemma_fundamental_div_mod(a, b);
    vstd::arithmetic::div_mod::lemma_mod_bound(a, b);
    assert((a / b) * b == b * (a / b)) by (nonlinear_arith);
    if a == 0 {
        assert(0 * b == 0);
    }
}

/// The projected depth of a position at the depth `z` between the planes
/// is `q * (1 - near / z)` with `q = far / (far - near)`, up to rounding: it
/// is less than that by fewer than `2 + 1 / z + 1 / (z * (far - near))`
/// steps of the grid, and more by fewer than `1 + 1 / z` steps, with `z`,
/// `near` and `far` taken as the numbers they stand for. The law states
/// this without a quotient, for the projected depth `v` and the three
/// numbers as they are counted on the grid. So the projected depth is zero
/// on the near plane and one on the far plane, each up to as many steps,
/// and grows in between up to as many.
pub proof fn lemma_projected_depth(fov: Fixed, ar: Fixed, near: Fixed, far: Fixed, p: Vec4d)
    requires
        planes_fit(near, far),
        near.raw <= p.z.raw <= far.raw,
        p.w == Fixed::one(),
    ensures
        ({
            let c = Mat4x4::make_projection(fov, ar, near, far).mul_vec4d(p);
            let v = divided(c).z.raw as int;
            let (n, f, z) = (near.raw as int, far.raw as int, p.z.raw as int);
            &&& c.w == p.z
            &&& -(2 * (z * (f - n)) + unit() * unit() + unit() * (f - n)) < (v * z) * (f - n) - (f
                * unit()) * (z - n) < unit() * (f - n) + z * (f - n)
        }),
{
    reveal(Fixed::add_spec);
    reveal(Fixed::sub_spec);
    reveal(Fixed::neg_spec);
    reveal(Fixed::mul_spec);
    reveal(Fixed::div_spec);
    let u = unit();
    let top = 0x4000_0000_0000_0000int;
    let (n, f, z) = (near.raw as int, far.raw as int, p.z.raw as int);
    let d = f - n;
    // far / (far - near)
    let q = far.div(far.sub(near));
    assert(f * u >= 0) by (nonlinear_arith)
        requires
            f > 0,
            u > 0,
    ;
    lemma_floor(f * u, d, top);
    let qi = (f * u) / d;
    assert(q.raw == qi);
    // -far * near
    let product = far.neg().mul(near);
    assert((-f) * n == -(f * n) && 0 < f * n <= 0x8000_0000_0000 * 0x8000_0000_0000)
        by (nonlinear_arith)
        requires
            0 < n < f <= 0x8000_0000_0000,
    ;
    assert((-top) * u == -(top * u));
    crate::arith::lemma_div_between(-(f * n), u, -top, 0);
    vstd::arithmetic::div_mod::lemma_fundamental_div_mod(-(f * n), u);
    vstd::arithmetic::div_mod::lemma_mod_bound(-(f * n), u);
    let pi = (-(f * n)) / u;
    assert(product.raw == pi);
    assert(pi < 0) by (nonlinear_arith)
        requires
            -(f * n) == u * pi + (-(f * n)) % u,
            0 <= (-(f * n)) % u,
            f * n > 0,
            u > 0,
    ;
    // that over far - near
    let t = product.div(far.sub(near));
    let back = (-pi) * u;
    assert(back == -(pi * u) && back == -(u * pi) && back > 0 && pi * u < 0) by (nonlinear_arith)
        requires
            back == (-pi) * u,
            pi < 0,
            u > 0,
    ;
    assert(f * n <= f * f) by (nonlinear_arith)
        requires
            0 < n < f,
    ;
    assert(back <= (top + u) * d) by (nonlinear_arith)
        requires
            back == -(u * pi),
            -(f * n) < u * pi + u,
            f * n <= f * f,
            f * f <= top * d,
            d >= 1,
            u > 0,
    ;
    lemma_floor(back, d, top + u);
    let ti = -(back / d);
    assert(t.raw == ti);
    assert(pi * u <= ti * d < pi * u + d) by (nonlinear_arith)
        requires
            (back / d) * d <= back < (back / d) * d + d,
            back == -(pi * u),
            ti == -(back / d),
    ;
    // the projected position
    let proj = Mat4x4::make_projection(fov, ar, near, far);
    let c = proj.mul_vec4d(p);
    crate::fixed::lemma_units(p.x);
    crate::fixed::lemma_units(p.y);
    crate::fixed::lemma_units(p.z);
    crate::fixed::lemma_units(p.z.mul(q));
    crate::fixed::lemma_units(t);
    crate::fixed::lemma_units(Fixed::zero());
    assert(c.z == p.z.mul(q).add(t));
    assert(c.w == p.z);
    // z * q
    assert(0 <= z * qi <= top * u) by (nonlinear_arith)
        requires
            0 < z <= f,
            0 <= qi,
            qi * d <= f * u,
            f * f <= top * d,
            d > 0,
            u > 0,
    ;
    lemma_floor(z * qi, u, top);
    let mi = (z * qi) / u;
    assert(p.z.mul(q).raw == mi);
    assert(u * mi == mi * u) by (nonlinear_arith);
    let k = mi + ti;
    assert(c.z.raw == k);
    // the divide
    let v = trunc_div(k * u, z);
    assert(divided(c).z.raw == saturated(v));
    if k >= 0 {
        assert(0 <= k * u <= qi * z) by (nonlinear_arith)
            requires
                0 <= k <= mi,
                mi * u <= z * qi,
                u > 0,
        ;
        lemma_floor(k * u, z, qi);
    } else {
        let size = (-k) * u;
        let most = (top + u) * u;
        assert(size == -(k * u) && 0 <= size <= most) by (nonlinear_arith)
            requires
                size == (-k) * u,
                most == (top + u) * u,
                -(top + u) <= k < 0,
                u > 0,
        ;
        assert(most <= most * z) by (nonlinear_arith)
            requires
                most >= 0,
                z >= 1,
        ;
        lemma_floor(size, z, most);
        assert((-(size / z)) * z == -((size / z) * z)) by (nonlinear_arith);
    }
    assert(k * u - z < v * z < k * u + z);
    assert((-(f * n)) < u * pi + u);
    lemma_chain(n, f, z, qi, pi, ti, mi, v);
    let w = divided(c).z.raw as int;
    if w != v {
        assert(v < w < 0);
        assert((v * z) * d < (w * z) * d < 0) by (nonlinear_arith)
            requires
                v < w < 0,
                z > 0,
                d > 0,
        ;
        assert((f * u) * (z - n) >= 0 && u * d + z * d > 0) by (nonlinear_arith)
            requires
                f > 0,
                u > 0,
                z >= n,
                d > 0,
                z > 0,
        ;
    }
}

} // verus!
