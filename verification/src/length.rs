//! Euclidean length and direction of a vector of up to three components.
//!
//! Both are taken of the components as they stand, with no rounding before
//! the root: the length is the root of the sum of the squares, rounded down
//! to the grid of `2^-32`. For the direction a short vector is first doubled
//! until its largest component is at least `2^29`, so that a vector of any
//! length, however short, has a direction of length one up to four steps of
//! the grid.

use vstd::prelude::*;
use crate::arith::trunc_div;
use crate::fixed::Fixed;
use crate::fixed::integer_root;
use crate::fixed::is_root;
use crate::fixed::lemma_root;
use crate::fixed::lemma_root_exists;
use crate::fixed::root;
use crate::fixed::saturated;
use crate::fixed::unit;

verus! {

/// The sum of the squares of three numbers.
pub open spec fn sum_squares(x: int, y: int, z: int) -> int {
    x * x + y * y + z * z
}

/// The largest of the three numbers without their signs.
pub open spec fn largest(x: int, y: int, z: int) -> int {
    vstd::math::max(
        vstd::math::max(vstd::math::abs(x) as int, vstd::math::abs(y) as int),
        vstd::math::abs(z) as int,
    )
}

/// The power of two by which a vector whose largest component is `m` is
/// enlarged before its direction is taken: the least that brings `m` to
/// `2^61` raw, and one for a vector that is that large, or zero.
pub open spec fn lift(m: int) -> int
    decreases
        (if 0 < m < 0x2000_0000_0000_0000 {
            0x2000_0000_0000_0000 - m
        } else {
            0
        }),
{
    if 0 < m < 0x2000_0000_0000_0000 {
        2 * lift(2 * m)
    } else {
        1
    }
}

/// The length of the vector `(x, y, z)`: the root of the sum of the squares
/// of the components, rounded down to the grid, saturated.
pub open spec fn length_of(x: Fixed, y: Fixed, z: Fixed) -> Fixed {
    Fixed { raw: saturated(root(sum_squares(x.raw as int, y.raw as int, z.raw as int))) }
}

/// One component of a direction: the enlarged component `a` over the length
/// `l` of the enlarged vector, rounded toward zero.
pub open spec fn component_of(a: int, l: int) -> Fixed {
    Fixed { raw: trunc_div(a * unit(), l) as i64 }
}

/// The direction of the vector `(x, y, z)`: each component over the
/// vector's length. The vector without length has none, and gives itself.
pub open spec fn direction_of(x: Fixed, y: Fixed, z: Fixed) -> (Fixed, Fixed, Fixed) {
    let f = lift(largest(x.raw as int, y.raw as int, z.raw as int));
    let l = root(sum_squares(x.raw * f, y.raw * f, z.raw * f));
    if x.raw == 0 && y.raw == 0 && z.raw == 0 {
        (Fixed::zero(), Fixed::zero(), Fixed::zero())
    } else {
        (component_of(x.raw * f, l), component_of(y.raw * f, l), component_of(z.raw * f, l))
    }
}

/// Enlarging brings the largest component of a vector that has a length to
/// at least `2^61` raw, and takes none beyond `2^63`.
pub proof fn lemma_lift(m: int)
    requires
        0 < m <= 0x8000_0000_0000_0000,
    ensures
        lift(m) >= 1,
        0x2000_0000_0000_0000 <= m * lift(m) <= 0x8000_0000_0000_0000,
    decreases 0x8000_0000_0000_0000 - m,
{
    if m < 0x2000_0000_0000_0000 {
        lemma_lift(2 * m);
        assert(m * (2 * lift(2 * m)) == (2 * m) * lift(2 * m)) by (nonlinear_arith);
    } else {
        assert(m * 1 == m);
    }
}

/// A square does not fall as the number, which is not negative, grows.
proof fn lemma_square_order(a: int, b: int)
    requires
        0 <= a <= b,
    ensures
        a * a <= b * b,
        a < b ==> a * a < b * b,
{
    assert(a * a <= b * b) by (nonlinear_arith)
        requires
            0 <= a <= b,
    ;
    assert(a < b ==> a * a < b * b) by (nonlinear_arith)
        requires
            0 <= a <= b,
    ;
}

/// The square of a number is the square of the number without its sign.
proof fn lemma_square_abs(a: int)
    ensures
        a * a == vstd::math::abs(a) * vstd::math::abs(a),
        a * a >= 0,
{
    assert(a * a == (-a) * (-a)) by (nonlinear_arith);
    assert(a * a >= 0) by (nonlinear_arith);
}

/// No component is longer than the vector: with `l` the root of a sum of
/// squares, a number whose square is one of them is at most `l`.
proof fn lemma_component_bound(a: int, rest: int, l: int)
    requires
        a >= 0,
        rest >= 0,
        is_root(a * a + rest, l),
    ensures
        a <= l,
{
    if a > l {
        lemma_square_order(l + 1, a);
    }
}

/// The heart of the matter: a vector whose length `l` is at least `2^61`
/// raw, divided component by component by `l` with rounding down, has a sum
/// of squares from `(unit - 4)^2` to below `(unit + 1)^2`.
proof fn lemma_unit_squares(a: int, b: int, c: int, l: int, p: int, q: int, r: int)
    requires
        a >= 0,
        b >= 0,
        c >= 0,
        l >= 0x2000_0000_0000_0000,
        is_root(a * a + b * b + c * c, l),
        p == (a * unit()) / l,
        q == (b * unit()) / l,
        r == (c * unit()) / l,
    ensures
        0 <= p <= unit(),
        0 <= q <= unit(),
        0 <= r <= unit(),
        (unit() - 4) * (unit() - 4) <= p * p + q * q + r * r < (unit() + 1) * (unit() + 1),
{
    let u = unit();
    let s = a * a + b * b + c * c;
    lemma_square_abs(a);
    lemma_square_abs(b);
    lemma_square_abs(c);
    lemma_component_bound(a, b * b + c * c, l);
    lemma_component_bound(b, a * a + c * c, l);
    lemma_component_bound(c, a * a + b * b, l);
    lemma_quotient(a, l, p);
    lemma_quotient(b, l, q);
    lemma_quotient(c, l, r);
    // each p * l is at most a * u, and (p + 1) * l is more
    let t = p * p + q * q + r * r;
    let w = (p + 1) * (p + 1) + (q + 1) * (q + 1) + (r + 1) * (r + 1);
    // above: t * l^2 <= s * u^2 < (l + 1)^2 * u^2 <= (u + 1)^2 * l^2
    lemma_square_product(p, l);
    lemma_square_product(q, l);
    lemma_square_product(r, l);
    lemma_distribute3(p * p, q * q, r * r, l * l);
    lemma_square_product(a, u);
    lemma_square_product(b, u);
    lemma_square_product(c, u);
    lemma_distribute3(a * a, b * b, c * c, u * u);
    assert(t * (l * l) <= s * (u * u));
    lemma_square_product(p + 1, l);
    lemma_square_product(q + 1, l);
    lemma_square_product(r + 1, l);
    lemma_distribute3((p + 1) * (p + 1), (q + 1) * (q + 1), (r + 1) * (r + 1), l * l);
    assert(w * (l * l) > s * (u * u));
    assert(l * l > 0) by (nonlinear_arith)
        requires
            l > 0,
    ;
    assert(u * u == 0x1_0000_0000_0000_0000) by (nonlinear_arith)
        requires
            u == 0x1_0000_0000,
    ;
    // below
    assert(s * (u * u) >= (l * l) * (u * u)) by (nonlinear_arith)
        requires
            s >= l * l,
            u * u >= 0,
    ;
    assert(w > u * u) by (nonlinear_arith)
        requires
            w * (l * l) > (l * l) * (u * u),
            l * l > 0,
    ;
    assert(w == t + 2 * (p + q + r) + 3) by (nonlinear_arith)
        requires
            w == (p + 1) * (p + 1) + (q + 1) * (q + 1) + (r + 1) * (r + 1),
            t == p * p + q * q + r * r,
    ;
    assert((u - 4) * (u - 4) == u * u - 8 * u + 16) by (nonlinear_arith);
    // above
    assert((u + 1) * (u + 1) == u * u + 2 * u + 1) by (nonlinear_arith);
    if t >= (u + 1) * (u + 1) {
        assert((u + 1) * l >= u * (l + 1)) by (nonlinear_arith)
            requires
                l >= u,
                u >= 0,
        ;
        assert(u * (l + 1) >= 0) by (nonlinear_arith)
            requires
                l >= 0,
                u >= 0,
        ;
        lemma_square_order(u * (l + 1), (u + 1) * l);
        lemma_square_product(u + 1, l);
        lemma_square_product(l + 1, u);
        assert(u * (l + 1) == (l + 1) * u) by (nonlinear_arith);
        let u1 = (u + 1) * (u + 1);
        let l1 = (l + 1) * (l + 1);
        assert(t * (l * l) >= u1 * (l * l)) by (nonlinear_arith)
            requires
                t >= u1,
                l * l >= 0,
        ;
        assert(s * (u * u) < l1 * (u * u)) by (nonlinear_arith)
            requires
                s < l1,
                u * u > 0,
        ;
        assert(false);
    }
}

/// The square of a product is the product of the squares.
proof fn lemma_square_product(p: int, l: int)
    ensures
        (p * l) * (p * l) == (p * p) * (l * l),
{
    assert((p * l) * (p * l) == (p * p) * (l * l)) by (nonlinear_arith);
}

/// A sum of three times a number.
proof fn lemma_distribute3(x: int, y: int, z: int, k: int)
    ensures
        (x + y + z) * k == x * k + y * k + z * k,
{
    assert((x + y + z) * k == x * k + y * k + z * k) by (nonlinear_arith);
}

/// What rounding a quotient down says in products: with `a` at most `l`,
/// `p = a * unit / l` is at most `unit`, and the squares of `p * l` and `(p
/// + 1) * l` lie on either side of the square of `a * unit`.
proof fn lemma_quotient(a: int, l: int, p: int)
    requires
        0 <= a <= l,
        l > 0,
        p == (a * unit()) / l,
    ensures
        0 <= p <= unit(),
        (p * l) * (p * l) <= (a * unit()) * (a * unit()),
        ((p + 1) * l) * ((p + 1) * l) > (a * unit()) * (a * unit()),
{
    let u = unit();
    assert(0 <= a * u <= l * u) by (nonlinear_arith)
        requires
            0 <= a <= l,
            u == 0x1_0000_0000,
    ;
    vstd::arithmetic::div_mod::lemma_fundamental_div_mod(a * u, l);
    vstd::arithmetic::div_mod::lemma_mod_bound(a * u, l);
    let m = (a * u) % l;
    assert(0 <= p <= u && 0 <= p * l <= a * u < (p + 1) * l) by (nonlinear_arith)
        requires
            l > 0,
            0 <= a * u <= l * u,
            a * u == l * p + m,
            0 <= m < l,
    ;
    lemma_square_order(p * l, a * u);
    lemma_square_order(a * u, (p + 1) * l);
}

/// The direction of a vector that has a length has length one, up to four
/// steps of the grid: its own length is from `unit - 4` to `unit` raw. Each
/// of its components has the sign of the vector's component, or is zero,
/// and none is beyond one.
pub proof fn lemma_direction_length(x: Fixed, y: Fixed, z: Fixed)
    requires
        x.raw != 0 || y.raw != 0 || z.raw != 0,
    ensures
        ({
            let d = direction_of(x, y, z);
            &&& unit() - 4 <= length_of(d.0, d.1, d.2).raw <= unit()
            &&& -unit() <= d.0.raw <= unit()
            &&& -unit() <= d.1.raw <= unit()
            &&& -unit() <= d.2.raw <= unit()
            &&& (x.raw >= 0 ==> d.0.raw >= 0) && (x.raw <= 0 ==> d.0.raw <= 0)
            &&& (y.raw >= 0 ==> d.1.raw >= 0) && (y.raw <= 0 ==> d.1.raw <= 0)
            &&& (z.raw >= 0 ==> d.2.raw >= 0) && (z.raw <= 0 ==> d.2.raw <= 0)
        }),
{
    let u = unit();
    let m = largest(x.raw as int, y.raw as int, z.raw as int);
    let f = lift(m);
    lemma_lift(m);
    let (a, b, c) = (x.raw * f, y.raw * f, z.raw * f);
    let (aa, ab, ac) = (
        vstd::math::abs(a) as int,
        vstd::math::abs(b) as int,
        vstd::math::abs(c) as int,
    );
    lemma_scaled_abs(x.raw as int, f);
    lemma_scaled_abs(y.raw as int, f);
    lemma_scaled_abs(z.raw as int, f);
    lemma_square_abs(a);
    lemma_square_abs(b);
    lemma_square_abs(c);
    let s = sum_squares(a, b, c);
    lemma_root_exists(s);
    let l = root(s);
    // the largest component is at least 2^61 and no longer than the vector
    assert(aa == m * f || ab == m * f || ac == m * f);
    if aa == m * f {
        lemma_component_bound(aa, ab * ab + ac * ac, l);
    } else if ab == m * f {
        lemma_component_bound(ab, aa * aa + ac * ac, l);
    } else {
        lemma_component_bound(ac, aa * aa + ab * ab, l);
    }
    let (p, q, r) = ((aa * u) / l, (ab * u) / l, (ac * u) / l);
    lemma_unit_squares(aa, ab, ac, l, p, q, r);
    let d = direction_of(x, y, z);
    lemma_component(a, l, p);
    lemma_component(b, l, q);
    lemma_component(c, l, r);
    assert(d.0 == component_of(a, l));
    assert(d.1 == component_of(b, l));
    assert(d.2 == component_of(c, l));
    lemma_square_abs(d.0.raw as int);
    lemma_square_abs(d.1.raw as int);
    lemma_square_abs(d.2.raw as int);
    let t = sum_squares(d.0.raw as int, d.1.raw as int, d.2.raw as int);
    assert(t == p * p + q * q + r * r);
    lemma_root_exists(t);
    let g = root(t);
    if g < u - 4 {
        lemma_square_order(g + 1, u - 4);
    }
    if g > u {
        lemma_square_order(u + 1, g);
    }
}

/// The size of an enlarged component is the component's size enlarged.
proof fn lemma_scaled_abs(x: int, f: int)
    requires
        f >= 1,
    ensures
        vstd::math::abs(x * f) == vstd::math::abs(x) * f,
        (x >= 0 ==> x * f >= 0) && (x <= 0 ==> x * f <= 0),
        x != 0 ==> x * f != 0,
{
    assert((-x) * f == -(x * f)) by (nonlinear_arith);
    assert(x >= 0 ==> x * f >= 0) by (nonlinear_arith)
        requires
            f >= 1,
    ;
    assert(x <= 0 ==> x * f <= 0) by (nonlinear_arith)
        requires
            f >= 1,
    ;
    assert(x != 0 ==> x * f != 0) by (nonlinear_arith)
        requires
            f >= 1,
    ;
}

/// A component of a direction is the quotient of the sizes with the sign of
/// the component.
proof fn lemma_component(a: int, l: int, p: int)
    requires
        l > 0,
        p == (vstd::math::abs(a) * unit()) / l,
        0 <= p <= unit(),
    ensures
        component_of(a, l).raw == (if a >= 0 {
            p
        } else {
            -p
        }),
{
    assert((-a) * unit() == -(a * unit())) by (nonlinear_arith);
    assert(a >= 0 ==> a * unit() >= 0) by (nonlinear_arith);
    assert(a < 0 ==> a * unit() < 0) by (nonlinear_arith);
}

/// The direction of a vector along an axis is the axis, toward the side
/// that the vector points to.
pub proof fn lemma_axis_direction(c: Fixed)
    requires
        c.raw != 0,
    ensures
        ({
            let s = Fixed {
                raw: if c.raw > 0 {
                    0x1_0000_0000i64
                } else {
                    -0x1_0000_0000i64
                },
            };
            &&& direction_of(c, Fixed::zero(), Fixed::zero()) == (s, Fixed::zero(), Fixed::zero())
            &&& direction_of(Fixed::zero(), c, Fixed::zero()) == (Fixed::zero(), s, Fixed::zero())
            &&& direction_of(Fixed::zero(), Fixed::zero(), c) == (Fixed::zero(), Fixed::zero(), s)
        }),
{
    let u = unit();
    let m = vstd::math::abs(c.raw as int) as int;
    let f = lift(m);
    lemma_lift(m);
    let a = m * f;
    lemma_scaled_abs(c.raw as int, f);
    lemma_square_abs(c.raw * f);
    assert(0 * f == 0) by (nonlinear_arith);
    assert(0 * 0 == 0);
    assert((a + 1) * (a + 1) > a * a) by (nonlinear_arith)
        requires
            a >= 0,
    ;
    lemma_root(a * a, a);
    assert(0 * u == 0);
    vstd::arithmetic::div_mod::lemma_fundamental_div_mod_converse(a * u, a, u, 0);
    assert(a * u > 0) by (nonlinear_arith)
        requires
            a > 0,
            u == 0x1_0000_0000,
    ;
    assert(0int / a == 0) by {
        vstd::arithmetic::div_mod::lemma_fundamental_div_mod_converse(0, a, 0, 0);
    }
    lemma_component(c.raw * f, a, u);
    assert(component_of(0, a) == Fixed::zero());
}

/// What enlarging gives: the enlarged vector has a length `l` of at least
/// `2^61` raw, and no component of it is longer than `l`, or than `2^63`.
pub proof fn lemma_enlarged(x: int, y: int, z: int)
    requires
        x != 0 || y != 0 || z != 0,
        -0x8000_0000_0000_0000 <= x <= 0x8000_0000_0000_0000,
        -0x8000_0000_0000_0000 <= y <= 0x8000_0000_0000_0000,
        -0x8000_0000_0000_0000 <= z <= 0x8000_0000_0000_0000,
    ensures
        ({
            let f = lift(largest(x, y, z));
            let l = root(sum_squares(x * f, y * f, z * f));
            &&& f >= 1
            &&& l >= 0x2000_0000_0000_0000
            &&& is_root(sum_squares(x * f, y * f, z * f), l)
            &&& -l <= x * f <= l
            &&& -l <= y * f <= l
            &&& -l <= z * f <= l
            &&& -0x8000_0000_0000_0000 <= x * f <= 0x8000_0000_0000_0000
            &&& -0x8000_0000_0000_0000 <= y * f <= 0x8000_0000_0000_0000
            &&& -0x8000_0000_0000_0000 <= z * f <= 0x8000_0000_0000_0000
            &&& -unit() <= component_of(x * f, l).raw <= unit()
            &&& -unit() <= component_of(y * f, l).raw <= unit()
            &&& -unit() <= component_of(z * f, l).raw <= unit()
        }),
{
    let u = unit();
    let m = largest(x, y, z);
    let f = lift(m);
    lemma_lift(m);
    let (a, b, c) = (x * f, y * f, z * f);
    let (aa, ab, ac) = (
        vstd::math::abs(a) as int,
        vstd::math::abs(b) as int,
        vstd::math::abs(c) as int,
    );
    lemma_scaled_abs(x, f);
    lemma_scaled_abs(y, f);
    lemma_scaled_abs(z, f);
    lemma_square_abs(a);
    lemma_square_abs(b);
    lemma_square_abs(c);
    assert(vstd::math::abs(x) * f <= m * f && vstd::math::abs(y) * f <= m * f && vstd::math::abs(z)
        * f <= m * f) by (nonlinear_arith)
        requires
            vstd::math::abs(x) <= m,
            vstd::math::abs(y) <= m,
            vstd::math::abs(z) <= m,
            f >= 1,
    ;
    let s = sum_squares(a, b, c);
    lemma_root_exists(s);
    let l = root(s);
    lemma_component_bound(aa, ab * ab + ac * ac, l);
    lemma_component_bound(ab, aa * aa + ac * ac, l);
    lemma_component_bound(ac, aa * aa + ab * ab, l);
    let (p, q, r) = ((aa * u) / l, (ab * u) / l, (ac * u) / l);
    lemma_quotient(aa, l, p);
    lemma_quotient(ab, l, q);
    lemma_quotient(ac, l, r);
    lemma_component(a, l, p);
    lemma_component(b, l, q);
    lemma_component(c, l, r);
}

/// The size of a number.
fn size(a: i128) -> (s: u128)
    requires
        -0x8000_0000_0000_0000 <= a <= 0x8000_0000_0000_0000,
    ensures
        s == vstd::math::abs(a as int),
{
    if a < 0 {
        (-a) as u128
    } else {
        a as u128
    }
}

/// Computes [`sum_squares`].
fn squares(a: i128, b: i128, c: i128) -> (s: u128)
    requires
        -0x8000_0000_0000_0000 <= a <= 0x8000_0000_0000_0000,
        -0x8000_0000_0000_0000 <= b <= 0x8000_0000_0000_0000,
        -0x8000_0000_0000_0000 <= c <= 0x8000_0000_0000_0000,
    ensures
        s == sum_squares(a as int, b as int, c as int),
{
    let (ua, ub, uc) = (size(a), size(b), size(c));
    proof {
        lemma_square_abs(a as int);
        lemma_square_abs(b as int);
        lemma_square_abs(c as int);
        crate::arith::lemma_mul_bound(ua as int, ua as int, 0x8000_0000_0000_0000, 0x8000_0000_0000_0000);
        crate::arith::lemma_mul_bound(ub as int, ub as int, 0x8000_0000_0000_0000, 0x8000_0000_0000_0000);
        crate::arith::lemma_mul_bound(uc as int, uc as int, 0x8000_0000_0000_0000, 0x8000_0000_0000_0000);
        assert(0x8000_0000_0000_0000int * 0x8000_0000_0000_0000int
            == 0x4000_0000_0000_0000_0000_0000_0000_0000int) by (nonlinear_arith);
    }
    ua * ua + ub * ub + uc * uc
}

/// The length of the vector `(x, y, z)`.
pub fn length(x: Fixed, y: Fixed, z: Fixed) -> (l: Fixed)
    ensures
        l == length_of(x, y, z),
{
    let s = squares(x.raw as i128, y.raw as i128, z.raw as i128);
    let r = integer_root(s);
    Fixed {
        raw: if r > 0x7fff_ffff_ffff_ffff {
            i64::MAX
        } else {
            r as i64
        },
    }
}

/// The direction of the vector `(x, y, z)`.
pub fn direction(x: Fixed, y: Fixed, z: Fixed) -> (d: (Fixed, Fixed, Fixed))
    ensures
        d == direction_of(x, y, z),
{
    if x.raw == 0 && y.raw == 0 && z.raw == 0 {
        return (Fixed::zero(), Fixed::zero(), Fixed::zero());
    }
    let (sx, sy, sz) = (size(x.raw as i128), size(y.raw as i128), size(z.raw as i128));
    let sxy = if sx > sy {
        sx
    } else {
        sy
    };
    let m: u128 = if sxy > sz {
        sxy
    } else {
        sz
    };
    let mut f: i128 = 1;
    let mut enlarged: u128 = m;
    proof {
        assert(1 * lift(m as int) == lift(m as int));
    }
    while enlarged < 0x2000_0000_0000_0000
        invariant
            0 < m <= 0x8000_0000_0000_0000,
            1 <= f <= enlarged <= 0x8000_0000_0000_0000,
            enlarged == m * f,
            f * lift(enlarged as int) == lift(m as int),
        decreases 0x8000_0000_0000_0000 - enlarged,
    {
        proof {
            assert(f * (2 * lift(2 * enlarged)) == (2 * f) * lift(2 * enlarged)) by (nonlinear_arith);
            assert(m * (2 * f) == 2 * (m * f)) by (nonlinear_arith);
        }
        enlarged = enlarged * 2;
        f = f * 2;
    }
    proof {
        assert(f * 1 == f);
        lemma_enlarged(x.raw as int, y.raw as int, z.raw as int);
    }
    let a: i128 = (x.raw as i128) * f;
    let b: i128 = (y.raw as i128) * f;
    let c: i128 = (z.raw as i128) * f;
    let l: i128 = integer_root(squares(a, b, c)) as i128;
    proof {
        crate::arith::lemma_mul_bound(a as int, unit(), 0x8000_0000_0000_0000, 0x1_0000_0000);
        crate::arith::lemma_mul_bound(b as int, unit(), 0x8000_0000_0000_0000, 0x1_0000_0000);
        crate::arith::lemma_mul_bound(c as int, unit(), 0x8000_0000_0000_0000, 0x1_0000_0000);
    }
    (
        Fixed { raw: ((a * 0x1_0000_0000) / l) as i64 },
        Fixed { raw: ((b * 0x1_0000_0000) / l) as i64 },
        Fixed { raw: ((c * 0x1_0000_0000) / l) as i64 },
    )
}

} // verus!
