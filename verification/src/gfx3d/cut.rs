//! How close to a plane the point lies at which the plane cuts an edge.
//!
//! For a plane across an axis the cut is never beyond the plane. For a
//! plane in any direction the products with the normal are each rounded, so
//! the cut can lie on the outer side, but by less than six steps of the
//! grid, whatever the plane and the edge.

use vstd::prelude::*;
use crate::arith::lemma_div_between;
use crate::arith::lemma_mul_bound;
use crate::fixed::Fixed;
use crate::fixed::unit;
use crate::gfx3d::plane::Plane;
use crate::gfx3d::plane::lemma_cut_share;
use crate::gfx3d::triangle::Corner;
use crate::gfx3d::triangle::Triangle;
use crate::gfx3d::triangle::clipped;
use crate::gfx3d::triangle::corner_sound;
use crate::gfx3d::triangle::lemma_clipped;
use crate::gfx3d::vec4d::Vec4d;

verus! {

/// The largest coordinate, in steps of the grid, up to which sums of three
/// products and differences of two coordinates stay within the range of
/// numbers: `2^60`, which is `2^28` in value.
pub open spec fn reach() -> int {
    0x1000_0000_0000_0000
}

/// Whether no coordinate of the position is beyond [`reach`].
pub open spec fn moderate(p: Vec4d) -> bool {
    &&& -reach() <= p.x.raw <= reach()
    &&& -reach() <= p.y.raw <= reach()
    &&& -reach() <= p.z.raw <= reach()
}

/// The products of the components of two vectors, summed, with nothing
/// rounded: the square of the grid's unit times their dot product.
pub open spec fn products(n: Vec4d, p: Vec4d) -> int {
    n.x.raw * p.x.raw + n.y.raw * p.y.raw + n.z.raw * p.z.raw
}

/// A product with a factor from minus one to one is the product of the
/// numbers rounded down, and no larger in size than the other factor.
pub proof fn lemma_product(a: Fixed, b: Fixed, k: int)
    requires
        -unit() <= a.raw <= unit(),
        -k <= b.raw <= k,
        k <= 0x4000_0000_0000_0000,
    ensures
        a.mul(b) == b.mul(a),
        -k <= a.mul(b).raw <= k,
        unit() * a.mul(b).raw <= a.raw * b.raw < unit() * a.mul(b).raw + unit(),
{
    reveal(Fixed::mul_spec);
    crate::fixed::lemma_mul_commutes(a, b);
    let u = unit();
    let p = a.raw * b.raw;
    lemma_mul_bound(a.raw as int, b.raw as int, u, k);
    assert(u * k == k * u && -(u * k) == (-k) * u) by (nonlinear_arith);
    lemma_div_between(p, u, -k, k);
    vstd::arithmetic::div_mod::lemma_fundamental_div_mod(p, u);
    vstd::arithmetic::div_mod::lemma_mod_bound(p, u);
}

/// The dot product with a vector whose components are from minus one to
/// one is the sum of the products, rounded down by less than three steps
/// of the grid.
proof fn lemma_dot(n: Vec4d, p: Vec4d)
    requires
        -unit() <= n.x.raw <= unit(),
        -unit() <= n.y.raw <= unit(),
        -unit() <= n.z.raw <= unit(),
        moderate(p),
    ensures
        n.dot(&p) == p.dot(&n),
        -3 * reach() <= n.dot(&p).raw <= 3 * reach(),
        unit() * n.dot(&p).raw <= products(n, p) < unit() * n.dot(&p).raw + 3 * unit(),
{
    reveal(Fixed::add_spec);
    lemma_product(n.x, p.x, reach());
    lemma_product(n.y, p.y, reach());
    lemma_product(n.z, p.z, reach());
}

/// The part of the cut's product with the normal that the way along the
/// edge adds, for one coordinate: rounding the way takes less than the
/// size of the normal's component from it.
proof fn lemma_way(n: int, s: int, e: int, t: int, m: int)
    requires
        -unit() <= n <= unit(),
        0 <= t,
        unit() * m <= (e - s) * t < unit() * m + unit(),
    ensures
        unit() * (n * m) >= t * (n * e - n * s) - unit() * unit(),
{
    let u = unit();
    let w = (e - s) * t;
    assert(n * (u * m) == u * (n * m) && n * w == t * (n * e - n * s)) by (nonlinear_arith)
        requires
            w == (e - s) * t,
    ;
    if n >= 0 {
        assert(n * (u * m) >= n * w - n * u) by (nonlinear_arith)
            requires
                n >= 0,
                w < u * m + u,
        ;
        assert(n * u <= u * u) by (nonlinear_arith)
            requires
                n <= u,
                u > 0,
        ;
    } else {
        assert(n * (u * m) >= n * w) by (nonlinear_arith)
            requires
                n < 0,
                u * m <= w,
        ;
        assert(u * u >= 0) by (nonlinear_arith);
    }
}

/// The chain of bounds from the rounded products to the cut's distance.
proof fn lemma_chain(
    t: int,
    ad: int,
    bd: int,
    pd: int,
    starts: int,
    ends: int,
    ways: int,
    cd: int,
)
    requires
        0 <= t <= unit(),
        bd < ad,
        pd <= ad,
        t * (ad - bd) <= (ad - pd) * unit(),
        unit() * ad <= starts,
        unit() * bd <= ends,
        unit() * ways >= t * (ends - starts) - 3 * (unit() * unit()),
        unit() * cd > starts + ways - 3 * unit(),
    ensures
        cd - pd > -6,
{
    let u = unit();
    let uu = u * u;
    assert(u * (u * cd) > u * starts + u * ways - 3 * uu) by (nonlinear_arith)
        requires
            u * cd > starts + ways - 3 * u,
            u > 0,
            uu == u * u,
    ;
    assert(u * starts + t * (ends - starts) == (u - t) * starts + t * ends) by (nonlinear_arith);
    assert((u - t) * starts >= (u - t) * (u * ad)) by (nonlinear_arith)
        requires
            u - t >= 0,
            starts >= u * ad,
    ;
    assert(t * ends >= t * (u * bd)) by (nonlinear_arith)
        requires
            t >= 0,
            ends >= u * bd,
    ;
    assert((u - t) * (u * ad) + t * (u * bd) == uu * ad - u * (t * (ad - bd))) by (nonlinear_arith)
        requires
            uu == u * u,
    ;
    assert(u * (t * (ad - bd)) <= u * ((ad - pd) * u)) by (nonlinear_arith)
        requires
            t * (ad - bd) <= (ad - pd) * u,
            u > 0,
    ;
    assert(uu * ad - u * ((ad - pd) * u) == uu * pd) by (nonlinear_arith)
        requires
            uu == u * u,
    ;
    assert(u * (u * cd) == uu * cd) by (nonlinear_arith)
        requires
            uu == u * u,
    ;
    assert(uu * cd > uu * pd - 6 * uu);
    assert(cd - pd > -6) by (nonlinear_arith)
        requires
            uu * cd > uu * pd - 6 * uu,
            uu > 0,
    ;
}

/// A normal scaled to length one has no component beyond one.
proof fn lemma_normal(v: Vec4d)
    ensures
        -unit() <= v.norm().x.raw <= unit(),
        -unit() <= v.norm().y.raw <= unit(),
        -unit() <= v.norm().z.raw <= unit(),
{
    if v.x.raw != 0 || v.y.raw != 0 || v.z.raw != 0 {
        crate::length::lemma_direction_length(v.x, v.y, v.z);
    }
}

/// One coordinate of the cut: the start's, and the way to the end's times
/// the share, rounded down.
proof fn lemma_step(s: Fixed, e: Fixed, t: Fixed)
    requires
        -reach() <= s.raw <= reach(),
        -reach() <= e.raw <= reach(),
        0 <= t.raw <= unit(),
    ensures
        ({
            let c = s.add(e.sub(s).mul(t));
            let m = c.raw - s.raw;
            &&& -reach() <= c.raw <= reach()
            &&& unit() * m <= (e.raw - s.raw) * t.raw < unit() * m + unit()
        }),
{
    reveal(Fixed::add_spec);
    reveal(Fixed::sub_spec);
    let d = e.sub(s);
    lemma_product(t, d, 2 * reach());
    assert(t.raw * d.raw == (e.raw - s.raw) * t.raw) by (nonlinear_arith)
        requires
            d.raw == e.raw - s.raw,
    ;
    crate::fixed::lemma_mix_between(s, e, t, -reach(), reach());
}

/// The cut lies on the edge up to rounding: each of its coordinates is
/// the start's and the plane's share of the way to the end's, rounded down
/// by less than one step of the grid, and the share is from zero to one.
/// So what clipping leaves of a triangle has its corners on the triangle's
/// corners and edges, up to one step of the grid along each axis. The ends
/// of the edge are to be within [`reach`].
pub proof fn lemma_cut_on_edge(plane: Plane, start: Vec4d, end: Vec4d)
    requires
        moderate(start),
        moderate(end),
        plane.distance(&start).raw >= 0,
        plane.distance(&end).raw < 0,
    ensures
        ({
            let (cut, t) = plane.line_intersect_plane(start, end);
            &&& 0 <= t.raw <= unit()
            &&& unit() * (cut.x.raw - start.x.raw) <= (end.x.raw - start.x.raw) * t.raw < unit() * (
            cut.x.raw - start.x.raw) + unit()
            &&& unit() * (cut.y.raw - start.y.raw) <= (end.y.raw - start.y.raw) * t.raw < unit() * (
            cut.y.raw - start.y.raw) + unit()
            &&& unit() * (cut.z.raw - start.z.raw) <= (end.z.raw - start.z.raw) * t.raw < unit() * (
            cut.z.raw - start.z.raw) + unit()
        }),
{
    lemma_cut_share(plane, start, end);
    let t = plane.line_intersect_plane(start, end).1;
    lemma_step(start.x, end.x, t);
    lemma_step(start.y, end.y, t);
    lemma_step(start.z, end.z, t);
}

/// The cut lies on the plane up to rounding: where a plane in any
/// direction cuts an edge from its inner side to its outer side, the cut is
/// on the outer side by less than six steps of the grid, if at all. The
/// ends of the edge and the plane's position are to be within [`reach`].
pub proof fn lemma_cut_distance(plane: Plane, start: Vec4d, end: Vec4d)
    requires
        moderate(start),
        moderate(end),
        moderate(plane.position),
        plane.distance(&start).raw >= 0,
        plane.distance(&end).raw < 0,
    ensures
        moderate(plane.line_intersect_plane(start, end).0),
        plane.distance(&plane.line_intersect_plane(start, end).0).raw > -6,
{
    reveal(Fixed::add_spec);
    reveal(Fixed::sub_spec);
    reveal(Fixed::neg_spec);
    let u = unit();
    let n = plane.normal.norm();
    lemma_normal(plane.normal);
    lemma_dot(n, start);
    lemma_dot(n, end);
    lemma_dot(n, plane.position);
    let ad = n.dot(&start).raw as int;
    let bd = n.dot(&end).raw as int;
    let pd = n.dot(&plane.position).raw as int;
    assert(plane.distance(&start).raw == ad - pd);
    assert(plane.distance(&end).raw == bd - pd);
    let top = n.dot(&plane.position).neg().neg().sub(start.dot(&n));
    let bottom = end.dot(&n).sub(start.dot(&n));
    assert(top.raw == pd - ad);
    assert(bottom.raw == bd - ad);
    let t = top.div(bottom);
    crate::fixed::lemma_share(top, bottom);
    let cut = plane.line_intersect_plane(start, end).0;
    assert(plane.line_intersect_plane(start, end).1 == t);
    lemma_step(start.x, end.x, t);
    lemma_step(start.y, end.y, t);
    lemma_step(start.z, end.z, t);
    let mx = cut.x.raw - start.x.raw;
    let my = cut.y.raw - start.y.raw;
    let mz = cut.z.raw - start.z.raw;
    lemma_way(n.x.raw as int, start.x.raw as int, end.x.raw as int, t.raw as int, mx);
    lemma_way(n.y.raw as int, start.y.raw as int, end.y.raw as int, t.raw as int, my);
    lemma_way(n.z.raw as int, start.z.raw as int, end.z.raw as int, t.raw as int, mz);
    lemma_dot(n, cut);
    let cd = n.dot(&cut).raw as int;
    assert(plane.distance(&cut).raw == cd - pd);
    let ways = n.x.raw * mx + n.y.raw * my + n.z.raw * mz;
    lemma_sums(
        n.x.raw as int,
        n.y.raw as int,
        n.z.raw as int,
        start.x.raw as int,
        start.y.raw as int,
        start.z.raw as int,
        mx,
        my,
        mz,
    );
    assert(products(n, cut) == products(n, start) + ways);
    lemma_spread(u, n.x.raw * mx, n.y.raw * my, n.z.raw * mz);
    lemma_spread(
        t.raw as int,
        n.x.raw * end.x.raw - n.x.raw * start.x.raw,
        n.y.raw * end.y.raw - n.y.raw * start.y.raw,
        n.z.raw * end.z.raw - n.z.raw * start.z.raw,
    );
    assert(t.raw * (ad - bd) == t.raw * (-bottom.raw) && (ad - pd) * u == (-top.raw) * u);
    lemma_chain(t.raw as int, ad, bd, pd, products(n, start), products(n, end), ways, cd);
}

/// A sum of three products with sums.
proof fn lemma_sums(a: int, b: int, c: int, p: int, q: int, r: int, x: int, y: int, z: int)
    ensures
        a * (p + x) + b * (q + y) + c * (r + z) == (a * p + b * q + c * r) + (a * x + b * y + c * z),
{
    assert(a * (p + x) == a * p + a * x) by (nonlinear_arith);
    assert(b * (q + y) == b * q + b * y) by (nonlinear_arith);
    assert(c * (r + z) == c * r + c * z) by (nonlinear_arith);
}

/// A factor spread over a sum of three.
proof fn lemma_spread(k: int, a: int, b: int, c: int)
    ensures
        k * (a + b + c) == k * a + k * b + k * c,
{
    assert(k * (a + b + c) == k * a + k * b + k * c) by (nonlinear_arith);
}

/// Nothing that clipping leaves lies on the outer side of the plane by
/// six steps of the grid or more, whatever the direction of the plane:
/// every corner of every piece has a distance from the plane of more than
/// minus six steps. The triangle's corners and the plane's position are to
/// be within [`reach`].
pub proof fn lemma_clip_distance(t: Triangle, plane: Plane, k: int)
    requires
        moderate(t.p[0]),
        moderate(t.p[1]),
        moderate(t.p[2]),
        moderate(plane.position),
        0 <= k < t.clip_against_plane_spec(&plane).len(),
    ensures
        plane.distance(&t.clip_against_plane_spec(&plane)[k].p[0]).raw > -6,
        plane.distance(&t.clip_against_plane_spec(&plane)[k].p[1]).raw > -6,
        plane.distance(&t.clip_against_plane_spec(&plane)[k].p[2]).raw > -6,
        moderate(t.clip_against_plane_spec(&plane)[k].p[0]),
        moderate(t.clip_against_plane_spec(&plane)[k].p[1]),
        moderate(t.clip_against_plane_spec(&plane)[k].p[2]),
{
    let dist = t.distances(plane);
    lemma_clipped(dist);
    let piece = clipped(dist)[k];
    assert(corner_sound(dist, piece.a) && corner_sound(dist, piece.b) && corner_sound(dist, piece.c));
    lemma_corner_distance(t, plane, piece.a);
    lemma_corner_distance(t, plane, piece.b);
    lemma_corner_distance(t, plane, piece.c);
}

/// [`lemma_clip_distance`] for one corner.
proof fn lemma_corner_distance(t: Triangle, plane: Plane, c: Corner)
    requires
        moderate(t.p[0]),
        moderate(t.p[1]),
        moderate(t.p[2]),
        moderate(plane.position),
        corner_sound(t.distances(plane), c),
    ensures
        plane.distance(&t.corner_position(plane, c)).raw > -6,
        moderate(t.corner_position(plane, c)),
{
    match c {
        Corner::Kept(i) => {},
        Corner::Cut { from, to } => {
            lemma_cut_distance(plane, t.p[from as int], t.p[to as int]);
        },
    }
}

} // verus!
