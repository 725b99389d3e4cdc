//! Planes, and where a line meets one.

use vstd::prelude::*;
use crate::fixed::Fixed;
use crate::gfx3d::vec4d::Vec4d;

verus! {

/// A plane through `position`, at right angles to `normal`, which need not
/// have length one. The side that `normal` points to is the inner side.
#[derive(Debug, Clone, Copy, PartialEq, Eq, Structural)]
pub struct Plane {
    pub position: Vec4d,
    pub normal: Vec4d,
}

impl Plane {
    /// The signed distance of `p` from the plane, positive on the inner
    /// side: the normal, scaled to length one, times the way from the
    /// plane's position to `p`.
    pub open spec fn distance_spec(&self, p: &Vec4d) -> Fixed {
        let n = self.normal.norm();
        n.dot(p).sub(n.dot(&self.position))
    }

    /// How far along the way from `start` to `end` the plane lies, as a
    /// share of the way: the distance of `start` over the difference of the
    /// two distances.
    pub open spec fn share_spec(&self, start: Vec4d, end: Vec4d) -> Fixed {
        let n = self.normal.norm();
        let d = n.dot(&self.position).neg();
        let ad = start.dot(&n);
        let bd = end.dot(&n);
        d.neg().sub(ad).div(bd.sub(ad))
    }

    /// The point where the line from `start` to `end` meets the plane, and
    /// its share of the way.
    pub open spec fn line_intersect_plane_spec(&self, start: Vec4d, end: Vec4d) -> (Vec4d, Fixed) {
        let t = self.share_spec(start, end);
        (start.add(end.sub(start).mul(t)), t)
    }

    /// The signed distance of `p` from the plane.
    #[verifier::when_used_as_spec(distance_spec)]
    pub fn distance(&self, p: &Vec4d) -> (d: Fixed)
        ensures
            d == self.distance_spec(p),
    {
        let n = self.normal.norm();
        n.dot(p).sub(n.dot(&self.position))
    }

    /// The point where the line from `start` to `end` meets the plane, and
    /// the share of the way at which it does. Attributes of the two ends
    /// are to be mixed by the same share.
    #[verifier::when_used_as_spec(line_intersect_plane_spec)]
    pub fn line_intersect_plane(&self, start: Vec4d, end: Vec4d) -> (r: (Vec4d, Fixed))
        ensures
            r == self.line_intersect_plane_spec(start, end),
    {
        let n = self.normal.norm();
        let d = n.dot(&self.position).neg();
        let ad = start.dot(&n);
        let bd = end.dot(&n);
        let t = d.neg().sub(ad).div(bd.sub(ad));
        let start_to_end = end.sub(start);
        let to_intersect = start_to_end.mul(t);
        (start.add(to_intersect), t)
    }
}

/// The plane cuts an edge that crosses it between the edge's ends: if
/// `start` is inside or on the plane and `end` outside, the share of the way
/// at which the line from `start` to `end` meets the plane lies from zero to
/// one.
pub proof fn lemma_cut_share(plane: Plane, start: Vec4d, end: Vec4d)
    requires
        plane.distance(&start).raw >= 0,
        plane.distance(&end).raw < 0,
    ensures
        0 <= plane.line_intersect_plane(start, end).1.raw <= crate::fixed::unit(),
{
    reveal(Fixed::sub_spec);
    reveal(Fixed::neg_spec);
    let n = plane.normal.norm();
    crate::fixed::lemma_mul_commutes(start.x, n.x);
    crate::fixed::lemma_mul_commutes(start.y, n.y);
    crate::fixed::lemma_mul_commutes(start.z, n.z);
    crate::fixed::lemma_mul_commutes(end.x, n.x);
    crate::fixed::lemma_mul_commutes(end.y, n.y);
    crate::fixed::lemma_mul_commutes(end.z, n.z);
    let pd = n.dot(&plane.position);
    let ad = start.dot(&n);
    let bd = end.dot(&n);
    assert(ad == n.dot(&start));
    assert(bd == n.dot(&end));
    assert(pd.neg().neg() == pd);
    crate::fixed::lemma_share(pd.sub(ad), bd.sub(ad));
}

/// The point where a plane cuts an edge that crosses it lies in the box
/// between the edge's ends: each of its coordinates lies between those of
/// the two ends. The ends are to be no further apart along any axis than
/// the range of numbers is wide.
pub proof fn lemma_cut_in_box(plane: Plane, start: Vec4d, end: Vec4d)
    requires
        plane.distance(&start).raw >= 0,
        plane.distance(&end).raw < 0,
        -i64::MAX <= end.x.raw - start.x.raw <= i64::MAX,
        -i64::MAX <= end.y.raw - start.y.raw <= i64::MAX,
        -i64::MAX <= end.z.raw - start.z.raw <= i64::MAX,
    ensures
        ({
            let cut = plane.line_intersect_plane(start, end).0;
            &&& vstd::math::min(start.x.raw as int, end.x.raw as int) <= cut.x.raw <= vstd::math::max(
                start.x.raw as int,
                end.x.raw as int,
            )
            &&& vstd::math::min(start.y.raw as int, end.y.raw as int) <= cut.y.raw <= vstd::math::max(
                start.y.raw as int,
                end.y.raw as int,
            )
            &&& vstd::math::min(start.z.raw as int, end.z.raw as int) <= cut.z.raw <= vstd::math::max(
                start.z.raw as int,
                end.z.raw as int,
            )
        }),
{
    lemma_cut_share(plane, start, end);
    let t = plane.line_intersect_plane(start, end).1;
    crate::fixed::lemma_mix_between(
        start.x,
        end.x,
        t,
        vstd::math::min(start.x.raw as int, end.x.raw as int),
        vstd::math::max(start.x.raw as int, end.x.raw as int),
    );
    crate::fixed::lemma_mix_between(
        start.y,
        end.y,
        t,
        vstd::math::min(start.y.raw as int, end.y.raw as int),
        vstd::math::max(start.y.raw as int, end.y.raw as int),
    );
    crate::fixed::lemma_mix_between(
        start.z,
        end.z,
        t,
        vstd::math::min(start.z.raw as int, end.z.raw as int),
        vstd::math::max(start.z.raw as int, end.z.raw as int),
    );
}

/// The coordinate of a position along an axis: `x` for axis 0, `y` for
/// axis 1, `z` for any other.
pub open spec fn coordinate(p: Vec4d, axis: int) -> Fixed {
    if axis == 0 {
        p.x
    } else if axis == 1 {
        p.y
    } else {
        p.z
    }
}

/// The plane that stands across an axis where the coordinate along it is
/// `at`. Its inner side is the side of the larger coordinates if `up`, else
/// that of the smaller.
pub open spec fn axis_plane(axis: int, up: bool, at: Fixed) -> Plane {
    let n = Fixed::zero();
    let s = if up {
        Fixed::one()
    } else {
        Fixed { raw: -0x1_0000_0000i64 }
    };
    Plane {
        position: Vec4d {
            x: if axis == 0 {
                at
            } else {
                n
            },
            y: if axis == 1 {
                at
            } else {
                n
            },
            z: if axis == 0 || axis == 1 {
                n
            } else {
                at
            },
            w: Fixed::one(),
        },
        normal: Vec4d {
            x: if axis == 0 {
                s
            } else {
                n
            },
            y: if axis == 1 {
                s
            } else {
                n
            },
            z: if axis == 0 || axis == 1 {
                n
            } else {
                s
            },
            w: Fixed::one(),
        },
    }
}

/// Whether a position is on the inner side of such a plane, or on it.
pub open spec fn on_inner_side(axis: int, up: bool, at: Fixed, p: Vec4d) -> bool {
    if up {
        coordinate(p, axis).raw >= at.raw
    } else {
        coordinate(p, axis).raw <= at.raw
    }
}

/// The normal of a plane across an axis has length one as it stands, so a
/// position's product with it is the position's coordinate along the axis,
/// or the negative of it.
proof fn lemma_axis_normal(axis: int, up: bool, at: Fixed, p: Vec4d)
    ensures
        axis_plane(axis, up, at).normal.norm() == axis_plane(axis, up, at).normal,
        axis_plane(axis, up, at).normal.dot(&p) == p.dot(&axis_plane(axis, up, at).normal),
        axis_plane(axis, up, at).normal.dot(&p) == (if up {
            coordinate(p, axis)
        } else {
            coordinate(p, axis).neg()
        }),
{
    crate::length::lemma_axis_direction(Fixed::one());
    crate::length::lemma_axis_direction(Fixed { raw: -0x1_0000_0000i64 });
    crate::fixed::lemma_units(p.x);
    crate::fixed::lemma_units(p.y);
    crate::fixed::lemma_units(p.z);
    crate::fixed::lemma_units(p.x.neg());
    crate::fixed::lemma_units(p.y.neg());
    crate::fixed::lemma_units(p.z.neg());
    crate::fixed::lemma_units(Fixed::zero());
    crate::fixed::lemma_minus_one(p.x);
    crate::fixed::lemma_minus_one(p.y);
    crate::fixed::lemma_minus_one(p.z);
}

/// A position is on the inner side of a plane across an axis, or on it,
/// exactly if its coordinate along the axis is. A plane that faces the
/// smaller coordinates is to stand where the coordinate has a negative.
pub proof fn lemma_axis_side(axis: int, up: bool, at: Fixed, p: Vec4d)
    requires
        up || at.raw > i64::MIN,
    ensures
        (axis_plane(axis, up, at).distance(&p).raw >= 0) == on_inner_side(axis, up, at, p),
{
    reveal(Fixed::sub_spec);
    reveal(Fixed::neg_spec);
    lemma_axis_normal(axis, up, at, p);
    lemma_axis_normal(axis, up, at, axis_plane(axis, up, at).position);
}

/// The point where an edge from the inner side of a plane across an axis
/// to the outer side meets the plane is not beyond the plane, and not
/// further in than the edge's inner end: rounding and saturation never take
/// it across.
pub proof fn lemma_axis_cut(axis: int, up: bool, at: Fixed, start: Vec4d, end: Vec4d)
    requires
        up || at.raw > i64::MIN,
        on_inner_side(axis, up, at, start),
        !on_inner_side(axis, up, at, end),
    ensures
        ({
            let cut = coordinate(axis_plane(axis, up, at).line_intersect_plane(start, end).0, axis);
            if up {
                at.raw <= cut.raw <= coordinate(start, axis).raw
            } else {
                coordinate(start, axis).raw <= cut.raw <= at.raw
            }
        }),
{
    reveal(Fixed::neg_spec);
    let plane = axis_plane(axis, up, at);
    lemma_axis_normal(axis, up, at, start);
    lemma_axis_normal(axis, up, at, end);
    lemma_axis_normal(axis, up, at, plane.position);
    assert(at.neg().neg() == at);
    if up {
        crate::fixed::lemma_cut_not_below(coordinate(start, axis), coordinate(end, axis), at);
    } else {
        crate::fixed::lemma_cut_not_above(coordinate(start, axis), coordinate(end, axis), at);
    }
}

} // verus!
