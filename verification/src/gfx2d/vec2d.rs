//! Vectors of two components.

use vstd::prelude::*;
use crate::fixed::Fixed;
use crate::length::direction;
use crate::length::direction_of;
use crate::length::length;
use crate::length::length_of;
use crate::gfx3d::vec3d::Vec3d;

verus! {

/// A point or a direction in the plane.
#[derive(Debug, Clone, Copy, PartialEq, Eq, Structural)]
pub struct Vec2d {
    pub x: Fixed,
    pub y: Fixed,
}

impl Vec2d {
    /// The vector with the given components.
    pub open spec fn new_spec(x: Fixed, y: Fixed) -> Vec2d {
        Vec2d { x, y }
    }

    /// The vector without length.
    pub open spec fn zero_spec() -> Vec2d {
        Vec2d { x: Fixed::zero(), y: Fixed::zero() }
    }

    /// The sum of the products of the components.
    pub open spec fn dot_spec(&self, rhs: &Vec2d) -> Fixed {
        self.x.mul(rhs.x).add(self.y.mul(rhs.y))
    }

    /// The Euclidean length: the root of the sum of the squares of the
    /// components as they stand, rounded down to the grid.
    pub open spec fn length_spec(&self) -> Fixed {
        length_of(self.x, self.y, Fixed::zero())
    }

    /// The vector's direction: each component over the vector's length,
    /// which gives a vector of length one. The vector without length has
    /// none and gives the vector without length.
    pub open spec fn norm_spec(&self) -> Vec2d {
        let d = direction_of(self.x, self.y, Fixed::zero());
        Vec2d { x: d.0, y: d.1 }
    }

    /// The vector turned a quarter turn, from the x axis toward the y axis.
    pub open spec fn perp_spec(&self) -> Vec2d {
        Vec2d { x: self.y.neg(), y: self.x }
    }

    /// The third component of the cross product of the two vectors taken
    /// into space.
    pub open spec fn cross_spec(&self, rhs: &Vec2d) -> Fixed {
        self.x.mul(rhs.y).sub(self.y.mul(rhs.x))
    }

    /// The vector in space, in the plane of x and y.
    pub open spec fn as_vec3d_spec(&self) -> Vec3d {
        Vec3d { x: self.x, y: self.y, z: Fixed::zero() }
    }

    /// The sum, component by component.
    pub open spec fn add_spec(self, rhs: Vec2d) -> Vec2d {
        Vec2d { x: self.x.add(rhs.x), y: self.y.add(rhs.y) }
    }

    /// The difference, component by component.
    pub open spec fn sub_spec(self, rhs: Vec2d) -> Vec2d {
        Vec2d { x: self.x.sub(rhs.x), y: self.y.sub(rhs.y) }
    }

    /// Every component times `rhs`.
    pub open spec fn mul_spec(self, rhs: Fixed) -> Vec2d {
        Vec2d { x: self.x.mul(rhs), y: self.y.mul(rhs) }
    }

    /// Every component divided by `rhs`.
    pub open spec fn div_spec(self, rhs: Fixed) -> Vec2d {
        Vec2d { x: self.x.div(rhs), y: self.y.div(rhs) }
    }

    /// The vector with the given components.
    #[verifier::when_used_as_spec(new_spec)]
    pub fn new(x: Fixed, y: Fixed) -> (v: Vec2d)
        ensures
            v == Vec2d::new_spec(x, y),
    {
        Vec2d { x, y }
    }

    /// The vector without length.
    #[verifier::when_used_as_spec(zero_spec)]
    pub fn zero() -> (v: Vec2d)
        ensures
            v == Vec2d::zero_spec(),
    {
        Vec2d { x: Fixed::zero(), y: Fixed::zero() }
    }

    /// The Euclidean length, rounded down to the grid. A length beyond the
    /// range is the top of the range.
    #[verifier::when_used_as_spec(length_spec)]
    pub fn length(&self) -> (l: Fixed)
        ensures
            l == self.length_spec(),
    {
        length(self.x, self.y, Fixed::zero())
    }

    /// The vector scaled to length one: for every vector that has a
    /// length, however short or long, the result has a length of one up to
    /// four steps of the grid. The vector without length has no direction
    /// and stays without length.
    #[verifier::when_used_as_spec(norm_spec)]
    pub fn norm(&self) -> (v: Vec2d)
        ensures
            v == self.norm_spec(),
    {
        let d = direction(self.x, self.y, Fixed::zero());
        Vec2d { x: d.0, y: d.1 }
    }

    /// The vector turned a quarter turn.
    #[verifier::when_used_as_spec(perp_spec)]
    pub fn perp(&self) -> (v: Vec2d)
        ensures
            v == self.perp_spec(),
    {
        Vec2d { x: self.y.neg(), y: self.x }
    }

    /// The dot product.
    #[verifier::when_used_as_spec(dot_spec)]
    pub fn dot(&self, rhs: &Vec2d) -> (d: Fixed)
        ensures
            d == self.dot_spec(rhs),
    {
        self.x.mul(rhs.x).add(self.y.mul(rhs.y))
    }

    /// The cross product, as a number.
    #[verifier::when_used_as_spec(cross_spec)]
    pub fn cross(&self, rhs: &Vec2d) -> (d: Fixed)
        ensures
            d == self.cross_spec(rhs),
    {
        self.x.mul(rhs.y).sub(self.y.mul(rhs.x))
    }

    /// The vector in space, in the plane of x and y.
    #[verifier::when_used_as_spec(as_vec3d_spec)]
    pub fn as_vec3d(&self) -> (v: Vec3d)
        ensures
            v == self.as_vec3d_spec(),
    {
        Vec3d { x: self.x, y: self.y, z: Fixed::zero() }
    }

    /// The sum, component by component.
    #[verifier::when_used_as_spec(add_spec)]
    pub fn add(self, rhs: Vec2d) -> (v: Vec2d)
        ensures
            v == self.add_spec(rhs),
    {
        Vec2d { x: self.x.add(rhs.x), y: self.y.add(rhs.y) }
    }

    /// The difference, component by component.
    #[verifier::when_used_as_spec(sub_spec)]
    pub fn sub(self, rhs: Vec2d) -> (v: Vec2d)
        ensures
            v == self.sub_spec(rhs),
    {
        Vec2d { x: self.x.sub(rhs.x), y: self.y.sub(rhs.y) }
    }

    /// The vector times a number.
    #[verifier::when_used_as_spec(mul_spec)]
    pub fn mul(self, rhs: Fixed) -> (v: Vec2d)
        ensures
            v == self.mul_spec(rhs),
    {
        Vec2d { x: self.x.mul(rhs), y: self.y.mul(rhs) }
    }

    /// The vector divided by a number.
    #[verifier::when_used_as_spec(div_spec)]
    pub fn div(self, rhs: Fixed) -> (v: Vec2d)
        ensures
            v == self.div_spec(rhs),
    {
        Vec2d { x: self.x.div(rhs), y: self.y.div(rhs) }
    }

    /// Adds a vector to this one.
    pub fn add_assign(&mut self, rhs: Vec2d)
        ensures
            *final(self) == old(self).add(rhs),
    {
        self.x = self.x.add(rhs.x);
        self.y = self.y.add(rhs.y);
    }

    /// Takes a vector from this one.
    pub fn sub_assign(&mut self, rhs: Vec2d)
        ensures
            *final(self) == old(self).sub(rhs),
    {
        self.x = self.x.sub(rhs.x);
        self.y = self.y.sub(rhs.y);
    }

    /// Multiplies this vector by a number.
    pub fn mul_assign(&mut self, rhs: Fixed)
        ensures
            *final(self) == old(self).mul(rhs),
    {
        self.x = self.x.mul(rhs);
        self.y = self.y.mul(rhs);
    }

    /// Divides this vector by a number.
    pub fn div_assign(&mut self, rhs: Fixed)
        ensures
            *final(self) == old(self).div(rhs),
    {
        self.x = self.x.div(rhs);
        self.y = self.y.div(rhs);
    }
}

/// Scaling to length one gives length one: the length of the direction of a
/// vector that has a length is from `1 - 4 * 2^-32` to `1`, and each of its
/// components has the sign of the vector's component, or is zero.
pub proof fn lemma_norm_length(v: Vec2d)
    requires
        v.x.raw != 0 || v.y.raw != 0,
    ensures
        crate::fixed::unit() - 4 <= v.norm().length().raw <= crate::fixed::unit(),
        (v.x.raw >= 0 ==> v.norm().x.raw >= 0) && (v.x.raw <= 0 ==> v.norm().x.raw <= 0),
        (v.y.raw >= 0 ==> v.norm().y.raw >= 0) && (v.y.raw <= 0 ==> v.norm().y.raw <= 0),
{
    crate::length::lemma_direction_length(v.x, v.y, Fixed::zero());
}

/// The length is the Euclidean length up to one step of the grid: where it
/// is below the top of the range, its square is at most the sum of the
/// squares of the components, and the square of the next number is more.
pub proof fn lemma_length(v: Vec2d)
    ensures
        v.length().raw < i64::MAX ==> crate::fixed::is_root(
            crate::length::sum_squares(v.x.raw as int, v.y.raw as int, Fixed::zero().raw as int),
            v.length().raw as int,
        ),
{
    let s = crate::length::sum_squares(v.x.raw as int, v.y.raw as int, Fixed::zero().raw as int);
    assert(v.x.raw * v.x.raw >= 0 && v.y.raw * v.y.raw >= 0 && Fixed::zero().raw * Fixed::zero().raw >= 0)
        by (nonlinear_arith);
    crate::fixed::lemma_root_exists(s);
}

} // verus!
