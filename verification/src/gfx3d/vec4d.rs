//! Homogeneous positions: three coordinates and the weight `w`.

use vstd::prelude::*;
use crate::fixed::Fixed;
use crate::length::direction;
use crate::length::direction_of;
use crate::length::length;
use crate::length::length_of;

verus! {

/// A position in homogeneous coordinates. The vector operations work on
/// `x`, `y` and `z`; only a matrix gives `w` another value than one.
#[derive(Debug, Clone, Copy, PartialEq, Eq, Structural)]
pub struct Vec4d {
    pub x: Fixed,
    pub y: Fixed,
    pub z: Fixed,
    pub w: Fixed,
}

impl Vec4d {
    /// The vector with the given components.
    pub open spec fn new_spec(x: Fixed, y: Fixed, z: Fixed) -> Vec4d {
        Vec4d { x, y, z, w: Fixed::one() }
    }

    /// The vector without length.
    pub open spec fn zero_spec() -> Vec4d {
        Vec4d { x: Fixed::zero(), y: Fixed::zero(), z: Fixed::zero(), w: Fixed::one() }
    }

    /// The sum of the products of the components, taken from `x` on.
    pub open spec fn dot_spec(&self, rhs: &Vec4d) -> Fixed {
        self.x.mul(rhs.x).add(self.y.mul(rhs.y)).add(self.z.mul(rhs.z))
    }

    /// The Euclidean length: the root of the sum of the squares of the
    /// components as they stand, rounded down to the grid.
    pub open spec fn length_spec(&self) -> Fixed {
        length_of(self.x, self.y, self.z)
    }

    /// The vector's direction: each component over the vector's length,
    /// which gives a vector of length one. The vector without length has
    /// none and gives the vector without length.
    pub open spec fn norm_spec(&self) -> Vec4d {
        let d = direction_of(self.x, self.y, self.z);
        Vec4d { x: d.0, y: d.1, z: d.2, w: Fixed::one() }
    }

    /// The cross product of the first three components.
    pub open spec fn cross_spec(&self, rhs: &Vec4d) -> Vec4d {
        Vec4d {
            x: self.y.mul(rhs.z).sub(self.z.mul(rhs.y)),
            y: self.z.mul(rhs.x).sub(self.x.mul(rhs.z)),
            z: self.x.mul(rhs.y).sub(self.y.mul(rhs.x)), w: Fixed::one(),
        }
    }

    /// The sum, component by component.
    pub open spec fn add_spec(self, rhs: Vec4d) -> Vec4d {
        Vec4d { x: self.x.add(rhs.x), y: self.y.add(rhs.y), z: self.z.add(rhs.z), w: Fixed::one() }
    }

    /// The difference, component by component.
    pub open spec fn sub_spec(self, rhs: Vec4d) -> Vec4d {
        Vec4d { x: self.x.sub(rhs.x), y: self.y.sub(rhs.y), z: self.z.sub(rhs.z), w: Fixed::one() }
    }

    /// Every component times `rhs`.
    pub open spec fn mul_spec(self, rhs: Fixed) -> Vec4d {
        Vec4d { x: self.x.mul(rhs), y: self.y.mul(rhs), z: self.z.mul(rhs), w: Fixed::one() }
    }

    /// Every component divided by `rhs`.
    pub open spec fn div_spec(self, rhs: Fixed) -> Vec4d {
        Vec4d { x: self.x.div(rhs), y: self.y.div(rhs), z: self.z.div(rhs), w: Fixed::one() }
    }

    /// The vector with the given components. The fourth component of the result is one.
    #[verifier::when_used_as_spec(new_spec)]
    pub fn new(x: Fixed, y: Fixed, z: Fixed) -> (v: Vec4d)
        ensures
            v == Vec4d::new_spec(x, y, z),
    {
        Vec4d { x, y, z, w: Fixed::one() }
    }

    /// The vector without length. The fourth component of the result is one.
    #[verifier::when_used_as_spec(zero_spec)]
    pub fn zero() -> (v: Vec4d)
        ensures
            v == Vec4d::zero_spec(),
    {
        Vec4d { x: Fixed::zero(), y: Fixed::zero(), z: Fixed::zero(), w: Fixed::one() }
    }

    /// The Euclidean length, rounded down to the grid. A length beyond the
    /// range is the top of the range.
    #[verifier::when_used_as_spec(length_spec)]
    pub fn length(&self) -> (l: Fixed)
        ensures
            l == self.length_spec(),
    {
        length(self.x, self.y, self.z)
    }

    /// The vector scaled to length one: for every vector that has a
    /// length, however short or long, the result has a length of one up to
    /// four steps of the grid. The vector without length has no direction
    /// and stays without length. The fourth
    /// component of the result is one.
    #[verifier::when_used_as_spec(norm_spec)]
    pub fn norm(&self) -> (v: Vec4d)
        ensures
            v == self.norm_spec(),
    {
        let d = direction(self.x, self.y, self.z);
        Vec4d { x: d.0, y: d.1, z: d.2, w: Fixed::one() }
    }

    /// The dot product. The fourth components take no part.
    #[verifier::when_used_as_spec(dot_spec)]
    pub fn dot(&self, rhs: &Vec4d) -> (d: Fixed)
        ensures
            d == self.dot_spec(rhs),
    {
        self.x.mul(rhs.x).add(self.y.mul(rhs.y)).add(self.z.mul(rhs.z))
    }

    /// The cross product. The fourth component of the result is one.
    #[verifier::when_used_as_spec(cross_spec)]
    pub fn cross(&self, rhs: &Vec4d) -> (v: Vec4d)
        ensures
            v == self.cross_spec(rhs),
    {
        Vec4d {
            x: self.y.mul(rhs.z).sub(self.z.mul(rhs.y)),
            y: self.z.mul(rhs.x).sub(self.x.mul(rhs.z)),
            z: self.x.mul(rhs.y).sub(self.y.mul(rhs.x)), w: Fixed::one(),
        }
    }

    /// The sum, component by component. The fourth component of the result is one.
    #[verifier::when_used_as_spec(add_spec)]
    pub fn add(self, rhs: Vec4d) -> (v: Vec4d)
        ensures
            v == self.add_spec(rhs),
    {
        Vec4d { x: self.x.add(rhs.x), y: self.y.add(rhs.y), z: self.z.add(rhs.z), w: Fixed::one() }
    }

    /// The difference, component by component. The fourth component of the result is one.
    #[verifier::when_used_as_spec(sub_spec)]
    pub fn sub(self, rhs: Vec4d) -> (v: Vec4d)
        ensures
            v == self.sub_spec(rhs),
    {
        Vec4d { x: self.x.sub(rhs.x), y: self.y.sub(rhs.y), z: self.z.sub(rhs.z), w: Fixed::one() }
    }

    /// The vector times a number. The fourth component of the result is one.
    #[verifier::when_used_as_spec(mul_spec)]
    pub fn mul(self, rhs: Fixed) -> (v: Vec4d)
        ensures
            v == self.mul_spec(rhs),
    {
        Vec4d { x: self.x.mul(rhs), y: self.y.mul(rhs), z: self.z.mul(rhs), w: Fixed::one() }
    }

    /// The vector divided by a number. The fourth component of the result is one.
    #[verifier::when_used_as_spec(div_spec)]
    pub fn div(self, rhs: Fixed) -> (v: Vec4d)
        ensures
            v == self.div_spec(rhs),
    {
        Vec4d { x: self.x.div(rhs), y: self.y.div(rhs), z: self.z.div(rhs), w: Fixed::one() }
    }

    /// Adds a vector to this one. The fourth component is left as it is.
    pub fn add_assign(&mut self, rhs: Vec4d)
        ensures
            *final(self) == (Vec4d {
                x: old(self).x.add(rhs.x),
                y: old(self).y.add(rhs.y),
                z: old(self).z.add(rhs.z),
                ..*old(self)
            }),
    {
        self.x = self.x.add(rhs.x);
        self.y = self.y.add(rhs.y);
        self.z = self.z.add(rhs.z);
    }

    /// Takes a vector from this one. The fourth component is left as it is.
    pub fn sub_assign(&mut self, rhs: Vec4d)
        ensures
            *final(self) == (Vec4d {
                x: old(self).x.sub(rhs.x),
                y: old(self).y.sub(rhs.y),
                z: old(self).z.sub(rhs.z),
                ..*old(self)
            }),
    {
        self.x = self.x.sub(rhs.x);
        self.y = self.y.sub(rhs.y);
        self.z = self.z.sub(rhs.z);
    }

    /// Multiplies this vector by a number. The fourth component is left as it is.
    pub fn mul_assign(&mut self, rhs: Fixed)
        ensures
            *final(self) == (Vec4d {
                x: old(self).x.mul(rhs),
                y: old(self).y.mul(rhs),
                z: old(self).z.mul(rhs),
                ..*old(self)
            }),
    {
        self.x = self.x.mul(rhs);
        self.y = self.y.mul(rhs);
        self.z = self.z.mul(rhs);
    }

    /// Divides this vector by a number. The fourth component is left as it is.
    pub fn div_assign(&mut self, rhs: Fixed)
        ensures
            *final(self) == (Vec4d {
                x: old(self).x.div(rhs),
                y: old(self).y.div(rhs),
                z: old(self).z.div(rhs),
                ..*old(self)
            }),
    {
        self.x = self.x.div(rhs);
        self.y = self.y.div(rhs);
        self.z = self.z.div(rhs);
    }
}

/// Scaling to length one gives length one: the length of the direction of a
/// vector that has a length is from `1 - 4 * 2^-32` to `1`, and each of its
/// components has the sign of the vector's component, or is zero.
pub proof fn lemma_norm_length(v: Vec4d)
    requires
        v.x.raw != 0 || v.y.raw != 0 || v.z.raw != 0,
    ensures
        crate::fixed::unit() - 4 <= v.norm().length().raw <= crate::fixed::unit(),
        (v.x.raw >= 0 ==> v.norm().x.raw >= 0) && (v.x.raw <= 0 ==> v.norm().x.raw <= 0),
        (v.y.raw >= 0 ==> v.norm().y.raw >= 0) && (v.y.raw <= 0 ==> v.norm().y.raw <= 0),
        (v.z.raw >= 0 ==> v.norm().z.raw >= 0) && (v.z.raw <= 0 ==> v.norm().z.raw <= 0),
{
    crate::length::lemma_direction_length(v.x, v.y, v.z);
}

/// The length is the Euclidean length up to one step of the grid: where it
/// is below the top of the range, its square is at most the sum of the
/// squares of the components, and the square of the next number is more.
pub proof fn lemma_length(v: Vec4d)
    ensures
        v.length().raw < i64::MAX ==> crate::fixed::is_root(
            crate::length::sum_squares(v.x.raw as int, v.y.raw as int, v.z.raw as int),
            v.length().raw as int,
        ),
{
    let s = crate::length::sum_squares(v.x.raw as int, v.y.raw as int, v.z.raw as int);
    assert(v.x.raw * v.x.raw >= 0 && v.y.raw * v.y.raw >= 0 && v.z.raw * v.z.raw >= 0)
        by (nonlinear_arith);
    crate::fixed::lemma_root_exists(s);
}

} // verus!
