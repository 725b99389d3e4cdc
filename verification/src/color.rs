//! Colours with channels between zero and one.

use vstd::prelude::*;
use crate::fixed::Fixed;

verus! {

/// A colour: red, green, blue and alpha, each from zero to one.
#[derive(Debug, Clone, Copy, PartialEq, Eq, Structural)]
pub struct Color {
    pub r: Fixed,
    pub g: Fixed,
    pub b: Fixed,
    pub a: Fixed,
}

/// One channel of a colour laid over another: the upper channel weighted by
/// its alpha, the lower by its alpha and by what the upper lets through,
/// both over the alpha `a` of the result.
pub open spec fn over(upper: Fixed, upper_a: Fixed, lower: Fixed, lower_a: Fixed, a: Fixed) -> Fixed {
    upper.mul(upper_a).div(a).add(lower.mul(lower_a).mul(Fixed::one().sub(upper_a)).div(a))
}

impl Color {
    /// The opaque colour with the given channels.
    pub open spec fn rgb_spec(r: Fixed, g: Fixed, b: Fixed) -> Color {
        Color { r, g, b, a: Fixed::one() }
    }

    /// The alpha of this colour laid over `rhs`: one less what both let
    /// through.
    pub open spec fn alpha_over(self, rhs: Color) -> Fixed {
        Fixed::one().sub(Fixed::one().sub(self.a).mul(Fixed::one().sub(rhs.a)))
    }

    /// This colour laid over `rhs`.
    pub open spec fn add_spec(self, rhs: Color) -> Color {
        let a = self.alpha_over(rhs);
        Color {
            r: over(self.r, self.a, rhs.r, rhs.a, a),
            g: over(self.g, self.a, rhs.g, rhs.a, a),
            b: over(self.b, self.a, rhs.b, rhs.a, a),
            a,
        }
    }

    /// The difference, channel by channel.
    pub open spec fn sub_spec(self, rhs: Color) -> Color {
        Color { r: self.r.sub(rhs.r), g: self.g.sub(rhs.g), b: self.b.sub(rhs.b), a: self.a.sub(rhs.a) }
    }

    /// Every channel times `rhs`.
    pub open spec fn mul_spec(self, rhs: Fixed) -> Color {
        Color { r: self.r.mul(rhs), g: self.g.mul(rhs), b: self.b.mul(rhs), a: self.a.mul(rhs) }
    }

    /// Every channel divided by `rhs`.
    pub open spec fn div_spec(self, rhs: Fixed) -> Color {
        Color { r: self.r.div(rhs), g: self.g.div(rhs), b: self.b.div(rhs), a: self.a.div(rhs) }
    }

    /// An opaque colour.
    #[verifier::when_used_as_spec(rgb_spec)]
    pub fn rgb(r: Fixed, g: Fixed, b: Fixed) -> (c: Color)
        ensures
            c == Color::rgb_spec(r, g, b),
    {
        Color { r, g, b, a: Fixed::one() }
    }

    /// Computes [`over`].
    fn channel(upper: Fixed, upper_a: Fixed, lower: Fixed, lower_a: Fixed, a: Fixed) -> (c: Fixed)
        ensures
            c == over(upper, upper_a, lower, lower_a, a),
    {
        upper.mul(upper_a).div(a).add(lower.mul(lower_a).mul(Fixed::one().sub(upper_a)).div(a))
    }

    /// This colour laid over `rhs`, by their alphas.
    #[verifier::when_used_as_spec(add_spec)]
    pub fn add(self, rhs: Color) -> (c: Color)
        ensures
            c == self.add_spec(rhs),
    {
        let a = Fixed::one().sub(Fixed::one().sub(self.a).mul(Fixed::one().sub(rhs.a)));
        Color {
            r: Color::channel(self.r, self.a, rhs.r, rhs.a, a),
            g: Color::channel(self.g, self.a, rhs.g, rhs.a, a),
            b: Color::channel(self.b, self.a, rhs.b, rhs.a, a),
            a,
        }
    }

    /// The difference, channel by channel.
    #[verifier::when_used_as_spec(sub_spec)]
    pub fn sub(self, rhs: Color) -> (c: Color)
        ensures
            c == self.sub_spec(rhs),
    {
        Color { r: self.r.sub(rhs.r), g: self.g.sub(rhs.g), b: self.b.sub(rhs.b), a: self.a.sub(rhs.a) }
    }

    /// Every channel times a number.
    #[verifier::when_used_as_spec(mul_spec)]
    pub fn mul(self, rhs: Fixed) -> (c: Color)
        ensures
            c == self.mul_spec(rhs),
    {
        Color { r: self.r.mul(rhs), g: self.g.mul(rhs), b: self.b.mul(rhs), a: self.a.mul(rhs) }
    }

    /// Every channel divided by a number.
    #[verifier::when_used_as_spec(div_spec)]
    pub fn div(self, rhs: Fixed) -> (c: Color)
        ensures
            c == self.div_spec(rhs),
    {
        Color { r: self.r.div(rhs), g: self.g.div(rhs), b: self.b.div(rhs), a: self.a.div(rhs) }
    }

    /// Adds a colour to this one, channel by channel: a plain sum, no laying
    /// over.
    pub fn add_assign(&mut self, rhs: Color)
        ensures
            *final(self) == (Color {
                r: old(self).r.add(rhs.r),
                g: old(self).g.add(rhs.g),
                b: old(self).b.add(rhs.b),
                a: old(self).a.add(rhs.a),
            }),
    {
        self.r = self.r.add(rhs.r);
        self.g = self.g.add(rhs.g);
        self.b = self.b.add(rhs.b);
        self.a = self.a.add(rhs.a);
    }

    /// Takes a colour from this one, channel by channel.
    pub fn sub_assign(&mut self, rhs: Color)
        ensures
            *final(self) == old(self).sub(rhs),
    {
        self.r = self.r.sub(rhs.r);
        self.g = self.g.sub(rhs.g);
        self.b = self.b.sub(rhs.b);
        self.a = self.a.sub(rhs.a);
    }

    /// Multiplies every channel by a number.
    pub fn mul_assign(&mut self, rhs: Fixed)
        ensures
            *final(self) == old(self).mul(rhs),
    {
        self.r = self.r.mul(rhs);
        self.g = self.g.mul(rhs);
        self.b = self.b.mul(rhs);
        self.a = self.a.mul(rhs);
    }

    /// Divides every channel by a number.
    pub fn div_assign(&mut self, rhs: Fixed)
        ensures
            *final(self) == old(self).div(rhs),
    {
        self.r = self.r.div(rhs);
        self.g = self.g.div(rhs);
        self.b = self.b.div(rhs);
        self.a = self.a.div(rhs);
    }
}

} // verus!
