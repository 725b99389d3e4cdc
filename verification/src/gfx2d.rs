//! The 2D side: transforms of the plane, and sprites drawn under them.

pub mod vec2d;

use vstd::prelude::*;
use crate::fixed::Fixed;
use crate::pge::PGE;
use crate::pge::lemma_scan_done;
use crate::pge::lemma_scan_row;
use crate::pge::lemma_scan_start;
use crate::pge::lemma_scan_step;
use crate::pge::scan_of;
use crate::pixel::Pixel;
use crate::sprite::Image;
use crate::sprite::Sprite;

verus! {

/// A stack of transforms of the plane, kept as their product.
///
/// The four matrices are held column by column. Matrices `0` and `1` take
/// turns as the product (`source`) and as the room for the next product
/// (`target`); matrix `2` holds the step that is being multiplied in, and
/// matrix `3` the inverse of the product, good while `dirty` is false.
#[derive(Debug, Clone, Copy)]
pub struct Transform2D {
    pub matrix: [[[Fixed; 3]; 3]; 4],
    pub target: usize,
    pub source: usize,
    pub dirty: bool,
}

/// `a * b - c * d`.
pub open spec fn cross2(a: Fixed, b: Fixed, c: Fixed, d: Fixed) -> Fixed {
    a.mul(b).sub(c.mul(d))
}

/// A matrix by its three columns.
pub open spec fn columns(c0: [Fixed; 3], c1: [Fixed; 3], c2: [Fixed; 3]) -> [[Fixed; 3]; 3] {
    [c0, c1, c2]
}

/// The four matrices with matrix `k` replaced by `m`.
pub open spec fn replaced(ms: [[[Fixed; 3]; 3]; 4], k: int, m: [[Fixed; 3]; 3]) -> [[[Fixed; 3]; 3]; 4] {
    [
        if k == 0 {
            m
        } else {
            ms[0]
        },
        if k == 1 {
            m
        } else {
            ms[1]
        },
        if k == 2 {
            m
        } else {
            ms[2]
        },
        if k == 3 {
            m
        } else {
            ms[3]
        },
    ]
}

/// The matrix that changes nothing.
pub open spec fn identity3() -> [[Fixed; 3]; 3] {
    let o = Fixed::one();
    let z = Fixed::zero();
    columns([o, z, z], [z, o, z], [z, z, o])
}

/// The least of five numbers.
pub open spec fn least(a: Fixed, b: Fixed, c: Fixed, d: Fixed, e: Fixed) -> Fixed {
    let ab = if b.raw < a.raw {
        b
    } else {
        a
    };
    let abc = if c.raw < ab.raw {
        c
    } else {
        ab
    };
    let abcd = if d.raw < abc.raw {
        d
    } else {
        abc
    };
    if e.raw < abcd.raw {
        e
    } else {
        abcd
    }
}

/// The greatest of five numbers.
pub open spec fn greatest(a: Fixed, b: Fixed, c: Fixed, d: Fixed, e: Fixed) -> Fixed {
    let ab = if b.raw > a.raw {
        b
    } else {
        a
    };
    let abc = if c.raw > ab.raw {
        c
    } else {
        ab
    };
    let abcd = if d.raw > abc.raw {
        d
    } else {
        abc
    };
    if e.raw > abcd.raw {
        e
    } else {
        abcd
    }
}

impl Transform2D {
    /// The two matrices that take turns are `0` and `1`.
    pub open spec fn wf(&self) -> bool {
        (self.target == 0 && self.source == 1) || (self.target == 1 && self.source == 0)
    }

    /// The entry in column `c` and row `r` of matrix `k`.
    pub open spec fn at(self, k: int, c: int, r: int) -> Fixed {
        self.matrix[k][c][r]
    }

    /// The entry in column `c` and row `r` of the step times the product.
    pub open spec fn product_at(self, c: int, r: int) -> Fixed {
        let s = self.source as int;
        self.at(2, 0, r).mul(self.at(s, c, 0)).add(self.at(2, 1, r).mul(self.at(s, c, 1))).add(
            self.at(2, 2, r).mul(self.at(s, c, 2)),
        )
    }

    /// The step times the product.
    pub open spec fn product(self) -> [[Fixed; 3]; 3] {
        columns(
            [self.product_at(0, 0), self.product_at(0, 1), self.product_at(0, 2)],
            [self.product_at(1, 0), self.product_at(1, 1), self.product_at(1, 2)],
            [self.product_at(2, 0), self.product_at(2, 1), self.product_at(2, 2)],
        )
    }

    /// The stack with matrix `k` replaced.
    pub open spec fn with_matrix(self, k: int, m: [[Fixed; 3]; 3]) -> Transform2D {
        Transform2D { matrix: replaced(self.matrix, k, m), ..self }
    }

    /// The stack after the step that stands in matrix `2` has been
    /// multiplied in: the product goes to the target, the two matrices
    /// change roles, and the inverse is out of date.
    pub open spec fn multiplied(self) -> Transform2D {
        Transform2D {
            matrix: replaced(self.matrix, self.target as int, self.product()),
            target: self.source,
            source: self.target,
            dirty: true,
        }
    }

    /// The stack after the step `m` has been multiplied in.
    pub open spec fn stepped(self, m: [[Fixed; 3]; 3]) -> Transform2D {
        self.with_matrix(2, m).multiplied()
    }

    /// The determinant of the product.
    pub open spec fn det(self) -> Fixed {
        let s = self.source as int;
        self.at(s, 0, 0).mul(cross2(self.at(s, 1, 1), self.at(s, 2, 2), self.at(s, 1, 2), self.at(s, 2, 1))).sub(
            self.at(s, 1, 0).mul(
                cross2(self.at(s, 0, 1), self.at(s, 2, 2), self.at(s, 2, 1), self.at(s, 0, 2)),
            ),
        ).add(
            self.at(s, 2, 0).mul(
                cross2(self.at(s, 0, 1), self.at(s, 1, 2), self.at(s, 1, 1), self.at(s, 0, 2)),
            ),
        )
    }

    /// The inverse of the product, by cofactors over the determinant.
    pub open spec fn inverse(self) -> [[Fixed; 3]; 3] {
        let s = self.source as int;
        let k = Fixed::one().div(self.det());
        columns(
            [
                cross2(self.at(s, 1, 1), self.at(s, 2, 2), self.at(s, 1, 2), self.at(s, 2, 1)).mul(k),
                cross2(self.at(s, 2, 1), self.at(s, 0, 2), self.at(s, 0, 1), self.at(s, 2, 2)).mul(k),
                cross2(self.at(s, 0, 1), self.at(s, 1, 2), self.at(s, 0, 2), self.at(s, 1, 1)).mul(k),
            ],
            [
                cross2(self.at(s, 2, 0), self.at(s, 1, 2), self.at(s, 1, 0), self.at(s, 2, 2)).mul(k),
                cross2(self.at(s, 0, 0), self.at(s, 2, 2), self.at(s, 2, 0), self.at(s, 0, 2)).mul(k),
                cross2(self.at(s, 0, 2), self.at(s, 1, 0), self.at(s, 0, 0), self.at(s, 1, 2)).mul(k),
            ],
            [
                cross2(self.at(s, 1, 0), self.at(s, 2, 1), self.at(s, 2, 0), self.at(s, 1, 1)).mul(k),
                cross2(self.at(s, 0, 1), self.at(s, 2, 0), self.at(s, 0, 0), self.at(s, 2, 1)).mul(k),
                cross2(self.at(s, 0, 0), self.at(s, 1, 1), self.at(s, 0, 1), self.at(s, 1, 0)).mul(k),
            ],
        )
    }

    /// The stack with its inverse brought up to date.
    pub open spec fn inverted(self) -> Transform2D {
        if self.dirty {
            Transform2D { matrix: replaced(self.matrix, 3, self.inverse()), dirty: false, ..self }
        } else {
            self
        }
    }

    /// The image of `(x, y)` under matrix `k`.
    pub open spec fn image(self, k: int, x: Fixed, y: Fixed) -> (Fixed, Fixed) {
        (
            x.mul(self.at(k, 0, 0)).add(y.mul(self.at(k, 1, 0))).add(self.at(k, 2, 0)),
            x.mul(self.at(k, 0, 1)).add(y.mul(self.at(k, 1, 1))).add(self.at(k, 2, 1)),
        )
    }

    /// A stack with all matrices zero. It takes a [`Transform2D::reset`] to
    /// make the product the identity.
    pub fn new() -> (t: Transform2D)
        ensures
            t.wf(),
            t.target == 0,
            t.source == 1,
            t.dirty,
            forall|k: int, c: int, r: int|
                0 <= k < 4 && 0 <= c < 3 && 0 <= r < 3 ==> t.at(k, c, r) == Fixed::zero(),
    {
        let z = Fixed::zero();
        let m = [[z, z, z], [z, z, z], [z, z, z]];
        Transform2D { target: 0, source: 1, dirty: true, matrix: [m, m, m, m] }
    }

    /// Makes the product the identity.
    pub fn reset(&mut self)
        ensures
            final(self).wf(),
            final(self).target == 0,
            final(self).source == 1,
            final(self).dirty,
            final(self).matrix[0] == identity3(),
            final(self).matrix[1] == identity3(),
            final(self).matrix[2] == old(self).matrix[2],
            final(self).matrix[3] == old(self).matrix[3],
    {
        self.target = 0;
        self.source = 1;
        self.dirty = true;
        let o = Fixed::one();
        let z = Fixed::zero();
        self.matrix[0] = [[o, z, z], [z, o, z], [z, z, o]];
        self.matrix[1] = [[o, z, z], [z, o, z], [z, z, o]];
    }

    /// Computes [`Transform2D::product_at`].
    fn entry(&self, c: usize, r: usize) -> (e: Fixed)
        requires
            self.wf(),
            c < 3,
            r < 3,
        ensures
            e == self.product_at(c as int, r as int),
    {
        let s = self.source;
        self.matrix[2][0][r].mul(self.matrix[s][c][0]).add(self.matrix[2][1][r].mul(self.matrix[s][c][1])).add(
            self.matrix[2][2][r].mul(self.matrix[s][c][2]),
        )
    }

    /// Multiplies the step in matrix `2` into the product.
    fn multiply(&mut self)
        requires
            old(self).wf(),
        ensures
            final(self).wf(),
            *final(self) == old(self).multiplied(),
    {
        let m = [
            [self.entry(0, 0), self.entry(0, 1), self.entry(0, 2)],
            [self.entry(1, 0), self.entry(1, 1), self.entry(1, 2)],
            [self.entry(2, 0), self.entry(2, 1), self.entry(2, 2)],
        ];
        let t = self.target;
        self.matrix[t] = m;
        self.target = self.source;
        self.source = t;
        self.dirty = true;
        assert(self.matrix =~= old(self).multiplied().matrix);
    }

    /// Sets the step and multiplies it in.
    fn step(&mut self, m: [[Fixed; 3]; 3])
        requires
            old(self).wf(),
        ensures
            final(self).wf(),
            *final(self) == old(self).stepped(m),
    {
        self.matrix[2] = m;
        assert(self.matrix =~= old(self).with_matrix(2, m).matrix);
        self.multiply();
    }

    /// Adds a turn by `theta` radians to the stack.
    pub fn rotate(&mut self, theta: Fixed)
        requires
            old(self).wf(),
        ensures
            final(self).wf(),
            *final(self) == old(self).stepped(
                columns(
                    [theta.cos(), theta.sin().neg(), Fixed::zero()],
                    [theta.sin(), theta.cos(), Fixed::zero()],
                    [Fixed::zero(), Fixed::zero(), Fixed::one()],
                ),
            ),
    {
        let z = Fixed::zero();
        let c = theta.cos();
        let s = theta.sin();
        self.step([[c, s.neg(), z], [s, c, z], [z, z, Fixed::one()]]);
    }

    /// Adds a scaling to the stack.
    pub fn scale(&mut self, sx: Fixed, sy: Fixed)
        requires
            old(self).wf(),
        ensures
            final(self).wf(),
            *final(self) == old(self).stepped(
                columns(
                    [sx, Fixed::zero(), Fixed::zero()],
                    [Fixed::zero(), sy, Fixed::zero()],
                    [Fixed::zero(), Fixed::zero(), Fixed::one()],
                ),
            ),
    {
        let z = Fixed::zero();
        self.step([[sx, z, z], [z, sy, z], [z, z, Fixed::one()]]);
    }

    /// Adds a shear to the stack.
    pub fn shear(&mut self, sx: Fixed, sy: Fixed)
        requires
            old(self).wf(),
        ensures
            final(self).wf(),
            *final(self) == old(self).stepped(
                columns(
                    [Fixed::one(), sy, Fixed::zero()],
                    [sx, Fixed::one(), Fixed::zero()],
                    [Fixed::zero(), Fixed::zero(), Fixed::one()],
                ),
            ),
    {
        let z = Fixed::zero();
        let o = Fixed::one();
        self.step([[o, sy, z], [sx, o, z], [z, z, o]]);
    }

    /// Adds a shift to the stack.
    pub fn translate(&mut self, ox: Fixed, oy: Fixed)
        requires
            old(self).wf(),
        ensures
            final(self).wf(),
            *final(self) == old(self).stepped(
                columns(
                    [Fixed::one(), Fixed::zero(), Fixed::zero()],
                    [Fixed::zero(), Fixed::one(), Fixed::zero()],
                    [ox, oy, Fixed::one()],
                ),
            ),
    {
        let z = Fixed::zero();
        let o = Fixed::one();
        self.step([[o, z, z], [z, o, z], [ox, oy, o]]);
    }

    /// Computes [`Transform2D::image`].
    fn apply(&self, k: usize, x: Fixed, y: Fixed) -> (r: (Fixed, Fixed))
        requires
            k < 4,
        ensures
            r == self.image(k as int, x, y),
    {
        (
            x.mul(self.matrix[k][0][0]).add(y.mul(self.matrix[k][1][0])).add(self.matrix[k][2][0]),
            x.mul(self.matrix[k][0][1]).add(y.mul(self.matrix[k][1][1])).add(self.matrix[k][2][1]),
        )
    }

    /// The image of `(x, y)` under the product.
    pub fn forward(&mut self, x: Fixed, y: Fixed) -> (r: (Fixed, Fixed))
        requires
            old(self).wf(),
        ensures
            *final(self) == *old(self),
            r == old(self).image(old(self).source as int, x, y),
    {
        self.apply(self.source, x, y)
    }

    /// The image of `(x, y)` under the inverse as it stands: it is that of
    /// the product after [`Transform2D::invert`].
    pub fn backward(&mut self, x: Fixed, y: Fixed) -> (r: (Fixed, Fixed))
        ensures
            *final(self) == *old(self),
            r == old(self).image(3, x, y),
    {
        self.apply(3, x, y)
    }

    /// Computes [`cross2`].
    fn minor(a: Fixed, b: Fixed, c: Fixed, d: Fixed) -> (r: Fixed)
        ensures
            r == cross2(a, b, c, d),
    {
        a.mul(b).sub(c.mul(d))
    }

    /// Brings the inverse up to date, if it is not. The product is to have
    /// an inverse: where its determinant is zero the inverse has no meaning.
    pub fn invert(&mut self)
        requires
            old(self).wf(),
        ensures
            final(self).wf(),
            *final(self) == old(self).inverted(),
    {
        if self.dirty {
            let s = self.matrix[self.source];
            let det = s[0][0].mul(Transform2D::minor(s[1][1], s[2][2], s[1][2], s[2][1])).sub(
                s[1][0].mul(Transform2D::minor(s[0][1], s[2][2], s[2][1], s[0][2])),
            ).add(s[2][0].mul(Transform2D::minor(s[0][1], s[1][2], s[1][1], s[0][2])));
            let k = Fixed::one().div(det);
            let m = [
                [
                    Transform2D::minor(s[1][1], s[2][2], s[1][2], s[2][1]).mul(k),
                    Transform2D::minor(s[2][1], s[0][2], s[0][1], s[2][2]).mul(k),
                    Transform2D::minor(s[0][1], s[1][2], s[0][2], s[1][1]).mul(k),
                ],
                [
                    Transform2D::minor(s[2][0], s[1][2], s[1][0], s[2][2]).mul(k),
                    Transform2D::minor(s[0][0], s[2][2], s[2][0], s[0][2]).mul(k),
                    Transform2D::minor(s[0][2], s[1][0], s[0][0], s[1][2]).mul(k),
                ],
                [
                    Transform2D::minor(s[1][0], s[2][1], s[2][0], s[1][1]).mul(k),
                    Transform2D::minor(s[0][1], s[2][0], s[0][0], s[2][1]).mul(k),
                    Transform2D::minor(s[0][0], s[1][1], s[0][1], s[1][0]).mul(k),
                ],
            ];
            self.matrix[3] = m;
            self.dirty = false;
            assert(self.matrix =~= old(self).inverted().matrix);
        }
    }
}

/// Sprites drawn under a transform.
#[derive(Debug, Clone, Copy)]
pub struct GFX2D;

/// The box of whole pixels around a sprite's transformed corners and the
/// origin: from the least to the greatest coordinate, rounded toward zero.
pub open spec fn sprite_box(sprite: Image, t: Transform2D) -> (int, int, int, int) {
    let w = Fixed::from_u32(sprite.width as u32);
    let h = Fixed::from_u32(sprite.height as u32);
    let s = t.source as int;
    let a = t.image(s, Fixed::zero(), Fixed::zero());
    let b = t.image(s, w, h);
    let c = t.image(s, Fixed::zero(), h);
    let d = t.image(s, w, Fixed::zero());
    (
        least(Fixed::zero(), a.0, b.0, c.0, d.0).to_int() as int,
        greatest(Fixed::zero(), a.0, b.0, c.0, d.0).to_int() as int,
        least(Fixed::zero(), a.1, b.1, c.1, d.1).to_int() as int,
        greatest(Fixed::zero(), a.1, b.1, c.1, d.1).to_int() as int,
    )
}

/// The paint of a sprite under a transform: each pixel of the box shows the
/// sprite's pixel nearest to where the inverse takes it.
pub open spec fn transformed_paint(sprite: Image, t: Transform2D) -> spec_fn(int, int) -> Option<Pixel> {
    let b = sprite_box(sprite, t);
    |px: int, py: int|
        if b.0 <= px < b.1 && b.2 <= py < b.3 {
            let o = t.inverted().image(3, Fixed::from_int(px as i32), Fixed::from_int(py as i32));
            Some(sprite.get(o.0.add(Fixed::half()).to_int() as int, o.1.add(Fixed::half()).to_int() as int))
        } else {
            None
        }
}

fn least5(a: Fixed, b: Fixed, c: Fixed, d: Fixed, e: Fixed) -> (r: Fixed)
    ensures
        r == least(a, b, c, d, e),
{
    let ab = if b.raw < a.raw {
        b
    } else {
        a
    };
    let abc = if c.raw < ab.raw {
        c
    } else {
        ab
    };
    let abcd = if d.raw < abc.raw {
        d
    } else {
        abc
    };
    if e.raw < abcd.raw {
        e
    } else {
        abcd
    }
}

fn greatest5(a: Fixed, b: Fixed, c: Fixed, d: Fixed, e: Fixed) -> (r: Fixed)
    ensures
        r == greatest(a, b, c, d, e),
{
    let ab = if b.raw > a.raw {
        b
    } else {
        a
    };
    let abc = if c.raw > ab.raw {
        c
    } else {
        ab
    };
    let abcd = if d.raw > abc.raw {
        d
    } else {
        abc
    };
    if e.raw > abcd.raw {
        e
    } else {
        abcd
    }
}

impl GFX2D {
    /// Draws a sprite under a transform: the transform's inverse is brought
    /// up to date, and every pixel of the box around the transformed sprite
    /// is drawn with the sprite's pixel that the inverse takes it to.
    pub fn draw_sprite(pge: &mut PGE, sprite: &Sprite, transform: &mut Transform2D)
        requires
            old(pge).wf(),
            sprite.wf(),
            old(transform).wf(),
        ensures
            final(pge).wf(),
            final(transform).wf(),
            *final(transform) == old(transform).inverted(),
            final(pge)@ == old(pge)@.painted(transformed_paint(sprite@, *old(transform))),
    {
        let ghost c0 = pge@;
        let ghost t0 = *transform;
        let ghost paint = transformed_paint(sprite@, t0);
        let w = Fixed::from_u32(sprite.width);
        let h = Fixed::from_u32(sprite.height);
        let z = Fixed::zero();
        let a = transform.forward(z, z);
        let b = transform.forward(w, h);
        let c = transform.forward(z, h);
        let d = transform.forward(w, z);
        let x0 = least5(z, a.0, b.0, c.0, d.0).to_int();
        let x1 = greatest5(z, a.0, b.0, c.0, d.0).to_int();
        let y0 = least5(z, a.1, b.1, c.1, d.1).to_int();
        let y1 = greatest5(z, a.1, b.1, c.1, d.1).to_int();
        transform.invert();
        proof {
            assert(sprite_box(sprite@, t0) == (x0 as int, x1 as int, y0 as int, y1 as int));
            lemma_scan_start(c0, paint, x0 as int, x1 as int, y0 as int);
        }
        if x0 >= x1 || y0 >= y1 {
            proof {
                crate::pge::lemma_painted_nothing(c0, paint);
            }
            return ;
        }
        let mut j: i32 = y0;
        while j < y1
            invariant
                pge.wf(),
                c0.wf(),
                sprite.wf(),
                transform.wf(),
                *transform == t0.inverted(),
                x0 < x1,
                y0 <= j <= y1,
                sprite_box(sprite@, t0) == (x0 as int, x1 as int, y0 as int, y1 as int),
                paint == transformed_paint(sprite@, t0),
                pge@ == c0.painted(scan_of(paint, x0 as int, x1 as int, y0 as int, x0 as int, j as int)),
            decreases y1 - j,
        {
            let mut i: i32 = x0;
            while i < x1
                invariant
                    pge.wf(),
                    c0.wf(),
                    sprite.wf(),
                    transform.wf(),
                    *transform == t0.inverted(),
                    x0 <= i <= x1,
                    y0 <= j < y1,
                    sprite_box(sprite@, t0) == (x0 as int, x1 as int, y0 as int, y1 as int),
                    paint == transformed_paint(sprite@, t0),
                    pge@ == c0.painted(
                        scan_of(paint, x0 as int, x1 as int, y0 as int, i as int, j as int),
                    ),
                decreases x1 - i,
            {
                let o = transform.backward(Fixed::from_int(i), Fixed::from_int(j));
                let texel = sprite.get_pixel(o.0.add(Fixed::half()).to_int(), o.1.add(Fixed::half()).to_int());
                pge.draw(i, j, &texel);
                proof {
                    lemma_scan_step(c0, paint, x0 as int, x1 as int, y0 as int, i as int, j as int);
                }
                i = i + 1;
            }
            proof {
                lemma_scan_row(c0, paint, x0 as int, x1 as int, y0 as int, j as int);
            }
            j = j + 1;
        }
        proof {
            lemma_scan_done(c0, paint, x0 as int, x1 as int, y0 as int, y1 as int);
        }
    }
}

} // verus!
