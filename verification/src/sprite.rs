//! Sprites: rectangular images held row by row.

use vstd::prelude::*;
use crate::arith::scaled_index;
use crate::arith::trunc_div;
use crate::fixed::Fixed;
use crate::pixel::Pixel;

verus! {

/// How a sprite is sampled outside its bounds.
#[derive(Debug, Clone, Copy, PartialEq, Eq, Structural)]
pub enum Mode {
    Normal,
    Periodic,
    Clamp,
}

/// Mirroring applied when a sprite is drawn.
#[derive(Debug, Clone, Copy, PartialEq, Eq, Structural)]
pub enum Flip {
    Unflipped,
    Horizontal,
    Vertical,
}

/// The mathematical image a sprite stands for: a pixel for every position
/// `(x, y)` with `0 <= x < width` and `0 <= y < height`.
pub struct Image {
    pub width: nat,
    pub height: nat,
    pub mode: Mode,
    pub at: Map<(int, int), Pixel>,
}

impl Image {
    /// Whether `(x, y)` is a position of the image.
    pub open spec fn contains(self, x: int, y: int) -> bool {
        0 <= x < self.width && 0 <= y < self.height
    }

    /// The image has a pixel exactly at its positions.
    pub open spec fn wf(self) -> bool {
        forall|k: (int, int)| self.at.dom().contains(k) <==> self.contains(k.0, k.1)
    }

    /// The pixel at `(x, y)`; transparent outside the image.
    pub open spec fn get(self, x: int, y: int) -> Pixel {
        if self.contains(x, y) {
            self.at[(x, y)]
        } else {
            Pixel::blank()
        }
    }

    /// The image with `p` at `(x, y)`; the same image where `(x, y)` is outside.
    pub open spec fn set(self, x: int, y: int, p: Pixel) -> Image {
        if self.contains(x, y) {
            Image { at: self.at.insert((x, y), p), ..self }
        } else {
            self
        }
    }

    /// The image of the same size with `p` everywhere.
    pub open spec fn filled(self, p: Pixel) -> Image {
        Image { at: Map::new(|k: (int, int)| self.contains(k.0, k.1), |k: (int, int)| p), ..self }
    }
}

/// A rectangular image held row by row.
#[derive(Debug)]
pub struct Sprite {
    pub width: u32,
    pub height: u32,
    pub sample_mode: Mode,
    pub pixel_data: Vec<Pixel>,
}

impl View for Sprite {
    type V = Image;

    open spec fn view(&self) -> Image {
        Image {
            width: self.width as nat,
            height: self.height as nat,
            mode: self.sample_mode,
            at: Map::new(
                |k: (int, int)| 0 <= k.0 < self.width && 0 <= k.1 < self.height,
                |k: (int, int)| self.pixel_data@[k.1 * self.width + k.0],
            ),
        }
    }
}

/// Positions inside a `width` by `height` grid have distinct row-major indices
/// below `width * height`.
pub proof fn lemma_index(width: int, height: int, x: int, y: int)
    requires
        0 <= x < width,
        0 <= y < height,
    ensures
        0 <= y * width,
        0 <= y * width + x < width * height,
        (y * width + x) / width == y,
        (y * width + x) % width == x,
{
    assert(0 <= y * width <= (height - 1) * width) by (nonlinear_arith)
        requires
            0 <= y <= height - 1,
            0 < width,
    ;
    assert((height - 1) * width == height * width - width) by (nonlinear_arith);
    assert(height * width == width * height) by (nonlinear_arith);
    vstd::arithmetic::div_mod::lemma_fundamental_div_mod_converse(y * width + x, width, y, x);
}

/// Two positions of a grid with the same row-major index are the same position.
pub proof fn lemma_index_injective(width: int, x1: int, y1: int, x2: int, y2: int)
    requires
        0 <= x1 < width,
        0 <= x2 < width,
        y1 * width + x1 == y2 * width + x2,
    ensures
        x1 == x2,
        y1 == y2,
{
    vstd::arithmetic::div_mod::lemma_fundamental_div_mod_converse(y1 * width + x1, width, y1, x1);
    vstd::arithmetic::div_mod::lemma_fundamental_div_mod_converse(y2 * width + x2, width, y2, x2);
}

/// A number as a channel value: rounded toward zero and held between 0 and
/// 255.
pub open spec fn channel_of(v: Fixed) -> u8 {
    let i = v.to_int();
    if i < 0 {
        0
    } else if i > 255 {
        255
    } else {
        i as u8
    }
}

/// One channel of four pixels mixed: the upper two by the horizontal
/// shares, the lower two likewise, and the two results by the vertical
/// shares.
pub open spec fn mixed4(
    c1: u8,
    c2: u8,
    c3: u8,
    c4: u8,
    u_ratio: Fixed,
    u_opposite: Fixed,
    v_ratio: Fixed,
    v_opposite: Fixed,
) -> u8 {
    channel_of(
        Fixed::from_int(c1 as i32).mul(u_opposite).add(Fixed::from_int(c2 as i32).mul(u_ratio)).mul(
            v_opposite,
        ).add(
            Fixed::from_int(c3 as i32).mul(u_opposite).add(Fixed::from_int(c4 as i32).mul(u_ratio)).mul(
                v_ratio,
            ),
        ),
    )
}

/// The bilinear sample of an image at the normalised coordinate `(u, v)`.
///
/// The coordinate is scaled by the image's size and moved half a pixel, so
/// that whole numbers fall on pixel centres. The pixel at its floor and the
/// three to the right, below, and right below it are mixed by the fractions
/// left; columns and rows before the first are taken as the first, those
/// beyond the last as the last.
pub open spec fn bilinear(img: Image, u: Fixed, v: Fixed) -> Pixel {
    let us = u.mul(Fixed::from_u32(img.width as u32)).sub(Fixed::half());
    let vs = v.mul(Fixed::from_u32(img.height as u32)).sub(Fixed::half());
    let x = us.floor() as int;
    let y = vs.floor() as int;
    let u_ratio = us.sub(Fixed::from_int(x as i32));
    let v_ratio = vs.sub(Fixed::from_int(y as i32));
    let u_opposite = Fixed::one().sub(u_ratio);
    let v_opposite = Fixed::one().sub(v_ratio);
    let x_lo = vstd::math::max(x, 0);
    let y_lo = vstd::math::max(y, 0);
    let x_hi = vstd::math::min(x + 1, img.width - 1);
    let y_hi = vstd::math::min(y + 1, img.height - 1);
    let p1 = img.get(x_lo, y_lo);
    let p2 = img.get(x_hi, y_lo);
    let p3 = img.get(x_lo, y_hi);
    let p4 = img.get(x_hi, y_hi);
    Pixel {
        r: mixed4(p1.r, p2.r, p3.r, p4.r, u_ratio, u_opposite, v_ratio, v_opposite),
        g: mixed4(p1.g, p2.g, p3.g, p4.g, u_ratio, u_opposite, v_ratio, v_opposite),
        b: mixed4(p1.b, p2.b, p3.b, p4.b, u_ratio, u_opposite, v_ratio, v_opposite),
        a: 255,
    }
}

/// Computes [`mixed4`].
fn mix4(
    c1: u8,
    c2: u8,
    c3: u8,
    c4: u8,
    u_ratio: Fixed,
    u_opposite: Fixed,
    v_ratio: Fixed,
    v_opposite: Fixed,
) -> (m: u8)
    ensures
        m == mixed4(c1, c2, c3, c4, u_ratio, u_opposite, v_ratio, v_opposite),
{
    let upper = Fixed::from_int(c1 as i32).mul(u_opposite).add(Fixed::from_int(c2 as i32).mul(u_ratio));
    let lower = Fixed::from_int(c3 as i32).mul(u_opposite).add(Fixed::from_int(c4 as i32).mul(u_ratio));
    let i = upper.mul(v_opposite).add(lower.mul(v_ratio)).to_int();
    if i < 0 {
        0
    } else if i > 255 {
        255
    } else {
        i as u8
    }
}

/// The pixel with its red and blue channels exchanged.
pub open spec fn swapped(p: Pixel) -> Pixel {
    Pixel { r: p.b, g: p.g, b: p.r, a: p.a }
}

/// The pixel that four consecutive bytes starting at `4 * i` spell, in the
/// order red, green, blue, alpha.
pub open spec fn pixel_of_bytes(data: Seq<u8>, i: int) -> Pixel {
    Pixel { r: data[4 * i], g: data[4 * i + 1], b: data[4 * i + 2], a: data[4 * i + 3] }
}

impl Sprite {
    /// The sprite holds exactly one pixel for each of its positions.
    pub open spec fn wf(&self) -> bool {
        self.pixel_data@.len() == self.width * self.height
    }

    /// A transparent sprite of the given size.
    pub fn new(width: u32, height: u32) -> (s: Sprite)
        requires
            width * height <= u32::MAX,
        ensures
            s.wf(),
            s.width == width,
            s.height == height,
            s.sample_mode == Mode::Normal,
            s.pixel_data@ == Seq::new((width * height) as nat, |i: int| Pixel::blank()),
    {
        let n: u32 = width * height;
        let pixel_data = vec![Pixel::rgba(0, 0, 0, 0); n as usize];
        assert(pixel_data@ =~= Seq::new((width * height) as nat, |i: int| Pixel::blank()));
        Sprite { width, height, sample_mode: Mode::Normal, pixel_data }
    }

    /// A sprite over raw bytes, four per pixel in the order red, green, blue,
    /// alpha. Bytes after the last whole pixel are dropped. The result is
    /// well formed exactly when the bytes hold `width * height` pixels.
    pub fn new_with_data(width: u32, height: u32, data: &[u8]) -> (s: Sprite)
        ensures
            s.width == width,
            s.height == height,
            s.sample_mode == Mode::Normal,
            s.pixel_data@ == Seq::new(data@.len() / 4, |i: int| pixel_of_bytes(data@, i)),
    {
        let n: usize = data.len() / 4;
        let mut pixel_data: Vec<Pixel> = Vec::new();
        let mut i: usize = 0;
        while i < n
            invariant
                n == data@.len() / 4,
                data@.len() <= usize::MAX,
                i <= n,
                pixel_data@ == Seq::new(i as nat, |k: int| pixel_of_bytes(data@, k)),
            decreases n - i,
        {
            assert(4 * i + 3 < data@.len());
            let p = Pixel { r: data[4 * i], g: data[4 * i + 1], b: data[4 * i + 2], a: data[4 * i + 3] };
            pixel_data.push(p);
            i = i + 1;
            assert(pixel_data@ =~= Seq::new(i as nat, |k: int| pixel_of_bytes(data@, k)));
        }
        Sprite { width, height, sample_mode: Mode::Normal, pixel_data }
    }

    /// Exchanges the red and blue channels of every pixel.
    pub fn from_rgba_to_bgra(&mut self)
        ensures
            final(self).width == old(self).width,
            final(self).height == old(self).height,
            final(self).sample_mode == old(self).sample_mode,
            final(self).pixel_data@ == Seq::new(
                old(self).pixel_data@.len(),
                |i: int| swapped(old(self).pixel_data@[i]),
            ),
    {
        let n: usize = self.pixel_data.len();
        let mut i: usize = 0;
        while i < n
            invariant
                n == old(self).pixel_data@.len(),
                i <= n,
                self.width == old(self).width,
                self.height == old(self).height,
                self.sample_mode == old(self).sample_mode,
                self.pixel_data@.len() == n,
                forall|k: int| 0 <= k < i ==> self.pixel_data@[k] == swapped(old(self).pixel_data@[k]),
                forall|k: int| i <= k < n ==> self.pixel_data@[k] == old(self).pixel_data@[k],
            decreases n - i,
        {
            let mut p = self.pixel_data[i];
            p.from_rgba_to_bgra();
            self.pixel_data.set(i, p);
            i = i + 1;
        }
        assert(self.pixel_data@ =~= Seq::new(
            old(self).pixel_data@.len(),
            |i: int| swapped(old(self).pixel_data@[i]),
        ));
    }

    /// The pixel at `(x, y)`; transparent outside the sprite.
    pub fn get_pixel(&self, x: i32, y: i32) -> (p: Pixel)
        requires
            self.wf(),
        ensures
            p == self@.get(x as int, y as int),
    {
        self.texel(x as i64, y as i64)
    }

    /// The pixel at `(x, y)`, for coordinates of any size.
    pub(crate) fn texel(&self, x: i64, y: i64) -> (p: Pixel)
        requires
            self.wf(),
        ensures
            p == self@.get(x as int, y as int),
    {
        if x >= 0 && y >= 0 && x < self.width as i64 && y < self.height as i64 {
            proof {
                lemma_index(self.width as int, self.height as int, x as int, y as int);
                assert(self.pixel_data@.len() == self.pixel_data.len());
                assert(y * self.width <= y * self.width + x);
            }
            let i: usize = (y as usize) * (self.width as usize) + (x as usize);
            self.pixel_data[i]
        } else {
            Pixel::rgba(0, 0, 0, 0)
        }
    }

    /// Puts `p` at `(x, y)`; does nothing outside the sprite.
    pub fn set_pixel(&mut self, x: i32, y: i32, p: &Pixel)
        requires
            old(self).wf(),
        ensures
            final(self).wf(),
            final(self)@ == old(self)@.set(x as int, y as int, *p),
    {
        if x >= 0 && y >= 0 && (x as u32) < self.width && (y as u32) < self.height {
            proof {
                lemma_index(self.width as int, self.height as int, x as int, y as int);
                assert(self.pixel_data@.len() == self.pixel_data.len());
                assert(y * self.width <= y * self.width + x);
            }
            let i: usize = (y as usize) * (self.width as usize) + (x as usize);
            self.pixel_data.set(i, *p);
            proof {
                let w = self.width as int;
                assert forall|k: (int, int)| 0 <= k.0 < self.width && 0 <= k.1 < self.height implies
                    self.pixel_data@[k.1 * w + k.0] == (if k == (x as int, y as int) {
                        *p
                    } else {
                        old(self).pixel_data@[k.1 * w + k.0]
                    }) by {
                    lemma_index(w, self.height as int, k.0, k.1);
                    if k.1 * w + k.0 == y * w + x {
                        lemma_index_injective(w, k.0, k.1, x as int, y as int);
                    }
                }
                assert(self@.at =~= old(self)@.set(x as int, y as int, *p).at);
            }
        } else {
            assert(self@.at =~= old(self)@.at);
        }
    }

    /// Puts `p` at every position.
    pub fn fill(&mut self, p: Pixel)
        requires
            old(self).wf(),
        ensures
            final(self).wf(),
            final(self)@ == old(self)@.filled(p),
    {
        let n: usize = self.pixel_data.len();
        let mut i: usize = 0;
        while i < n
            invariant
                i <= n,
                self.width == old(self).width,
                self.height == old(self).height,
                self.sample_mode == old(self).sample_mode,
                self.pixel_data@.len() == n,
                n == self.width * self.height,
                forall|k: int| 0 <= k < i ==> self.pixel_data@[k] == p,
            decreases n - i,
        {
            self.pixel_data.set(i, p);
            i = i + 1;
        }
        proof {
            let w = self.width as int;
            assert forall|k: (int, int)| 0 <= k.0 < self.width && 0 <= k.1 < self.height implies
                self.pixel_data@[k.1 * w + k.0] == p by {
                lemma_index(w, self.height as int, k.0, k.1);
            }
            assert(self@.at =~= old(self)@.filled(p).at);
        }
    }

    /// Drops every pixel: the sprite keeps its nominal size and holds no
    /// data, so it is well formed afterwards only if that size is empty.
    /// The colour is not used; [`Sprite::fill`] paints.
    pub fn clear(&mut self, p: Pixel)
        ensures
            final(self).width == old(self).width,
            final(self).height == old(self).height,
            final(self).sample_mode == old(self).sample_mode,
            final(self).pixel_data@ == Seq::<Pixel>::empty(),
    {
        self.pixel_data.clear();
    }

    /// The pixels, row by row.
    pub fn get_data(&self) -> (data: &[Pixel])
        ensures
            data@ == self.pixel_data@,
    {
        self.pixel_data.as_slice()
    }

    /// Nearest-neighbour lookup at the normalised coordinate `(x, y)`, which
    /// runs from zero to one across the sprite: the coordinate is scaled by
    /// the sprite's size and rounded toward zero. Transparent where that
    /// falls outside the sprite.
    pub fn sample(&self, x: Fixed, y: Fixed) -> (p: Pixel)
        requires
            self.wf(),
        ensures
            p == self@.get(
                x.mul(Fixed::from_u32(self.width)).to_int() as int,
                y.mul(Fixed::from_u32(self.height)).to_int() as int,
            ),
    {
        let sx = x.mul(Fixed::from_u32(self.width)).to_int();
        let sy = y.mul(Fixed::from_u32(self.height)).to_int();
        self.get_pixel(sx, sy)
    }

    /// Bilinear lookup at the normalised coordinate `(u, v)`: the four
    /// pixels about the coordinate, those beyond the sprite's sides taken
    /// from the side, are mixed by how near the coordinate is to each. The
    /// result is opaque.
    pub fn sample_bl(&self, u: Fixed, v: Fixed) -> (p: Pixel)
        requires
            self.wf(),
        ensures
            p == bilinear(self@, u, v),
    {
        let us = u.mul(Fixed::from_u32(self.width)).sub(Fixed::half());
        let vs = v.mul(Fixed::from_u32(self.height)).sub(Fixed::half());
        let x = us.floor();
        let y = vs.floor();
        let u_ratio = us.sub(Fixed::from_int(x));
        let v_ratio = vs.sub(Fixed::from_int(y));
        let u_opposite = Fixed::one().sub(u_ratio);
        let v_opposite = Fixed::one().sub(v_ratio);
        let x_lo: i64 = if x < 0 {
            0
        } else {
            x as i64
        };
        let y_lo: i64 = if y < 0 {
            0
        } else {
            y as i64
        };
        let x_hi: i64 = if (x as i64) + 1 < (self.width as i64) - 1 {
            (x as i64) + 1
        } else {
            (self.width as i64) - 1
        };
        let y_hi: i64 = if (y as i64) + 1 < (self.height as i64) - 1 {
            (y as i64) + 1
        } else {
            (self.height as i64) - 1
        };
        let p1 = self.texel(x_lo, y_lo);
        let p2 = self.texel(x_hi, y_lo);
        let p3 = self.texel(x_lo, y_hi);
        let p4 = self.texel(x_hi, y_hi);
        Pixel {
            r: mix4(p1.r, p2.r, p3.r, p4.r, u_ratio, u_opposite, v_ratio, v_opposite),
            g: mix4(p1.g, p2.g, p3.g, p4.g, u_ratio, u_opposite, v_ratio, v_opposite),
            b: mix4(p1.b, p2.b, p3.b, p4.b, u_ratio, u_opposite, v_ratio, v_opposite),
            a: 255,
        }
    }

    /// Nearest-neighbour lookup at the normalised coordinate `(u / w, v / w)`:
    /// the coordinate is scaled by the sprite's size and rounded toward zero,
    /// with no rounding before that. Transparent where that falls outside the
    /// sprite, and where `w` is zero. The three numbers may be as large as
    /// 97 bits hold.
    pub fn sample_ratio(&self, u: i128, v: i128, w: i128) -> (p: Pixel)
        requires
            self.wf(),
            -0x1_0000_0000_0000_0000_0000_0000 <= u <= 0x1_0000_0000_0000_0000_0000_0000,
            -0x1_0000_0000_0000_0000_0000_0000 <= v <= 0x1_0000_0000_0000_0000_0000_0000,
            -0x1_0000_0000_0000_0000_0000_0000 <= w <= 0x1_0000_0000_0000_0000_0000_0000,
        ensures
            w != 0 ==> p == self@.get(
                trunc_div(u * self.width, w as int),
                trunc_div(v * self.height, w as int),
            ),
            w == 0 ==> p == Pixel::blank(),
    {
        if w == 0 {
            return Pixel::rgba(0, 0, 0, 0);
        }
        match (scaled_index(u, self.width, w), scaled_index(v, self.height, w)) {
            (Some(i), Some(j)) => self.texel(i as i64, j as i64),
            _ => Pixel::rgba(0, 0, 0, 0),
        }
    }
}

impl Clone for Sprite {
    fn clone(&self) -> (s: Sprite)
        ensures
            s.width == self.width,
            s.height == self.height,
            s.sample_mode == self.sample_mode,
            s.pixel_data@ == self.pixel_data@,
    {
        let pixel_data = self.pixel_data.clone();
        assert(pixel_data@ =~= self.pixel_data@);
        Sprite {
            width: self.width,
            height: self.height,
            sample_mode: self.sample_mode,
            pixel_data,
        }
    }
}

} // verus!
