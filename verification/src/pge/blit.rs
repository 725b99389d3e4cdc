//! Sprites and text.

use vstd::prelude::*;
use vstd::string::StrSliceExecFns;
use crate::pge::Canvas;
use crate::pge::PGE;
use crate::pge::lemma_painted_nothing;
use crate::pge::lemma_scan_done;
use crate::pge::lemma_scan_row;
use crate::pge::lemma_scan_start;
use crate::pge::lemma_scan_step;
use crate::pge::scan_of;
use crate::pixel::Pixel;
use crate::pixel::PixelMode;
use crate::sprite::Image;
use crate::sprite::Sprite;

verus! {

/// The factor by which a sprite or a glyph is enlarged: `scale`, and `1` for
/// a scale below that.
pub open spec fn zoom(scale: int) -> int {
    if scale > 1 {
        scale
    } else {
        1
    }
}

/// The paint that shows the part of `img` that is `w` wide and `h` high from
/// `(ox, oy)` on, with its corner at `(x, y)` and each pixel `s` by `s`
/// pixels large.
pub open spec fn sprite_paint(
    img: Image,
    x: int,
    y: int,
    ox: int,
    oy: int,
    w: int,
    h: int,
    s: int,
) -> spec_fn(int, int) -> Option<Pixel> {
    |px: int, py: int|
        if 0 <= px - x < w * s && 0 <= py - y < h * s {
            Some(img.get(ox + (px - x) / s, oy + (py - y) / s))
        } else {
            None
        }
}

/// Where the glyph of a character starts in the font sheet, which holds the
/// 96 characters from the space on in rows of 16 glyphs of 8 by 8 pixels.
/// A character beyond ASCII has the last glyph; one before the space has
/// none.
pub open spec fn glyph_origin(c: char) -> Option<(int, int)> {
    let code = c as u32 as int;
    if code < 32 {
        None
    } else if code < 128 {
        Some((((code - 32) % 16) * 8, ((code - 32) / 16) * 8))
    } else {
        Some((120, 40))
    }
}

/// The paint of one glyph with its corner at `(gx, gy)`: the colour where
/// the glyph's pixel in the font has any red, each pixel `s` by `s` large.
/// Positions beyond the reach of a 32-bit coordinate are left out.
pub open spec fn glyph_paint(font: Image, c: char, gx: int, gy: int, s: int, col: Pixel) -> spec_fn(
    int,
    int,
) -> Option<Pixel> {
    |px: int, py: int|
        match glyph_origin(c) {
            Some(origin) => if 0 <= px - gx < 8 * s && 0 <= py - gy < 8 * s && i32::MIN <= px
                <= i32::MAX && i32::MIN <= py <= i32::MAX && font.get(
                origin.0 + (px - gx) / s,
                origin.1 + (py - gy) / s,
            ).r > 0 {
                Some(col)
            } else {
                None
            },
            None => None,
        }
}

/// Where the next glyph goes, relative to the start of the text, after the
/// characters of `text`: a line feed starts a new line of glyphs, every
/// other character moves one glyph to the right.
pub open spec fn cursor(text: Seq<char>, scale: int) -> (int, int)
    decreases text.len(),
{
    if text.len() == 0 {
        (0, 0)
    } else {
        let before = cursor(text.drop_last(), scale);
        if text.last() == '\n' {
            (0, before.1 + 8 * scale)
        } else {
            (before.0 + 8 * scale, before.1)
        }
    }
}

/// The canvas after the characters of `text` have been drawn from `(x, y)`
/// on, one glyph after the other.
pub open spec fn typed(c: Canvas, text: Seq<char>, x: int, y: int, scale: int, col: Pixel) -> Canvas
    decreases text.len(),
{
    if text.len() == 0 {
        c
    } else {
        let before = typed(c, text.drop_last(), x, y, scale, col);
        let at = cursor(text.drop_last(), scale);
        if text.last() == '\n' {
            before
        } else {
            before.painted(glyph_paint(c.font, text.last(), x + at.0, y + at.1, zoom(scale), col))
        }
    }
}

/// The pixel mode that text of the given colour is drawn in.
pub open spec fn text_mode(col: Pixel) -> PixelMode {
    if col.a != 255 {
        PixelMode::Alpha
    } else {
        PixelMode::Mask
    }
}

/// A quotient by a positive divisor lies where the dividend, scaled down,
/// lies.
proof fn lemma_cell(d: int, s: int, n: int)
    requires
        s > 0,
        0 <= d < n * s,
    ensures
        0 <= d / s < n,
{
    vstd::arithmetic::div_mod::lemma_fundamental_div_mod(d, s);
    vstd::arithmetic::div_mod::lemma_mod_bound(d, s);
    let q = d / s;
    assert(0 <= q) by (nonlinear_arith)
        requires
            s > 0,
            0 <= d,
            d == s * q + d % s,
            d % s < s,
    ;
    assert(q < n) by (nonlinear_arith)
        requires
            s > 0,
            d < n * s,
            d == s * q + d % s,
            0 <= d % s,
    ;
}

impl PGE {
    /// Draws the part of a sprite that is `w` wide and `h` high from `(ox,
    /// oy)` on, with its corner at `(x, y)`, each pixel of it `s` by `s`
    /// pixels large.
    fn blit(&mut self, x: i32, y: i32, sprite: &Sprite, ox: i32, oy: i32, w: i64, h: i64, s: i64)
        requires
            old(self).wf(),
            sprite.wf(),
            s >= 1,
            0 <= w,
            0 <= h,
            x + w * s <= i32::MAX,
            y + h * s <= i32::MAX,
        ensures
            final(self).wf(),
            final(self)@ == old(self)@.painted(
                sprite_paint(
                    sprite@,
                    x as int,
                    y as int,
                    ox as int,
                    oy as int,
                    w as int,
                    h as int,
                    s as int,
                ),
            ),
    {
        let ghost c0 = self@;
        let ghost paint = sprite_paint(
            sprite@,
            x as int,
            y as int,
            ox as int,
            oy as int,
            w as int,
            h as int,
            s as int,
        );
        proof {
            assert(0 <= w * s && 0 <= h * s) by (nonlinear_arith)
                requires
                    0 <= w,
                    0 <= h,
                    s >= 1,
            ;
        }
        let x0: i64 = x as i64;
        let x1: i64 = x0 + w * s;
        let y0: i64 = y as i64;
        let y1: i64 = y0 + h * s;
        proof {
            lemma_scan_start(c0, paint, x0 as int, x1 as int, y0 as int);
        }
        let mut py: i64 = y0;
        while py < y1
            invariant
                self.wf(),
                c0.wf(),
                sprite.wf(),
                s >= 1,
                0 <= w,
                0 <= h,
                x0 == x,
                y0 == y,
                x1 == x + w * s,
                y1 == y + h * s,
                x0 <= x1 <= i32::MAX,
                y0 <= py <= y1 <= i32::MAX,
                paint == sprite_paint(
                    sprite@,
                    x as int,
                    y as int,
                    ox as int,
                    oy as int,
                    w as int,
                    h as int,
                    s as int,
                ),
                self@ == c0.painted(scan_of(paint, x0 as int, x1 as int, y0 as int, x0 as int, py as int)),
            decreases y1 - py,
        {
            let mut px: i64 = x0;
            while px < x1
                invariant
                    self.wf(),
                    c0.wf(),
                    sprite.wf(),
                    s >= 1,
                    0 <= w,
                    0 <= h,
                    x0 == x,
                    y0 == y,
                    x1 == x + w * s,
                    y1 == y + h * s,
                    x0 <= px <= x1 <= i32::MAX,
                    y0 <= py < y1 <= i32::MAX,
                    paint == sprite_paint(
                        sprite@,
                        x as int,
                        y as int,
                        ox as int,
                        oy as int,
                        w as int,
                        h as int,
                        s as int,
                    ),
                    self@ == c0.painted(
                        scan_of(paint, x0 as int, x1 as int, y0 as int, px as int, py as int),
                    ),
                decreases x1 - px,
            {
                proof {
                    lemma_cell(px - x, s as int, w as int);
                    lemma_cell(py - y, s as int, h as int);
                }
                let i: i64 = (px - x0) / s;
                let j: i64 = (py - y0) / s;
                let texel = sprite.texel(ox as i64 + i, oy as i64 + j);
                self.draw(px as i32, py as i32, &texel);
                proof {
                    lemma_scan_step(c0, paint, x0 as int, x1 as int, y0 as int, px as int, py as int);
                }
                px = px + 1;
            }
            proof {
                lemma_scan_row(c0, paint, x0 as int, x1 as int, y0 as int, py as int);
            }
            py = py + 1;
        }
        proof {
            lemma_scan_done(c0, paint, x0 as int, x1 as int, y0 as int, y1 as int);
        }
    }

    /// Draws the sprite with its corner at `(x, y)`, each of its pixels
    /// `scale` by `scale` pixels large (a scale of 0 counts as 1).
    pub fn draw_sprite(&mut self, x: i32, y: i32, sprite: &Sprite, scale: usize)
        requires
            old(self).wf(),
            sprite.wf(),
            x + sprite@.width * zoom(scale as int) <= i32::MAX,
            y + sprite@.height * zoom(scale as int) <= i32::MAX,
        ensures
            final(self).wf(),
            final(self)@ == old(self)@.painted(
                sprite_paint(
                    sprite@,
                    x as int,
                    y as int,
                    0,
                    0,
                    sprite@.width as int,
                    sprite@.height as int,
                    zoom(scale as int),
                ),
            ),
    {
        let w: i64 = sprite.width as i64;
        let h: i64 = sprite.height as i64;
        if w == 0 || h == 0 {
            proof {
                assert(sprite@.width * zoom(scale as int) == 0 || sprite@.height * zoom(scale as int)
                    == 0) by (nonlinear_arith)
                    requires
                        sprite@.width == 0 || sprite@.height == 0,
                ;
                lemma_painted_nothing(
                    self@,
                    sprite_paint(
                        sprite@,
                        x as int,
                        y as int,
                        0,
                        0,
                        sprite@.width as int,
                        sprite@.height as int,
                        zoom(scale as int),
                    ),
                );
            }
            return ;
        }
        proof {
            // The sprite has a pixel, so the scale itself fits on the screen.
            assert(zoom(scale as int) <= sprite@.width * zoom(scale as int)) by (nonlinear_arith)
                requires
                    sprite@.width >= 1,
                    zoom(scale as int) >= 1,
            ;
            assert(sprite@.width <= sprite@.width * zoom(scale as int)) by (nonlinear_arith)
                requires
                    sprite@.width >= 1,
                    zoom(scale as int) >= 1,
            ;
            assert(sprite@.height <= sprite@.height * zoom(scale as int)) by (nonlinear_arith)
                requires
                    sprite@.height >= 1,
                    zoom(scale as int) >= 1,
            ;
        }
        let s: i64 = if scale > 1 {
            scale as i64
        } else {
            1
        };
        self.blit(x, y, sprite, 0, 0, w, h, s);
    }

    /// Draws the part of the sprite that is `w` wide and `h` high from `(ox,
    /// oy)` on, with its corner at `(x, y)`, each pixel `scale` by `scale`
    /// pixels large (a scale of 0 counts as 1). A part without width or
    /// height draws nothing.
    pub fn draw_parital_sprite(
        &mut self,
        x: i32,
        y: i32,
        sprite: &Sprite,
        ox: i32,
        oy: i32,
        w: i32,
        h: i32,
        scale: usize,
    )
        requires
            old(self).wf(),
            sprite.wf(),
            w > 0 && h > 0 ==> x + w * zoom(scale as int) <= i32::MAX && y + h * zoom(scale as int)
                <= i32::MAX,
        ensures
            final(self).wf(),
            final(self)@ == old(self)@.painted(
                sprite_paint(
                    sprite@,
                    x as int,
                    y as int,
                    ox as int,
                    oy as int,
                    vstd::math::max(w as int, 0),
                    vstd::math::max(h as int, 0),
                    zoom(scale as int),
                ),
            ),
    {
        if w <= 0 || h <= 0 {
            proof {
                let ww = vstd::math::max(w as int, 0);
                let hh = vstd::math::max(h as int, 0);
                assert(ww * zoom(scale as int) == 0 || hh * zoom(scale as int) == 0)
                    by (nonlinear_arith)
                    requires
                        ww == 0 || hh == 0,
                ;
                lemma_painted_nothing(
                    self@,
                    sprite_paint(
                        sprite@,
                        x as int,
                        y as int,
                        ox as int,
                        oy as int,
                        ww,
                        hh,
                        zoom(scale as int),
                    ),
                );
            }
            return ;
        }
        proof {
            assert(zoom(scale as int) <= w * zoom(scale as int)) by (nonlinear_arith)
                requires
                    w >= 1,
                    zoom(scale as int) >= 1,
            ;
        }
        let s: i64 = if scale > 1 {
            scale as i64
        } else {
            1
        };
        self.blit(x, y, sprite, ox, oy, w as i64, h as i64, s);
    }

    /// Draws one glyph with its corner at `(gx, gy)`.
    fn draw_glyph(&mut self, c: char, gx: i128, gy: i128, s: i64, col: &Pixel)
        requires
            old(self).wf(),
            1 <= s <= i32::MAX,
            -0x10_0000_0000_0000_0000_0000_0000 <= gx <= 0x10_0000_0000_0000_0000_0000_0000,
            -0x10_0000_0000_0000_0000_0000_0000 <= gy <= 0x10_0000_0000_0000_0000_0000_0000,
        ensures
            final(self).wf(),
            final(self)@ == old(self)@.painted(
                glyph_paint(old(self)@.font, c, gx as int, gy as int, s as int, *col),
            ),
    {
        let ghost c0 = self@;
        let ghost paint = glyph_paint(c0.font, c, gx as int, gy as int, s as int, *col);
        let code: u32 = c as u32;
        if code < 32 {
            proof {
                lemma_painted_nothing(c0, paint);
            }
            return ;
        }
        let (ox, oy): (i32, i32) = if code < 128 {
            ((((code - 32) % 16) * 8) as i32, (((code - 32) / 16) * 8) as i32)
        } else {
            (120, 40)
        };
        assert(glyph_origin(c) == Some((ox as int, oy as int)));
        let low: i128 = -0x8000_0000;
        let high: i128 = 0x8000_0000;
        let x0: i128 = if gx < low {
            low
        } else {
            gx
        };
        let x1: i128 = if gx + 8 * (s as i128) > high {
            high
        } else {
            gx + 8 * (s as i128)
        };
        let y0: i128 = if gy < low {
            low
        } else {
            gy
        };
        let y1: i128 = if gy + 8 * (s as i128) > high {
            high
        } else {
            gy + 8 * (s as i128)
        };
        if x0 >= x1 || y0 >= y1 {
            proof {
                lemma_painted_nothing(c0, paint);
            }
            return ;
        }
        proof {
            lemma_scan_start(c0, paint, x0 as int, x1 as int, y0 as int);
        }
        let mut py: i128 = y0;
        while py < y1
            invariant
                self.wf(),
                c0.wf(),
                self@.font == c0.font,
                1 <= s <= i32::MAX,
                glyph_origin(c) == Some((ox as int, oy as int)),
                0 <= ox <= 120,
                0 <= oy <= 40,
                -0x8000_0000 <= x0 < x1 <= 0x8000_0000,
                -0x8000_0000 <= y0 <= py <= y1 <= 0x8000_0000,
                gx <= x0,
                x1 <= gx + 8 * s,
                gy <= y0,
                y1 <= gy + 8 * s,
                paint == glyph_paint(c0.font, c, gx as int, gy as int, s as int, *col),
                self@ == c0.painted(scan_of(paint, x0 as int, x1 as int, y0 as int, x0 as int, py as int)),
            decreases y1 - py,
        {
            let mut px: i128 = x0;
            while px < x1
                invariant
                    self.wf(),
                    c0.wf(),
                    self@.font == c0.font,
                    1 <= s <= i32::MAX,
                    glyph_origin(c) == Some((ox as int, oy as int)),
                    0 <= ox <= 120,
                    0 <= oy <= 40,
                    -0x8000_0000 <= x0 <= px <= x1 <= 0x8000_0000,
                    -0x8000_0000 <= y0 <= py < y1 <= 0x8000_0000,
                    gx <= x0,
                    x1 <= gx + 8 * s,
                    gy <= y0,
                    y1 <= gy + 8 * s,
                    paint == glyph_paint(c0.font, c, gx as int, gy as int, s as int, *col),
                    self@ == c0.painted(
                        scan_of(paint, x0 as int, x1 as int, y0 as int, px as int, py as int),
                    ),
                decreases x1 - px,
            {
                proof {
                    lemma_cell(px - gx, s as int, 8);
                    lemma_cell(py - gy, s as int, 8);
                }
                let i: i128 = (px - gx) / (s as i128);
                let j: i128 = (py - gy) / (s as i128);
                let texel = self.font.get_pixel(ox + (i as i32), oy + (j as i32));
                if texel.r > 0 {
                    self.draw(px as i32, py as i32, col);
                }
                proof {
                    lemma_scan_step(c0, paint, x0 as int, x1 as int, y0 as int, px as int, py as int);
                }
                px = px + 1;
            }
            proof {
                lemma_scan_row(c0, paint, x0 as int, x1 as int, y0 as int, py as int);
            }
            py = py + 1;
        }
        proof {
            lemma_scan_done(c0, paint, x0 as int, x1 as int, y0 as int, y1 as int);
        }
    }

    /// Draws text in the 8 by 8 font from `(x, y)` on, each font pixel
    /// `scale` by `scale` pixels large (a scale below 1 draws like 1, and
    /// moves on by eight times the scale as given). A line feed starts a new
    /// line of glyphs. The pixel mode is set to `Mask` for an opaque colour,
    /// to `Alpha` for any other, and is left so.
    pub fn draw_string(&mut self, x: i32, y: i32, text: &str, col: &Pixel, scale: i32)
        requires
            old(self).wf(),
        ensures
            final(self).wf(),
            final(self)@ == typed(
                Canvas { pixel_mode: text_mode(*col), ..old(self)@ },
                text@,
                x as int,
                y as int,
                scale as int,
                *col,
            ),
    {
        if col.a != 255 {
            self.pixel_mode = PixelMode::Alpha;
        } else {
            self.pixel_mode = PixelMode::Mask;
        }
        let ghost c1 = self@;
        let n: usize = text.unicode_len();
        let s: i64 = if scale > 1 {
            scale as i64
        } else {
            1
        };
        let mut sx: i128 = 0;
        let mut sy: i128 = 0;
        let mut k: usize = 0;
        proof {
            assert(text@.take(0) =~= Seq::<char>::empty());
        }
        while k < n
            invariant
                self.wf(),
                c1.wf(),
                n == text@.len(),
                k <= n,
                s == zoom(scale as int),
                self@.font == c1.font,
                (sx as int, sy as int) == cursor(text@.take(k as int), scale as int),
                -(k * 0x4_0000_0000) <= sx <= k * 0x4_0000_0000,
                -(k * 0x4_0000_0000) <= sy <= k * 0x4_0000_0000,
                self@ == typed(c1, text@.take(k as int), x as int, y as int, scale as int, *col),
            decreases n - k,
        {
            let c = text.get_char(k);
            proof {
                assert(text@.take(k + 1).drop_last() =~= text@.take(k as int));
                assert(text@.take(k + 1).last() == c);
                assert(k * 0x4_0000_0000 <= 0x4_0000_0000_0000_0000_0000_0000) by (nonlinear_arith)
                    requires
                        0 <= k <= 0xffff_ffff_ffff_ffff,
                ;
            }
            if c == '\n' {
                sx = 0;
                sy = sy + 8 * (scale as i128);
            } else {
                self.draw_glyph(c, (x as i128) + sx, (y as i128) + sy, s, col);
                sx = sx + 8 * (scale as i128);
            }
            k = k + 1;
        }
        assert(text@.take(n as int) =~= text@);
    }
}

} // verus!
