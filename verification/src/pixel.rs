//! RGBA pixels and the modes in which they are written to a surface.

use vstd::prelude::*;

verus! {

/// One RGBA pixel, eight bits per channel.
#[derive(Debug, Clone, Copy, PartialEq, Eq, Structural)]
pub struct Pixel {
    pub r: u8,
    pub g: u8,
    pub b: u8,
    pub a: u8,
}

/// How a pixel handed to the surface combines with the pixel already there.
#[derive(Debug, Clone, Copy, PartialEq, Eq, Structural)]
pub enum PixelMode {
    /// The new pixel replaces the old one.
    Normal,
    /// The new pixel replaces the old one only where it is fully opaque.
    Mask,
    /// The new pixel is mixed into the old one by its alpha and the blend factor.
    Alpha,
    /// The surface is left alone: a custom hook of the caller decides.
    Custom,
}

impl Pixel {
    /// Transparent black: what a read outside an image gives.
    pub open spec fn blank() -> Pixel {
        Pixel { r: 0, g: 0, b: 0, a: 0 }
    }

    /// An opaque pixel.
    pub fn rgb(r: u8, g: u8, b: u8) -> (p: Pixel)
        ensures
            p == (Pixel { r, g, b, a: 255 }),
    {
        Pixel { r, g, b, a: 255 }
    }

    /// A pixel with the given alpha.
    pub fn rgba(r: u8, g: u8, b: u8, a: u8) -> (p: Pixel)
        ensures
            p == (Pixel { r, g, b, a }),
    {
        Pixel { r, g, b, a }
    }

    /// Swaps the red and blue channels in place.
    pub fn from_rgba_to_bgra(&mut self)
        ensures
            *final(self) == (Pixel {
                r: old(self).b,
                g: old(self).g,
                b: old(self).r,
                a: old(self).a,
            }),
    {
        let r = self.r;
        self.r = self.b;
        self.b = r;
    }
}

/// One channel of an alpha mix: `src` weighted by `weight / 65025`, `dst` by the
/// rest, rounded down. `weight` is the product of the source alpha and the
/// blend factor, each out of 255.
pub open spec fn mix_channel(weight: int, src: u8, dst: u8) -> int {
    (weight * src + (65025 - weight) * dst) / 65025
}

/// The pixel left behind when `src` is written over `dst`.
pub open spec fn blend(mode: PixelMode, factor: u8, dst: Pixel, src: Pixel) -> Pixel {
    match mode {
        PixelMode::Normal => src,
        PixelMode::Mask => if src.a == 255 {
            src
        } else {
            dst
        },
        PixelMode::Alpha => Pixel {
            r: mix_channel(src.a * factor, src.r, dst.r) as u8,
            g: mix_channel(src.a * factor, src.g, dst.g) as u8,
            b: mix_channel(src.a * factor, src.b, dst.b) as u8,
            a: 255,
        },
        PixelMode::Custom => dst,
    }
}

/// Whether a write of `src` replaces whatever pixel is there: always in
/// `Normal` mode; in `Mask` mode if `src` is opaque; in `Alpha` mode if `src`
/// is opaque and the blend factor is full.
pub open spec fn overwrites(mode: PixelMode, factor: u8, src: Pixel) -> bool {
    match mode {
        PixelMode::Normal => true,
        PixelMode::Mask => src.a == 255,
        PixelMode::Alpha => src.a == 255 && factor == 255,
        PixelMode::Custom => false,
    }
}

/// A write that overwrites leaves exactly the pixel written.
pub proof fn lemma_overwrites(mode: PixelMode, factor: u8, dst: Pixel, src: Pixel)
    requires
        overwrites(mode, factor, src),
    ensures
        blend(mode, factor, dst, src) == src,
{
    if mode == PixelMode::Alpha {
        assert(src.a * factor == 65025) by (nonlinear_arith)
            requires
                src.a == 255,
                factor == 255,
        ;
        assert((65025 * src.r + 0 * dst.r) / 65025 == src.r as int) by (nonlinear_arith);
        assert((65025 * src.g + 0 * dst.g) / 65025 == src.g as int) by (nonlinear_arith);
        assert((65025 * src.b + 0 * dst.b) / 65025 == src.b as int) by (nonlinear_arith);
    }
}

/// A mix of two channel values never leaves the channel's range.
pub proof fn lemma_mix_channel_bounds(weight: int, src: u8, dst: u8)
    requires
        0 <= weight <= 65025,
    ensures
        0 <= mix_channel(weight, src, dst) <= 255,
{
    assert(0 <= weight * src <= weight * 255) by (nonlinear_arith)
        requires
            0 <= weight,
            0 <= src <= 255,
    ;
    assert(0 <= (65025 - weight) * dst <= (65025 - weight) * 255) by (nonlinear_arith)
        requires
            0 <= 65025 - weight,
            0 <= dst <= 255,
    ;
}

fn mix(weight: u32, src: u8, dst: u8) -> (m: u8)
    requires
        weight <= 65025,
    ensures
        m == mix_channel(weight as int, src, dst),
{
    proof {
        lemma_mix_channel_bounds(weight as int, src, dst);
        assert(0 <= weight * src <= weight * 255) by (nonlinear_arith)
            requires
                0 <= weight,
                0 <= src <= 255,
        ;
        assert(0 <= (65025 - weight) * dst <= (65025 - weight) * 255) by (nonlinear_arith)
            requires
                0 <= 65025 - weight,
                0 <= dst <= 255,
        ;
    }
    let n: u32 = weight * (src as u32) + (65025 - weight) * (dst as u32);
    (n / 65025) as u8
}

/// Computes [`blend`].
pub fn blend_pixels(mode: PixelMode, factor: u8, dst: Pixel, src: Pixel) -> (p: Pixel)
    ensures
        p == blend(mode, factor, dst, src),
{
    match mode {
        PixelMode::Normal => src,
        PixelMode::Mask => if src.a == 255 {
            src
        } else {
            dst
        },
        PixelMode::Alpha => {
            assert(0 <= src.a * factor <= 65025) by (nonlinear_arith)
                requires
                    0 <= src.a <= 255,
                    0 <= factor <= 255,
            ;
            let weight: u32 = (src.a as u32) * (factor as u32);
            Pixel {
                r: mix(weight, src.r, dst.r),
                g: mix(weight, src.g, dst.g),
                b: mix(weight, src.b, dst.b),
                a: 255,
            }
        },
        PixelMode::Custom => dst,
    }
}

} // verus!
