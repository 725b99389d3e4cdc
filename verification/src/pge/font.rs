//! The font sheet: 96 glyphs of 8 by 8 pixels in 6 rows of 16, read from a
//! PNG image.

use vstd::prelude::*;
use crate::sprite::Mode;
use crate::sprite::Sprite;
use crate::sprite::pixel_of_bytes;

verus! {

/// The error of the image decoder.
#[verifier::external_type_specification]
#[verifier::external_body]
pub struct ExImageError(image::ImageError);

/// Why a font sheet could not be made.
#[derive(Debug, Clone, Copy, PartialEq, Eq, Structural)]
pub enum FontError {
    /// The bytes are no PNG image that the decoder reads.
    Decode,
    /// The image does not hold 128 by 48 pixels of four bytes.
    Size,
}

/// The width of the font sheet in pixels.
pub open spec fn sheet_width() -> int {
    128
}

/// The height of the font sheet in pixels.
pub open spec fn sheet_height() -> int {
    48
}

/// Decodes a PNG image and gives its pixels as bytes.
///
/// Calls `image::load_from_memory_with_format` with the PNG format, and
/// `DynamicImage::as_bytes` on what it gives. Nothing is claimed of the
/// bytes: they are the decoder's, in the sample size and byte order of the
/// image and the machine.
#[verifier::external_body]
fn decode_png(data: &[u8]) -> (r: Result<Vec<u8>, image::ImageError>) {
    match image::load_from_memory_with_format(data, image::ImageFormat::Png) {
        Ok(img) => Ok(img.as_bytes().to_vec()),
        Err(e) => Err(e),
    }
}

/// The font sheet over decoded pixels, four bytes each in the order red,
/// green, blue, alpha: there is one exactly if the bytes are those of 128 by
/// 48 pixels.
pub fn font_sheet_of(raw: &[u8]) -> (r: Option<Sprite>)
    ensures
        r is Some <==> raw@.len() == sheet_width() * sheet_height() * 4,
        r matches Some(s) ==> s.wf() && s.width == sheet_width() && s.height == sheet_height()
            && s.sample_mode == Mode::Normal && s.pixel_data@ == Seq::new(
            (sheet_width() * sheet_height()) as nat,
            |i: int| pixel_of_bytes(raw@, i),
        ),
{
    if raw.len() != 128 * 48 * 4 {
        return None;
    }
    let s = Sprite::new_with_data(128, 48, raw);
    assert(s.pixel_data@ =~= Seq::new(
        (sheet_width() * sheet_height()) as nat,
        |i: int| pixel_of_bytes(raw@, i),
    ));
    Some(s)
}

/// The font sheet for what the decoder gave: its pixels, or nothing where
/// it failed. A failed decoding gives `Decode`; pixels that are not those
/// of 128 by 48 pixels give `Size`; else the sheet over the pixels comes
/// out.
pub fn font_sheet_from(decoded: Result<Vec<u8>, ()>) -> (r: Result<Sprite, FontError>)
    ensures
        decoded is Err ==> r == Err::<Sprite, FontError>(FontError::Decode),
        decoded matches Ok(raw) ==> (if raw@.len() == sheet_width() * sheet_height() * 4 {
            r matches Ok(s) && s.wf() && s.width == sheet_width() && s.height == sheet_height()
                && s.sample_mode == Mode::Normal && s.pixel_data@ == Seq::new(
                (sheet_width() * sheet_height()) as nat,
                |i: int| pixel_of_bytes(raw@, i),
            )
        } else {
            r == Err::<Sprite, FontError>(FontError::Size)
        }),
{
    match decoded {
        Ok(raw) => match font_sheet_of(raw.as_slice()) {
            Some(s) => Ok(s),
            None => Err(FontError::Size),
        },
        Err(_) => Err(FontError::Decode),
    }
}

/// Makes the font sheet from the bytes of a PNG image: the bytes are handed
/// to the decoder as they are, and what it gives goes through
/// [`font_sheet_from`]. Whatever the decoder gives, a sheet that comes out
/// is well formed and 128 by 48 pixels large.
pub fn construct_font_sheet(data: &[u8]) -> (r: Result<Sprite, FontError>)
    ensures
        r matches Ok(s) ==> s.wf() && s.width == sheet_width() && s.height == sheet_height(),
{
    let decoded: Result<Vec<u8>, ()> = match decode_png(data) {
        Ok(raw) => Ok(raw),
        Err(_) => Err(()),
    };
    font_sheet_from(decoded)
}

} // verus!
