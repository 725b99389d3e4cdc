use pge::pge::font::construct_font_sheet;
use pge::pge::font::font_sheet_from;
use pge::pge::font::font_sheet_of;
use pge::pge::font::FontError;
use pge::pixel::Pixel;

fn png(width: u32, height: u32, raw: Vec<u8>) -> Vec<u8> {
    let img = image::RgbaImage::from_raw(width, height, raw).unwrap();
    let mut out = Vec::new();
    image::DynamicImage::ImageRgba8(img)
        .write_to(&mut std::io::Cursor::new(&mut out), image::ImageFormat::Png)
        .unwrap();
    out
}

fn sheet_bytes() -> Vec<u8> {
    let mut raw = Vec::new();
    for y in 0..48u32 {
        for x in 0..128u32 {
            raw.extend_from_slice(&[x as u8, y as u8, (x + y) as u8, 255]);
        }
    }
    raw
}

#[test]
fn font_sheet_over_pixels_of_the_right_size() {
    let s = font_sheet_of(&sheet_bytes()).unwrap();
    assert_eq!((s.width, s.height), (128, 48));
    assert_eq!(s.get_pixel(5, 7), Pixel::rgba(5, 7, 12, 255));
    assert_eq!(s.get_pixel(127, 47), Pixel::rgba(127, 47, 174, 255));
    assert!(font_sheet_of(&sheet_bytes()[4..]).is_none());
    assert!(font_sheet_of(&[]).is_none());
}

#[test]
fn font_sheet_from_a_png_image() {
    let s = construct_font_sheet(&png(128, 48, sheet_bytes())).unwrap();
    assert_eq!((s.width, s.height), (128, 48));
    // the decoder's bytes, not the file's, are in the sheet
    assert_eq!(s.get_pixel(5, 7), Pixel::rgba(5, 7, 12, 255));
    assert_eq!(s.get_pixel(0, 0), Pixel::rgba(0, 0, 0, 255));
    assert_eq!(s.get_pixel(127, 47), Pixel::rgba(127, 47, 174, 255));
}

#[test]
fn font_sheet_of_the_wrong_size_or_no_image() {
    let small = png(2, 2, vec![0; 16]);
    assert_eq!(construct_font_sheet(&small).err(), Some(FontError::Size));
    assert_eq!(construct_font_sheet(&[1, 2, 3]).err(), Some(FontError::Decode));
    assert_eq!(construct_font_sheet(&[]).err(), Some(FontError::Decode));
}

#[test]
fn font_sheet_for_each_outcome_of_the_decoder() {
    let s = font_sheet_from(Ok(sheet_bytes())).unwrap();
    assert_eq!((s.width, s.height), (128, 48));
    assert_eq!(s.get_pixel(5, 7), Pixel::rgba(5, 7, 12, 255));
    assert_eq!(font_sheet_from(Ok(vec![0; 12])).err(), Some(FontError::Size));
    assert_eq!(font_sheet_from(Ok(vec![])).err(), Some(FontError::Size));
    assert_eq!(font_sheet_from(Err(())).err(), Some(FontError::Decode));
}
