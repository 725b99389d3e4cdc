use pge::pixel::Pixel;
use pge::sprite::Mode;
use pge::sprite::Sprite;

#[test]
fn new_sprite_is_transparent() {
    let s = Sprite::new(3, 2);
    assert_eq!(s.width, 3);
    assert_eq!(s.height, 2);
    assert_eq!(s.sample_mode, Mode::Normal);
    assert_eq!(s.pixel_data.len(), 6);
    for y in 0..2 {
        for x in 0..3 {
            assert_eq!(s.get_pixel(x, y), Pixel::rgba(0, 0, 0, 0));
        }
    }
}

#[test]
fn set_then_get_and_out_of_range() {
    let mut s = Sprite::new(3, 2);
    s.set_pixel(2, 1, &Pixel::rgb(1, 2, 3));
    assert_eq!(s.get_pixel(2, 1), Pixel::rgb(1, 2, 3));
    assert_eq!(s.pixel_data[5], Pixel::rgb(1, 2, 3));
    assert_eq!(s.get_pixel(1, 1), Pixel::rgba(0, 0, 0, 0));
    // outside: reads are transparent, writes do nothing
    s.set_pixel(3, 0, &Pixel::rgb(9, 9, 9));
    s.set_pixel(-1, 0, &Pixel::rgb(9, 9, 9));
    s.set_pixel(0, 2, &Pixel::rgb(9, 9, 9));
    assert_eq!(s.get_pixel(3, 0), Pixel::rgba(0, 0, 0, 0));
    assert_eq!(s.get_pixel(-1, 0), Pixel::rgba(0, 0, 0, 0));
    assert_eq!(s.get_pixel(0, 2), Pixel::rgba(0, 0, 0, 0));
    assert_eq!(s.get_pixel(0, 1), Pixel::rgba(0, 0, 0, 0));
    assert_eq!(s.get_pixel(0, 0), Pixel::rgba(0, 0, 0, 0));
}

#[test]
fn new_with_data_reads_four_bytes_per_pixel() {
    let bytes = [1u8, 2, 3, 4, 5, 6, 7, 8, 9];
    let s = Sprite::new_with_data(2, 1, &bytes);
    assert_eq!(s.pixel_data, vec![Pixel::rgba(1, 2, 3, 4), Pixel::rgba(5, 6, 7, 8)]);
    assert_eq!(s.get_pixel(1, 0), Pixel::rgba(5, 6, 7, 8));
}

#[test]
fn sprite_bgra_swaps_every_pixel() {
    let bytes = [1u8, 2, 3, 4, 5, 6, 7, 8];
    let mut s = Sprite::new_with_data(2, 1, &bytes);
    s.from_rgba_to_bgra();
    assert_eq!(s.get_data().to_vec(), vec![Pixel::rgba(3, 2, 1, 4), Pixel::rgba(7, 6, 5, 8)]);
}

#[test]
fn fill_paints_and_clear_drops() {
    let mut s = Sprite::new(2, 2);
    s.fill(Pixel::rgb(7, 7, 7));
    assert_eq!(s.get_data().to_vec(), vec![Pixel::rgb(7, 7, 7); 4]);
    s.clear(Pixel::rgb(1, 1, 1));
    assert_eq!(s.get_data().len(), 0);
    assert_eq!(s.width, 2);
    assert_eq!(s.height, 2);
}

#[test]
fn sample_by_ratio_is_nearest_neighbour_with_truncation() {
    let mut s = Sprite::new(4, 2);
    for y in 0..2 {
        for x in 0..4 {
            s.set_pixel(x, y, &Pixel::rgb(x as u8, y as u8, 0));
        }
    }
    // (u, v) = (1/2, 1/2): texel (2, 1)
    assert_eq!(s.sample_ratio(1, 1, 2), Pixel::rgb(2, 1, 0));
    // (3/4, 0): texel (3, 0)
    assert_eq!(s.sample_ratio(3, 0, 4), Pixel::rgb(3, 0, 0));
    // u = 1 is outside
    assert_eq!(s.sample_ratio(4, 0, 4), Pixel::rgba(0, 0, 0, 0));
    // slightly negative u rounds toward zero: column 0
    assert_eq!(s.sample_ratio(-1, 0, 8), Pixel::rgb(0, 0, 0));
    // u = -1/2: 4 * -1/2 = -2, outside
    assert_eq!(s.sample_ratio(-1, 0, 2), Pixel::rgba(0, 0, 0, 0));
    // a negative denominator is a ratio like any other
    assert_eq!(s.sample_ratio(-1, -1, -2), Pixel::rgb(2, 1, 0));
    // zero denominator: transparent
    assert_eq!(s.sample_ratio(1, 1, 0), Pixel::rgba(0, 0, 0, 0));
}

#[test]
fn clone_copies_everything() {
    let mut s = Sprite::new(2, 1);
    s.set_pixel(1, 0, &Pixel::rgb(5, 6, 7));
    let t = s.clone();
    assert_eq!(t.width, 2);
    assert_eq!(t.height, 1);
    assert_eq!(t.pixel_data, s.pixel_data);
}

fn fx(v: f64) -> pge::fixed::Fixed {
    pge::fixed::Fixed { raw: (v * 4294967296.0).round() as i64 }
}

#[test]
fn sample_is_nearest_neighbour() {
    let mut s = Sprite::new(4, 2);
    for y in 0..2 {
        for x in 0..4 {
            s.set_pixel(x, y, &Pixel::rgb(x as u8, y as u8, 0));
        }
    }
    assert_eq!(s.sample(fx(0.0), fx(0.0)), Pixel::rgb(0, 0, 0));
    assert_eq!(s.sample(fx(0.5), fx(0.5)), Pixel::rgb(2, 1, 0));
    assert_eq!(s.sample(fx(0.99), fx(0.49)), Pixel::rgb(3, 0, 0));
    assert_eq!(s.sample(fx(1.0), fx(0.0)), Pixel::rgba(0, 0, 0, 0));
    assert_eq!(s.sample(fx(0.0), fx(1.0)), Pixel::rgba(0, 0, 0, 0));
    assert_eq!(s.sample(fx(-0.1), fx(0.0)), Pixel::rgb(0, 0, 0));
    assert_eq!(s.sample(fx(-0.5), fx(0.0)), Pixel::rgba(0, 0, 0, 0));
}

#[test]
fn bilinear_sample_mixes_the_four_neighbours() {
    let mut s = Sprite::new(2, 2);
    s.set_pixel(0, 0, &Pixel::rgba(0, 0, 0, 10));
    s.set_pixel(1, 0, &Pixel::rgba(200, 0, 0, 10));
    s.set_pixel(0, 1, &Pixel::rgba(0, 100, 0, 10));
    s.set_pixel(1, 1, &Pixel::rgba(200, 100, 40, 10));
    // on a pixel's centre: the pixel, made opaque
    assert_eq!(s.sample_bl(fx(0.25), fx(0.25)), Pixel::rgb(0, 0, 0));
    assert_eq!(s.sample_bl(fx(0.75), fx(0.25)), Pixel::rgb(200, 0, 0));
    assert_eq!(s.sample_bl(fx(0.75), fx(0.75)), Pixel::rgb(200, 100, 40));
    // in the middle: the mean of the four
    assert_eq!(s.sample_bl(fx(0.5), fx(0.5)), Pixel::rgb(100, 50, 10));
    // between the upper two
    assert_eq!(s.sample_bl(fx(0.5), fx(0.25)), Pixel::rgb(100, 0, 0));
    // three quarters of the way from left to right
    assert_eq!(s.sample_bl(fx(0.625), fx(0.25)), Pixel::rgb(150, 0, 0));
    // beyond the last column the last column counts for both
    assert_eq!(s.sample_bl(fx(1.0), fx(0.25)), Pixel::rgb(200, 0, 0));
}

#[test]
fn sample_ratio_takes_numbers_too_large_to_multiply() {
    let mut s = Sprite::new(4, 2);
    for y in 0..2 {
        for x in 0..4 {
            s.set_pixel(x, y, &Pixel::rgb(x as u8, y as u8, 0));
        }
    }
    let top: i128 = 1 << 96;
    // a half and three quarters of the way across, with nothing rounded
    assert_eq!(s.sample_ratio(top / 2, top / 2, top), Pixel::rgb(2, 1, 0));
    assert_eq!(s.sample_ratio(top / 4 * 3, 0, top), Pixel::rgb(3, 0, 0));
    assert_eq!(s.sample_ratio(top / 4 * 3 - 1, top - 1, top), Pixel::rgb(2, 1, 0));
    assert_eq!(s.sample_ratio(-top / 2, -top / 2, -top), Pixel::rgb(2, 1, 0));
    // at one, and before zero, there is no texel
    assert_eq!(s.sample_ratio(top, 0, top), Pixel::rgba(0, 0, 0, 0));
    assert_eq!(s.sample_ratio(0, top, top), Pixel::rgba(0, 0, 0, 0));
    assert_eq!(s.sample_ratio(-top, 0, top), Pixel::rgba(0, 0, 0, 0));
    assert_eq!(s.sample_ratio(top, 0, -1), Pixel::rgba(0, 0, 0, 0));
    // a step before zero still rounds to the first texel
    assert_eq!(s.sample_ratio(-1, 0, top), Pixel::rgb(0, 0, 0));
    // the quotient that rounding each part first would get wrong
    assert_eq!(s.sample_ratio(87382 * 36, 0, 524288 * 36), Pixel::rgb(0, 0, 0));
    assert_eq!(s.sample_ratio(524288 * 6, 0, 524288 * 36), Pixel::rgb(0, 0, 0));
    assert_eq!(s.sample_ratio(524288 * 9, 0, 524288 * 36), Pixel::rgb(1, 0, 0));
}
