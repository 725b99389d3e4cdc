use pge::pge::PGE;
use pge::pixel::Pixel;
use pge::pixel::PixelMode;
use pge::sprite::Sprite;

const OFF: Pixel = Pixel { r: 0, g: 0, b: 0, a: 0 };

fn engine_with_font(w: usize, h: usize, font: Sprite) -> PGE {
    PGE::new(w, h, 1, 1, font)
}

fn picture(pge: &PGE, w: i32, h: i32) -> Vec<String> {
    let t = pge.draw_target().unwrap();
    let mut rows = Vec::new();
    for y in 0..h {
        let mut row = String::new();
        for x in 0..w {
            row.push(if t.get_pixel(x, y) == OFF { '.' } else { '#' });
        }
        rows.push(row);
    }
    rows
}

fn two_by_two() -> Sprite {
    let mut s = Sprite::new(2, 2);
    s.set_pixel(0, 0, &Pixel::rgb(1, 0, 0));
    s.set_pixel(1, 0, &Pixel::rgb(2, 0, 0));
    s.set_pixel(0, 1, &Pixel::rgb(3, 0, 0));
    s.set_pixel(1, 1, &Pixel::rgb(4, 0, 0));
    s
}

#[test]
fn sprite_is_copied_pixel_by_pixel() {
    let mut pge = engine_with_font(4, 3, Sprite::new(0, 0));
    pge.draw_sprite(1, 1, &two_by_two(), 1);
    let t = pge.draw_target().unwrap();
    assert_eq!(t.get_pixel(1, 1), Pixel::rgb(1, 0, 0));
    assert_eq!(t.get_pixel(2, 1), Pixel::rgb(2, 0, 0));
    assert_eq!(t.get_pixel(1, 2), Pixel::rgb(3, 0, 0));
    assert_eq!(t.get_pixel(2, 2), Pixel::rgb(4, 0, 0));
    assert_eq!(t.get_pixel(0, 0), OFF);
    assert_eq!(t.get_pixel(3, 2), OFF);
}

#[test]
fn scale_zero_draws_like_scale_one() {
    let mut a = engine_with_font(3, 3, Sprite::new(0, 0));
    a.draw_sprite(0, 0, &two_by_two(), 0);
    let mut b = engine_with_font(3, 3, Sprite::new(0, 0));
    b.draw_sprite(0, 0, &two_by_two(), 1);
    for y in 0..3 {
        for x in 0..3 {
            assert_eq!(
                a.draw_target().unwrap().get_pixel(x, y),
                b.draw_target().unwrap().get_pixel(x, y)
            );
        }
    }
}

#[test]
fn scaled_sprite_repeats_each_pixel() {
    let mut pge = engine_with_font(5, 5, Sprite::new(0, 0));
    pge.draw_sprite(0, 1, &two_by_two(), 2);
    let t = pge.draw_target().unwrap();
    for y in 0..5 {
        for x in 0..5 {
            let want = if x < 4 && (1..5).contains(&y) {
                Pixel::rgb((1 + x / 2 + 2 * ((y - 1) / 2)) as u8, 0, 0)
            } else {
                OFF
            };
            assert_eq!(t.get_pixel(x, y), want);
        }
    }
}

#[test]
fn partial_sprite_takes_a_window() {
    let mut pge = engine_with_font(3, 3, Sprite::new(0, 0));
    pge.draw_parital_sprite(0, 0, &two_by_two(), 1, 0, 1, 2, 1);
    let t = pge.draw_target().unwrap();
    assert_eq!(t.get_pixel(0, 0), Pixel::rgb(2, 0, 0));
    assert_eq!(t.get_pixel(0, 1), Pixel::rgb(4, 0, 0));
    assert_eq!(t.get_pixel(1, 0), OFF);
    // a window that leaves the sprite reads transparent pixels
    let mut pge = engine_with_font(3, 3, Sprite::new(0, 0));
    pge.clear(&Pixel::rgb(9, 9, 9));
    pge.draw_parital_sprite(0, 0, &two_by_two(), 1, 1, 2, 1, 1);
    let t = pge.draw_target().unwrap();
    assert_eq!(t.get_pixel(0, 0), Pixel::rgb(4, 0, 0));
    assert_eq!(t.get_pixel(1, 0), OFF);
    assert_eq!(t.get_pixel(2, 0), Pixel::rgb(9, 9, 9));
    // no width: nothing
    let mut pge = engine_with_font(3, 3, Sprite::new(0, 0));
    pge.draw_parital_sprite(0, 0, &two_by_two(), 0, 0, 0, 2, 3);
    pge.draw_parital_sprite(0, 0, &two_by_two(), 0, 0, 2, -1, 3);
    assert_eq!(picture(&pge, 3, 3), vec!["...", "...", "..."]);
}

/// A font sheet of 128 by 48 pixels in which the glyph of `!` is a full
/// first row and the glyph of `A` is a full first column.
fn font() -> Sprite {
    let mut f = Sprite::new(128, 48);
    let red = Pixel::rgb(255, 0, 0);
    // '!' is code 33: cell (1, 0)
    for i in 0..8 {
        f.set_pixel(8 + i, 0, &red);
    }
    // 'A' is code 65: 33 after the space, cell (1, 2)
    for j in 0..8 {
        f.set_pixel(8, 16 + j, &red);
    }
    // the last glyph, cell (15, 5): one dot
    f.set_pixel(127, 47, &red);
    f
}

#[test]
fn string_draws_glyphs_side_by_side() {
    let mut pge = engine_with_font(17, 9, font());
    pge.draw_string(0, 0, "!A", &Pixel::rgb(0, 255, 0), 1);
    let mut want = vec![String::from("#########........")];
    for _ in 1..8 {
        want.push(String::from("........#........"));
    }
    want.push(String::from("................."));
    assert_eq!(picture(&pge, 17, 9), want);
    assert_eq!(pge.draw_target().unwrap().get_pixel(0, 0), Pixel::rgb(0, 255, 0));
    assert_eq!(pge.pixel_mode, PixelMode::Mask);
}

#[test]
fn string_line_feed_starts_a_new_row_of_glyphs() {
    let mut pge = engine_with_font(9, 17, font());
    pge.draw_string(1, 0, "A\n!", &Pixel::rgb(0, 255, 0), 1);
    let t = pge.draw_target().unwrap();
    for y in 0..17 {
        for x in 0..9 {
            let on = (x == 1 && y < 8) || (y == 8 && x >= 1);
            assert_eq!(t.get_pixel(x, y) != OFF, on);
        }
    }
}

#[test]
fn string_scale_enlarges_glyph_pixels() {
    let mut pge = engine_with_font(16, 16, font());
    pge.draw_string(0, 0, "A", &Pixel::rgb(0, 255, 0), 2);
    let t = pge.draw_target().unwrap();
    for y in 0..16 {
        for x in 0..16 {
            assert_eq!(t.get_pixel(x, y) != OFF, x < 2);
        }
    }
}

#[test]
fn string_beyond_ascii_and_control_characters() {
    let mut pge = engine_with_font(24, 8, font());
    // a control character has no glyph and still takes its place
    pge.draw_string(0, 0, "\u{7}\u{e9}A", &Pixel::rgb(0, 255, 0), 1);
    let t = pge.draw_target().unwrap();
    for y in 0..8 {
        for x in 0..24 {
            let on = (x == 15 && y == 7) || x == 16;
            assert_eq!(t.get_pixel(x, y) != OFF, on);
        }
    }
}

#[test]
fn translucent_text_switches_to_alpha_mode() {
    let mut pge = engine_with_font(8, 8, font());
    pge.clear(&Pixel::rgb(0, 0, 0));
    pge.draw_string(0, 0, "!", &Pixel::rgba(200, 100, 50, 128), 1);
    assert_eq!(pge.pixel_mode, PixelMode::Alpha);
    assert_eq!(pge.draw_target().unwrap().get_pixel(3, 0), Pixel::rgb(100, 50, 25));
    assert_eq!(pge.draw_target().unwrap().get_pixel(3, 1), Pixel::rgb(0, 0, 0));
}
