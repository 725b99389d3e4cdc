use pge::pixel::blend_pixels;
use pge::pixel::Pixel;
use pge::pixel::PixelMode;

#[test]
fn rgb_is_opaque_and_rgba_keeps_alpha() {
    assert_eq!(Pixel::rgb(1, 2, 3), Pixel { r: 1, g: 2, b: 3, a: 255 });
    assert_eq!(Pixel::rgba(1, 2, 3, 4), Pixel { r: 1, g: 2, b: 3, a: 4 });
}

#[test]
fn bgra_swaps_red_and_blue() {
    let mut p = Pixel::rgba(10, 20, 30, 40);
    p.from_rgba_to_bgra();
    assert_eq!(p, Pixel::rgba(30, 20, 10, 40));
}

#[test]
fn normal_mode_replaces() {
    let dst = Pixel::rgb(9, 9, 9);
    let src = Pixel::rgba(1, 2, 3, 0);
    assert_eq!(blend_pixels(PixelMode::Normal, 255, dst, src), src);
}

#[test]
fn mask_mode_writes_only_opaque_pixels() {
    let dst = Pixel::rgb(9, 9, 9);
    assert_eq!(blend_pixels(PixelMode::Mask, 255, dst, Pixel::rgba(1, 2, 3, 254)), dst);
    assert_eq!(blend_pixels(PixelMode::Mask, 255, dst, Pixel::rgb(1, 2, 3)), Pixel::rgb(1, 2, 3));
}

#[test]
fn alpha_mode_mixes_by_alpha_and_factor() {
    let dst = Pixel::rgb(0, 100, 200);
    // weight 255 * 255: the source alone
    assert_eq!(blend_pixels(PixelMode::Alpha, 255, dst, Pixel::rgb(50, 60, 70)), Pixel::rgb(50, 60, 70));
    // weight 0: the destination, made opaque
    assert_eq!(blend_pixels(PixelMode::Alpha, 255, dst, Pixel::rgba(50, 60, 70, 0)), Pixel::rgb(0, 100, 200));
    // weight 128 * 255 = 32640 of 65025: (32640 * 200 + 32385 * 0) / 65025 = 100 (rounded down)
    assert_eq!(
        blend_pixels(PixelMode::Alpha, 255, Pixel::rgb(0, 0, 0), Pixel::rgba(200, 100, 50, 128)),
        Pixel::rgb(100, 50, 25)
    );
    // half factor: weight 255 * 128 = 32640 as well
    assert_eq!(
        blend_pixels(PixelMode::Alpha, 128, Pixel::rgb(0, 0, 0), Pixel::rgb(200, 100, 50)),
        Pixel::rgb(100, 50, 25)
    );
}

#[test]
fn custom_mode_leaves_the_destination() {
    let dst = Pixel::rgb(9, 9, 9);
    assert_eq!(blend_pixels(PixelMode::Custom, 255, dst, Pixel::rgb(1, 2, 3)), dst);
}
