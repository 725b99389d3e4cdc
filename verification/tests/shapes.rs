use pge::pge::PGE;
use pge::pixel::Pixel;
use pge::pixel::PixelMode;
use pge::sprite::Sprite;

const ON: Pixel = Pixel { r: 255, g: 255, b: 255, a: 255 };
const OFF: Pixel = Pixel { r: 0, g: 0, b: 0, a: 0 };

fn engine(w: usize, h: usize) -> PGE {
    PGE::new(w, h, 2, 2, Sprite::new(0, 0))
}

fn picture(pge: &PGE, w: i32, h: i32) -> Vec<String> {
    let t = pge.draw_target().unwrap();
    let mut rows = Vec::new();
    for y in 0..h {
        let mut row = String::new();
        for x in 0..w {
            row.push(if t.get_pixel(x, y) == OFF { '.' } else { '#' });
        }
        rows.push(row);
    }
    rows
}

#[test]
fn draw_writes_one_pixel_and_ignores_the_outside() {
    let mut pge = engine(3, 2);
    pge.draw(1, 1, &ON);
    pge.draw(3, 0, &ON);
    pge.draw(0, -1, &ON);
    assert_eq!(picture(&pge, 3, 2), vec!["...", ".#."]);
}

#[test]
fn draw_follows_the_pixel_mode() {
    let mut pge = engine(1, 1);
    pge.draw(0, 0, &Pixel::rgb(10, 20, 30));
    pge.set_pixel_mode(PixelMode::Mask);
    pge.draw(0, 0, &Pixel::rgba(1, 1, 1, 100));
    assert_eq!(pge.draw_target().unwrap().get_pixel(0, 0), Pixel::rgb(10, 20, 30));
    pge.set_pixel_mode(PixelMode::Alpha);
    pge.set_blend_factor(255);
    pge.draw(0, 0, &Pixel::rgba(110, 120, 130, 0));
    assert_eq!(pge.draw_target().unwrap().get_pixel(0, 0), Pixel::rgb(10, 20, 30));
    pge.draw(0, 0, &Pixel::rgba(110, 120, 130, 255));
    assert_eq!(pge.draw_target().unwrap().get_pixel(0, 0), Pixel::rgb(110, 120, 130));
    pge.pixel_mode = PixelMode::Custom;
    pge.draw(0, 0, &Pixel::rgb(1, 2, 3));
    assert_eq!(pge.draw_target().unwrap().get_pixel(0, 0), Pixel::rgb(110, 120, 130));
}

#[test]
fn set_draw_target_ignores_missing_layers() {
    let mut pge = engine(2, 2);
    pge.set_draw_target(5, true);
    pge.draw(0, 0, &ON);
    assert_eq!(picture(&pge, 2, 2), vec!["#.", ".."]);
    assert!(pge.needs_update(0));
    pge.set_draw_target(0, false);
    assert!(!pge.needs_update(0));
    assert!(!pge.needs_update(1));
}

#[test]
fn clear_fills_the_target() {
    let mut pge = engine(2, 2);
    pge.clear(&ON);
    assert_eq!(picture(&pge, 2, 2), vec!["##", "##"]);
}

#[test]
fn mouse_is_scaled_and_held_on_the_screen() {
    let mut pge = engine(10, 8);
    pge.mouse_moved(7, 5);
    assert_eq!((pge.get_mouse_x(), pge.get_mouse_y()), (3, 2));
    pge.mouse_moved(100, -20);
    assert_eq!((pge.get_mouse_x(), pge.get_mouse_y()), (9, 0));
    pge.mouse_moved(-1, 15);
    assert_eq!((pge.get_mouse_x(), pge.get_mouse_y()), (0, 7));
}

#[test]
fn line_reaches_both_ends() {
    let mut pge = engine(5, 4);
    pge.draw_line(0, 0, 3, 2, &ON);
    assert_eq!(picture(&pge, 5, 4), vec!["#....", ".##..", "...#.", "....."]);
    let mut pge = engine(5, 4);
    pge.draw_line(3, 2, 0, 0, &ON);
    assert_eq!(picture(&pge, 5, 4), vec!["#....", ".##..", "...#.", "....."]);
}

#[test]
fn line_of_one_point_and_axis_lines() {
    let mut pge = engine(4, 3);
    pge.draw_line(2, 1, 2, 1, &ON);
    assert_eq!(picture(&pge, 4, 3), vec!["....", "..#.", "...."]);
    pge.draw_line(0, 0, 3, 0, &ON);
    pge.draw_line(0, 2, 0, 0, &ON);
    assert_eq!(picture(&pge, 4, 3), vec!["####", "#.#.", "#..."]);
}

#[test]
fn steep_line_steps_along_y() {
    let mut pge = engine(3, 5);
    pge.draw_line(0, 0, 1, 4, &ON);
    assert_eq!(picture(&pge, 3, 5), vec!["#..", "#..", ".#.", ".#.", ".#."]);
}

#[test]
fn rect_outline_and_fill() {
    let mut pge = engine(5, 4);
    pge.draw_rect(1, 0, 3, 2, &ON);
    assert_eq!(picture(&pge, 5, 4), vec![".####", ".#..#", ".####", "....."]);
    let mut pge = engine(5, 4);
    pge.fill_rect(1, 1, 2, 2, &ON);
    assert_eq!(picture(&pge, 5, 4), vec![".....", ".##..", ".##..", "....."]);
}

#[test]
fn fill_rect_is_clipped_to_the_screen() {
    let mut pge = engine(3, 3);
    pge.fill_rect(-2, 1, 10, 10, &ON);
    assert_eq!(picture(&pge, 3, 3), vec!["...", "###", "###"]);
    let mut pge = engine(3, 3);
    pge.fill_rect(1, 1, -1, 2, &ON);
    assert_eq!(picture(&pge, 3, 3), vec!["...", "...", "..."]);
}

#[test]
fn triangle_outline() {
    let mut pge = engine(5, 5);
    pge.draw_triangle(0, 0, 4, 0, 0, 4, &ON);
    assert_eq!(picture(&pge, 5, 5), vec!["#####", "#..#.", "#.#..", "##...", "#...."]);
}

#[test]
fn fill_triangle_follows_the_top_left_rule() {
    let mut pge = engine(5, 5);
    pge.fill_triangle(0, 0, 4, 0, 0, 4, &ON);
    assert_eq!(picture(&pge, 5, 5), vec!["####.", "###..", "##...", "#....", "....."]);
    // the other winding paints the same
    let mut pge = engine(5, 5);
    pge.fill_triangle(0, 0, 0, 4, 4, 0, &ON);
    assert_eq!(picture(&pge, 5, 5), vec!["####.", "###..", "##...", "#....", "....."]);
}

#[test]
fn two_filled_triangles_tile_a_square() {
    let mut a = engine(4, 4);
    a.fill_triangle(0, 0, 4, 0, 0, 4, &ON);
    let mut b = engine(4, 4);
    b.fill_triangle(4, 0, 4, 4, 0, 4, &ON);
    let pa = picture(&a, 4, 4);
    let pb = picture(&b, 4, 4);
    for y in 0..4 {
        for x in 0..4 {
            let in_a = pa[y].as_bytes()[x] == b'#';
            let in_b = pb[y].as_bytes()[x] == b'#';
            assert!(in_a != in_b);
        }
    }
}

#[test]
fn degenerate_triangle_paints_nothing() {
    let mut pge = engine(4, 4);
    pge.fill_triangle(0, 0, 2, 2, 3, 3, &ON);
    pge.fill_triangle(1, 1, 1, 1, 1, 1, &ON);
    assert_eq!(picture(&pge, 4, 4), vec!["....", "....", "....", "...."]);
}

#[test]
fn circle_of_radius_two() {
    let mut pge = engine(7, 7);
    pge.draw_circle(3, 3, 2, &ON);
    assert_eq!(
        picture(&pge, 7, 7),
        vec![".......", "..###..", ".#...#.", ".#...#.", ".#...#.", "..###..", "......."]
    );
}

#[test]
fn circle_without_radius_draws_nothing() {
    let mut pge = engine(3, 3);
    pge.draw_circle(1, 1, 0, &ON);
    pge.draw_circle(1, 1, -4, &ON);
    pge.fill_circle(1, 1, 0, &ON);
    assert_eq!(picture(&pge, 3, 3), vec!["...", "...", "..."]);
}

#[test]
fn filled_circle_of_radius_two() {
    let mut pge = engine(7, 7);
    pge.fill_circle(3, 3, 2, &ON);
    assert_eq!(
        picture(&pge, 7, 7),
        vec![".......", "...#...", ".#####.", ".#####.", ".#####.", "...#...", "......."]
    );
}

#[test]
fn filled_circle_blends_each_pixel_once() {
    let mut pge = engine(7, 7);
    pge.pixel_mode = PixelMode::Alpha;
    pge.blend_factor = 255;
    pge.clear(&Pixel::rgb(0, 0, 0));
    pge.fill_circle(3, 3, 3, &Pixel::rgba(200, 0, 0, 128));
    let t = pge.draw_target().unwrap();
    for y in 0..7 {
        for x in 0..7 {
            let p = t.get_pixel(x, y);
            assert!(p == Pixel::rgb(0, 0, 0) || p == Pixel::rgb(100, 0, 0));
        }
    }
    assert_eq!(t.get_pixel(3, 3), Pixel::rgb(100, 0, 0));
}

#[test]
fn filled_circle_is_clipped_to_the_rows_of_the_screen() {
    let mut pge = engine(5, 3);
    pge.fill_circle(2, 0, 2, &ON);
    assert_eq!(picture(&pge, 5, 3), vec![".....", "#####", "..#.."]);
}
