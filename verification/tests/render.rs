use pge::color::Color;
use pge::fixed::Fixed;
use pge::gfx3d::coverage::ScreenTriangle;
use pge::gfx3d::coverage::Vertex;
use pge::gfx3d::mat4x4::Mat4x4;
use pge::gfx3d::pipeline::Pipeline;
use pge::gfx3d::triangle::Triangle;
use pge::gfx3d::vec3d::Vec3d;
use pge::gfx3d::vec4d::Vec4d;
use pge::pge::PGE;
use pge::pixel::Pixel;
use pge::pixel::PixelMode;
use pge::sprite::Sprite;

const BLANK: Pixel = Pixel { r: 0, g: 0, b: 0, a: 0 };
const RED: Pixel = Pixel { r: 255, g: 0, b: 0, a: 255 };
const GREEN: Pixel = Pixel { r: 0, g: 255, b: 0, a: 255 };

fn fx(v: f64) -> Fixed {
    Fixed { raw: (v * 4294967296.0).round() as i64 }
}

fn v4(x: f64, y: f64, z: f64) -> Vec4d {
    Vec4d::new(fx(x), fx(y), fx(z))
}

fn v3(x: f64, y: f64, z: f64) -> Vec3d {
    Vec3d::new(fx(x), fx(y), fx(z))
}

fn engine(w: usize, h: usize) -> PGE {
    PGE::new(w, h, 1, 1, Sprite::new(0, 0))
}

fn solid(p: Pixel) -> Sprite {
    let mut s = Sprite::new(1, 1);
    s.set_pixel(0, 0, &p);
    s
}

fn checkerboard(n: i32) -> Sprite {
    let mut s = Sprite::new(n as u32, n as u32);
    for y in 0..n {
        for x in 0..n {
            let p = if (x + y) % 2 == 0 { Pixel::rgb(x as u8, y as u8, 200) } else { Pixel::rgb(x as u8, y as u8, 20) };
            s.set_pixel(x, y, &p);
        }
    }
    s
}

fn image(pge: &PGE, w: i32, h: i32) -> Vec<Pixel> {
    let t = pge.draw_target().unwrap();
    let mut out = Vec::new();
    for y in 0..h {
        for x in 0..w {
            out.push(t.get_pixel(x, y));
        }
    }
    out
}

fn vertex(x: i32, y: i32, u: i32, v: i32, w: i32) -> Vertex {
    Vertex { x, y, u, v, w }
}

/// A camera at the origin that looks along +z, with a right angle of view,
/// on a square screen of `n` pixels.
fn camera(n: usize) -> Pipeline {
    let mut pipe = Pipeline::new(n, n);
    pipe.set_projection(fx(90.0), fx(1.0), fx(0.1), fx(100.0), fx(0.0), fx(0.0), fx(n as f64), fx(n as f64));
    pipe.set_camera(v3(0.0, 0.0, 0.0), v3(0.0, 0.0, 1.0), v3(0.0, 1.0, 0.0));
    pipe.set_transform(Mat4x4::make_identity());
    pipe
}

/// The square from `(-r, -r)` to `(r, r)` at depth `z`, facing the camera,
/// as two triangles. Its texture coordinates put the centre of texel `(i,
/// j)` of an `n` by `n` texture on pixel `i`, `j` of the square's `n` by `n`
/// pixels.
fn quad(r: f64, z: f64, n: f64) -> Vec<Triangle> {
    let lo = 0.5 / n;
    let hi = 1.0 + 0.5 / n;
    let col = Pixel::rgb(9, 9, 9);
    vec![
        Triangle {
            p: [v4(-r, -r, z), v4(-r, r, z), v4(r, r, z)],
            t: [v3(lo, lo, 1.0), v3(lo, hi, 1.0), v3(hi, hi, 1.0)],
            col,
        },
        Triangle {
            p: [v4(-r, -r, z), v4(r, r, z), v4(r, -r, z)],
            t: [v3(lo, lo, 1.0), v3(hi, hi, 1.0), v3(hi, lo, 1.0)],
            col,
        },
    ]
}

#[test]
fn textured_quad_reproduces_the_texture() {
    let mut pge = engine(16, 16);
    let mut pipe = camera(16);
    let tex = checkerboard(8);
    // at depth 2 the square from -1 to 1 covers the pixels 4..12 each way
    pipe.render(&mut pge, &quad(1.0, 2.0, 8.0), &tex);
    let t = pge.draw_target().unwrap();
    let mut written = 0;
    for y in 0..16 {
        for x in 0..16 {
            let p = t.get_pixel(x, y);
            if (4..12).contains(&x) && (4..12).contains(&y) {
                assert_eq!(p, tex.get_pixel(x - 4, y - 4), "pixel {} {}", x, y);
                written += 1;
                // 1 / w is a half, counted in units of 2^-20
                assert_eq!(pipe.depth(x, y), 1 << 19);
            } else {
                assert_eq!(p, BLANK, "pixel {} {}", x, y);
                assert_eq!(pipe.depth(x, y), 0);
            }
        }
    }
    assert_eq!(written, 64);
}

#[test]
fn quad_that_faces_away_is_culled() {
    let mut pge = engine(16, 16);
    let mut pipe = camera(16);
    let mut back = quad(1.0, 2.0, 8.0);
    for t in back.iter_mut() {
        t.p.swap(1, 2);
        t.t.swap(1, 2);
    }
    pipe.render(&mut pge, &back, &checkerboard(8));
    assert_eq!(image(&pge, 16, 16), vec![BLANK; 256]);
}

#[test]
fn quad_behind_the_camera_is_clipped_away() {
    let mut pge = engine(16, 16);
    let mut pipe = camera(16);
    let mut behind = quad(1.0, -2.0, 8.0);
    // wound to face the camera from behind
    for t in behind.iter_mut() {
        t.p.swap(1, 2);
        t.t.swap(1, 2);
    }
    pipe.render(&mut pge, &behind, &checkerboard(8));
    assert_eq!(image(&pge, 16, 16), vec![BLANK; 256]);
}

#[test]
fn quad_larger_than_the_view_fills_the_viewport() {
    let mut pge = engine(16, 16);
    let mut pipe = camera(16);
    pipe.render(&mut pge, &quad(10.0, 2.0, 8.0), &solid(RED));
    assert_eq!(image(&pge, 16, 16), vec![RED; 256]);
}

#[test]
fn viewport_places_the_picture() {
    let mut pge = engine(16, 16);
    let mut pipe = Pipeline::new(16, 16);
    pipe.set_projection(fx(90.0), fx(1.0), fx(0.1), fx(100.0), fx(8.0), fx(4.0), fx(8.0), fx(8.0));
    pipe.render(&mut pge, &quad(10.0, 2.0, 8.0), &solid(RED));
    let t = pge.draw_target().unwrap();
    for y in 0..16 {
        for x in 0..16 {
            let inside = (8..16).contains(&x) && (4..12).contains(&y);
            assert_eq!(t.get_pixel(x, y), if inside { RED } else { BLANK });
        }
    }
}

#[test]
fn world_transform_moves_the_mesh() {
    let mut pge = engine(16, 16);
    let mut pipe = camera(16);
    // the square is modelled about the origin and moved to depth 2
    let mut mesh = quad(1.0, 2.0, 8.0);
    for t in mesh.iter_mut() {
        for p in t.p.iter_mut() {
            p.z = fx(0.0);
        }
    }
    pipe.set_transform(Mat4x4::make_translation(fx(0.0), fx(0.0), fx(2.0)));
    pipe.render(&mut pge, &mesh, &solid(GREEN));
    let t = pge.draw_target().unwrap();
    for y in 0..16 {
        for x in 0..16 {
            let inside = (4..12).contains(&x) && (4..12).contains(&y);
            assert_eq!(t.get_pixel(x, y), if inside { GREEN } else { BLANK });
        }
    }
}

#[test]
fn camera_position_shifts_the_view() {
    let mut pge = engine(16, 16);
    let mut pipe = camera(16);
    // the camera steps one to the right: the picture moves four pixels left
    pipe.set_camera(v3(1.0, 0.0, 0.0), v3(1.0, 0.0, 1.0), v3(0.0, 1.0, 0.0));
    pipe.render(&mut pge, &quad(1.0, 2.0, 8.0), &solid(GREEN));
    let t = pge.draw_target().unwrap();
    for y in 0..16 {
        for x in 0..16 {
            let inside = (0..8).contains(&x) && (4..12).contains(&y);
            assert_eq!(t.get_pixel(x, y), if inside { GREEN } else { BLANK }, "pixel {} {}", x, y);
        }
    }
}

#[test]
fn nearer_triangle_stays_visible_in_either_order() {
    let near = [vertex(0, 0, 0, 0, 200), vertex(0, 10, 0, 0, 200), vertex(10, 0, 0, 0, 200)];
    let far = [vertex(2, 2, 0, 0, 100), vertex(2, 14, 0, 0, 100), vertex(14, 2, 0, 0, 100)];
    let red = solid(RED);
    let green = solid(GREEN);

    let mut pge1 = engine(16, 16);
    let mut pipe1 = Pipeline::new(16, 16);
    pipe1.rasterize(&mut pge1, &near[0], &near[1], &near[2], &red);
    pipe1.rasterize(&mut pge1, &far[0], &far[1], &far[2], &green);

    let mut pge2 = engine(16, 16);
    let mut pipe2 = Pipeline::new(16, 16);
    pipe2.rasterize(&mut pge2, &far[0], &far[1], &far[2], &green);
    pipe2.rasterize(&mut pge2, &near[0], &near[1], &near[2], &red);

    assert_eq!(image(&pge1, 16, 16), image(&pge2, 16, 16));
    let t = pge1.draw_target().unwrap();
    // in the overlap the nearer, red triangle shows
    assert_eq!(t.get_pixel(3, 3), RED);
    assert_eq!(pipe1.depth(3, 3), 200);
    // beside it the farther one
    assert_eq!(t.get_pixel(8, 6), GREEN);
    assert_eq!(pipe1.depth(8, 6), 100);
    assert_eq!(t.get_pixel(0, 0), RED);
    assert_eq!(t.get_pixel(15, 15), BLANK);
    for y in 0..16 {
        for x in 0..16 {
            assert_eq!(pipe1.depth(x, y), pipe2.depth(x, y));
        }
    }
}

#[test]
fn equal_depth_keeps_the_first_drawn() {
    let a = [vertex(0, 0, 0, 0, 50), vertex(0, 8, 0, 0, 50), vertex(8, 0, 0, 0, 50)];
    let mut pge = engine(8, 8);
    let mut pipe = Pipeline::new(8, 8);
    pipe.rasterize(&mut pge, &a[0], &a[1], &a[2], &solid(RED));
    pipe.rasterize(&mut pge, &a[0], &a[1], &a[2], &solid(GREEN));
    assert_eq!(pge.draw_target().unwrap().get_pixel(1, 1), RED);
}

#[test]
fn stale_depth_hides_the_next_frame_until_cleared() {
    let a = [vertex(0, 0, 0, 0, 50), vertex(0, 8, 0, 0, 50), vertex(8, 0, 0, 0, 50)];
    let mut pge = engine(8, 8);
    let mut pipe = Pipeline::new(8, 8);
    pipe.rasterize(&mut pge, &a[0], &a[1], &a[2], &solid(RED));
    // next frame: the picture is wiped, the depths are not
    pge.clear(&BLANK);
    pipe.rasterize(&mut pge, &a[0], &a[1], &a[2], &solid(GREEN));
    assert_eq!(pge.draw_target().unwrap().get_pixel(1, 1), BLANK);
    pipe.clear_depth();
    assert_eq!(pipe.depth(1, 1), 0);
    pipe.rasterize(&mut pge, &a[0], &a[1], &a[2], &solid(GREEN));
    assert_eq!(pge.draw_target().unwrap().get_pixel(1, 1), GREEN);
    assert_eq!(pipe.depth(1, 1), 50);
}

#[test]
fn depth_that_is_not_positive_is_never_drawn() {
    let a = [vertex(0, 0, 0, 0, 0), vertex(0, 8, 0, 0, 0), vertex(8, 0, 0, 0, 0)];
    let b = [vertex(0, 0, 0, 0, -5), vertex(0, 8, 0, 0, -5), vertex(8, 0, 0, 0, -5)];
    let mut pge = engine(8, 8);
    let mut pipe = Pipeline::new(8, 8);
    pipe.rasterize(&mut pge, &a[0], &a[1], &a[2], &solid(RED));
    pipe.rasterize(&mut pge, &b[0], &b[1], &b[2], &solid(RED));
    assert_eq!(image(&pge, 8, 8), vec![BLANK; 64]);
}

#[test]
fn triangle_without_area_draws_nothing() {
    let mut pge = engine(8, 8);
    let mut pipe = Pipeline::new(8, 8);
    let red = solid(RED);
    pipe.rasterize(&mut pge, &vertex(0, 0, 0, 0, 9), &vertex(3, 3, 0, 0, 9), &vertex(6, 6, 0, 0, 9), &red);
    pipe.rasterize(&mut pge, &vertex(2, 2, 0, 0, 9), &vertex(2, 2, 0, 0, 9), &vertex(2, 2, 0, 0, 9), &red);
    pipe.textured_triangle(
        &mut pge, 0, 0, fx(0.0), fx(0.0), fx(1.0), 0, 5, fx(0.0), fx(0.0), fx(1.0), 0, 7, fx(0.0), fx(0.0), fx(1.0),
        &red,
    );
    assert_eq!(image(&pge, 8, 8), vec![BLANK; 64]);
}

#[test]
fn triangle_off_the_buffer_is_clamped() {
    let mut pge = engine(4, 4);
    let mut pipe = Pipeline::new(4, 4);
    pipe.rasterize(
        &mut pge,
        &vertex(-100, -100, 0, 0, 9),
        &vertex(-100, 300, 0, 0, 9),
        &vertex(300, -100, 0, 0, 9),
        &solid(RED),
    );
    assert_eq!(image(&pge, 4, 4), vec![RED; 16]);
    // far outside: nothing, and no trouble with the size of the numbers
    let mut pge = engine(4, 4);
    pipe.clear_depth();
    pipe.rasterize(
        &mut pge,
        &vertex(i32::MAX, i32::MAX, 0, 0, 9),
        &vertex(i32::MAX, i32::MAX - 5, 0, 0, 9),
        &vertex(i32::MAX - 5, i32::MAX, 0, 0, 9),
        &solid(RED),
    );
    pipe.rasterize(
        &mut pge,
        &vertex(i32::MIN, i32::MIN, i32::MIN, i32::MAX, i32::MAX),
        &vertex(i32::MIN, i32::MAX, i32::MAX, i32::MIN, i32::MAX),
        &vertex(i32::MAX, i32::MAX, i32::MAX, i32::MAX, i32::MAX),
        &solid(RED),
    );
    // the triangle lies below the diagonal of the plane
    assert_eq!(pipe.depth(0, 1), i32::MAX);
    assert_eq!(pipe.depth(0, 3), i32::MAX);
    assert_eq!(pipe.depth(1, 0), 0);
    assert_eq!(pipe.depth(3, 2), 0);
}

#[test]
fn perspective_correct_texture_along_a_receding_edge() {
    // A triangle whose right corners are twice as far as its left corner:
    // u runs from 0 at x = 0 to 1 at x = 16. Half way across the screen the
    // texture is not half way but a third of the way: u / w and 1 / w are
    // (0, 2) at the left and (1, 1) at the right, in the middle (1/2, 3/2).
    let s = 1 << 16;
    let mut tex = Sprite::new(3, 1);
    tex.set_pixel(0, 0, &Pixel::rgb(0, 0, 0));
    tex.set_pixel(1, 0, &Pixel::rgb(1, 0, 0));
    tex.set_pixel(2, 0, &Pixel::rgb(2, 0, 0));
    let mut pge = engine(16, 16);
    let mut pipe = Pipeline::new(16, 16);
    pipe.rasterize(
        &mut pge,
        &vertex(0, 8, 0, 0, 2 * s),
        &vertex(16, 0, s, 0, s),
        &vertex(16, 16, s, 0, s),
        &tex,
    );
    let t = pge.draw_target().unwrap();
    // x = 8: u = (1/2) / (3/2) = 1/3, texel 1 of 3 (just)
    assert_eq!(t.get_pixel(8, 8), Pixel::rgb(1, 0, 0));
    // x = 4: u/w = 1/4, 1/w = 7/4, u = 1/7, texel 0
    assert_eq!(t.get_pixel(4, 8), Pixel::rgb(0, 0, 0));
    // x = 14: u/w = 7/8, 1/w = 9/8, u = 7/9, texel 2
    assert_eq!(t.get_pixel(14, 8), Pixel::rgb(2, 0, 0));
    assert_eq!(pipe.depth(8, 8), 3 * s / 2);
    assert_eq!(pipe.depth(4, 8), 7 * s / 4);
}

#[test]
fn shaded_triangle_draws_the_texture() {
    let mut a = engine(8, 8);
    let mut b = engine(8, 8);
    let mut pa = Pipeline::new(8, 8);
    let mut pb = Pipeline::new(8, 8);
    let tex = checkerboard(4);
    let (o, l) = (fx(0.0), fx(1.0));
    pa.textured_triangle(&mut a, 0, 0, o, o, l, 0, 8, o, l, l, 8, 0, l, o, l, &tex);
    let c = Color::rgb(fx(1.0), fx(0.5), fx(0.0));
    pb.shaded_textured_triangle(&mut b, 0, 0, o, o, l, c, 0, 8, o, l, l, c, 8, 0, l, o, l, c, &tex);
    assert_eq!(image(&a, 8, 8), image(&b, 8, 8));
    assert_eq!(a.draw_target().unwrap().get_pixel(1, 1), tex.get_pixel(0, 0));
    assert_eq!(a.draw_target().unwrap().get_pixel(5, 1), tex.get_pixel(2, 0));
    // the depth is one, in units of 2^-20
    assert_eq!(pa.depth(1, 1), 1 << 20);
}

#[test]
fn triangle_in_screen_space_is_rounded_to_pixels() {
    let mut pge = engine(8, 8);
    let mut pipe = Pipeline::new(8, 8);
    let uv = v3(0.0, 0.0, 0.5);
    // corners at (0.4, 0.4), (0.4, 5.6), (5.6, 0.4): pixels (0, 0), (0, 6), (6, 0)
    pipe.render_triangle_texture(&mut pge, &v4(0.4, 0.4, 0.0), &v4(0.4, 5.6, 0.0), &v4(5.6, 0.4, 0.0), &uv, &uv, &uv, &solid(RED));
    let t = pge.draw_target().unwrap();
    for y in 0..8 {
        for x in 0..8 {
            assert_eq!(t.get_pixel(x, y), if x + y < 6 { RED } else { BLANK }, "pixel {} {}", x, y);
            assert_eq!(pipe.depth(x, y), if x + y < 6 { 1 << 19 } else { 0 });
        }
    }
}

#[test]
fn mask_mode_keeps_transparent_texels_out_but_not_their_depth() {
    let mut pge = engine(8, 8);
    pge.pixel_mode = PixelMode::Mask;
    let mut pipe = Pipeline::new(8, 8);
    let a = [vertex(0, 0, 0, 0, 50), vertex(0, 8, 0, 0, 50), vertex(8, 0, 0, 0, 50)];
    pipe.rasterize(&mut pge, &a[0], &a[1], &a[2], &solid(Pixel::rgba(1, 2, 3, 100)));
    assert_eq!(pge.draw_target().unwrap().get_pixel(1, 1), BLANK);
    assert_eq!(pipe.depth(1, 1), 50);
}

#[test]
fn set_texture_keeps_a_copy() {
    let mut pipe = Pipeline::new(2, 2);
    let mut tex = solid(RED);
    pipe.set_texture(&tex);
    tex.set_pixel(0, 0, &GREEN);
    assert_eq!(pipe.depth(0, 0), 0);
}

#[test]
fn cube_across_the_near_plane_renders_only_what_lies_behind_it() {
    // The camera stands inside a cube of side 4 about the origin and looks
    // along +z: the faces before the near plane and beside the view are
    // clipped, and what is drawn is never nearer than the near plane.
    let mut pge = engine(32, 32);
    let mut pipe = camera(32);
    let e = [-2.0, 2.0];
    let c = |x: usize, y: usize, z: usize| v4(e[x], e[y], e[z]);
    let faces = [
        [c(0, 0, 0), c(0, 1, 0), c(1, 1, 0), c(1, 0, 0)],
        [c(1, 0, 0), c(1, 1, 0), c(1, 1, 1), c(1, 0, 1)],
        [c(1, 0, 1), c(1, 1, 1), c(0, 1, 1), c(0, 0, 1)],
        [c(0, 0, 1), c(0, 1, 1), c(0, 1, 0), c(0, 0, 0)],
        [c(0, 1, 0), c(0, 1, 1), c(1, 1, 1), c(1, 1, 0)],
        [c(1, 0, 1), c(0, 0, 1), c(0, 0, 0), c(1, 0, 0)],
    ];
    let uv = [v3(0.0, 1.0, 1.0), v3(0.0, 0.0, 1.0), v3(1.0, 0.0, 1.0), v3(1.0, 1.0, 1.0)];
    let mut mesh = Vec::new();
    for f in faces {
        // seen from inside, the faces are wound the other way
        mesh.push(Triangle { p: [f[0], f[2], f[1]], t: [uv[0], uv[2], uv[1]], col: RED });
        mesh.push(Triangle { p: [f[0], f[3], f[2]], t: [uv[0], uv[3], uv[2]], col: RED });
    }
    pipe.render(&mut pge, &mesh, &solid(RED));
    // every pixel shows the inside of the cube
    assert_eq!(image(&pge, 32, 32), vec![RED; 1024]);
    // 1 / w is at most 1 / near = 10, in units of 2^-20
    for y in 0..32 {
        for x in 0..32 {
            let d = pipe.depth(x, y);
            assert!(d > 0 && d <= 10 << 20, "depth {} at {} {}", d, x, y);
        }
    }
    // straight ahead is the far face at depth 2
    assert_eq!(pipe.depth(16, 16), 1 << 19);
}

#[test]
fn triangle_across_the_side_of_the_view_is_cut_at_the_viewport() {
    // the viewport is the right half of the screen; a square that reaches
    // beyond it to the left and the top is drawn inside it only
    let mut pge = engine(16, 16);
    let mut pipe = Pipeline::new(16, 16);
    pipe.set_projection(fx(90.0), fx(1.0), fx(0.1), fx(100.0), fx(8.0), fx(0.0), fx(8.0), fx(16.0));
    let col = Pixel::rgb(0, 0, 0);
    let uv = v3(0.0, 0.0, 1.0);
    // from (-4, -4) to (0, 0) at depth 2: in the view from -2 to 0 both ways
    let mesh = vec![
        Triangle { p: [v4(-4.0, -4.0, 2.0), v4(-4.0, 0.0, 2.0), v4(0.0, 0.0, 2.0)], t: [uv, uv, uv], col },
        Triangle { p: [v4(-4.0, -4.0, 2.0), v4(0.0, 0.0, 2.0), v4(0.0, -4.0, 2.0)], t: [uv, uv, uv], col },
    ];
    pipe.render(&mut pge, &mesh, &solid(RED));
    let t = pge.draw_target().unwrap();
    for y in 0..16 {
        for x in 0..16 {
            let inside = (8..12).contains(&x) && (0..8).contains(&y);
            assert_eq!(t.get_pixel(x, y), if inside { RED } else { BLANK }, "pixel {} {}", x, y);
        }
    }
}

#[test]
fn rotated_mesh_turns_on_the_screen() {
    // a square in the upper right quarter, turned a quarter turn about z by
    // the world transform, lands in another quarter
    let col = Pixel::rgb(0, 0, 0);
    let uv = v3(0.0, 0.0, 1.0);
    let mesh = vec![
        Triangle { p: [v4(0.0, 0.0, 2.0), v4(0.0, 1.0, 2.0), v4(1.0, 1.0, 2.0)], t: [uv, uv, uv], col },
        Triangle { p: [v4(0.0, 0.0, 2.0), v4(1.0, 1.0, 2.0), v4(1.0, 0.0, 2.0)], t: [uv, uv, uv], col },
    ];
    let mut plain = engine(16, 16);
    let mut pipe = camera(16);
    pipe.render(&mut plain, &mesh, &solid(RED));
    let mut turned = engine(16, 16);
    let mut pipe = camera(16);
    pipe.set_transform(Mat4x4::make_rotation_z(fx(std::f64::consts::FRAC_PI_2)));
    pipe.render(&mut turned, &mesh, &solid(RED));
    let count = |pge: &PGE, xs: std::ops::Range<i32>, ys: std::ops::Range<i32>| {
        let t = pge.draw_target().unwrap();
        let mut n = 0;
        for y in ys.clone() {
            for x in xs.clone() {
                if t.get_pixel(x, y) == RED {
                    n += 1;
                }
            }
        }
        n
    };
    // x and y from 0 to 1 at depth 2: pixels 8..12 both ways
    assert_eq!(count(&plain, 8..12, 8..12), 16);
    assert_eq!(count(&plain, 0..16, 0..16), 16);
    // turned: x goes to y and y to minus x, so x from -1 to 0: pixels 4..8
    assert_eq!(count(&turned, 0..16, 0..16), count(&turned, 3..9, 7..13));
    assert!(count(&turned, 4..8, 8..12) >= 12);
    assert_eq!(count(&turned, 9..16, 0..16), 0);
}

#[test]
fn rectangle_with_centred_attributes_reproduces_the_texture() {
    // 5 by 3 pixels at (2, 1), at the depth 1000; u and v run from half a
    // texel to a texture and a half texel, each a unit off
    let mut tex = Sprite::new(5, 3);
    for j in 0..3 {
        for i in 0..5 {
            tex.set_pixel(i, j, &Pixel::rgb(10 * i as u8, 10 * j as u8, 77));
        }
    }
    let a = vertex(2, 1, 101, 166, 1000);
    let b = vertex(7, 1, 1099, 166, 1000);
    let c = vertex(7, 4, 1099, 1167, 1000);
    let d = vertex(2, 4, 101, 1167, 1000);
    let halves = vec![ScreenTriangle { a, b, c }, ScreenTriangle { a, b: c, c: d }];
    let mut pge = engine(9, 6);
    let mut pipe = Pipeline::new(9, 6);
    pipe.render_screen(&mut pge, &halves, &tex);
    let t = pge.draw_target().unwrap();
    for y in 0..6 {
        for x in 0..9 {
            if (2..7).contains(&x) && (1..4).contains(&y) {
                assert_eq!(t.get_pixel(x, y), tex.get_pixel(x - 2, y - 1), "pixel {} {}", x, y);
                assert_eq!(pipe.depth(x, y), 1000);
            } else {
                assert_eq!(t.get_pixel(x, y), BLANK, "pixel {} {}", x, y);
                assert_eq!(pipe.depth(x, y), 0);
            }
        }
    }
    // a second fill over the depths that the first left writes nothing
    let mut other = Sprite::new(5, 3);
    other.clear(RED);
    pipe.render_screen(&mut pge, &halves, &other);
    assert_eq!(pge.draw_target().unwrap().get_pixel(3, 2), tex.get_pixel(1, 1));
}

#[test]
fn nearest_of_three_shows_in_every_order() {
    // three triangles over one corner of the screen, at the depths 300, 600
    // and 900, each with the texel of its own colour all over
    let mut tex = Sprite::new(3, 1);
    tex.set_pixel(0, 0, &RED);
    tex.set_pixel(1, 0, &GREEN);
    tex.set_pixel(2, 0, &Pixel::rgb(0, 0, 255));
    let far = ScreenTriangle { a: vertex(0, 0, 50, 0, 300), b: vertex(8, 0, 50, 0, 300), c: vertex(0, 8, 50, 0, 300) };
    let mid = ScreenTriangle { a: vertex(0, 0, 300, 0, 600), b: vertex(6, 0, 300, 0, 600), c: vertex(0, 6, 300, 0, 600) };
    let near = ScreenTriangle { a: vertex(0, 0, 750, 0, 900), b: vertex(4, 0, 750, 0, 900), c: vertex(0, 4, 750, 0, 900) };
    let orders = [
        [far, mid, near],
        [far, near, mid],
        [mid, far, near],
        [mid, near, far],
        [near, far, mid],
        [near, mid, far],
    ];
    let mut pictures = Vec::new();
    for order in orders {
        let mut pge = engine(8, 8);
        let mut pipe = Pipeline::new(8, 8);
        pipe.render_screen(&mut pge, &order.to_vec(), &tex);
        let t = pge.draw_target().unwrap();
        for y in 0..8 {
            for x in 0..8 {
                let (want, depth) = if x + y < 4 {
                    (Pixel::rgb(0, 0, 255), 900)
                } else if x + y < 6 {
                    (GREEN, 600)
                } else if x + y < 8 {
                    (RED, 300)
                } else {
                    (BLANK, 0)
                };
                assert_eq!(t.get_pixel(x, y), want, "pixel {} {}", x, y);
                assert_eq!(pipe.depth(x, y), depth, "depth {} {}", x, y);
            }
        }
        pictures.push(image(&pge, 8, 8));
    }
    assert!(pictures.iter().all(|p| *p == pictures[0]));
}

/// The square from `(-r, -r)` to `(r, r)` at depth `z`, facing the camera,
/// as two triangles, with the texture coordinates zero at its first corner
/// and one at the opposite corner.
fn whole_quad(r: f64, z: f64) -> Vec<Triangle> {
    let col = Pixel::rgb(9, 9, 9);
    vec![
        Triangle {
            p: [v4(-r, -r, z), v4(-r, r, z), v4(r, r, z)],
            t: [v3(0.0, 0.0, 1.0), v3(0.0, 1.0, 1.0), v3(1.0, 1.0, 1.0)],
            col,
        },
        Triangle {
            p: [v4(-r, -r, z), v4(r, r, z), v4(r, -r, z)],
            t: [v3(0.0, 0.0, 1.0), v3(1.0, 1.0, 1.0), v3(1.0, 0.0, 1.0)],
            col,
        },
    ]
}

/// Renders a quad that covers the `n` by `n` pixels from `(lo, lo)` on, on
/// a square screen of `size` pixels, and holds the picture against the
/// texture of `n` by `n` texels.
fn whole_quad_reproduces(size: usize, lo: i32, n: i32, mesh: &Vec<Triangle>) {
    let mut pge = engine(size, size);
    let mut pipe = camera(size);
    let tex = checkerboard(n);
    pipe.render(&mut pge, mesh, &tex);
    let t = pge.draw_target().unwrap();
    for y in 0..size as i32 {
        for x in 0..size as i32 {
            if (lo..lo + n).contains(&x) && (lo..lo + n).contains(&y) {
                assert_eq!(t.get_pixel(x, y), tex.get_pixel(x - lo, y - lo), "n {} pixel {} {}", n, x, y);
                assert!(pipe.depth(x, y) > 0);
            } else {
                assert_eq!(t.get_pixel(x, y), BLANK, "n {} pixel {} {}", n, x, y);
                assert_eq!(pipe.depth(x, y), 0);
            }
        }
    }
}

#[test]
fn quad_with_coordinates_zero_and_one_reproduces_a_texture_of_six_by_six() {
    // at depth 2 the square from -1 to 1 covers the pixels 3..9 each way
    whole_quad_reproduces(12, 3, 6, &whole_quad(1.0, 2.0));
    let mut pge = engine(12, 12);
    let mut pipe = camera(12);
    let tex = checkerboard(6);
    pipe.render(&mut pge, &whole_quad(1.0, 2.0), &tex);
    // one pixel right of the corner shows the second texel of the row
    assert_eq!(pge.draw_target().unwrap().get_pixel(4, 3), tex.get_pixel(1, 0));
    assert_eq!(pipe.depth(4, 3), 1 << 19);
}

#[test]
fn quad_with_coordinates_zero_and_one_reproduces_a_texture_of_two_by_two_at_depth_three() {
    // at depth 3 the square from -1 to 1 covers the pixels 2..4 of 6 each way
    whole_quad_reproduces(6, 2, 2, &whole_quad(1.0, 3.0));
}

#[test]
fn quad_with_coordinates_zero_and_one_reproduces_textures_of_any_size_at_any_depth() {
    for n in [1, 2, 3, 5, 6, 7, 10, 12] {
        for z in [1.0, 2.0, 3.0, 4.5, 7.0, 10.0] {
            // on a screen of n + 4 pixels the square is to leave two pixels
            // free on each side
            let r = z * n as f64 / (n + 4) as f64;
            let mesh = whole_quad(r, z);
            whole_quad_reproduces(n as usize + 4, 2, n, &mesh);
            let turned: Vec<Triangle> = mesh.iter().rev().cloned().collect();
            whole_quad_reproduces(n as usize + 4, 2, n, &turned);
        }
    }
}

#[test]
fn rectangle_with_coordinates_zero_and_one_shows_the_texture_however_it_is_wound() {
    // 5 by 3 pixels at (2, 1), at the depth 1000
    let mut tex = Sprite::new(5, 3);
    let mut wide = Sprite::new(10, 6);
    for j in 0..6 {
        for i in 0..10 {
            tex.set_pixel(i, j, &Pixel::rgb(10 * i as u8, 10 * j as u8, 77));
            wide.set_pixel(i, j, &Pixel::rgb(10 * i as u8, 10 * j as u8, 99));
        }
    }
    let a = vertex(2, 1, 0, 0, 1000);
    let b = vertex(7, 1, 1000, 0, 1000);
    let c = vertex(7, 4, 1000, 1000, 1000);
    let d = vertex(2, 4, 0, 1000, 1000);
    let uppers = [[a, b, c], [b, c, a], [c, a, b], [a, c, b], [c, b, a], [b, a, c]];
    let lowers = [[a, c, d], [c, d, a], [d, a, c], [a, d, c], [d, c, a], [c, a, d]];
    for up in uppers {
        for low in lowers {
            let up = ScreenTriangle { a: up[0], b: up[1], c: up[2] };
            let low = ScreenTriangle { a: low[0], b: low[1], c: low[2] };
            for halves in [vec![up, low], vec![low, up]] {
                for (sprite, step) in [(&tex, 1), (&wide, 2)] {
                    let mut pge = engine(9, 6);
                    let mut pipe = Pipeline::new(9, 6);
                    pipe.render_screen(&mut pge, &halves, sprite);
                    let t = pge.draw_target().unwrap();
                    for y in 0..6 {
                        for x in 0..9 {
                            if (2..7).contains(&x) && (1..4).contains(&y) {
                                let want = sprite.get_pixel(step * (x - 2), step * (y - 1));
                                assert_eq!(t.get_pixel(x, y), want, "pixel {} {}", x, y);
                                assert_eq!(pipe.depth(x, y), 1000);
                            } else {
                                assert_eq!(t.get_pixel(x, y), BLANK, "pixel {} {}", x, y);
                                assert_eq!(pipe.depth(x, y), 0);
                            }
                        }
                    }
                }
            }
        }
    }
}

#[test]
fn rectangle_split_along_its_other_diagonal_shows_the_same() {
    let mut tex = Sprite::new(4, 7);
    for j in 0..7 {
        for i in 0..4 {
            tex.set_pixel(i, j, &Pixel::rgb(10 * i as u8, 10 * j as u8, 55));
        }
    }
    let a = vertex(1, 0, 0, 0, 777);
    let b = vertex(5, 0, 777, 0, 777);
    let c = vertex(5, 7, 777, 777, 777);
    let d = vertex(1, 7, 0, 777, 777);
    let splits = [
        vec![ScreenTriangle { a, b, c }, ScreenTriangle { a, b: c, c: d }],
        vec![ScreenTriangle { a: d, b: c, c: a }, ScreenTriangle { a: b, b: a, c }],
        vec![ScreenTriangle { a, b, c: d }, ScreenTriangle { a: b, b: c, c: d }],
        vec![ScreenTriangle { a: d, b: c, c: b }, ScreenTriangle { a: d, b: a, c: b }],
    ];
    let mut pictures = Vec::new();
    for halves in splits {
        let mut pge = engine(6, 8);
        let mut pipe = Pipeline::new(6, 8);
        pipe.render_screen(&mut pge, &halves, &tex);
        let t = pge.draw_target().unwrap();
        for y in 0..8 {
            for x in 0..6 {
                let inside = (1..5).contains(&x) && (0..7).contains(&y);
                let want = if inside { tex.get_pixel(x - 1, y) } else { BLANK };
                assert_eq!(t.get_pixel(x, y), want, "pixel {} {}", x, y);
                assert_eq!(pipe.depth(x, y), if inside { 777 } else { 0 });
            }
        }
        pictures.push(image(&pge, 6, 8));
    }
    assert!(pictures.iter().all(|p| *p == pictures[0]));
}
