use pge::gfx3d::coverage::ScreenTriangle;
use pge::gfx3d::coverage::Vertex;
use pge::gfx3d::pipeline::Pipeline;
use pge::pge::PGE;
use pge::pixel::Pixel;
use pge::sprite::Sprite;

fn v(x: i32, y: i32, u: i32, v: i32, w: i32) -> Vertex {
    Vertex { x, y, u, v, w }
}

fn solid(p: Pixel) -> Sprite {
    let mut s = Sprite::new(1, 1);
    s.set_pixel(0, 0, &p);
    s
}

fn engine(w: usize, h: usize) -> PGE {
    PGE::new(w, h, 1, 1, Sprite::new(0, 0))
}

fn count(pge: &PGE, w: i32, h: i32, p: Pixel) -> usize {
    let t = pge.draw_target().unwrap();
    let mut n = 0;
    for y in 0..h {
        for x in 0..w {
            if t.get_pixel(x, y) == p {
                n += 1;
            }
        }
    }
    n
}

#[test]
fn unit_square_as_two_triangles_touches_each_pixel_once() {
    let (w, h) = (8, 6);
    let mut pge = engine(w as usize, h as usize);
    let mut pipe = Pipeline::new(w as usize, h as usize);
    let red = solid(Pixel::rgb(255, 0, 0));
    let green = solid(Pixel::rgb(0, 255, 0));
    // The same depth everywhere: a pixel drawn by both triangles would stay
    // red (the second write fails the strict test); a pixel drawn by neither
    // stays blank.
    pipe.rasterize(&mut pge, &v(0, 0, 0, 0, 16), &v(0, h, 0, 0, 16), &v(w, h, 0, 0, 16), &red);
    let reds = count(&pge, w, h, Pixel::rgb(255, 0, 0));
    let mut pipe2 = Pipeline::new(w as usize, h as usize);
    let mut pge2 = engine(w as usize, h as usize);
    pipe2.rasterize(&mut pge2, &v(0, 0, 0, 0, 16), &v(w, h, 0, 0, 16), &v(w, 0, 0, 0, 16), &green);
    let greens = count(&pge2, w, h, Pixel::rgb(0, 255, 0));
    assert_eq!(reds + greens, (w * h) as usize);
    // Together: every pixel is drawn, none keeps the blank background.
    pipe.rasterize(&mut pge, &v(0, 0, 0, 0, 16), &v(w, h, 0, 0, 16), &v(w, 0, 0, 0, 16), &green);
    assert_eq!(count(&pge, w, h, Pixel::rgb(255, 0, 0)), reds);
    assert_eq!(count(&pge, w, h, Pixel::rgb(0, 255, 0)), greens);
    assert_eq!(count(&pge, w, h, Pixel::rgba(0, 0, 0, 0)), 0);
    let t1 = ScreenTriangle { a: v(0, 0, 0, 0, 16), b: v(0, h, 0, 0, 16), c: v(w, h, 0, 0, 16) };
    assert_eq!(t1.facing().b, v(w, h, 0, 0, 16));
}
