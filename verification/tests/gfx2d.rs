use pge::color::Color;
use pge::fixed::Fixed;
use pge::gfx2d::vec2d::Vec2d;
use pge::gfx2d::Transform2D;
use pge::gfx2d::GFX2D;
use pge::gfx3d::vec3d::Vec3d;
use pge::pge::PGE;
use pge::pixel::Pixel;
use pge::sprite::Sprite;

const BLANK: Pixel = Pixel { r: 0, g: 0, b: 0, a: 0 };

fn fx(v: f64) -> Fixed {
    Fixed { raw: (v * 4294967296.0).round() as i64 }
}

fn val(f: Fixed) -> f64 {
    f.raw as f64 / 4294967296.0
}

fn close(a: Fixed, b: f64) -> bool {
    (val(a) - b).abs() < 1e-6
}

fn v2(x: f64, y: f64) -> Vec2d {
    Vec2d::new(fx(x), fx(y))
}

#[test]
fn vec2d_arithmetic() {
    let a = v2(3.0, 4.0);
    let b = v2(-1.0, 2.0);
    assert_eq!(Vec2d::zero(), v2(0.0, 0.0));
    assert_eq!(a.length(), fx(5.0));
    assert!(close(a.norm().x, 0.6) && close(a.norm().y, 0.8));
    assert_eq!(a.perp(), v2(-4.0, 3.0));
    assert_eq!(a.dot(&b), fx(5.0));
    assert_eq!(a.cross(&b), fx(10.0));
    assert_eq!(a.as_vec3d(), Vec3d::new(fx(3.0), fx(4.0), fx(0.0)));
    assert_eq!(a.add(b), v2(2.0, 6.0));
    assert_eq!(a.sub(b), v2(4.0, 2.0));
    assert_eq!(a.mul(fx(0.5)), v2(1.5, 2.0));
    assert_eq!(a.div(fx(2.0)), v2(1.5, 2.0));
    let mut c = a;
    c.add_assign(b);
    assert_eq!(c, v2(2.0, 6.0));
    c.sub_assign(b);
    assert_eq!(c, a);
    c.mul_assign(fx(2.0));
    assert_eq!(c, v2(6.0, 8.0));
    c.div_assign(fx(4.0));
    assert_eq!(c, v2(1.5, 2.0));
}

#[test]
fn color_arithmetic() {
    let c = Color::rgb(fx(0.5), fx(0.25), fx(1.0));
    assert_eq!(c.a, fx(1.0));
    // an opaque colour over anything is itself
    let under = Color { r: fx(1.0), g: fx(1.0), b: fx(0.0), a: fx(0.5) };
    assert_eq!(c.add(under), c);
    // half transparent over opaque: alpha one, channels half and half
    let glass = Color { r: fx(1.0), g: fx(0.0), b: fx(0.0), a: fx(0.5) };
    let wall = Color::rgb(fx(0.0), fx(0.0), fx(1.0));
    let seen = glass.add(wall);
    assert_eq!(seen, Color { r: fx(0.5), g: fx(0.0), b: fx(0.5), a: fx(1.0) });
    assert_eq!(c.sub(under), Color { r: fx(-0.5), g: fx(-0.75), b: fx(1.0), a: fx(0.5) });
    assert_eq!(c.mul(fx(2.0)), Color { r: fx(1.0), g: fx(0.5), b: fx(2.0), a: fx(2.0) });
    assert_eq!(c.div(fx(2.0)), Color { r: fx(0.25), g: fx(0.125), b: fx(0.5), a: fx(0.5) });
    let mut d = c;
    d.add_assign(under);
    assert_eq!(d, Color { r: fx(1.5), g: fx(1.25), b: fx(1.0), a: fx(1.5) });
    d.sub_assign(under);
    assert_eq!(d, c);
    d.mul_assign(fx(4.0));
    assert_eq!(d, Color { r: fx(2.0), g: fx(1.0), b: fx(4.0), a: fx(4.0) });
    d.div_assign(fx(8.0));
    assert_eq!(d, Color { r: fx(0.25), g: fx(0.125), b: fx(0.5), a: fx(0.5) });
}

#[test]
fn new_transform_is_zero_and_reset_makes_the_identity() {
    let mut t = Transform2D::new();
    assert_eq!((t.target, t.source, t.dirty), (0, 1, true));
    assert_eq!(t.forward(fx(3.0), fx(4.0)), (fx(0.0), fx(0.0)));
    t.reset();
    assert_eq!((t.target, t.source, t.dirty), (0, 1, true));
    assert_eq!(t.forward(fx(3.0), fx(4.0)), (fx(3.0), fx(4.0)));
}

#[test]
fn transforms_apply_in_the_order_given() {
    let mut t = Transform2D::new();
    t.reset();
    t.translate(fx(1.0), fx(0.0));
    assert_eq!((t.target, t.source, t.dirty), (1, 0, true));
    t.scale(fx(2.0), fx(3.0));
    assert_eq!((t.target, t.source), (0, 1));
    // first the shift, then the scaling
    assert_eq!(t.forward(fx(1.0), fx(1.0)), (fx(4.0), fx(3.0)));
    t.shear(fx(1.0), fx(0.0));
    assert_eq!(t.forward(fx(1.0), fx(1.0)), (fx(7.0), fx(3.0)));
    t.reset();
    t.rotate(fx(std::f64::consts::FRAC_PI_2));
    // a quarter turn takes the x axis to minus y
    let r = t.forward(fx(1.0), fx(0.0));
    assert!(close(r.0, 0.0) && close(r.1, -1.0));
    let r = t.forward(fx(0.0), fx(1.0));
    assert!(close(r.0, 1.0) && close(r.1, 0.0));
}

#[test]
fn invert_gives_the_way_back() {
    let mut t = Transform2D::new();
    t.reset();
    t.rotate(fx(0.4));
    t.scale(fx(2.0), fx(0.5));
    t.translate(fx(5.0), fx(-3.0));
    t.shear(fx(0.25), fx(0.0));
    let there = t.forward(fx(1.5), fx(-2.5));
    t.invert();
    assert!(!t.dirty);
    let back = t.backward(there.0, there.1);
    assert!(close(back.0, 1.5) && close(back.1, -2.5));
    // a second call changes nothing
    let before = t;
    t.invert();
    assert_eq!(t.matrix, before.matrix);
    // a further step makes the inverse stale
    t.scale(fx(1.0), fx(1.0));
    assert!(t.dirty);
}

fn two_by_two() -> Sprite {
    let mut s = Sprite::new(2, 2);
    s.set_pixel(0, 0, &Pixel::rgb(1, 0, 0));
    s.set_pixel(1, 0, &Pixel::rgb(2, 0, 0));
    s.set_pixel(0, 1, &Pixel::rgb(3, 0, 0));
    s.set_pixel(1, 1, &Pixel::rgb(4, 0, 0));
    s
}

#[test]
fn sprite_under_a_scaling_and_a_shift() {
    let mut pge = PGE::new(8, 8, 1, 1, Sprite::new(0, 0));
    pge.clear(&Pixel::rgb(9, 9, 9));
    let mut t = Transform2D::new();
    t.reset();
    t.scale(fx(2.0), fx(2.0));
    t.translate(fx(2.0), fx(1.0));
    GFX2D::draw_sprite(&mut pge, &two_by_two(), &mut t);
    assert!(!t.dirty);
    let target = pge.draw_target().unwrap();
    // The box runs from the origin to the far corner at (6, 5). A pixel
    // shows the sprite's pixel at where the inverse takes it, plus a half,
    // rounded toward zero: pixel x goes to (x - 2) / 2 + 1 / 2, which is
    // column 0 up to x = 2 (from -1 / 2 on), column 1 for 3 and 4, and
    // beyond the sprite at 5. Rows likewise, from (y - 1) / 2 + 1 / 2.
    for y in 0..8 {
        for x in 0..8 {
            let want = if x < 6 && y < 5 {
                let col = if (0..3).contains(&x) { Some(0) } else if (3..5).contains(&x) { Some(1) } else { None };
                let row = if (0..2).contains(&y) { Some(0) } else if (2..4).contains(&y) { Some(1) } else { None };
                match (col, row) {
                    (Some(c), Some(r)) => Pixel::rgb(1 + c + 2 * r, 0, 0),
                    _ => BLANK,
                }
            } else {
                Pixel::rgb(9, 9, 9)
            };
            assert_eq!(target.get_pixel(x, y), want, "pixel {} {}", x, y);
        }
    }
}

#[test]
fn invert_of_a_transform_without_inverse_gives_numbers() {
    let mut t = Transform2D::new();
    // all matrices are zero: the determinant is zero
    t.invert();
    assert!(!t.dirty);
    assert_eq!(t.backward(fx(1.0), fx(2.0)), (fx(0.0), fx(0.0)));
}
