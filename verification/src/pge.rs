//! The drawing surface: a stack of layers, one of which is the draw target,
//! and the pixel-level write that every primitive goes through.

pub mod blit;
pub mod font;
pub mod shapes;

use vstd::prelude::*;
use crate::arith::trunc_div;
use crate::pixel::Pixel;
use crate::pixel::PixelMode;
use crate::pixel::blend;
use crate::pixel::blend_pixels;
use crate::sprite::Image;
use crate::sprite::Mode;
use crate::sprite::Sprite;

verus! {

/// The mathematical state of the engine's drawing side.
pub struct Canvas {
    pub screen_width: nat,
    pub screen_height: nat,
    pub pixel_mode: PixelMode,
    pub blend_factor: u8,
    pub font: Image,
    pub mouse_pos: (int, int),
    pub layers: Seq<Image>,
    /// For each layer, whether it is to be shown anew.
    pub update: Seq<bool>,
    pub current_layer: nat,
    pub pixel_width: int,
    pub pixel_height: int,
}

impl Canvas {
    /// Every layer and the font have a pixel exactly at their positions.
    pub open spec fn wf(self) -> bool {
        &&& self.font.wf()
        &&& forall|i: int| 0 <= i < self.layers.len() ==> (#[trigger] self.layers[i]).wf()
    }

    /// Whether a draw target is selected.
    pub open spec fn has_target(self) -> bool {
        self.current_layer < self.layers.len()
    }

    /// The layer that draws go to.
    pub open spec fn target(self) -> Image
        recommends
            self.has_target(),
    {
        self.layers[self.current_layer as int]
    }

    /// The canvas with its draw target replaced; the same canvas where none
    /// is selected.
    pub open spec fn with_target(self, img: Image) -> Canvas {
        if self.has_target() {
            Canvas { layers: self.layers.update(self.current_layer as int, img), ..self }
        } else {
            self
        }
    }

    /// The canvas after one pixel write at `(x, y)`: the target's pixel there
    /// is blended with `p` under the pixel mode; a position outside the target
    /// changes nothing.
    pub open spec fn drawn(self, x: int, y: int, p: Pixel) -> Canvas {
        self.with_target(
            self.target().set(
                x,
                y,
                blend(self.pixel_mode, self.blend_factor, self.target().get(x, y), p),
            ),
        )
    }

    /// The canvas after at most one pixel write per position: where `paint`
    /// names a pixel for a position of the target, that pixel is blended into
    /// the one there.
    pub open spec fn painted(self, paint: spec_fn(int, int) -> Option<Pixel>) -> Canvas {
        self.with_target(
            Image {
                at: Map::new(
                    |k: (int, int)| self.target().contains(k.0, k.1),
                    |k: (int, int)|
                        match paint(k.0, k.1) {
                            Some(p) => blend(
                                self.pixel_mode,
                                self.blend_factor,
                                self.target().at[k],
                                p,
                            ),
                            None => self.target().at[k],
                        },
                ),
                ..self.target()
            },
        )
    }

    /// The canvas after pixel writes of `p` at each of `pts`, first to last.
    pub open spec fn drawn_all(self, pts: Seq<(int, int)>, p: Pixel) -> Canvas
        decreases pts.len(),
    {
        if pts.len() == 0 {
            self
        } else {
            self.drawn_all(pts.drop_last(), p).drawn(pts.last().0, pts.last().1, p)
        }
    }
}

/// Painting nothing leaves a canvas as it is.
pub proof fn lemma_painted_nothing(c: Canvas, paint: spec_fn(int, int) -> Option<Pixel>)
    requires
        c.wf(),
        forall|x: int, y: int| (#[trigger] paint(x, y)) is None,
    ensures
        c.painted(paint) == c,
{
    if c.has_target() {
        let img = c.painted(paint).target();
        assert(img.at =~= c.target().at);
        assert(c.painted(paint).layers =~= c.layers);
    }
}

/// What is painted depends on `paint` only through what it names at the
/// positions of the draw target.
pub proof fn lemma_painted_same(
    c: Canvas,
    paint1: spec_fn(int, int) -> Option<Pixel>,
    paint2: spec_fn(int, int) -> Option<Pixel>,
)
    requires
        forall|x: int, y: int|
            c.has_target() && c.target().contains(x, y) ==> #[trigger] paint1(x, y) == paint2(x, y),
    ensures
        c.painted(paint1) == c.painted(paint2),
{
    if c.has_target() {
        assert(c.painted(paint1).target().at =~= c.painted(paint2).target().at);
        assert(c.painted(paint1).layers =~= c.painted(paint2).layers);
    }
}

/// Painting one position more is one pixel write more: if `more` names what
/// `paint` names, and besides that `p` at `(x, y)`, where `paint` names
/// nothing, then painting `more` is painting `paint` and then drawing `p` at
/// `(x, y)`.
pub proof fn lemma_painted_one_more(
    c: Canvas,
    paint: spec_fn(int, int) -> Option<Pixel>,
    more: spec_fn(int, int) -> Option<Pixel>,
    x: int,
    y: int,
    p: Pixel,
)
    requires
        c.wf(),
        paint(x, y) is None,
        more(x, y) == Some(p),
        forall|px: int, py: int| (px, py) != (x, y) ==> #[trigger] more(px, py) == paint(px, py),
    ensures
        c.painted(more) == c.painted(paint).drawn(x, y, p),
{
    if c.has_target() {
        let mid = c.painted(paint);
        assert(mid.has_target());
        let img1 = mid.drawn(x, y, p).target();
        let img2 = c.painted(more).target();
        assert(c.target().contains(x, y) ==> mid.target().at[(x, y)] == c.target().at[(x, y)]);
        assert(img1.at =~= img2.at);
        assert(c.painted(more).layers =~= mid.drawn(x, y, p).layers);
    }
}

/// The positions that a row-by-row walk over the columns `x0..x1`, from row
/// `y0` on, has passed when it stands at `(x, y)`.
pub open spec fn scanned(x0: int, x1: int, y0: int, x: int, y: int, px: int, py: int) -> bool {
    x0 <= px < x1 && y0 <= py && (py < y || (py == y && px < x))
}

/// What such a walk has painted of `paint` when it stands at `(x, y)`.
pub open spec fn scan_of(
    paint: spec_fn(int, int) -> Option<Pixel>,
    x0: int,
    x1: int,
    y0: int,
    x: int,
    y: int,
) -> spec_fn(int, int) -> Option<Pixel> {
    |px: int, py: int|
        if scanned(x0, x1, y0, x, y, px, py) {
            paint(px, py)
        } else {
            None
        }
}

/// At its start a walk has painted nothing.
pub proof fn lemma_scan_start(
    c: Canvas,
    paint: spec_fn(int, int) -> Option<Pixel>,
    x0: int,
    x1: int,
    y0: int,
)
    requires
        c.wf(),
    ensures
        c.painted(scan_of(paint, x0, x1, y0, x0, y0)) == c,
{
    lemma_painted_nothing(c, scan_of(paint, x0, x1, y0, x0, y0));
}

/// One step of a walk is one pixel write, or none.
pub proof fn lemma_scan_step(
    c: Canvas,
    paint: spec_fn(int, int) -> Option<Pixel>,
    x0: int,
    x1: int,
    y0: int,
    x: int,
    y: int,
)
    requires
        c.wf(),
        x0 <= x < x1,
        y0 <= y,
    ensures
        c.painted(scan_of(paint, x0, x1, y0, x + 1, y)) == (match paint(x, y) {
            Some(p) => c.painted(scan_of(paint, x0, x1, y0, x, y)).drawn(x, y, p),
            None => c.painted(scan_of(paint, x0, x1, y0, x, y)),
        }),
{
    let before = scan_of(paint, x0, x1, y0, x, y);
    let after = scan_of(paint, x0, x1, y0, x + 1, y);
    match paint(x, y) {
        Some(p) => {
            lemma_painted_one_more(c, before, after, x, y, p);
        },
        None => {
            lemma_painted_same(c, before, after);
        },
    }
}

/// The end of a row is the start of the next.
pub proof fn lemma_scan_row(
    c: Canvas,
    paint: spec_fn(int, int) -> Option<Pixel>,
    x0: int,
    x1: int,
    y0: int,
    y: int,
)
    ensures
        c.painted(scan_of(paint, x0, x1, y0, x1, y)) == c.painted(
            scan_of(paint, x0, x1, y0, x0, y + 1),
        ),
{
    lemma_painted_same(
        c,
        scan_of(paint, x0, x1, y0, x1, y),
        scan_of(paint, x0, x1, y0, x0, y + 1),
    );
}

/// A walk over a box that holds all that `paint` names has painted all of
/// it at its end.
pub proof fn lemma_scan_done(
    c: Canvas,
    paint: spec_fn(int, int) -> Option<Pixel>,
    x0: int,
    x1: int,
    y0: int,
    y1: int,
)
    requires
        forall|px: int, py: int|
            (#[trigger] paint(px, py)) is Some ==> x0 <= px < x1 && y0 <= py < y1,
    ensures
        c.painted(scan_of(paint, x0, x1, y0, x0, y1)) == c.painted(paint),
{
    lemma_painted_same(c, scan_of(paint, x0, x1, y0, x0, y1), paint);
}

/// A window coordinate in screen pixels of `size` window pixels each, held
/// inside a screen of `extent` pixels: quotient rounded toward zero, then at
/// most `extent - 1`, then at least `0`.
pub open spec fn screen_coordinate(v: int, size: int, extent: int) -> int {
    let q = trunc_div(v, size);
    let capped = if q >= extent {
        extent - 1
    } else {
        q
    };
    if capped < 0 {
        0
    } else {
        capped
    }
}

/// Computes [`screen_coordinate`].
fn to_screen(v: i32, size: i32, extent: usize) -> (r: i32)
    requires
        size > 0,
    ensures
        r == screen_coordinate(v as int, size as int, extent as int),
{
    let q: i32 = v / size;
    let capped: i32 = if q >= 0 && (q as u32 as usize) >= extent {
        if extent == 0 {
            -1
        } else {
            (extent - 1) as i32
        }
    } else {
        q
    };
    if capped < 0 {
        0
    } else {
        capped
    }
}

/// Drawing the points of two lists, one list after the other, is drawing the
/// points of the joined list.
pub proof fn lemma_drawn_all_concat(c: Canvas, first: Seq<(int, int)>, second: Seq<(int, int)>, p: Pixel)
    ensures
        c.drawn_all(first + second, p) == c.drawn_all(first, p).drawn_all(second, p),
    decreases second.len(),
{
    if second.len() == 0 {
        assert(first + second =~= first);
    } else {
        assert((first + second).drop_last() =~= first + second.drop_last());
        lemma_drawn_all_concat(c, first, second.drop_last(), p);
    }
}

/// Drawing one point more.
pub proof fn lemma_drawn_all_push(c: Canvas, pts: Seq<(int, int)>, pt: (int, int), p: Pixel)
    ensures
        c.drawn_all(pts.push(pt), p) == c.drawn_all(pts, p).drawn(pt.0, pt.1, p),
{
    assert(pts.push(pt).drop_last() =~= pts);
}

/// The engine's drawing state: screen size, pixel mode, font, and the layers
/// that primitives draw into.
pub struct PGE {
    pub screen_width: usize,
    pub screen_height: usize,
    pub pixel_mode: PixelMode,
    /// Strength of alpha mixing, out of 255.
    pub blend_factor: u8,
    pub font: Sprite,
    pub mouse_pos: (i32, i32),
    layers: Vec<Sprite>,
    update: Vec<bool>,
    current_layer: usize,
    pixel_width: i32,
    pixel_height: i32,
}

impl View for PGE {
    type V = Canvas;

    closed spec fn view(&self) -> Canvas {
        Canvas {
            screen_width: self.screen_width as nat,
            screen_height: self.screen_height as nat,
            pixel_mode: self.pixel_mode,
            blend_factor: self.blend_factor,
            font: self.font@,
            mouse_pos: (self.mouse_pos.0 as int, self.mouse_pos.1 as int),
            layers: self.layers@.map_values(|s: Sprite| s@),
            update: self.update@,
            current_layer: self.current_layer as nat,
            pixel_width: self.pixel_width as int,
            pixel_height: self.pixel_height as int,
        }
    }
}

impl PGE {
    /// Every layer and the font hold the pixels their sizes promise, and a
    /// screen pixel covers at least one window pixel each way.
    pub closed spec fn inv(&self) -> bool {
        &&& self.font.wf()
        &&& forall|i: int| 0 <= i < self.layers@.len() ==> (#[trigger] self.layers@[i]).wf()
        &&& self.update@.len() == self.layers@.len()
        &&& self.pixel_width > 0
        &&& self.pixel_height > 0
    }

    /// The engine's own invariant, and with it a well-formed canvas.
    pub open spec fn wf(&self) -> bool {
        self.inv() && self@.wf()
    }

    /// An engine for a screen of `width` by `height` pixels, each shown as
    /// `pix_width` by `pix_height` window pixels. It has one layer, transparent
    /// and selected as the draw target, and draws in `Normal` mode.
    pub fn new(width: usize, height: usize, pix_width: usize, pix_height: usize, font: Sprite) -> (pge:
        PGE)
        requires
            width <= u32::MAX,
            height <= u32::MAX,
            width * height <= u32::MAX,
            0 < pix_width <= i32::MAX,
            0 < pix_height <= i32::MAX,
            font.wf(),
        ensures
            pge.wf(),
            pge@ == (Canvas {
                screen_width: width as nat,
                screen_height: height as nat,
                pixel_mode: PixelMode::Normal,
                blend_factor: 255,
                font: font@,
                mouse_pos: (0, 0),
                layers: seq![
                    (Image {
                        width: width as nat,
                        height: height as nat,
                        mode: Mode::Normal,
                        at: Map::new(
                            |k: (int, int)| 0 <= k.0 < width && 0 <= k.1 < height,
                            |k: (int, int)| Pixel::blank(),
                        ),
                    }),
                ],
                update: seq![true],
                current_layer: 0,
                pixel_width: pix_width as int,
                pixel_height: pix_height as int,
            }),
    {
        let back_buffer = Sprite::new(width as u32, height as u32);
        proof {
            assert forall|k: (int, int)| 0 <= k.0 < width && 0 <= k.1 < height implies back_buffer.pixel_data@[k.1
                * width + k.0] == Pixel::blank() by {
                crate::sprite::lemma_index(width as int, height as int, k.0, k.1);
            }
            assert(back_buffer@.at =~= Map::new(
                |k: (int, int)| 0 <= k.0 < width && 0 <= k.1 < height,
                |k: (int, int)| Pixel::blank(),
            ));
        }
        let mut layers: Vec<Sprite> = Vec::new();
        layers.push(back_buffer);
        let mut update: Vec<bool> = Vec::new();
        update.push(true);
        let pge = PGE {
            screen_width: width,
            screen_height: height,
            pixel_mode: PixelMode::Normal,
            blend_factor: 255,
            font,
            mouse_pos: (0, 0),
            layers,
            update,
            current_layer: 0,
            pixel_width: pix_width as i32,
            pixel_height: pix_height as i32,
        };
        assert(pge@.layers =~= seq![back_buffer@]);
        assert(pge@.update =~= seq![true]);
        pge
    }

    /// Selects the layer that draws go to, and notes whether it is to be
    /// shown anew. An index that names no layer changes nothing.
    pub fn set_draw_target(&mut self, layer: usize, dirty: bool)
        requires
            old(self).wf(),
        ensures
            final(self).wf(),
            final(self)@ == (if layer < old(self)@.layers.len() {
                Canvas {
                    current_layer: layer as nat,
                    update: old(self)@.update.update(layer as int, dirty),
                    ..old(self)@
                }
            } else {
                old(self)@
            }),
    {
        if layer < self.layers.len() {
            self.update.set(layer, dirty);
            self.current_layer = layer;
        }
    }

    /// Sets how pixels that are drawn combine with those that are there.
    pub fn set_pixel_mode(&mut self, mode: PixelMode)
        requires
            old(self).wf(),
        ensures
            final(self).wf(),
            final(self)@ == (Canvas { pixel_mode: mode, ..old(self)@ }),
    {
        self.pixel_mode = mode;
    }

    /// Sets the strength of alpha mixing, out of 255.
    pub fn set_blend_factor(&mut self, factor: u8)
        requires
            old(self).wf(),
        ensures
            final(self).wf(),
            final(self)@ == (Canvas { blend_factor: factor, ..old(self)@ }),
    {
        self.blend_factor = factor;
    }

    /// Whether the layer is to be shown anew; `false` where there is none.
    pub fn needs_update(&self, layer: usize) -> (dirty: bool)
        requires
            self.wf(),
        ensures
            dirty == (layer < self@.update.len() && self@.update[layer as int]),
    {
        layer < self.update.len() && self.update[layer]
    }

    /// The sprite that draws go to, if a layer is selected.
    pub fn draw_target(&self) -> (target: Option<&Sprite>)
        requires
            self.wf(),
        ensures
            target is Some == self@.has_target(),
            target matches Some(s) ==> s.wf() && s@ == self@.target(),
    {
        if self.current_layer < self.layers.len() {
            Some(&self.layers[self.current_layer])
        } else {
            None
        }
    }

    /// The mouse's column on the screen.
    pub fn get_mouse_x(&mut self) -> (x: i32)
        ensures
            x == old(self)@.mouse_pos.0,
            *final(self) == *old(self),
    {
        self.mouse_pos.0
    }

    /// The mouse's row on the screen.
    pub fn get_mouse_y(&mut self) -> (y: i32)
        ensures
            y == old(self)@.mouse_pos.1,
            *final(self) == *old(self),
    {
        self.mouse_pos.1
    }

    /// Takes the mouse's position in window pixels and keeps it in screen
    /// pixels, held inside the screen.
    pub fn mouse_moved(&mut self, x: i32, y: i32)
        requires
            old(self).wf(),
        ensures
            final(self).wf(),
            final(self)@ == (Canvas {
                mouse_pos: (
                    screen_coordinate(x as int, old(self)@.pixel_width, old(self)@.screen_width as int),
                    screen_coordinate(y as int, old(self)@.pixel_height, old(self)@.screen_height as int),
                ),
                ..old(self)@
            }),
    {
        let mx = to_screen(x, self.pixel_width, self.screen_width);
        let my = to_screen(y, self.pixel_height, self.screen_height);
        self.mouse_pos = (mx, my);
    }

    /// Paints the whole draw target with `p`, whatever the pixel mode.
    pub fn clear(&mut self, p: &Pixel)
        requires
            old(self).wf(),
            old(self)@.has_target(),
        ensures
            final(self).wf(),
            final(self)@ == old(self)@.with_target(old(self)@.target().filled(*p)),
    {
        self.layers[self.current_layer].fill(*p);
        assert(self@.layers =~= old(self)@.with_target(old(self)@.target().filled(*p)).layers);
    }

    /// Writes one pixel to the draw target under the pixel mode.
    pub fn draw(&mut self, x: i32, y: i32, p: &Pixel)
        requires
            old(self).wf(),
        ensures
            final(self).wf(),
            final(self)@ == old(self)@.drawn(x as int, y as int, *p),
    {
        if self.current_layer < self.layers.len() {
            let d = self.layers[self.current_layer].get_pixel(x, y);
            let q = blend_pixels(self.pixel_mode, self.blend_factor, d, *p);
            self.layers[self.current_layer].set_pixel(x, y, &q);
            assert(self@.layers =~= old(self)@.drawn(x as int, y as int, *p).layers);
        }
    }
}

} // verus!
