//! Software framebuffer: a packed pixel buffer (RGB or BGR, 3 or more bytes
//! per pixel, rows `stride_bytes` apart) plus every drawing primitive the
//! desktop, the welcome screen and the boot console use.
//!
//! Every primitive is specified at the byte level through [`paint`]: the
//! result is the old buffer with some pixels replaced by a colour, each
//! written exactly as `put_pixel` lays it out in memory.

use vstd::prelude::*;
use vstd::arithmetic::div_mod::lemma_fundamental_div_mod_converse;
use vstd::std_specs::iter::IteratorSpec;
use vstd::string::StringSliceAdditionalSpecFns;

verus! {

pub type Color = (u8, u8, u8);

/// Shape of the pixel buffer: everything needed to find a pixel's bytes.
#[derive(Clone, Copy)]
pub struct Geometry {
    pub stride_bytes: usize,
    pub width: usize,
    pub height: usize,
    pub bpp: usize,
    pub bgr: bool,
}

impl Geometry {
    /// Pixels fit in their rows, the buffer size fits in memory, and the
    /// coordinate arithmetic of the primitives (i32 casts, `row * 256` in u32)
    /// cannot overflow.
    pub open spec fn wf(self) -> bool {
        &&& 3 <= self.bpp
        &&& self.width * self.bpp <= self.stride_bytes
        &&& self.height * self.stride_bytes <= usize::MAX
        &&& self.width <= 0x7fff_ffff
        &&& self.height < 0x100_0000
    }

    pub open spec fn len(self) -> int {
        self.height * self.stride_bytes
    }

    /// Column of the pixel that byte `i` belongs to.
    pub open spec fn px(self, i: int) -> int {
        (i % self.stride_bytes as int) / self.bpp as int
    }

    /// Row of the pixel that byte `i` belongs to.
    pub open spec fn py(self, i: int) -> int {
        i / self.stride_bytes as int
    }

    /// Position of byte `i` inside its pixel.
    pub open spec fn pc(self, i: int) -> int {
        (i % self.stride_bytes as int) % self.bpp as int
    }

    /// Byte offset of pixel (x, y).
    pub open spec fn offset(self, x: int, y: int) -> int {
        y * self.stride_bytes + x * self.bpp
    }

    /// Byte `i` is one that `put_pixel` writes for its pixel.
    pub open spec fn written(self, i: int) -> bool {
        self.px(i) < self.width && self.pc(i) < 4
    }
}

/// The byte that `put_pixel` stores at position `c` of a pixel of colour `col`.
pub open spec fn chan(g: Geometry, c: int, col: Color) -> u8 {
    if c == 0 {
        if g.bgr { col.2 } else { col.0 }
    } else if c == 1 {
        col.1
    } else if c == 2 {
        if g.bgr { col.0 } else { col.2 }
    } else {
        0u8
    }
}

/// The buffer after writing `f(x, y)` to every pixel where it is `Some`.
pub open spec fn paint(g: Geometry, buf: Seq<u8>, f: spec_fn(int, int) -> Option<Color>) -> Seq<u8> {
    Seq::new(
        buf.len(),
        |i: int|
            if g.written(i) && f(g.px(i), g.py(i)) is Some {
                chan(g, g.pc(i), f(g.px(i), g.py(i))->0)
            } else {
                buf[i]
            },
    )
}

/// Colour of pixel (x, y) as stored in `buf`.
pub open spec fn rgb_at(g: Geometry, buf: Seq<u8>, x: int, y: int) -> Color {
    let o = g.offset(x, y);
    if g.bgr {
        (buf[o + 2], buf[o + 1], buf[o])
    } else {
        (buf[o], buf[o + 1], buf[o + 2])
    }
}

/// `f` on the rectangle [x0, x1) × [y0, y1), given the pixel's colour in `buf`.
pub open spec fn region(
    g: Geometry,
    buf: Seq<u8>,
    x0: int,
    y0: int,
    x1: int,
    y1: int,
    f: spec_fn(int, int, Color) -> Option<Color>,
) -> spec_fn(int, int) -> Option<Color> {
    |x: int, y: int|
        if x0 <= x < x1 && y0 <= y < y1 {
            f(x, y, rgb_at(g, buf, x, y))
        } else {
            None
        }
}

/// A solid colour on a rectangle.
pub open spec fn solid(x0: int, y0: int, w: int, h: int, col: Color) -> spec_fn(int, int) -> Option<Color> {
    |x: int, y: int| if x0 <= x < x0 + w && y0 <= y < y0 + h { Some(col) } else { None }
}

/// Bytes of pixel (x, y) sit at its offset, in order.
pub proof fn lemma_pixel_bytes(g: Geometry, x: int, y: int, k: int)
    requires
        g.wf(),
        0 <= x < g.width,
        0 <= y < g.height,
        0 <= k < g.bpp,
    ensures
        0 <= g.offset(x, y) + k < g.len(),
        g.px(g.offset(x, y) + k) == x,
        g.py(g.offset(x, y) + k) == y,
        g.pc(g.offset(x, y) + k) == k,
{
    let s = g.stride_bytes as int;
    let b = g.bpp as int;
    let r = x * b + k;
    assert(x * b + k < g.width * b) by (nonlinear_arith)
        requires 0 <= x < g.width, 0 <= k < b;
    assert(0 <= x * b) by (nonlinear_arith)
        requires 0 <= x, 0 <= b;
    assert(0 <= r < s);
    lemma_fundamental_div_mod_converse(y * s + r, s, y, r);
    lemma_fundamental_div_mod_converse(r, b, x, k);
    assert(y * s + r < g.height * s) by (nonlinear_arith)
        requires 0 <= y < g.height, 0 <= r < s;
    assert(0 <= y * s) by (nonlinear_arith)
        requires 0 <= y, 0 <= s;
}

/// A byte of the buffer belongs to exactly one pixel: the one at its offset.
pub proof fn lemma_byte_pixel(g: Geometry, i: int)
    requires
        g.wf(),
        0 <= i < g.len(),
        g.px(i) < g.width,
    ensures
        0 <= g.px(i),
        0 <= g.py(i) < g.height,
        0 <= g.pc(i) < g.bpp,
        i == g.offset(g.px(i), g.py(i)) + g.pc(i),
{
    let s = g.stride_bytes as int;
    let b = g.bpp as int;
    assert(s > 0) by (nonlinear_arith)
        requires g.len() > 0, g.len() == g.height * s, s >= 0, g.height >= 0;
    vstd::arithmetic::div_mod::lemma_fundamental_div_mod(i, s);
    vstd::arithmetic::div_mod::lemma_fundamental_div_mod(i % s, b);
    vstd::arithmetic::div_mod::lemma_mod_bound(i, s);
    vstd::arithmetic::div_mod::lemma_mod_bound(i % s, b);
    vstd::arithmetic::div_mod::lemma_div_pos_is_pos(i, s);
    vstd::arithmetic::div_mod::lemma_div_pos_is_pos(i % s, b);
    assert(s * (i / s) == (i / s) * s) by (nonlinear_arith);
    assert(b * ((i % s) / b) == ((i % s) / b) * b) by (nonlinear_arith);
    if i / s >= g.height {
        assert((i / s) * s >= g.height * s) by (nonlinear_arith)
            requires i / s >= g.height, s > 0;
    }
}

/// Painting twice is painting once with the later writes taking precedence.
pub proof fn lemma_paint_paint(
    g: Geometry,
    b: Seq<u8>,
    f1: spec_fn(int, int) -> Option<Color>,
    f2: spec_fn(int, int) -> Option<Color>,
    f: spec_fn(int, int) -> Option<Color>,
)
    requires
        forall|x: int, y: int| #[trigger] f(x, y) == (if f2(x, y) is Some { f2(x, y) } else { f1(x, y) }),
    ensures
        paint(g, paint(g, b, f1), f2) == paint(g, b, f),
{
    assert(paint(g, paint(g, b, f1), f2) =~= paint(g, b, f));
}

/// Painting with pointwise-equal functions gives the same buffer.
pub proof fn lemma_paint_ext(
    g: Geometry,
    b: Seq<u8>,
    f1: spec_fn(int, int) -> Option<Color>,
    f2: spec_fn(int, int) -> Option<Color>,
)
    requires
        forall|x: int, y: int| 0 <= x < g.width && 0 <= y < g.height ==> #[trigger] f1(x, y) == f2(x, y),
        g.wf(),
        b.len() == g.len(),
    ensures
        paint(g, b, f1) == paint(g, b, f2),
{
    assert forall|i: int| 0 <= i < b.len() implies paint(g, b, f1)[i] == paint(g, b, f2)[i] by {
        if g.written(i) {
            lemma_byte_pixel(g, i);
        }
    }
    assert(paint(g, b, f1) =~= paint(g, b, f2));
}

/// A pixel that is not painted keeps its colour.
pub proof fn lemma_rgb_unpainted(g: Geometry, b: Seq<u8>, f: spec_fn(int, int) -> Option<Color>, x: int, y: int)
    requires
        g.wf(),
        b.len() == g.len(),
        0 <= x < g.width,
        0 <= y < g.height,
        f(x, y) is None,
    ensures
        rgb_at(g, paint(g, b, f), x, y) == rgb_at(g, b, x, y),
{
    lemma_pixel_bytes(g, x, y, 0);
    lemma_pixel_bytes(g, x, y, 1);
    lemma_pixel_bytes(g, x, y, 2);
}

/// Write-back of a whole colour through `put_pixel` reads back as that colour.
pub proof fn lemma_rgb_painted(g: Geometry, b: Seq<u8>, f: spec_fn(int, int) -> Option<Color>, x: int, y: int)
    requires
        g.wf(),
        b.len() == g.len(),
        0 <= x < g.width,
        0 <= y < g.height,
        f(x, y) is Some,
    ensures
        rgb_at(g, paint(g, b, f), x, y) == f(x, y)->0,
{
    lemma_pixel_bytes(g, x, y, 0);
    lemma_pixel_bytes(g, x, y, 1);
    lemma_pixel_bytes(g, x, y, 2);
}

/// Framebuffer with a text console on top of it.
pub struct FbWriter {
    geo: Geometry,
    buf: Vec<u8>,
    cols: usize,
    rows: usize,
    col: usize,
    row: usize,
    bg: Color,
    fg: Color,
    /// Console font: `FONT_GLYPHS` glyphs of 8 rows, one byte per row.
    font: Vec<u8>,
}

impl FbWriter {
    pub closed spec fn geometry(&self) -> Geometry {
        self.geo
    }

    pub closed spec fn bytes(&self) -> Seq<u8> {
        self.buf@
    }

    /// A well-formed writer has a well-formed geometry and a buffer of its size.
    pub proof fn lemma_wf(&self)
        requires
            self.wf(),
        ensures
            self.geometry().wf(),
            self.bytes().len() == self.geometry().len(),
    {
    }

    /// Text state: (cols, rows, col, row, bg, fg, font bytes).
    pub closed spec fn text(&self) -> (usize, usize, usize, usize, Color, Color, Seq<u8>) {
        (self.cols, self.rows, self.col, self.row, self.bg, self.fg, self.font@)
    }

    pub closed spec fn wf(&self) -> bool {
        &&& self.geo.wf()
        &&& self.buf@.len() == self.geo.len()
        &&& self.font@.len() == FONT_GLYPHS * 8
        &&& self.cols == self.geo.width / 8
        &&& self.rows == self.geo.height / 16
    }

    /// Write one pixel; `(x, y)` must be on screen.
    fn put_pixel(&mut self, x: usize, y: usize, r: u8, g: u8, b: u8)
        requires
            old(self).wf(),
            x < old(self).geo.width,
            y < old(self).geo.height,
        ensures
            final(self).wf(),
            final(self).geo == old(self).geo,
            final(self).text() == old(self).text(),
            final(self).buf@ == paint(
                old(self).geo,
                old(self).buf@,
                solid(x as int, y as int, 1, 1, (r, g, b)),
            ),
    {
        let ghost gg = self.geo;
        let ghost old_buf = self.buf@;
        proof {
            lemma_pixel_bytes(gg, x as int, y as int, 0);
            lemma_pixel_bytes(gg, x as int, y as int, 2);
            lemma_pixel_bytes(gg, x as int, y as int, (gg.bpp - 1) as int);
        }
        let off = y * self.geo.stride_bytes + x * self.geo.bpp;
        if self.geo.bgr {
            self.buf.set(off, b);
            self.buf.set(off + 1, g);
            self.buf.set(off + 2, r);
        } else {
            self.buf.set(off, r);
            self.buf.set(off + 1, g);
            self.buf.set(off + 2, b);
        }
        if self.geo.bpp >= 4 {
            proof {
                lemma_pixel_bytes(gg, x as int, y as int, 3);
            }
            self.buf.set(off + 3, 0);
        }
        proof {
            let f = solid(x as int, y as int, 1, 1, (r, g, b));
            assert forall|i: int| 0 <= i < old_buf.len() implies self.buf@[i] == paint(gg, old_buf, f)[i] by {
                if off <= i < off + gg.bpp {
                    lemma_pixel_bytes(gg, x as int, y as int, i - off);
                } else if gg.px(i) < gg.width {
                    lemma_byte_pixel(gg, i);
                }
            }
            assert(self.buf@ =~= paint(gg, old_buf, f));
        }
    }

    /// Read the colour of an on-screen pixel.
    fn get_pixel(&self, x: usize, y: usize) -> (c: Color)
        requires
            self.wf(),
            x < self.geo.width,
            y < self.geo.height,
        ensures
            c == rgb_at(self.geo, self.buf@, x as int, y as int),
    {
        proof {
            lemma_pixel_bytes(self.geo, x as int, y as int, 0);
            lemma_pixel_bytes(self.geo, x as int, y as int, 2);
        }
        let off = y * self.geo.stride_bytes + x * self.geo.bpp;
        if self.geo.bgr {
            (self.buf[off + 2], self.buf[off + 1], self.buf[off])
        } else {
            (self.buf[off], self.buf[off + 1], self.buf[off + 2])
        }
    }

    /// Apply a per-pixel rule to the on-screen rectangle [x0, x1) × [y0, y1),
    /// rows top to bottom, each row left to right. The rule sees the pixel's
    /// current colour and returns the colour to write, if any.
    fn apply<F: Fn(usize, usize, Color) -> Option<Color>>(
        &mut self,
        x0: usize,
        y0: usize,
        x1: usize,
        y1: usize,
        f: F,
        Ghost(fs): Ghost<spec_fn(int, int, Color) -> Option<Color>>,
    )
        requires
            old(self).wf(),
            x1 <= old(self).geo.width,
            y1 <= old(self).geo.height,
            forall|x: usize, y: usize, c: Color| x0 <= x < x1 && y0 <= y < y1 ==> f.requires((x, y, c)),
            forall|x: usize, y: usize, c: Color, r: Option<Color>|
                x0 <= x < x1 && y0 <= y < y1 && f.ensures((x, y, c), r) ==> r == fs(x as int, y as int, c),
        ensures
            final(self).wf(),
            final(self).geo == old(self).geo,
            final(self).text() == old(self).text(),
            final(self).buf@ == paint(
                old(self).geo,
                old(self).buf@,
                region(old(self).geo, old(self).buf@, x0 as int, y0 as int, x1 as int, y1 as int, fs),
            ),
    {
        let ghost gg = self.geo;
        let ghost ob = self.buf@;
        let ghost full = region(gg, ob, x0 as int, y0 as int, x1 as int, y1 as int, fs);
        let mut yy = y0;
        proof {
            lemma_paint_ext(gg, ob, region(gg, ob, x0 as int, y0 as int, x1 as int, y0 as int, fs), |x: int, y: int| None::<Color>);
            assert(paint(gg, ob, |x: int, y: int| None::<Color>) =~= ob);
        }
        while yy < y1
            invariant
                self.wf(),
                self.geo == gg,
                self.text() == old(self).text(),
                ob == old(self).buf@,
                gg == old(self).geo,
                x1 <= gg.width,
                y1 <= gg.height,
                y0 <= yy <= y1 || yy == y0,
                forall|x: usize, y: usize, c: Color| x0 <= x < x1 && y0 <= y < y1 ==> f.requires((x, y, c)),
                forall|x: usize, y: usize, c: Color, r: Option<Color>|
                    x0 <= x < x1 && y0 <= y < y1 && f.ensures((x, y, c), r) ==> r == fs(x as int, y as int, c),
                self.buf@ == paint(gg, ob, region(gg, ob, x0 as int, y0 as int, x1 as int, yy as int, fs)),
            decreases y1 - yy,
        {
            let mut xx = x0;
            proof {
                lemma_paint_ext(
                    gg,
                    ob,
                    region(gg, ob, x0 as int, y0 as int, x1 as int, yy as int, fs),
                    |x: int, y: int|
                        if (x0 <= x < x1 && y0 <= y < yy) || (y == yy && x0 <= x < x0) {
                            fs(x, y, rgb_at(gg, ob, x, y))
                        } else {
                            None
                        },
                );
            }
            while xx < x1
                invariant
                    self.wf(),
                    self.geo == gg,
                    self.text() == old(self).text(),
                    ob == old(self).buf@,
                    gg == old(self).geo,
                    x1 <= gg.width,
                    y1 <= gg.height,
                    y0 <= yy < y1,
                    x0 <= xx <= x1 || xx == x0,
                    forall|x: usize, y: usize, c: Color| x0 <= x < x1 && y0 <= y < y1 ==> f.requires((x, y, c)),
                    forall|x: usize, y: usize, c: Color, r: Option<Color>|
                        x0 <= x < x1 && y0 <= y < y1 && f.ensures((x, y, c), r) ==> r == fs(x as int, y as int, c),
                    self.buf@ == paint(
                        gg,
                        ob,
                        |x: int, y: int|
                            if (x0 <= x < x1 && y0 <= y < yy) || (y == yy && x0 <= x < xx) {
                                fs(x, y, rgb_at(gg, ob, x, y))
                            } else {
                                None
                            },
                    ),
                decreases x1 - xx,
            {
                let ghost before = self.buf@;
                let ghost part = |x: int, y: int|
                    if (x0 <= x < x1 && y0 <= y < yy) || (y == yy && x0 <= x < xx) {
                        fs(x, y, rgb_at(gg, ob, x, y))
                    } else {
                        None
                    };
                let ghost next = |x: int, y: int|
                    if (x0 <= x < x1 && y0 <= y < yy) || (y == yy && x0 <= x < xx + 1) {
                        fs(x, y, rgb_at(gg, ob, x, y))
                    } else {
                        None
                    };
                proof {
                    lemma_rgb_unpainted(gg, ob, part, xx as int, yy as int);
                }
                let cur = self.get_pixel(xx, yy);
                let r = f(xx, yy, cur);
                match r {
                    Some(c) => {
                        self.put_pixel(xx, yy, c.0, c.1, c.2);
                        proof {
                            lemma_paint_paint(gg, ob, part, solid(xx as int, yy as int, 1, 1, c), next);
                        }
                    },
                    None => {
                        proof {
                            lemma_paint_ext(gg, ob, part, next);
                        }
                    },
                }
                xx = xx + 1;
            }
            proof {
                lemma_paint_ext(
                    gg,
                    ob,
                    |x: int, y: int|
                        if (x0 <= x < x1 && y0 <= y < yy) || (y == yy && x0 <= x < xx) {
                            fs(x, y, rgb_at(gg, ob, x, y))
                        } else {
                            None
                        },
                    region(gg, ob, x0 as int, y0 as int, x1 as int, yy + 1, fs),
                );
            }
            yy = yy + 1;
        }
        proof {
            lemma_paint_ext(gg, ob, region(gg, ob, x0 as int, y0 as int, x1 as int, yy as int, fs), full);
        }
    }

    /// Solid-colour rectangle, clipped to the screen.
    pub fn fill_rect(&mut self, x: usize, y: usize, width: usize, height: usize, color: Color)
        requires
            old(self).wf(),
            x + width <= usize::MAX,
            y + height <= usize::MAX,
        ensures
            final(self).wf(),
            final(self).geometry() == old(self).geometry(),
            final(self).text() == old(self).text(),
            final(self).bytes() == paint(
                old(self).geometry(),
                old(self).bytes(),
                solid(x as int, y as int, width as int, height as int, color),
            ),
    {
        let x_end = if x + width < self.geo.width { x + width } else { self.geo.width };
        let y_end = if y + height < self.geo.height { y + height } else { self.geo.height };
        let ghost gg = self.geo;
        let ghost ob = self.buf@;
        let ghost fs = |px: int, py: int, c: Color| Some(color);
        self.apply(x, y, x_end, y_end, |px: usize, py: usize, c: Color| -> (r: Option<Color>)
            ensures r == Some(color)
            { Some(color) }, Ghost(fs));
        proof {
            lemma_paint_ext(gg, ob, region(gg, ob, x as int, y as int, x_end as int, y_end as int, fs),
                solid(x as int, y as int, width as int, height as int, color));
        }
    }
}


// ---------------------------------------------------------------- colour math

/// One channel of the vertical-gradient colour: `t` runs 0..=256 down the band.
pub open spec fn lerp(top: u8, bot: u8, t: int) -> u8 {
    ((top * (256 - t) + bot * t) / 256) as u8
}

/// Position of row `row` in a band `h` rows tall, in 1/256ths.
pub open spec fn grad_t(row: int, h: int) -> int {
    (row * 256) / h
}

/// Colour of row `row` of a vertical gradient `h` rows tall.
pub open spec fn grad(top: Color, bot: Color, row: int, h: int) -> Color {
    let t = grad_t(row, h);
    (lerp(top.0, bot.0, t), lerp(top.1, bot.1, t), lerp(top.2, bot.2, t))
}

/// One channel of `src` alpha-blended over `dst` at opacity `a` / 255.
pub open spec fn mix(s: u8, d: u8, a: int) -> u8 {
    ((s * a + d * (255 - a)) / 255) as u8
}

/// What an alpha blend of `color` over a pixel of colour `dst` writes:
/// nothing at alpha 0, `color` itself at alpha 255, the mix otherwise.
pub open spec fn blend(color: Color, dst: Color, alpha: u8) -> Option<Color> {
    if alpha == 0 {
        None
    } else if alpha == 255 {
        Some(color)
    } else {
        Some((mix(color.0, dst.0, alpha as int), mix(color.1, dst.1, alpha as int), mix(color.2, dst.2, alpha as int)))
    }
}

/// Corner radius after clamping to half the smaller side.
pub open spec fn clamp_radius(radius: int, w: int, h: int) -> int {
    let a = if radius < w / 2 { radius } else { w / 2 };
    if a < h / 2 { a } else { h / 2 }
}

/// Local point (lx, ly) of a `w`×`h` box lies inside the rounded shape with
/// corner radius `r`: outside the four corner squares, or within distance `r`
/// of the corner's centre.
pub open spec fn in_rounded(lx: int, ly: int, w: int, h: int, r: int) -> bool {
    let in_left = lx < r;
    let in_right = lx >= w - r;
    let in_top = ly < r;
    let in_bottom = ly >= h - r;
    if (in_left || in_right) && (in_top || in_bottom) {
        let cx = if in_left { r } else { w - r - 1 };
        let cy = if in_top { r } else { h - r - 1 };
        (lx - cx) * (lx - cx) + (ly - cy) * (ly - cy) <= r * r
    } else {
        true
    }
}

/// Same as [`in_rounded`] with only the two bottom corners rounded.
pub open spec fn in_rounded_bottom(lx: int, ly: int, w: int, h: int, r: int) -> bool {
    let in_left = lx < r;
    let in_right = lx >= w - r;
    let in_bottom = ly >= h - r;
    if in_bottom && (in_left || in_right) {
        let cx = if in_left { r } else { w - r - 1 };
        let cy = h - r - 1;
        (lx - cx) * (lx - cx) + (ly - cy) * (ly - cy) <= r * r
    } else {
        true
    }
}

/// Local point lies on the 1-pixel outline of the rounded shape.
pub open spec fn on_rounded_outline(lx: int, ly: int, w: int, h: int, r: int) -> bool {
    let in_left = lx < r;
    let in_right = lx >= w - r;
    let in_top = ly < r;
    let in_bottom = ly >= h - r;
    if (in_left || in_right) && (in_top || in_bottom) {
        let cx = if in_left { r } else { w - r - 1 };
        let cy = if in_top { r } else { h - r - 1 };
        let d = (lx - cx) * (lx - cx) + (ly - cy) * (ly - cy);
        let ri = if r - 1 > 0 { r - 1 } else { 0 };
        d <= r * r && d >= ri * ri
    } else {
        lx == 0 || lx == w - 1 || ly == 0 || ly == h - 1
    }
}

fn lerp_exec(top: u8, bot: u8, t: u32) -> (r: u8)
    requires
        t <= 256,
    ensures
        r == lerp(top, bot, t as int),
{
    assert(top as u32 * (256 - t) <= 255 * (256 - t) && bot as u32 * t <= 255 * t) by (nonlinear_arith)
        requires t <= 256, top <= 255, bot <= 255;
    let v: u32 = top as u32 * (256 - t) + bot as u32 * t;
    assert(v >> 8u32 == v / 256) by (bit_vector);
    (v >> 8) as u8
}

fn grad_exec(top: Color, bot: Color, row: usize, h: usize) -> (c: Color)
    requires
        row < h,
        h <= u32::MAX,
        row < 0x100_0000,
    ensures
        c == grad(top, bot, row as int, h as int),
{
    let t: u32 = (row as u32) * 256 / (h as u32);
    assert((row as int) * 256 / (h as int) <= 256) by (nonlinear_arith)
        requires 0 <= row < h;
    (lerp_exec(top.0, bot.0, t), lerp_exec(top.1, bot.1, t), lerp_exec(top.2, bot.2, t))
}

fn mix_exec(s: u8, d: u8, a: u32) -> (r: u8)
    requires
        a <= 255,
    ensures
        r == mix(s, d, a as int),
{
    assert(s as u32 * a + d as u32 * (255 - a) <= 255 * 255) by (nonlinear_arith)
        requires a <= 255;
    ((s as u32 * a + d as u32 * (255 - a)) / 255) as u8
}

pub(crate) fn blend_exec(color: Color, dst: Color, alpha: u8) -> (r: Option<Color>)
    ensures
        r == blend(color, dst, alpha),
{
    if alpha == 0 {
        None
    } else if alpha == 255 {
        Some(color)
    } else {
        let a = alpha as u32;
        Some((mix_exec(color.0, dst.0, a), mix_exec(color.1, dst.1, a), mix_exec(color.2, dst.2, a)))
    }
}

fn clamp_radius_exec(radius: usize, w: usize, h: usize) -> (r: usize)
    ensures
        r == clamp_radius(radius as int, w as int, h as int),
{
    let a = if radius < w / 2 { radius } else { w / 2 };
    if a < h / 2 { a } else { h / 2 }
}

proof fn lemma_square_bound(d: int, r: int)
    requires
        -r <= d <= r,
        0 <= r <= 32767,
    ensures
        0 <= d * d <= r * r,
        r * r <= 32767 * 32767,
{
    assert(0 <= d * d <= r * r) by (nonlinear_arith)
        requires -r <= d <= r;
    assert(r * r <= 32767 * 32767) by (nonlinear_arith)
        requires 0 <= r <= 32767;
}

/// Exec form of the corner test, in the i32 arithmetic the shapes use.
fn rounded_exec(lx: i32, ly: i32, w: i32, h: i32, r: i32, bottom_only: bool, outline: bool) -> (b: bool)
    requires
        0 <= lx < w,
        0 <= ly < h,
        0 <= r <= 32767,
        2 * r <= w,
        2 * r <= h,
    ensures
        outline ==> b == on_rounded_outline(lx as int, ly as int, w as int, h as int, r as int),
        !outline && bottom_only ==> b == in_rounded_bottom(lx as int, ly as int, w as int, h as int, r as int),
        !outline && !bottom_only ==> b == in_rounded(lx as int, ly as int, w as int, h as int, r as int),
{
    let in_left = lx < r;
    let in_right = lx >= w - r;
    let in_top = ly < r;
    let in_bottom = ly >= h - r;
    let corner = if bottom_only && !outline {
        in_bottom && (in_left || in_right)
    } else {
        (in_left || in_right) && (in_top || in_bottom)
    };
    if corner {
        let cx = if in_left { r } else { w - r - 1 };
        let cy = if in_top && !(bottom_only && !outline) { r } else { h - r - 1 };
        let dx = lx - cx;
        let dy = ly - cy;
        proof {
            lemma_square_bound(dx as int, r as int);
            lemma_square_bound(dy as int, r as int);
        }
        let d_sq = dx * dx + dy * dy;
        let r_sq = r * r;
        if outline {
            let ri = if r - 1 > 0 { r - 1 } else { 0 };
            proof {
                lemma_square_bound(ri as int, r as int);
            }
            d_sq <= r_sq && d_sq >= ri * ri
        } else {
            d_sq <= r_sq
        }
    } else if outline {
        lx == 0 || lx == w - 1 || ly == 0 || ly == h - 1
    } else {
        true
    }
}

/// End of the range that starts at `start`, is `len` long, and is clipped to `limit`.
fn clip_end(start: usize, len: usize, limit: usize) -> (e: usize)
    ensures
        e == (if start + len < limit { start + len } else { limit as int }),
{
    if start >= limit {
        limit
    } else if len >= limit - start {
        limit
    } else {
        start + len
    }
}

impl FbWriter {
    /// Screen size in pixels.
    pub fn dimensions(&self) -> (d: (usize, usize))
        ensures
            d == (self.geometry().width, self.geometry().height),
    {
        (self.geo.width, self.geo.height)
    }

    /// Write one pixel; off-screen positions are ignored.
    pub fn put_pixel_at(&mut self, x: usize, y: usize, r: u8, g: u8, b: u8)
        requires
            old(self).wf(),
        ensures
            final(self).wf(),
            final(self).geometry() == old(self).geometry(),
            final(self).text() == old(self).text(),
            final(self).bytes() == paint(old(self).geometry(), old(self).bytes(), solid(x as int, y as int, 1, 1, (r, g, b))),
    {
        if x < self.geo.width && y < self.geo.height {
            self.put_pixel(x, y, r, g, b);
        } else {
            proof {
                lemma_paint_ext(self.geo, self.buf@, solid(x as int, y as int, 1, 1, (r, g, b)), |a: int, b: int| None::<Color>);
                assert(paint(self.geo, self.buf@, |a: int, b: int| None::<Color>) =~= self.buf@);
            }
        }
    }

    /// Alpha-blend one pixel; off-screen positions and alpha 0 leave the buffer as is.
    pub fn blend_pixel_at(&mut self, x: usize, y: usize, color: Color, alpha: u8)
        requires
            old(self).wf(),
        ensures
            final(self).wf(),
            final(self).geometry() == old(self).geometry(),
            final(self).text() == old(self).text(),
            final(self).bytes() == paint(
                old(self).geometry(),
                old(self).bytes(),
                region(old(self).geometry(), old(self).bytes(), x as int, y as int, x + 1, y + 1,
                    |px: int, py: int, d: Color| blend(color, d, alpha)),
            ),
    {
        let ghost fs = |px: int, py: int, d: Color| blend(color, d, alpha);
        if x < self.geo.width && y < self.geo.height {
            self.apply(x, y, x + 1, y + 1, |px: usize, py: usize, d: Color| -> (r: Option<Color>)
                ensures r == blend(color, d, alpha)
                { blend_exec(color, d, alpha) }, Ghost(fs));
        } else {
            proof {
                let f = region(self.geo, self.buf@, x as int, y as int, x + 1, y + 1, fs);
                lemma_paint_ext(self.geo, self.buf@, f, |a: int, b: int| None::<Color>);
                assert(paint(self.geo, self.buf@, |a: int, b: int| None::<Color>) =~= self.buf@);
            }
        }
    }

    /// Vertical gradient over rows `y_start..y_end`, full screen width.
    pub fn fill_gradient_v(&mut self, y_start: usize, y_end: usize, top: Color, bottom: Color)
        requires
            old(self).wf(),
            y_end > y_start ==> y_end - y_start <= u32::MAX,
        ensures
            final(self).wf(),
            final(self).geometry() == old(self).geometry(),
            final(self).text() == old(self).text(),
            final(self).bytes() == paint(old(self).geometry(), old(self).bytes(),
                |x: int, y: int| if y_start <= y < y_end { Some(grad(top, bottom, y - y_start, y_end - y_start)) } else { None }),
    {
        let ghost spec_f = |x: int, y: int| if y_start <= y < y_end { Some(grad(top, bottom, y - y_start, y_end - y_start)) } else { None };
        if y_end <= y_start {
            proof {
                lemma_paint_ext(self.geo, self.buf@, spec_f, |a: int, b: int| None::<Color>);
                assert(paint(self.geo, self.buf@, |a: int, b: int| None::<Color>) =~= self.buf@);
            }
            return;
        }
        let band_h = y_end - y_start;
        let ye = if y_end < self.geo.height { y_end } else { self.geo.height };
        let w = self.geo.width;
        let ghost gg = self.geo;
        let ghost ob = self.buf@;
        let ghost fs = |px: int, py: int, d: Color| Some(grad(top, bottom, py - y_start, band_h as int));
        self.apply(0, y_start, w, ye, |px: usize, py: usize, d: Color| -> (r: Option<Color>)
            requires y_start <= py < ye, ye <= y_end, ye < 0x100_0000, band_h == y_end - y_start, band_h <= u32::MAX,
            ensures r == Some(grad(top, bottom, py - y_start, band_h as int))
            { Some(grad_exec(top, bottom, py - y_start, band_h)) }, Ghost(fs));
        proof {
            lemma_paint_ext(gg, ob, region(gg, ob, 0, y_start as int, w as int, ye as int, fs), spec_f);
        }
    }

    /// Paint the whole screen one colour and home the text cursor.
    pub fn fill_color(&mut self, r: u8, g: u8, b: u8)
        requires
            old(self).wf(),
        ensures
            final(self).wf(),
            final(self).geometry() == old(self).geometry(),
            final(self).bytes() == paint(old(self).geometry(), old(self).bytes(), |x: int, y: int| Some((r, g, b))),
            final(self).text() == ({
                let t = old(self).text();
                (t.0, t.1, 0usize, 0usize, t.4, t.5, t.6)
            }),
    {
        self.fill_all((r, g, b));
        self.col = 0;
        self.row = 0;
    }

    fn fill_all(&mut self, color: Color)
        requires
            old(self).wf(),
        ensures
            final(self).wf(),
            final(self).geo == old(self).geo,
            final(self).text() == old(self).text(),
            final(self).buf@ == paint(old(self).geo, old(self).buf@, |x: int, y: int| Some(color)),
    {
        let ghost gg = self.geo;
        let ghost ob = self.buf@;
        let ghost fs = |px: int, py: int, d: Color| Some(color);
        let w = self.geo.width;
        let h = self.geo.height;
        self.apply(0, 0, w, h, |px: usize, py: usize, d: Color| -> (r: Option<Color>)
            ensures r == Some(color)
            { Some(color) }, Ghost(fs));
        proof {
            lemma_paint_ext(gg, ob, region(gg, ob, 0, 0, w as int, h as int, fs), |x: int, y: int| Some(color));
        }
    }

    /// Alpha-blend a colour over a plain rectangle.
    pub fn blend_rect(&mut self, x: usize, y: usize, width: usize, height: usize, color: Color, alpha: u8)
        requires
            old(self).wf(),
            width == 0 || height == 0 || alpha == 0 || (x + width <= usize::MAX && y + height <= usize::MAX),
        ensures
            final(self).wf(),
            final(self).geometry() == old(self).geometry(),
            final(self).text() == old(self).text(),
            final(self).bytes() == paint(old(self).geometry(), old(self).bytes(),
                region(old(self).geometry(), old(self).bytes(), x as int, y as int, x + width, y + height,
                    |px: int, py: int, d: Color| blend(color, d, alpha))),
    {
        let ghost gg = self.geo;
        let ghost ob = self.buf@;
        let ghost fs = |px: int, py: int, d: Color| blend(color, d, alpha);
        if width == 0 || height == 0 || alpha == 0 {
            proof {
                lemma_paint_ext(gg, ob, region(gg, ob, x as int, y as int, x + width, y + height, fs), |a: int, b: int| None::<Color>);
                assert(paint(gg, ob, |a: int, b: int| None::<Color>) =~= ob);
            }
            return;
        }
        let x_end = if x + width < self.geo.width { x + width } else { self.geo.width };
        let y_end = if y + height < self.geo.height { y + height } else { self.geo.height };
        self.apply(x, y, x_end, y_end, |px: usize, py: usize, d: Color| -> (r: Option<Color>)
            ensures r == blend(color, d, alpha)
            { blend_exec(color, d, alpha) }, Ghost(fs));
        proof {
            lemma_paint_ext(gg, ob, region(gg, ob, x as int, y as int, x_end as int, y_end as int, fs),
                region(gg, ob, x as int, y as int, x + width, y + height, fs));
        }
    }
}


/// Which rounded shape a box is filled with.
pub open spec fn shape_test(kind: int, lx: int, ly: int, w: int, h: int, r: int) -> bool {
    if kind == 0 {
        in_rounded(lx, ly, w, h, r)
    } else if kind == 1 {
        in_rounded_bottom(lx, ly, w, h, r)
    } else {
        on_rounded_outline(lx, ly, w, h, r)
    }
}

/// `col` where the local point passes the shape test, nothing elsewhere.
pub open spec fn masked(kind: int, lx: int, ly: int, w: int, h: int, r: int, col: Option<Color>) -> Option<Color> {
    if shape_test(kind, lx, ly, w, h, r) {
        col
    } else {
        None
    }
}

/// Pixel (px, py) is inside the `w`×`h` box at (x, y) and inside its shape.
pub open spec fn in_shape(kind: int, x: int, y: int, w: int, h: int, radius: int, px: int, py: int) -> bool {
    x <= px < x + w && y <= py < y + h && shape_test(kind, px - x, py - y, w, h, clamp_radius(radius, w, h))
}

/// Pre-conditions shared by the rounded shapes: the box fits the i32
/// arithmetic, its corner squares cannot overflow, its end is representable.
pub open spec fn shape_ok(x: int, y: int, w: int, h: int, radius: int) -> bool {
    &&& w <= 0x7fff_ffff
    &&& h <= 0x7fff_ffff
    &&& clamp_radius(radius, w, h) <= 32767
    &&& x + w <= usize::MAX
    &&& y + h <= usize::MAX
}

fn shape_exec(kind: u8, x: usize, y: usize, w: usize, h: usize, r: usize, px: usize, py: usize) -> (b: bool)
    requires
        kind <= 2,
        x <= px < x + w,
        y <= py < y + h,
        w <= 0x7fff_ffff,
        h <= 0x7fff_ffff,
        r == clamp_radius(r as int, w as int, h as int),
        r <= 32767,
    ensures
        b == shape_test(kind as int, px - x, py - y, w as int, h as int, r as int),
{
    let lx = (px - x) as i32;
    let ly = (py - y) as i32;
    rounded_exec(lx, ly, w as i32, h as i32, r as i32, kind == 1, kind == 2)
}

impl FbWriter {
    /// Fill (kind 0: rounded, 1: bottom corners rounded) or outline (kind 2)
    /// the box at (x, y) with a solid colour.
    fn solid_shape(&mut self, kind: u8, x: usize, y: usize, width: usize, height: usize, color: Color, radius: usize)
        requires
            old(self).wf(),
            kind <= 2,
            width == 0 || height == 0 || shape_ok(x as int, y as int, width as int, height as int, radius as int),
        ensures
            final(self).wf(),
            final(self).geo == old(self).geo,
            final(self).text() == old(self).text(),
            final(self).buf@ == paint(old(self).geo, old(self).buf@,
                |px: int, py: int| if in_shape(kind as int, x as int, y as int, width as int, height as int, radius as int, px, py) { Some(color) } else { None }),
    {
        let ghost gg = self.geo;
        let ghost ob = self.buf@;
        let ghost spec_f = |px: int, py: int| if in_shape(kind as int, x as int, y as int, width as int, height as int, radius as int, px, py) { Some(color) } else { None };
        if width == 0 || height == 0 {
            proof {
                lemma_paint_ext(gg, ob, spec_f, |a: int, b: int| None::<Color>);
                assert(paint(gg, ob, |a: int, b: int| None::<Color>) =~= ob);
            }
            return;
        }
        let r = clamp_radius_exec(radius, width, height);
        let x_end = if x + width < self.geo.width { x + width } else { self.geo.width };
        let y_end = if y + height < self.geo.height { y + height } else { self.geo.height };
        let ghost fs = |px: int, py: int, d: Color|
            if shape_test(kind as int, px - x, py - y, width as int, height as int, r as int) { Some(color) } else { None };
        self.apply(x, y, x_end, y_end, |px: usize, py: usize, d: Color| -> (res: Option<Color>)
            requires
                x <= px < x_end, y <= py < y_end, x_end <= x + width, y_end <= y + height,
                width <= 0x7fff_ffff, height <= 0x7fff_ffff, kind <= 2,
                r == clamp_radius(r as int, width as int, height as int), r <= 32767,
            ensures
                res == masked(kind as int, px - x, py - y, width as int, height as int, r as int, Some(color))
            {
                if shape_exec(kind, x, y, width, height, r, px, py) { Some(color) } else { None }
            }, Ghost(fs));
        proof {
            lemma_paint_ext(gg, ob, region(gg, ob, x as int, y as int, x_end as int, y_end as int, fs), spec_f);
        }
    }

    /// Solid rounded-corner rectangle; `radius` is clamped to half the smaller side.
    pub fn fill_rounded_rect(&mut self, x: usize, y: usize, width: usize, height: usize, color: Color, radius: usize)
        requires
            old(self).wf(),
            width == 0 || height == 0 || shape_ok(x as int, y as int, width as int, height as int, radius as int),
        ensures
            final(self).wf(),
            final(self).geometry() == old(self).geometry(),
            final(self).text() == old(self).text(),
            final(self).bytes() == paint(old(self).geometry(), old(self).bytes(),
                |px: int, py: int| if in_shape(0, x as int, y as int, width as int, height as int, radius as int, px, py) { Some(color) } else { None }),
    {
        self.solid_shape(0, x, y, width, height, color, radius);
    }

    /// Solid rectangle with only its bottom corners rounded.
    pub fn fill_rect_rounded_bottom(&mut self, x: usize, y: usize, width: usize, height: usize, color: Color, radius: usize)
        requires
            old(self).wf(),
            width == 0 || height == 0 || shape_ok(x as int, y as int, width as int, height as int, radius as int),
        ensures
            final(self).wf(),
            final(self).geometry() == old(self).geometry(),
            final(self).text() == old(self).text(),
            final(self).bytes() == paint(old(self).geometry(), old(self).bytes(),
                |px: int, py: int| if in_shape(1, x as int, y as int, width as int, height as int, radius as int, px, py) { Some(color) } else { None }),
    {
        self.solid_shape(1, x, y, width, height, color, radius);
    }

    /// 1-pixel outline of a rounded rectangle.
    pub fn stroke_rounded_rect(&mut self, x: usize, y: usize, width: usize, height: usize, color: Color, radius: usize)
        requires
            old(self).wf(),
            width == 0 || height == 0 || shape_ok(x as int, y as int, width as int, height as int, radius as int),
        ensures
            final(self).wf(),
            final(self).geometry() == old(self).geometry(),
            final(self).text() == old(self).text(),
            final(self).bytes() == paint(old(self).geometry(), old(self).bytes(),
                |px: int, py: int| if in_shape(2, x as int, y as int, width as int, height as int, radius as int, px, py) { Some(color) } else { None }),
    {
        self.solid_shape(2, x, y, width, height, color, radius);
    }

    /// Alpha-blend a colour over a rounded rectangle.
    pub fn blend_rounded_rect(&mut self, x: usize, y: usize, width: usize, height: usize, color: Color, alpha: u8, radius: usize)
        requires
            old(self).wf(),
            width == 0 || height == 0 || alpha == 0 || shape_ok(x as int, y as int, width as int, height as int, radius as int),
        ensures
            final(self).wf(),
            final(self).geometry() == old(self).geometry(),
            final(self).text() == old(self).text(),
            final(self).bytes() == paint(old(self).geometry(), old(self).bytes(),
                |px: int, py: int| if in_shape(0, x as int, y as int, width as int, height as int, radius as int, px, py) {
                    blend(color, rgb_at(old(self).geometry(), old(self).bytes(), px, py), alpha)
                } else { None }),
    {
        let ghost gg = self.geo;
        let ghost ob = self.buf@;
        let ghost spec_f = |px: int, py: int| if in_shape(0, x as int, y as int, width as int, height as int, radius as int, px, py) {
            blend(color, rgb_at(gg, ob, px, py), alpha) } else { None };
        if width == 0 || height == 0 || alpha == 0 {
            proof {
                lemma_paint_ext(gg, ob, spec_f, |a: int, b: int| None::<Color>);
                assert(paint(gg, ob, |a: int, b: int| None::<Color>) =~= ob);
            }
            return;
        }
        let r = clamp_radius_exec(radius, width, height);
        let x_end = if x + width < self.geo.width { x + width } else { self.geo.width };
        let y_end = if y + height < self.geo.height { y + height } else { self.geo.height };
        let ghost fs = |px: int, py: int, d: Color|
            if shape_test(0, px - x, py - y, width as int, height as int, r as int) { blend(color, d, alpha) } else { None };
        self.apply(x, y, x_end, y_end, |px: usize, py: usize, d: Color| -> (res: Option<Color>)
            requires
                x <= px < x_end, y <= py < y_end, x_end <= x + width, y_end <= y + height,
                width <= 0x7fff_ffff, height <= 0x7fff_ffff,
                r == clamp_radius(r as int, width as int, height as int), r <= 32767,
            ensures
                res == masked(0, px - x, py - y, width as int, height as int, r as int, blend(color, d, alpha))
            {
                if shape_exec(0, x, y, width, height, r, px, py) { blend_exec(color, d, alpha) } else { None }
            }, Ghost(fs));
        proof {
            lemma_paint_ext(gg, ob, region(gg, ob, x as int, y as int, x_end as int, y_end as int, fs), spec_f);
        }
    }

    /// Vertical gradient over a rectangle with rounded bottom corners.
    pub fn fill_v_gradient_rect_rounded_bottom(&mut self, x: usize, y: usize, width: usize, height: usize,
        top: Color, bot: Color, radius: usize)
        requires
            old(self).wf(),
            width == 0 || height == 0 || shape_ok(x as int, y as int, width as int, height as int, radius as int),
        ensures
            final(self).wf(),
            final(self).geometry() == old(self).geometry(),
            final(self).text() == old(self).text(),
            final(self).bytes() == paint(old(self).geometry(), old(self).bytes(),
                |px: int, py: int| if in_shape(1, x as int, y as int, width as int, height as int, radius as int, px, py) {
                    Some(grad(top, bot, py - y, height as int))
                } else { None }),
    {
        let ghost gg = self.geo;
        let ghost ob = self.buf@;
        let ghost spec_f = |px: int, py: int| if in_shape(1, x as int, y as int, width as int, height as int, radius as int, px, py) {
            Some(grad(top, bot, py - y, height as int)) } else { None };
        if width == 0 || height == 0 {
            proof {
                lemma_paint_ext(gg, ob, spec_f, |a: int, b: int| None::<Color>);
                assert(paint(gg, ob, |a: int, b: int| None::<Color>) =~= ob);
            }
            return;
        }
        let r = clamp_radius_exec(radius, width, height);
        let x_end = if x + width < self.geo.width { x + width } else { self.geo.width };
        let y_end = if y + height < self.geo.height { y + height } else { self.geo.height };
        let ghost fs = |px: int, py: int, d: Color|
            if shape_test(1, px - x, py - y, width as int, height as int, r as int) { Some(grad(top, bot, py - y, height as int)) } else { None };
        self.apply(x, y, x_end, y_end, |px: usize, py: usize, d: Color| -> (res: Option<Color>)
            requires
                x <= px < x_end, y <= py < y_end, x_end <= x + width, y_end <= y + height, y_end < 0x100_0000,
                width <= 0x7fff_ffff, height <= 0x7fff_ffff,
                r == clamp_radius(r as int, width as int, height as int), r <= 32767,
            ensures
                res == masked(1, px - x, py - y, width as int, height as int, r as int, Some(grad(top, bot, py - y, height as int)))
            {
                if shape_exec(1, x, y, width, height, r, px, py) { Some(grad_exec(top, bot, py - y, height)) } else { None }
            }, Ghost(fs));
        proof {
            lemma_paint_ext(gg, ob, region(gg, ob, x as int, y as int, x_end as int, y_end as int, fs), spec_f);
        }
    }
}


/// A rounded mask box whose i32 arithmetic cannot overflow.
pub open spec fn mask_ok(mx: int, my: int, mw: int, mh: int, radius: int) -> bool {
    &&& mx <= 0x7fff_ffff
    &&& my <= 0x7fff_ffff
    &&& mw <= 0x7fff_ffff
    &&& mh <= 0x7fff_ffff
    &&& clamp_radius(radius, mw, mh) <= 32767
}

/// Colour of pixel (x, y) of a packed-RGB image `w` pixels wide.
pub open spec fn src_rgb(img: Seq<u8>, w: int, x: int, y: int) -> Color {
    let o = (y * w + x) * 3;
    (img[o], img[o + 1], img[o + 2])
}

/// Colour and alpha of pixel (x, y) of a packed-RGBA image `w` pixels wide.
pub open spec fn src_rgba(img: Seq<u8>, w: int, x: int, y: int) -> (Color, u8) {
    let o = (y * w + x) * 4;
    ((img[o], img[o + 1], img[o + 2]), img[o + 3])
}

/// Index arithmetic of a packed image stays inside it.
pub(crate) proof fn lemma_image_index(w: int, h: int, x: int, y: int, n: int)
    requires
        0 <= x < w,
        0 <= y < h,
        1 <= n,
    ensures
        0 <= y * w,
        y * w + x < w * h,
        w * h <= w * h * n,
        0 <= (y * w + x) * n,
        (y * w + x) * n + n <= w * h * n,
{
    assert(w * h <= w * h * n) by (nonlinear_arith)
        requires 0 <= x < w, 0 <= y < h, 1 <= n;
    assert(y * w + x < w * h) by (nonlinear_arith)
        requires 0 <= x < w, 0 <= y < h;
    assert(0 <= y * w) by (nonlinear_arith)
        requires 0 <= y, 0 <= w;
    assert((y * w + x) * n + n <= w * h * n) by (nonlinear_arith)
        requires y * w + x < w * h, 1 <= n;
    assert(0 <= (y * w + x) * n) by (nonlinear_arith)
        requires 0 <= y * w + x, 1 <= n;
}

fn mask_exec(mask_x: usize, mask_y: usize, mask_w: usize, mask_h: usize, mr: usize, px: usize, py: usize) -> (b: bool)
    requires
        mask_ok(mask_x as int, mask_y as int, mask_w as int, mask_h as int, mr as int),
        mr == clamp_radius(mr as int, mask_w as int, mask_h as int),
        px <= 0x7fff_ffff,
        py <= 0x7fff_ffff,
    ensures
        b == (mask_x <= px < mask_x + mask_w && mask_y <= py < mask_y + mask_h
            && in_rounded(px - mask_x, py - mask_y, mask_w as int, mask_h as int, mr as int)),
{
    let lx = px as i32 - mask_x as i32;
    let ly = py as i32 - mask_y as i32;
    let mw = mask_w as i32;
    let mh = mask_h as i32;
    if lx < 0 || ly < 0 || lx >= mw || ly >= mh {
        false
    } else {
        rounded_exec(lx, ly, mw, mh, mr as i32, false, false)
    }
}

impl FbWriter {
    /// Vertical gradient over the `grad` box, clipped to the rounded `mask` box.
    pub fn fill_v_gradient_in_rounded_rect(
        &mut self,
        grad_x: usize, grad_y: usize, grad_w: usize, grad_h: usize,
        top: Color, bot: Color,
        mask_x: usize, mask_y: usize, mask_w: usize, mask_h: usize, mask_radius: usize,
    )
        requires
            old(self).wf(),
            grad_w == 0 || grad_h == 0 || (grad_x + grad_w <= usize::MAX && grad_y + grad_h <= usize::MAX
                && grad_h <= u32::MAX && mask_ok(mask_x as int, mask_y as int, mask_w as int, mask_h as int, mask_radius as int)),
        ensures
            final(self).wf(),
            final(self).geometry() == old(self).geometry(),
            final(self).text() == old(self).text(),
            final(self).bytes() == paint(old(self).geometry(), old(self).bytes(),
                |px: int, py: int|
                    if grad_x <= px < grad_x + grad_w && grad_y <= py < grad_y + grad_h
                        && in_shape(0, mask_x as int, mask_y as int, mask_w as int, mask_h as int, mask_radius as int, px, py) {
                        Some(grad(top, bot, py - grad_y, grad_h as int))
                    } else { None }),
    {
        let ghost gg = self.geo;
        let ghost ob = self.buf@;
        let ghost spec_f = |px: int, py: int|
            if grad_x <= px < grad_x + grad_w && grad_y <= py < grad_y + grad_h
                && in_shape(0, mask_x as int, mask_y as int, mask_w as int, mask_h as int, mask_radius as int, px, py) {
                Some(grad(top, bot, py - grad_y, grad_h as int))
            } else { None };
        if grad_w == 0 || grad_h == 0 {
            proof {
                lemma_paint_ext(gg, ob, spec_f, |a: int, b: int| None::<Color>);
                assert(paint(gg, ob, |a: int, b: int| None::<Color>) =~= ob);
            }
            return;
        }
        let mr = clamp_radius_exec(mask_radius, mask_w, mask_h);
        let x_end = if grad_x + grad_w < self.geo.width { grad_x + grad_w } else { self.geo.width };
        let y_end = if grad_y + grad_h < self.geo.height { grad_y + grad_h } else { self.geo.height };
        let ghost fs = |px: int, py: int, d: Color|
            if in_shape(0, mask_x as int, mask_y as int, mask_w as int, mask_h as int, mask_radius as int, px, py) {
                Some(grad(top, bot, py - grad_y, grad_h as int))
            } else { None };
        self.apply(grad_x, grad_y, x_end, y_end, |px: usize, py: usize, d: Color| -> (res: Option<Color>)
            requires
                grad_x <= px < x_end, grad_y <= py < y_end, x_end <= 0x7fff_ffff, y_end < 0x100_0000,
                y_end <= grad_y + grad_h, grad_h <= u32::MAX,
                mask_ok(mask_x as int, mask_y as int, mask_w as int, mask_h as int, mask_radius as int),
                mr == clamp_radius(mask_radius as int, mask_w as int, mask_h as int)
            ensures
                res == masked(0, px - mask_x, py - mask_y, mask_w as int, mask_h as int, mr as int,
                    if mask_x <= px < mask_x + mask_w && mask_y <= py < mask_y + mask_h {
                        Some(grad(top, bot, py - grad_y, grad_h as int)) } else { None })
            {
                if mask_exec(mask_x, mask_y, mask_w, mask_h, mr, px, py) {
                    Some(grad_exec(top, bot, py - grad_y, grad_h))
                } else {
                    None
                }
            }, Ghost(fs));
        proof {
            lemma_paint_ext(gg, ob, region(gg, ob, grad_x as int, grad_y as int, x_end as int, y_end as int, fs), spec_f);
        }
    }

    /// Alpha-blend a vertical gradient whose colour and alpha both run from
    /// top to bottom of the band, clipped to the rounded `mask` box.
    pub fn blend_v_gradient_in_rounded_rect(
        &mut self,
        band_x: usize, band_y: usize, band_w: usize, band_h: usize,
        top: Color, bot: Color,
        top_alpha: u8, bot_alpha: u8,
        mask_x: usize, mask_y: usize, mask_w: usize, mask_h: usize, mask_radius: usize,
    )
        requires
            old(self).wf(),
            band_w == 0 || band_h == 0 || (band_x + band_w <= usize::MAX && band_y + band_h <= usize::MAX
                && band_h <= u32::MAX && mask_ok(mask_x as int, mask_y as int, mask_w as int, mask_h as int, mask_radius as int)),
        ensures
            final(self).wf(),
            final(self).geometry() == old(self).geometry(),
            final(self).text() == old(self).text(),
            final(self).bytes() == paint(old(self).geometry(), old(self).bytes(),
                |px: int, py: int|
                    if band_x <= px < band_x + band_w && band_y <= py < band_y + band_h
                        && in_shape(0, mask_x as int, mask_y as int, mask_w as int, mask_h as int, mask_radius as int, px, py) {
                        blend(grad(top, bot, py - band_y, band_h as int),
                            rgb_at(old(self).geometry(), old(self).bytes(), px, py),
                            lerp(top_alpha, bot_alpha, grad_t(py - band_y, band_h as int)))
                    } else { None }),
    {
        let ghost gg = self.geo;
        let ghost ob = self.buf@;
        let ghost spec_f = |px: int, py: int|
            if band_x <= px < band_x + band_w && band_y <= py < band_y + band_h
                && in_shape(0, mask_x as int, mask_y as int, mask_w as int, mask_h as int, mask_radius as int, px, py) {
                blend(grad(top, bot, py - band_y, band_h as int), rgb_at(gg, ob, px, py),
                    lerp(top_alpha, bot_alpha, grad_t(py - band_y, band_h as int)))
            } else { None };
        if band_w == 0 || band_h == 0 {
            proof {
                lemma_paint_ext(gg, ob, spec_f, |a: int, b: int| None::<Color>);
                assert(paint(gg, ob, |a: int, b: int| None::<Color>) =~= ob);
            }
            return;
        }
        let mr = clamp_radius_exec(mask_radius, mask_w, mask_h);
        let x_end = if band_x + band_w < self.geo.width { band_x + band_w } else { self.geo.width };
        let y_end = if band_y + band_h < self.geo.height { band_y + band_h } else { self.geo.height };
        let ghost fs = |px: int, py: int, d: Color|
            if in_shape(0, mask_x as int, mask_y as int, mask_w as int, mask_h as int, mask_radius as int, px, py) {
                blend(grad(top, bot, py - band_y, band_h as int), d, lerp(top_alpha, bot_alpha, grad_t(py - band_y, band_h as int)))
            } else { None };
        self.apply(band_x, band_y, x_end, y_end, |px: usize, py: usize, d: Color| -> (res: Option<Color>)
            requires
                band_x <= px < x_end, band_y <= py < y_end, x_end <= 0x7fff_ffff, y_end < 0x100_0000,
                y_end <= band_y + band_h, band_h <= u32::MAX,
                mask_ok(mask_x as int, mask_y as int, mask_w as int, mask_h as int, mask_radius as int),
                mr == clamp_radius(mask_radius as int, mask_w as int, mask_h as int)
            ensures
                res == masked(0, px - mask_x, py - mask_y, mask_w as int, mask_h as int, mr as int,
                    if mask_x <= px < mask_x + mask_w && mask_y <= py < mask_y + mask_h {
                        blend(grad(top, bot, py - band_y, band_h as int), d,
                            lerp(top_alpha, bot_alpha, grad_t(py - band_y, band_h as int))) } else { None })
            {
                let row = py - band_y;
                let t: u32 = (row as u32) * 256 / (band_h as u32);
                assert((row as int) * 256 / (band_h as int) <= 256) by (nonlinear_arith)
                    requires 0 <= row < band_h;
                let a = lerp_exec(top_alpha, bot_alpha, t);
                if a == 0 {
                    None
                } else if mask_exec(mask_x, mask_y, mask_w, mask_h, mr, px, py) {
                    blend_exec(grad_exec(top, bot, row, band_h), d, a)
                } else {
                    None
                }
            }, Ghost(fs));
        proof {
            lemma_paint_ext(gg, ob, region(gg, ob, band_x as int, band_y as int, x_end as int, y_end as int, fs), spec_f);
        }
    }
}


/// A packed-RGB image `w`×`h` placed with its top-left corner at (tx, ty).
pub open spec fn image_at(img: Seq<u8>, w: int, h: int, tx: int, ty: int) -> spec_fn(int, int) -> Option<Color> {
    |x: int, y: int| if tx <= x < tx + w && ty <= y < ty + h { Some(src_rgb(img, w, x - tx, y - ty)) } else { None }
}

/// Channel `k` (0 = red, 1 = green, 2 = blue) of a colour.
pub open spec fn component(c: Color, k: int) -> u8 {
    if k == 0 {
        c.0
    } else if k == 1 {
        c.1
    } else {
        c.2
    }
}

/// `out` after copying the on-screen part of the `w`×`h` screen region at
/// (x, y) into it as packed RGB; bytes for off-screen pixels keep their value.
pub open spec fn capture(g: Geometry, buf: Seq<u8>, out: Seq<u8>, w: int, h: int, x: int, y: int) -> Seq<u8> {
    Seq::new(
        out.len(),
        |j: int| {
            let lx = (j / 3) % w;
            let ly = (j / 3) / w;
            if j < w * h * 3 && x + lx < g.width && y + ly < g.height {
                component(rgb_at(g, buf, x + lx, y + ly), j % 3)
            } else {
                out[j]
            }
        },
    )
}

pub(crate) proof fn lemma_cell_index(w: int, h: int, lx: int, ly: int, k: int)
    requires
        0 <= lx < w,
        0 <= ly < h,
        0 <= k < 3,
    ensures
        0 <= (ly * w + lx) * 3 + k < w * h * 3,
        ((ly * w + lx) * 3 + k) / 3 == ly * w + lx,
        ((ly * w + lx) * 3 + k) % 3 == k,
        (ly * w + lx) % w == lx,
        (ly * w + lx) / w == ly,
{
    lemma_image_index(w, h, lx, ly, 3);
    lemma_fundamental_div_mod_converse((ly * w + lx) * 3 + k, 3, ly * w + lx, k);
    lemma_fundamental_div_mod_converse(ly * w + lx, w, ly, lx);
}

pub(crate) proof fn lemma_cell_of(w: int, h: int, j: int)
    requires
        0 <= j < w * h * 3,
        0 <= w,
        0 <= h,
    ensures
        0 <= (j / 3) % w < w,
        0 <= (j / 3) / w < h,
        0 <= j % 3 < 3,
        j == (((j / 3) / w) * w + (j / 3) % w) * 3 + j % 3,
{
    assert(w > 0) by (nonlinear_arith)
        requires 0 <= j < w * h * 3, 0 <= w, 0 <= h;
    vstd::arithmetic::div_mod::lemma_fundamental_div_mod(j, 3);
    vstd::arithmetic::div_mod::lemma_fundamental_div_mod(j / 3, w);
    vstd::arithmetic::div_mod::lemma_mod_bound(j, 3);
    vstd::arithmetic::div_mod::lemma_mod_bound(j / 3, w);
    vstd::arithmetic::div_mod::lemma_div_pos_is_pos(j, 3);
    vstd::arithmetic::div_mod::lemma_div_pos_is_pos(j / 3, w);
    assert(3 * (j / 3) == (j / 3) * 3) by (nonlinear_arith);
    assert(w * ((j / 3) / w) == ((j / 3) / w) * w) by (nonlinear_arith);
    assert(j / 3 < w * h) by (nonlinear_arith)
        requires 0 <= j < w * h * 3, j == (j / 3) * 3 + j % 3, 0 <= j % 3;
    if (j / 3) / w >= h {
        assert(((j / 3) / w) * w >= h * w) by (nonlinear_arith)
            requires (j / 3) / w >= h, w > 0;
        assert(h * w == w * h) by (nonlinear_arith);
    }
}

impl FbWriter {
    fn blit_rgb(&mut self, rgb: &[u8], img_w: usize, img_h: usize, top_x: usize, top_y: usize)
        requires
            old(self).wf(),
            img_w * img_h * 3 <= rgb@.len(),
        ensures
            final(self).wf(),
            final(self).geo == old(self).geo,
            final(self).text() == old(self).text(),
            final(self).buf@ == paint(old(self).geo, old(self).buf@, image_at(rgb@, img_w as int, img_h as int, top_x as int, top_y as int)),
    {
        let ghost gg = self.geo;
        let ghost ob = self.buf@;
        let _n = rgb.len();
        let x_end = clip_end(top_x, img_w, self.geo.width);
        let y_end = clip_end(top_y, img_h, self.geo.height);
        let ghost fs = |px: int, py: int, d: Color| Some(src_rgb(rgb@, img_w as int, px - top_x, py - top_y));
        self.apply(top_x, top_y, x_end, y_end, |px: usize, py: usize, d: Color| -> (res: Option<Color>)
            requires
                top_x <= px < x_end, top_y <= py < y_end, x_end <= top_x + img_w, y_end <= top_y + img_h,
                img_w * img_h * 3 <= rgb@.len(), rgb@.len() <= usize::MAX
            ensures
                res == Some(src_rgb(rgb@, img_w as int, px - top_x, py - top_y))
            {
                proof {
                    lemma_image_index(img_w as int, img_h as int, px - top_x, py - top_y, 3);
                }
                let off = ((py - top_y) * img_w + (px - top_x)) * 3;
                Some((rgb[off], rgb[off + 1], rgb[off + 2]))
            }, Ghost(fs));
        proof {
            lemma_paint_ext(gg, ob, region(gg, ob, top_x as int, top_y as int, x_end as int, y_end as int, fs),
                image_at(rgb@, img_w as int, img_h as int, top_x as int, top_y as int));
        }
    }

    /// Blit a packed-RGB image with its top-left corner at (top_x, top_y),
    /// clipped to the screen. A buffer shorter than the image is ignored.
    pub fn blit_rgb_at(&mut self, rgb: &[u8], img_w: usize, img_h: usize, top_x: usize, top_y: usize)
        requires
            old(self).wf(),
            img_w * img_h * 3 <= usize::MAX,
        ensures
            final(self).wf(),
            final(self).geometry() == old(self).geometry(),
            final(self).text() == old(self).text(),
            final(self).bytes() == if rgb@.len() < img_w * img_h * 3 {
                old(self).bytes()
            } else {
                paint(old(self).geometry(), old(self).bytes(), image_at(rgb@, img_w as int, img_h as int, top_x as int, top_y as int))
            },
    {
        if rgb.len() < img_w * img_h * 3 {
            return;
        }
        self.blit_rgb(rgb, img_w, img_h, top_x, top_y);
    }

    /// Blit a packed-RGB image centred on the screen.
    pub fn blit_rgb_centered(&mut self, rgb: &[u8], img_w: usize, img_h: usize)
        requires
            old(self).wf(),
            img_w * img_h * 3 <= usize::MAX,
        ensures
            final(self).wf(),
            final(self).geometry() == old(self).geometry(),
            final(self).text() == old(self).text(),
            final(self).bytes() == if rgb@.len() < img_w * img_h * 3 {
                old(self).bytes()
            } else {
                paint(old(self).geometry(), old(self).bytes(), image_at(rgb@, img_w as int, img_h as int,
                    centre_start(old(self).geometry().width as int, img_w as int),
                    centre_start(old(self).geometry().height as int, img_h as int)))
            },
    {
        if rgb.len() < img_w * img_h * 3 {
            return;
        }
        let top_x = self.geo.width.saturating_sub(img_w) / 2;
        let top_y = self.geo.height.saturating_sub(img_h) / 2;
        self.blit_rgb(rgb, img_w, img_h, top_x, top_y);
    }

    /// Blit rows [y_start, y_end) of a packed-RGB image to the same rows of
    /// the screen, starting at column 0.
    pub fn blit_rgb_rows(&mut self, rgb: &[u8], img_w: usize, img_h: usize, y_start: usize, y_end: usize)
        requires
            old(self).wf(),
            img_w * img_h * 3 <= usize::MAX,
        ensures
            final(self).wf(),
            final(self).geometry() == old(self).geometry(),
            final(self).text() == old(self).text(),
            final(self).bytes() == if rgb@.len() < img_w * img_h * 3 {
                old(self).bytes()
            } else {
                paint(old(self).geometry(), old(self).bytes(), |x: int, y: int|
                    if 0 <= x < img_w && y_start <= y < y_end && y < img_h { Some(src_rgb(rgb@, img_w as int, x, y)) } else { None })
            },
    {
        if rgb.len() < img_w * img_h * 3 {
            return;
        }
        let ghost gg = self.geo;
        let ghost ob = self.buf@;
        let mut y0 = if y_start < self.geo.height { y_start } else { self.geo.height };
        if img_h < y0 {
            y0 = img_h;
        }
        let mut y1 = if y_end < self.geo.height { y_end } else { self.geo.height };
        if img_h < y1 {
            y1 = img_h;
        }
        let x1 = if img_w < self.geo.width { img_w } else { self.geo.width };
        let ghost fs = |px: int, py: int, d: Color| Some(src_rgb(rgb@, img_w as int, px, py));
        self.apply(0, y0, x1, y1, |px: usize, py: usize, d: Color| -> (res: Option<Color>)
            requires
                px < x1, y0 <= py < y1, x1 <= img_w, y1 <= img_h,
                img_w * img_h * 3 <= rgb@.len(), rgb@.len() <= usize::MAX
            ensures
                res == Some(src_rgb(rgb@, img_w as int, px as int, py as int))
            {
                proof {
                    lemma_image_index(img_w as int, img_h as int, px as int, py as int, 3);
                }
                let off = py * img_w * 3 + px * 3;
                assert(py * img_w * 3 + px * 3 == (py * img_w + px) * 3) by (nonlinear_arith);
                Some((rgb[off], rgb[off + 1], rgb[off + 2]))
            }, Ghost(fs));
        proof {
            lemma_paint_ext(gg, ob, region(gg, ob, 0, y0 as int, x1 as int, y1 as int, fs),
                |x: int, y: int| if 0 <= x < img_w && y_start <= y < y_end && y < img_h { Some(src_rgb(rgb@, img_w as int, x, y)) } else { None });
        }
    }

    /// Alpha-blend a packed-RGBA image with its top-left corner at (top_x, top_y).
    pub fn blit_rgba_at(&mut self, rgba: &[u8], img_w: usize, img_h: usize, top_x: usize, top_y: usize)
        requires
            old(self).wf(),
            img_w * img_h * 4 <= usize::MAX,
        ensures
            final(self).wf(),
            final(self).geometry() == old(self).geometry(),
            final(self).text() == old(self).text(),
            final(self).bytes() == if rgba@.len() < img_w * img_h * 4 {
                old(self).bytes()
            } else {
                paint(old(self).geometry(), old(self).bytes(), |x: int, y: int|
                    if top_x <= x < top_x + img_w && top_y <= y < top_y + img_h {
                        blend(src_rgba(rgba@, img_w as int, x - top_x, y - top_y).0,
                            rgb_at(old(self).geometry(), old(self).bytes(), x, y),
                            src_rgba(rgba@, img_w as int, x - top_x, y - top_y).1)
                    } else { None })
            },
    {
        if rgba.len() < img_w * img_h * 4 {
            return;
        }
        let ghost gg = self.geo;
        let ghost ob = self.buf@;
        let x_end = clip_end(top_x, img_w, self.geo.width);
        let y_end = clip_end(top_y, img_h, self.geo.height);
        let ghost fs = |px: int, py: int, d: Color|
            blend(src_rgba(rgba@, img_w as int, px - top_x, py - top_y).0, d, src_rgba(rgba@, img_w as int, px - top_x, py - top_y).1);
        self.apply(top_x, top_y, x_end, y_end, |px: usize, py: usize, d: Color| -> (res: Option<Color>)
            requires
                top_x <= px < x_end, top_y <= py < y_end, x_end <= top_x + img_w, y_end <= top_y + img_h,
                img_w * img_h * 4 <= rgba@.len(), rgba@.len() <= usize::MAX
            ensures
                res == blend(src_rgba(rgba@, img_w as int, px - top_x, py - top_y).0, d,
                    src_rgba(rgba@, img_w as int, px - top_x, py - top_y).1)
            {
                proof {
                    lemma_image_index(img_w as int, img_h as int, px - top_x, py - top_y, 4);
                }
                let so = ((py - top_y) * img_w + (px - top_x)) * 4;
                blend_exec((rgba[so], rgba[so + 1], rgba[so + 2]), d, rgba[so + 3])
            }, Ghost(fs));
        proof {
            lemma_paint_ext(gg, ob, region(gg, ob, top_x as int, top_y as int, x_end as int, y_end as int, fs),
                |x: int, y: int|
                    if top_x <= x < top_x + img_w && top_y <= y < top_y + img_h {
                        blend(src_rgba(rgba@, img_w as int, x - top_x, y - top_y).0, rgb_at(gg, ob, x, y),
                            src_rgba(rgba@, img_w as int, x - top_x, y - top_y).1)
                    } else { None });
        }
    }

    /// Alpha-blend a packed-RGBA image centred on the screen.
    pub fn blit_rgba_centered(&mut self, rgba: &[u8], img_w: usize, img_h: usize)
        requires
            old(self).wf(),
            img_w * img_h * 4 <= usize::MAX,
        ensures
            final(self).wf(),
            final(self).geometry() == old(self).geometry(),
            final(self).text() == old(self).text(),
            final(self).bytes() == if rgba@.len() < img_w * img_h * 4 {
                old(self).bytes()
            } else {
                paint(old(self).geometry(), old(self).bytes(), |x: int, y: int|
                    if centre_start(old(self).geometry().width as int, img_w as int) <= x
                        < centre_start(old(self).geometry().width as int, img_w as int) + img_w
                        && centre_start(old(self).geometry().height as int, img_h as int) <= y
                        < centre_start(old(self).geometry().height as int, img_h as int) + img_h {
                        blend(src_rgba(rgba@, img_w as int,
                                x - centre_start(old(self).geometry().width as int, img_w as int),
                                y - centre_start(old(self).geometry().height as int, img_h as int)).0,
                            rgb_at(old(self).geometry(), old(self).bytes(), x, y),
                            src_rgba(rgba@, img_w as int,
                                x - centre_start(old(self).geometry().width as int, img_w as int),
                                y - centre_start(old(self).geometry().height as int, img_h as int)).1)
                    } else { None })
            },
    {
        let (sw, sh) = self.dimensions();
        let top_x = sw.saturating_sub(img_w) / 2;
        let top_y = sh.saturating_sub(img_h) / 2;
        self.blit_rgba_at(rgba, img_w, img_h, top_x, top_y);
    }

    fn read_region(&self, out: &mut Vec<u8>, img_w: usize, img_h: usize, x: usize, y: usize)
        requires
            self.wf(),
            img_w * img_h * 3 <= old(out)@.len(),
        ensures
            final(out)@ == capture(self.geo, self.buf@, old(out)@, img_w as int, img_h as int, x as int, y as int),
    {
        let ghost gg = self.geo;
        let ghost oo = out@;
        let _n = out.len();
        let cols = clip_end(x, img_w, self.geo.width) - if x < self.geo.width { x } else { self.geo.width };
        let rows = clip_end(y, img_h, self.geo.height) - if y < self.geo.height { y } else { self.geo.height };
        let mut yy: usize = 0;
        while yy < rows
            invariant
                self.wf(),
                gg == self.geo,
                img_w * img_h * 3 <= oo.len(),
                oo.len() <= usize::MAX,
                out@.len() == oo.len(),
                cols <= img_w, rows <= img_h,
                cols == (if x >= gg.width { 0 } else if img_w < gg.width - x { img_w as int } else { gg.width - x }),
                rows == (if y >= gg.height { 0 } else if img_h < gg.height - y { img_h as int } else { gg.height - y }),
                yy <= rows,
                forall|j: int| 0 <= j < oo.len() ==> #[trigger] out@[j] == {
                    let lx = (j / 3) % (img_w as int);
                    let ly = (j / 3) / (img_w as int);
                    if j < img_w * img_h * 3 && ly < yy && lx < cols {
                        component(rgb_at(gg, self.buf@, x + lx, y + ly), j % 3)
                    } else {
                        oo[j]
                    }
                },
            decreases rows - yy,
        {
            let mut xx: usize = 0;
            proof {
                assert forall|j: int| 0 <= j < oo.len() implies #[trigger] out@[j] == {
                    let lx = (j / 3) % (img_w as int);
                    let ly = (j / 3) / (img_w as int);
                    if j < img_w * img_h * 3 && ((ly < yy && lx < cols) || (ly == yy && lx < xx)) {
                        component(rgb_at(gg, self.buf@, x + lx, y + ly), j % 3)
                    } else {
                        oo[j]
                    }
                } by {
                    if j < img_w * img_h * 3 {
                        lemma_cell_of(img_w as int, img_h as int, j);
                    }
                }
            }
            while xx < cols
                invariant
                    self.wf(),
                    gg == self.geo,
                    img_w * img_h * 3 <= oo.len(),
                    oo.len() <= usize::MAX,
                    out@.len() == oo.len(),
                    cols <= img_w, rows <= img_h,
                    cols == (if x >= gg.width { 0 } else if img_w < gg.width - x { img_w as int } else { gg.width - x }),
                    rows == (if y >= gg.height { 0 } else if img_h < gg.height - y { img_h as int } else { gg.height - y }),
                    yy < rows,
                    xx <= cols,
                    forall|j: int| 0 <= j < oo.len() ==> #[trigger] out@[j] == {
                        let lx = (j / 3) % (img_w as int);
                        let ly = (j / 3) / (img_w as int);
                        if j < img_w * img_h * 3 && ((ly < yy && lx < cols) || (ly == yy && lx < xx)) {
                            component(rgb_at(gg, self.buf@, x + lx, y + ly), j % 3)
                        } else {
                            oo[j]
                        }
                    },
                decreases cols - xx,
            {
                let c = self.get_pixel(x + xx, y + yy);
                proof {
                    lemma_cell_index(img_w as int, img_h as int, xx as int, yy as int, 0);
                    lemma_cell_index(img_w as int, img_h as int, xx as int, yy as int, 1);
                    lemma_cell_index(img_w as int, img_h as int, xx as int, yy as int, 2);
                }
                let ghost before = out@;
                let out_off = (yy * img_w + xx) * 3;
                out.set(out_off, c.0);
                out.set(out_off + 1, c.1);
                out.set(out_off + 2, c.2);
                proof {
                    assert forall|j: int| 0 <= j < oo.len() implies #[trigger] out@[j] == {
                        let lx = (j / 3) % (img_w as int);
                        let ly = (j / 3) / (img_w as int);
                        if j < img_w * img_h * 3 && ((ly < yy && lx < cols) || (ly == yy && lx < xx + 1)) {
                            component(rgb_at(gg, self.buf@, x + lx, y + ly), j % 3)
                        } else {
                            oo[j]
                        }
                    } by {
                        if j < img_w * img_h * 3 {
                            lemma_cell_of(img_w as int, img_h as int, j);
                            if out_off <= j < out_off + 3 {
                                lemma_cell_index(img_w as int, img_h as int, xx as int, yy as int, j - out_off);
                            } else {
                                assert(before[j] == out@[j]);
                                let lx = (j / 3) % (img_w as int);
                                let ly = (j / 3) / (img_w as int);
                                if lx == xx && ly == yy {
                                    assert(j == out_off + j % 3);
                                }
                            }
                        }
                    }
                }
                xx = xx + 1;
            }
            yy = yy + 1;
        }
        proof {
            assert forall|j: int| 0 <= j < oo.len() implies #[trigger] out@[j]
                == capture(gg, self.buf@, oo, img_w as int, img_h as int, x as int, y as int)[j] by {
                if j < img_w * img_h * 3 {
                    lemma_cell_of(img_w as int, img_h as int, j);
                }
            }
            assert(out@ =~= capture(gg, self.buf@, oo, img_w as int, img_h as int, x as int, y as int));
        }
    }

    /// Copy the on-screen part of the `img_w`×`img_h` region at (x, y) into
    /// `out` as packed RGB. A buffer shorter than the region is left alone.
    pub fn read_rgb_at(&self, out: &mut Vec<u8>, img_w: usize, img_h: usize, x: usize, y: usize)
        requires
            self.wf(),
            img_w * img_h * 3 <= usize::MAX,
        ensures
            final(out)@ == if old(out)@.len() < img_w * img_h * 3 {
                old(out)@
            } else {
                capture(self.geometry(), self.bytes(), old(out)@, img_w as int, img_h as int, x as int, y as int)
            },
    {
        if out.len() < img_w * img_h * 3 {
            return;
        }
        self.read_region(out, img_w, img_h, x, y);
    }
}

/// First coordinate of an extent `img` centred in `total` (0 if it does not fit).
pub open spec fn centre_start(total: int, img: int) -> int {
    if total > img { (total - img) / 2 } else { 0 }
}


/// Pixels of a cursor bitmap placed at (nx, ny): `*` cells take `fg`,
/// `.` cells take `border`, every other cell is transparent.
pub open spec fn bitmap_at(bm: Seq<Seq<u8>>, nx: int, ny: int, fg: Color, border: Color) -> spec_fn(int, int) -> Option<Color> {
    |x: int, y: int| {
        let row = y - ny;
        let col = x - nx;
        if 0 <= row < bm.len() && 0 <= col < bm[row].len() {
            if bm[row][col] == 42u8 {
                Some(fg)
            } else if bm[row][col] == 46u8 {
                Some(border)
            } else {
                None
            }
        } else {
            None
        }
    }
}

/// Screen after restoring the saved background at the old cursor position,
/// when there is one and it is not negative.
pub open spec fn restored(g: Geometry, buf: Seq<u8>, saved: Seq<u8>, old_pos: Option<(i32, i32)>, w: int, h: int) -> Seq<u8> {
    match old_pos {
        Some((ox, oy)) => if ox >= 0 && oy >= 0 {
            paint(g, buf, image_at(saved, w, h, ox as int, oy as int))
        } else {
            buf
        },
        None => buf,
    }
}

impl FbWriter {
    /// Move the software cursor: restore the background saved at `old_pos`,
    /// save the background at `new_pos` (negative coordinates clamp to 0) into
    /// `saved_bg`, then draw the bitmap there. Nothing happens if the position
    /// did not change.
    pub fn paint_cursor(
        &mut self,
        saved_bg: &mut Vec<u8>,
        old_pos: Option<(i32, i32)>,
        new_pos: (i32, i32),
        bitmap: &Vec<Vec<u8>>,
        width: usize,
        height: usize,
        fg: Color,
        border: Color,
    )
        requires
            old(self).wf(),
            width * height * 3 <= old(saved_bg)@.len(),
            bitmap@.len() <= 0x7fff_ffff,
            forall|r: int| 0 <= r < bitmap@.len() ==> #[trigger] bitmap@[r]@.len() <= 0x7fff_ffff,
        ensures
            final(self).wf(),
            final(self).geometry() == old(self).geometry(),
            final(self).text() == old(self).text(),
            old_pos == Some(new_pos) ==> final(self).bytes() == old(self).bytes() && final(saved_bg)@ == old(saved_bg)@,
            old_pos != Some(new_pos) ==> ({
                let g = old(self).geometry();
                let nx: int = if new_pos.0 > 0 { new_pos.0 as int } else { 0 };
                let ny: int = if new_pos.1 > 0 { new_pos.1 as int } else { 0 };
                let fb1 = restored(g, old(self).bytes(), old(saved_bg)@, old_pos, width as int, height as int);
                &&& final(saved_bg)@ == capture(g, fb1, Seq::new(old(saved_bg)@.len(), |i: int| 0u8), width as int, height as int, nx, ny)
                &&& final(self).bytes() == paint(g, fb1, bitmap_at(bitmap@.map_values(|v: Vec<u8>| v@), nx, ny, fg, border))
            }),
    {
        if old_pos == Some(new_pos) {
            return;
        }
        let ghost gg = self.geo;
        let ghost ob = self.buf@;
        let ghost saved0 = saved_bg@;
        // 1. Restore the old position.
        match old_pos {
            Some((ox, oy)) => {
                if ox >= 0 && oy >= 0 {
                    self.blit_rgb(saved_bg.as_slice(), width, height, ox as usize, oy as usize);
                }
            },
            None => {},
        }
        let ghost fb1 = self.buf@;
        assert(fb1 == restored(gg, ob, saved0, old_pos, width as int, height as int));
        let nx: usize = if new_pos.0 > 0 { new_pos.0 as usize } else { 0 };
        let ny: usize = if new_pos.1 > 0 { new_pos.1 as usize } else { 0 };
        // 2. Capture the background at the new position.
        let n = saved_bg.len();
        let mut i: usize = 0;
        while i < n
            invariant
                n == saved_bg@.len(),
                n == saved0.len(),
                i <= n,
                forall|j: int| 0 <= j < i ==> saved_bg@[j] == 0u8,
            decreases n - i,
        {
            saved_bg.set(i, 0);
            i = i + 1;
        }
        assert(saved_bg@ =~= Seq::new(saved0.len(), |i: int| 0u8));
        self.read_region(saved_bg, width, height, nx, ny);
        // 3. Draw the bitmap on top.
        let ghost bm = bitmap@.map_values(|v: Vec<u8>| v@);
        let ghost full = bitmap_at(bm, nx as int, ny as int, fg, border);
        let mut row: usize = 0;
        proof {
            lemma_paint_ext(gg, fb1, |x: int, y: int| if y - ny < 0 { full(x, y) } else { None }, |x: int, y: int| None::<Color>);
            assert(paint(gg, fb1, |x: int, y: int| None::<Color>) =~= fb1);
        }
        while row < bitmap.len()
            invariant
                self.wf(),
                self.geo == gg,
                self.text() == old(self).text(),
                bm == bitmap@.map_values(|v: Vec<u8>| v@),
                full == bitmap_at(bm, nx as int, ny as int, fg, border),
                bitmap@.len() <= 0x7fff_ffff,
                forall|r: int| 0 <= r < bitmap@.len() ==> #[trigger] bitmap@[r]@.len() <= 0x7fff_ffff,
                nx <= 0x7fff_ffff,
                ny <= 0x7fff_ffff,
                row <= bitmap@.len(),
                self.buf@ == paint(gg, fb1, |x: int, y: int| if y - ny < row { full(x, y) } else { None }),
            decreases bitmap@.len() - row,
        {
            let line = &bitmap[row];
            let py = ny + row;
            let ghost prev = |x: int, y: int| if y - ny < row { full(x, y) } else { None };
            let ghost next = |x: int, y: int| if y - ny < row + 1 { full(x, y) } else { None };
            if py < self.geo.height {
                let x_end = clip_end(nx, line.len(), self.geo.width);
                let ghost fs = |px: int, qy: int, d: Color|
                    if line@[px - nx] == 42u8 { Some(fg) } else if line@[px - nx] == 46u8 { Some(border) } else { None };
                let ghost cur = self.buf@;
                self.apply(nx, py, x_end, py + 1, |px: usize, qy: usize, d: Color| -> (res: Option<Color>)
                    requires
                        nx <= px < x_end, x_end <= nx + line@.len()
                    ensures
                        res == (if line@[px - nx] == 42u8 { Some(fg) } else if line@[px - nx] == 46u8 { Some(border) } else { None })
                    {
                        let ch = line[px - nx];
                        if ch == 42u8 {
                            Some(fg)
                        } else if ch == 46u8 {
                            Some(border)
                        } else {
                            None
                        }
                    }, Ghost(fs));
                proof {
                    let rf = region(gg, cur, nx as int, py as int, x_end as int, py + 1, fs);
                    let comb = |x: int, y: int| if rf(x, y) is Some { rf(x, y) } else { prev(x, y) };
                    lemma_paint_paint(gg, fb1, prev, rf, comb);
                    assert forall|x: int, y: int| 0 <= x < gg.width && 0 <= y < gg.height implies #[trigger] comb(x, y) == next(x, y) by {
                        assert(bm[row as int] == line@);
                    }
                    lemma_paint_ext(gg, fb1, comb, next);
                }
            } else {
                proof {
                    lemma_paint_ext(gg, fb1, prev, next);
                }
            }
            row = row + 1;
        }
        proof {
            lemma_paint_ext(gg, fb1, |x: int, y: int| if y - ny < row { full(x, y) } else { None }, full);
        }
    }
}


// ---------------------------------------------------------------- primitive effects
//
// The buffer each public primitive leaves, as a function of the buffer it
// found; composite drawings are specified as chains of these.

/// [`FbWriter::fill_color`] and [`FbWriter::clear`].
pub open spec fn fill_op(g: Geometry, b: Seq<u8>, c: Color) -> Seq<u8> {
    paint(g, b, |x: int, y: int| Some(c))
}

/// [`FbWriter::blit_rgba_centered`].
pub open spec fn rgba_centered_op(g: Geometry, b: Seq<u8>, rgba: Seq<u8>, img_w: int, img_h: int) -> Seq<u8> {
    if rgba.len() < img_w * img_h * 4 {
        b
    } else {
        paint(g, b, |x: int, y: int|
            if centre_start(g.width as int, img_w) <= x < centre_start(g.width as int, img_w) + img_w
                && centre_start(g.height as int, img_h) <= y < centre_start(g.height as int, img_h) + img_h {
                blend(src_rgba(rgba, img_w, x - centre_start(g.width as int, img_w), y - centre_start(g.height as int, img_h)).0,
                    rgb_at(g, b, x, y),
                    src_rgba(rgba, img_w, x - centre_start(g.width as int, img_w), y - centre_start(g.height as int, img_h)).1)
            } else { None })
    }
}

/// [`FbWriter::blit_rgb_at`].
pub open spec fn rgb_image_op(g: Geometry, b: Seq<u8>, rgb: Seq<u8>, img_w: int, img_h: int, x: int, y: int) -> Seq<u8> {
    if rgb.len() < img_w * img_h * 3 {
        b
    } else {
        paint(g, b, image_at(rgb, img_w, img_h, x, y))
    }
}

/// [`FbWriter::blit_rgba_at`].
pub open spec fn rgba_image_op(g: Geometry, b: Seq<u8>, rgba: Seq<u8>, img_w: int, img_h: int, tx: int, ty: int) -> Seq<u8> {
    if rgba.len() < img_w * img_h * 4 {
        b
    } else {
        paint(g, b, |x: int, y: int|
            if tx <= x < tx + img_w && ty <= y < ty + img_h {
                blend(src_rgba(rgba, img_w, x - tx, y - ty).0, rgb_at(g, b, x, y), src_rgba(rgba, img_w, x - tx, y - ty).1)
            } else { None })
    }
}

/// [`FbWriter::blit_rgb_rows`].
pub open spec fn rgb_rows_op(g: Geometry, b: Seq<u8>, rgb: Seq<u8>, img_w: int, img_h: int, y_start: int, y_end: int) -> Seq<u8> {
    if rgb.len() < img_w * img_h * 3 {
        b
    } else {
        paint(g, b, |x: int, y: int|
            if 0 <= x < img_w && y_start <= y < y_end && y < img_h { Some(src_rgb(rgb, img_w, x, y)) } else { None })
    }
}

/// [`FbWriter::fill_gradient_v`].
pub open spec fn grad_rows_op(g: Geometry, b: Seq<u8>, y_start: int, y_end: int, top: Color, bot: Color) -> Seq<u8> {
    paint(g, b, |x: int, y: int| if y_start <= y < y_end { Some(grad(top, bot, y - y_start, y_end - y_start)) } else { None })
}

/// [`FbWriter::fill_rect`].
pub open spec fn rect_op(g: Geometry, b: Seq<u8>, x: int, y: int, w: int, h: int, c: Color) -> Seq<u8> {
    paint(g, b, solid(x, y, w, h, c))
}

/// [`FbWriter::fill_rounded_rect`] (kind 0), [`FbWriter::fill_rect_rounded_bottom`]
/// (kind 1) and [`FbWriter::stroke_rounded_rect`] (kind 2).
pub open spec fn shape_op(g: Geometry, b: Seq<u8>, kind: int, x: int, y: int, w: int, h: int, c: Color, r: int) -> Seq<u8> {
    paint(g, b, |px: int, py: int| if in_shape(kind, x, y, w, h, r, px, py) { Some(c) } else { None })
}

/// [`FbWriter::blend_rounded_rect`].
pub open spec fn blend_shape_op(g: Geometry, b: Seq<u8>, x: int, y: int, w: int, h: int, c: Color, alpha: u8, r: int) -> Seq<u8> {
    paint(g, b, |px: int, py: int| if in_shape(0, x, y, w, h, r, px, py) {
        blend(c, rgb_at(g, b, px, py), alpha)
    } else { None })
}

/// [`FbWriter::blend_rect`].
pub open spec fn blend_rect_op(g: Geometry, b: Seq<u8>, x: int, y: int, w: int, h: int, c: Color, alpha: u8) -> Seq<u8> {
    paint(g, b, region(g, b, x, y, x + w, y + h, |px: int, py: int, d: Color| blend(c, d, alpha)))
}

/// [`FbWriter::fill_v_gradient_rect_rounded_bottom`].
pub open spec fn grad_bottom_op(g: Geometry, b: Seq<u8>, x: int, y: int, w: int, h: int, top: Color, bot: Color, r: int) -> Seq<u8> {
    paint(g, b, |px: int, py: int| if in_shape(1, x, y, w, h, r, px, py) {
        Some(grad(top, bot, py - y, h))
    } else { None })
}

/// [`FbWriter::fill_v_gradient_in_rounded_rect`].
pub open spec fn grad_in_op(g: Geometry, b: Seq<u8>, gx: int, gy: int, gw: int, gh: int, top: Color, bot: Color,
    mx: int, my: int, mw: int, mh: int, mr: int) -> Seq<u8> {
    paint(g, b, |px: int, py: int|
        if gx <= px < gx + gw && gy <= py < gy + gh && in_shape(0, mx, my, mw, mh, mr, px, py) {
            Some(grad(top, bot, py - gy, gh))
        } else { None })
}

/// [`FbWriter::blend_v_gradient_in_rounded_rect`].
pub open spec fn blend_grad_in_op(g: Geometry, b: Seq<u8>, bx: int, by: int, bw: int, bh: int, top: Color, bot: Color,
    ta: u8, ba: u8, mx: int, my: int, mw: int, mh: int, mr: int) -> Seq<u8> {
    paint(g, b, |px: int, py: int|
        if bx <= px < bx + bw && by <= py < by + bh && in_shape(0, mx, my, mw, mh, mr, px, py) {
            blend(grad(top, bot, py - by, bh), rgb_at(g, b, px, py), lerp(ta, ba, grad_t(py - by, bh)))
        } else { None })
}

/// Painting a colour that does not depend on the screen twice is painting
/// it once: filling the same rectangle again changes nothing.
pub proof fn lemma_paint_idempotent(g: Geometry, b: Seq<u8>, f: spec_fn(int, int) -> Option<Color>)
    ensures
        paint(g, paint(g, b, f), f) == paint(g, b, f),
{
    lemma_paint_paint(g, b, f, f, f);
}

/// Filling a rectangle twice is filling it once.
pub proof fn lemma_fill_rect_twice(g: Geometry, b: Seq<u8>, x: int, y: int, w: int, h: int, c: Color)
    ensures
        rect_op(g, rect_op(g, b, x, y, w, h, c), x, y, w, h, c) == rect_op(g, b, x, y, w, h, c),
{
    lemma_paint_idempotent(g, b, solid(x, y, w, h, c));
}

/// What a pixel reads back after a fill: the fill colour inside the
/// rectangle, its old colour outside.
pub proof fn lemma_fill_rect_reads_back(g: Geometry, b: Seq<u8>, x: int, y: int, w: int, h: int, c: Color, px: int, py: int)
    requires
        g.wf(),
        b.len() == g.len(),
        0 <= px < g.width,
        0 <= py < g.height,
    ensures
        x <= px < x + w && y <= py < y + h ==> rgb_at(g, rect_op(g, b, x, y, w, h, c), px, py) == c,
        !(x <= px < x + w && y <= py < y + h) ==> rgb_at(g, rect_op(g, b, x, y, w, h, c), px, py) == rgb_at(g, b, px, py),
{
    let f = solid(x, y, w, h, c);
    if f(px, py) is Some {
        lemma_rgb_painted(g, b, f, px, py);
    } else {
        lemma_rgb_unpainted(g, b, f, px, py);
    }
}

/// A pixel written with `put_pixel_at` reads back with `read_rgb_at`: a
/// one-pixel capture at that point yields its colour in the first three
/// bytes and leaves the rest of the output as it was, whatever the byte
/// order of the screen.
pub proof fn lemma_put_then_read(g: Geometry, b: Seq<u8>, out: Seq<u8>, x: int, y: int, c: Color)
    requires
        g.wf(),
        b.len() == g.len(),
        0 <= x < g.width,
        0 <= y < g.height,
        out.len() >= 3,
    ensures
        ({
            let cap = capture(g, paint(g, b, solid(x, y, 1, 1, c)), out, 1, 1, x, y);
            &&& cap.len() == out.len()
            &&& cap[0] == c.0
            &&& cap[1] == c.1
            &&& cap[2] == c.2
            &&& forall|j: int| 3 <= j < out.len() ==> #[trigger] cap[j] == out[j]
        }),
{
    let f = solid(x, y, 1, 1, c);
    lemma_rgb_painted(g, b, f, x, y);
    let cap = capture(g, paint(g, b, f), out, 1, 1, x, y);
    assert(cap[0] == component(rgb_at(g, paint(g, b, f), x + 0, y + 0), 0));
    assert(cap[1] == component(rgb_at(g, paint(g, b, f), x + 0, y + 0), 1));
    assert(cap[2] == component(rgb_at(g, paint(g, b, f), x + 0, y + 0), 2));
}

/// Blending a rounded rectangle of radius 0 is blending the plain
/// rectangle: on every box that the rounded painter accepts, the two give
/// the same screen.
pub proof fn lemma_blend_radius_zero(g: Geometry, b: Seq<u8>, x: int, y: int, w: int, h: int, c: Color, alpha: u8)
    requires
        g.wf(),
        b.len() == g.len(),
    ensures
        blend_shape_op(g, b, x, y, w, h, c, alpha, 0) == blend_rect_op(g, b, x, y, w, h, c, alpha),
{
    let f1 = |px: int, py: int| if in_shape(0, x, y, w, h, 0, px, py) { blend(c, rgb_at(g, b, px, py), alpha) } else { None };
    let f2 = region(g, b, x, y, x + w, y + h, |px: int, py: int, d: Color| blend(c, d, alpha));
    assert forall|px: int, py: int| 0 <= px < g.width && 0 <= py < g.height implies #[trigger] f1(px, py) == f2(px, py) by {
        if x <= px < x + w && y <= py < y + h {
            assert(clamp_radius(0, w, h) == 0);
            assert(in_rounded(px - x, py - y, w, h, 0));
        }
    }
    lemma_paint_ext(g, b, f1, f2);
}

/// A rounded rectangle is mirror-symmetric: a point of its box lies in the
/// shape exactly when its mirror image across the vertical or the
/// horizontal centre line does.
pub proof fn lemma_rounded_mirror(x: int, y: int, w: int, h: int, radius: int, lx: int, ly: int)
    requires
        radius >= 0,
        0 <= lx < w,
        0 <= ly < h,
    ensures
        in_shape(0, x, y, w, h, radius, x + lx, y + ly) == in_shape(0, x, y, w, h, radius, x + (w - 1 - lx), y + ly),
        in_shape(0, x, y, w, h, radius, x + lx, y + ly) == in_shape(0, x, y, w, h, radius, x + lx, y + (h - 1 - ly)),
{
    let r = clamp_radius(radius, w, h);
    assert(0 <= r && 2 * r <= w && 2 * r <= h);
    let mx = w - 1 - lx;
    let my = h - 1 - ly;
    assert(x + lx - x == lx && y + ly - y == ly && x + mx - x == mx && y + my - y == my);
    assert((lx - r) * (lx - r) == (mx - (w - r - 1)) * (mx - (w - r - 1))) by (nonlinear_arith)
        requires mx == w - 1 - lx;
    assert((lx - (w - r - 1)) * (lx - (w - r - 1)) == (mx - r) * (mx - r)) by (nonlinear_arith)
        requires mx == w - 1 - lx;
    assert((ly - r) * (ly - r) == (my - (h - r - 1)) * (my - (h - r - 1))) by (nonlinear_arith)
        requires my == h - 1 - ly;
    assert((ly - (h - r - 1)) * (ly - (h - r - 1)) == (my - r) * (my - r)) by (nonlinear_arith)
        requires my == h - 1 - ly;
}

/// With the clamped radius 0 a rounded rectangle fills its whole box.
pub proof fn lemma_rounded_radius_zero_full(x: int, y: int, w: int, h: int, radius: int, lx: int, ly: int)
    requires
        clamp_radius(radius, w, h) == 0,
        0 <= lx < w,
        0 <= ly < h,
    ensures
        in_shape(0, x, y, w, h, radius, x + lx, y + ly),
{
    assert(x + lx - x == lx && y + ly - y == ly);
}

/// With a clamped radius of at least 1 the corner pixels of the box are
/// left out of a rounded rectangle.
pub proof fn lemma_rounded_corners_cut(x: int, y: int, w: int, h: int, radius: int)
    requires
        clamp_radius(radius, w, h) >= 1,
    ensures
        !in_shape(0, x, y, w, h, radius, x, y),
        !in_shape(0, x, y, w, h, radius, x + w - 1, y),
        !in_shape(0, x, y, w, h, radius, x, y + h - 1),
        !in_shape(0, x, y, w, h, radius, x + w - 1, y + h - 1),
{
    let r = clamp_radius(radius, w, h);
    assert(r * r < 2 * (r * r)) by (nonlinear_arith)
        requires r >= 1;
    assert(x - x == 0 && y - y == 0 && x + w - 1 - x == w - 1 && y + h - 1 - y == h - 1);
    assert((0 - r) * (0 - r) == r * r) by (nonlinear_arith);
    assert(w - 1 - (w - r - 1) == r && h - 1 - (h - r - 1) == r);
}

/// The centre pixel (`w / 2`, `h / 2`) of a non-empty box is filled by the
/// rounded rectangle, except for a 2×2 box with clamped radius 1, whose four
/// pixels are all corners.
pub proof fn lemma_rounded_centre(x: int, y: int, w: int, h: int, radius: int)
    requires
        w >= 1,
        h >= 1,
        radius >= 0,
        !(w == 2 && h == 2 && clamp_radius(radius, w, h) == 1),
    ensures
        in_shape(0, x, y, w, h, radius, x + w / 2, y + h / 2),
{
    let r = clamp_radius(radius, w, h);
    assert(0 <= r && r <= w / 2 && r <= h / 2);
    assert(x + w / 2 - x == w / 2 && y + h / 2 - y == h / 2);
    let lx = w / 2;
    let ly = h / 2;
    if lx >= w - r && ly >= h - r {
        assert(w == 2 * r && h == 2 * r);
        assert(r >= 2);
        assert(lx - (w - r - 1) == 1 && ly - (h - r - 1) == 1);
        assert(1int * 1int == 1);
        assert(2 <= r * r) by (nonlinear_arith)
            requires r >= 2;
    }
}

// ---------------------------------------------------------------- text console

/// Width of a console cell in pixels.
pub const CHAR_W: usize = 8;
/// Height of a console cell: the 8 font rows, each drawn twice.
pub const CHAR_H: usize = 16;
/// Glyphs in the console font: characters 0x20 through 0x7F.
pub const FONT_GLYPHS: usize = 96;

/// Glyph shown for byte `c`: its own for 0x20..=0x7F, the space otherwise.
pub open spec fn glyph_index(c: u8) -> int {
    if 0x20 <= c <= 0x7f { c - 0x20 } else { 0 }
}

/// Bit `gx` (from the left) of row `gy` of the glyph for `c`.
pub open spec fn glyph_on(font: Seq<u8>, c: u8, gy: int, gx: int) -> bool {
    (font[glyph_index(c) * 8 + gy] >> ((7 - gx) as u8)) & 1u8 != 0
}

/// The character cell with its top-left pixel at (px0, py0) showing `c`:
/// `fg` on the glyph's set bits, `bg` (if any) on the others.
pub open spec fn cell_at(font: Seq<u8>, c: u8, px0: int, py0: int, fg: Color, bg: Option<Color>) -> spec_fn(int, int) -> Option<Color> {
    |x: int, y: int|
        if px0 <= x < px0 + CHAR_W && py0 <= y < py0 + CHAR_H {
            if glyph_on(font, c, (y - py0) / 2, x - px0) { Some(fg) } else { bg }
        } else {
            None
        }
}

/// What the console's output depends on besides its cursor and pixels.
pub struct Term {
    pub g: Geometry,
    pub cols: int,
    pub rows: int,
    pub font: Seq<u8>,
    pub fg: Color,
    pub bg: Color,
}

/// Cursor column, cursor row and pixel bytes of the console.
pub type ConsoleState = (int, int, Seq<u8>);

/// Move the pixels up one text row and blank the last row.
pub open spec fn scrolled(t: Term, buf: Seq<u8>) -> Seq<u8> {
    let shift = CHAR_H * t.g.stride_bytes;
    if shift >= buf.len() {
        buf
    } else {
        let moved = Seq::new(buf.len(), |i: int| if i + shift < buf.len() { buf[i + shift] } else { buf[i] });
        paint(t.g, moved, solid(0, (t.rows - 1) * CHAR_H, t.g.width as int, CHAR_H as int, t.bg))
    }
}

pub open spec fn newline_spec(t: Term, st: ConsoleState) -> ConsoleState {
    if st.1 + 1 >= t.rows {
        (0, t.rows - 1, scrolled(t, st.2))
    } else {
        (0, st.1 + 1, st.2)
    }
}

/// Draw `c` in cell (col, row) with the console colours.
pub open spec fn glyph_spec(t: Term, buf: Seq<u8>, c: u8, col: int, row: int) -> Seq<u8> {
    paint(t.g, buf, cell_at(t.font, c, col * CHAR_W, row * CHAR_H, t.fg, Some(t.bg)))
}

/// A printable byte: wrap first when the row is full, then draw and advance.
pub open spec fn printable_spec(t: Term, st: ConsoleState, c: u8) -> ConsoleState {
    let s1 = if st.0 >= t.cols { newline_spec(t, st) } else { st };
    (s1.0 + 1, s1.1, glyph_spec(t, s1.2, c, s1.0, s1.1))
}

/// `n` spaces.
pub open spec fn spaces_spec(t: Term, st: ConsoleState, n: nat) -> ConsoleState
    decreases n,
{
    if n == 0 { st } else { spaces_spec(t, printable_spec(t, st, 0x20), (n - 1) as nat) }
}

/// Step back one cell (to the end of the previous row at a row start, not
/// past the top-left cell) and blank it.
pub open spec fn backspace_spec(t: Term, st: ConsoleState) -> ConsoleState {
    if st.0 == 0 {
        if st.1 == 0 {
            st
        } else {
            (t.cols - 1, st.1 - 1, glyph_spec(t, st.2, 0x20, t.cols - 1, st.1 - 1))
        }
    } else {
        (st.0 - 1, st.1, glyph_spec(t, st.2, 0x20, st.0 - 1, st.1))
    }
}

/// One character: newline, carriage return, tab to the next multiple of
/// four columns, backspace/delete, or a printable (non-ASCII shows `?`).
pub open spec fn put_char_spec(t: Term, st: ConsoleState, c: char) -> ConsoleState {
    if c == '\n' {
        newline_spec(t, st)
    } else if c == '\r' {
        (0, st.1, st.2)
    } else if c == '\t' {
        spaces_spec(t, st, (4 - st.0 % 4) as nat)
    } else if c == '\u{8}' || c == '\u{7f}' {
        backspace_spec(t, st)
    } else {
        printable_spec(t, st, if (c as u32) < 0x80 { c as u8 } else { 0x3f })
    }
}

/// A whole string, character by character.
pub open spec fn write_spec(t: Term, st: ConsoleState, s: Seq<char>) -> ConsoleState
    decreases s.len(),
{
    if s.len() == 0 { st } else { write_spec(t, put_char_spec(t, st, s[0]), s.drop_first()) }
}

/// Printing a string in two pieces leaves the console as printing it at
/// once: the console's effect depends only on the characters written.
pub proof fn lemma_write_concat(t: Term, st: ConsoleState, a: Seq<char>, b: Seq<char>)
    ensures
        write_spec(t, st, a + b) == write_spec(t, write_spec(t, st, a), b),
    decreases a.len(),
{
    if a.len() > 0 {
        assert((a + b).drop_first() =~= a.drop_first() + b);
        assert((a + b)[0] == a[0]);
        lemma_write_concat(t, put_char_spec(t, st, a[0]), a.drop_first(), b);
    } else {
        assert(a + b =~= b);
    }
}

/// The first `k` bytes of `text` drawn without background from (x, y) on,
/// one cell apart.
pub open spec fn text_spec(g: Geometry, buf: Seq<u8>, font: Seq<u8>, text: Seq<u8>, x: int, y: int, fg: Color, k: nat) -> Seq<u8>
    decreases k,
{
    if k == 0 {
        buf
    } else {
        paint(g, text_spec(g, buf, font, text, x, y, fg, (k - 1) as nat),
            cell_at(font, text[k - 1], x + (k - 1) * CHAR_W, y, fg, None))
    }
}

impl FbWriter {
    pub closed spec fn term(&self) -> Term {
        Term { g: self.geo, cols: self.cols as int, rows: self.rows as int, font: self.font@, fg: self.fg, bg: self.bg }
    }

    pub closed spec fn console(&self) -> ConsoleState {
        (self.col as int, self.row as int, self.buf@)
    }

    /// The console has at least one cell and its cursor is on the screen.
    pub closed spec fn console_ok(&self) -> bool {
        &&& self.cols >= 1
        &&& self.rows >= 1
        &&& self.col <= self.cols
        &&& self.row < self.rows
    }

    /// A console over a `width`×`height` buffer (rows `stride_bytes`
    /// apart, `bpp` bytes per pixel, blue first when `bgr`), cleared to
    /// black, with light-grey text and the cursor at the top-left cell.
    pub fn new(geo: Geometry, font: Vec<u8>) -> (w: FbWriter)
        requires
            geo.wf(),
            font@.len() == FONT_GLYPHS * 8,
        ensures
            w.wf(),
            w.geometry() == geo,
            w.text() == (geo.width / CHAR_W, geo.height / CHAR_H, 0usize, 0usize, (0u8, 0u8, 0u8), (0xE6u8, 0xEDu8, 0xF3u8), font@),
            w.bytes() == paint(geo, Seq::new(geo.len() as nat, |i: int| 0u8), |x: int, y: int| Some((0u8, 0u8, 0u8))),
    {
        let n = geo.height * geo.stride_bytes;
        let mut buf: Vec<u8> = Vec::new();
        let mut k: usize = 0;
        while k < n
            invariant
                k <= n,
                buf@ == Seq::new(k as nat, |i: int| 0u8),
            decreases n - k,
        {
            buf.push(0u8);
            k = k + 1;
            assert(buf@ =~= Seq::new(k as nat, |i: int| 0u8));
        }
        let mut w = FbWriter {
            geo,
            buf,
            cols: geo.width / CHAR_W,
            rows: geo.height / CHAR_H,
            col: 0,
            row: 0,
            bg: (0, 0, 0),
            fg: (0xE6, 0xED, 0xF3),
            font,
        };
        w.fill_all((0, 0, 0));
        w
    }

    /// The pixel bytes, for copying to the screen.
    pub fn as_bytes(&self) -> (b: &[u8])
        ensures
            b@ == self.bytes(),
    {
        self.buf.as_slice()
    }

    /// Background colour for text and for [`FbWriter::clear`].
    pub fn set_bg(&mut self, r: u8, g: u8, b: u8)
        requires
            old(self).wf(),
        ensures
            final(self).wf(),
            final(self).geometry() == old(self).geometry(),
            final(self).bytes() == old(self).bytes(),
            final(self).text() == ({
                let t = old(self).text();
                (t.0, t.1, t.2, t.3, (r, g, b), t.5, t.6)
            }),
    {
        self.bg = (r, g, b);
    }

    /// Text colour.
    pub fn set_fg(&mut self, r: u8, g: u8, b: u8)
        requires
            old(self).wf(),
        ensures
            final(self).wf(),
            final(self).geometry() == old(self).geometry(),
            final(self).bytes() == old(self).bytes(),
            final(self).text() == ({
                let t = old(self).text();
                (t.0, t.1, t.2, t.3, t.4, (r, g, b), t.6)
            }),
    {
        self.fg = (r, g, b);
    }

    /// Wipe the screen to the background colour; cursor to the top-left cell.
    pub fn clear(&mut self)
        requires
            old(self).wf(),
        ensures
            final(self).wf(),
            final(self).geometry() == old(self).geometry(),
            final(self).bytes() == paint(old(self).geometry(), old(self).bytes(), |x: int, y: int| Some(old(self).text().4)),
            final(self).text() == ({
                let t = old(self).text();
                (t.0, t.1, 0usize, 0usize, t.4, t.5, t.6)
            }),
    {
        let bg = self.bg;
        self.fill_all(bg);
        self.col = 0;
        self.row = 0;
    }

    /// Paint the 8×16 cell at (px0, py0) showing `c`: `fg` on set bits and
    /// `bg` on the others, or only the set bits when `bg` is `None`.
    fn draw_cell(&mut self, c: u8, px0: usize, py0: usize, fg: Color, bg: Option<Color>)
        requires
            old(self).wf(),
            px0 + CHAR_W <= usize::MAX,
            py0 + CHAR_H <= usize::MAX,
        ensures
            final(self).wf(),
            final(self).geo == old(self).geo,
            final(self).text() == old(self).text(),
            final(self).buf@ == paint(old(self).geo, old(self).buf@, cell_at(old(self).font@, c, px0 as int, py0 as int, fg, bg)),
    {
        let ghost gg = self.geo;
        let ghost ob = self.buf@;
        let ghost font = self.font@;
        let gi: usize = if 0x20 <= c && c <= 0x7f { (c - 0x20) as usize } else { 0 };
        let mut glyph: Vec<u8> = Vec::new();
        let mut k: usize = 0;
        while k < 8
            invariant
                k <= 8,
                gi < FONT_GLYPHS,
                gi == glyph_index(c),
                self.font@ == font,
                font.len() == FONT_GLYPHS * 8,
                glyph@.len() == k,
                forall|j: int| 0 <= j < k ==> #[trigger] glyph@[j] == font[gi * 8 + j],
            decreases 8 - k,
        {
            glyph.push(self.font[gi * 8 + k]);
            k = k + 1;
        }
        let x_end = clip_end(px0, CHAR_W, self.geo.width);
        let y_end = clip_end(py0, CHAR_H, self.geo.height);
        let ghost fs = |px: int, py: int, d: Color|
            if glyph_on(font, c, (py - py0) / 2, px - px0) { Some(fg) } else { bg };
        self.apply(px0, py0, x_end, y_end, |px: usize, py: usize, d: Color| -> (res: Option<Color>)
            requires
                px0 <= px < x_end, py0 <= py < y_end, x_end <= px0 + CHAR_W, y_end <= py0 + CHAR_H,
                glyph@.len() == 8,
                forall|j: int| 0 <= j < 8 ==> #[trigger] glyph@[j] == font[gi * 8 + j],
                gi == glyph_index(c)
            ensures
                res == (if glyph_on(font, c, (py - py0) / 2, px - px0) { Some(fg) } else { bg })
            {
                let bits = glyph[(py - py0) / 2];
                let sh = (7 - (px - px0)) as u8;
                if (bits >> sh) & 1u8 != 0 { Some(fg) } else { bg }
            }, Ghost(fs));
        proof {
            lemma_paint_ext(gg, ob, region(gg, ob, px0 as int, py0 as int, x_end as int, y_end as int, fs),
                cell_at(font, c, px0 as int, py0 as int, fg, bg));
        }
    }

    /// Shift the pixels up one text row and blank the last one.
    fn scroll_up(&mut self)
        requires
            old(self).wf(),
            old(self).console_ok(),
        ensures
            final(self).wf(),
            final(self).geo == old(self).geo,
            final(self).text() == old(self).text(),
            final(self).buf@ == scrolled(old(self).term(), old(self).buf@),
    {
        let ghost ob = self.buf@;
        let ghost gg = self.geo;
        let total = self.geo.height * self.geo.stride_bytes;
        assert(CHAR_H * self.geo.stride_bytes <= 16 * usize::MAX) by (nonlinear_arith)
            requires self.geo.stride_bytes <= usize::MAX;
        if self.geo.stride_bytes > total / CHAR_H {
            proof {
                assert(CHAR_H * gg.stride_bytes >= total) by (nonlinear_arith)
                    requires gg.stride_bytes > total / 16, total >= 0;
            }
            return;
        }
        let shift = CHAR_H * self.geo.stride_bytes;
        if shift >= total {
            return;
        }
        let mut i: usize = 0;
        while i < total - shift
            invariant
                shift < total,
                total == ob.len(),
                shift == CHAR_H * gg.stride_bytes,
                self.buf@.len() == ob.len(),
                self.geo == gg,
                self.text() == old(self).text(),
                ob == old(self).buf@,
                gg == old(self).geo,
                old(self).wf(),
                i <= total - shift,
                forall|k: int| 0 <= k < i ==> #[trigger] self.buf@[k] == ob[k + shift],
                forall|k: int| i <= k < total ==> #[trigger] self.buf@[k] == ob[k],
            decreases total - shift - i,
        {
            let v = self.buf[i + shift];
            self.buf.set(i, v);
            i = i + 1;
        }
        let ghost moved = self.buf@;
        assert(moved =~= Seq::new(ob.len(), |k: int| if k + shift < ob.len() { ob[k + shift] } else { ob[k] }));
        let w = self.geo.width;
        let bg = self.bg;
        let y0 = (self.rows - 1) * CHAR_H;
        let y_end = clip_end(y0, CHAR_H, self.geo.height);
        let ghost fs = |px: int, py: int, d: Color| Some(bg);
        self.apply(0, y0, w, y_end, |px: usize, py: usize, d: Color| -> (r: Option<Color>)
            ensures r == Some(bg)
            { Some(bg) }, Ghost(fs));
        proof {
            lemma_paint_ext(gg, moved, region(gg, moved, 0, y0 as int, w as int, y_end as int, fs),
                solid(0, (old(self).rows - 1) * CHAR_H, gg.width as int, CHAR_H as int, bg));
        }
    }

    /// Start a new line, scrolling when the cursor is on the last row.
    fn newline(&mut self)
        requires
            old(self).wf(),
            old(self).console_ok(),
        ensures
            final(self).wf(),
            final(self).console_ok(),
            final(self).term() == old(self).term(),
            final(self).console() == newline_spec(old(self).term(), old(self).console()),
    {
        self.col = 0;
        if self.row + 1 >= self.rows {
            self.scroll_up();
            self.row = self.rows - 1;
        } else {
            self.row = self.row + 1;
        }
    }

    /// Draw `c` in cell (col, row) with the console colours.
    fn draw_glyph(&mut self, c: u8, col: usize, row: usize)
        requires
            old(self).wf(),
            col <= old(self).cols,
            row < old(self).rows,
        ensures
            final(self).wf(),
            final(self).geo == old(self).geo,
            final(self).text() == old(self).text(),
            final(self).buf@ == glyph_spec(old(self).term(), old(self).buf@, c, col as int, row as int),
    {
        proof {
            assert(col * CHAR_W <= self.geo.width) by (nonlinear_arith)
                requires col <= self.geo.width / 8;
            assert(row * CHAR_H < self.geo.height) by (nonlinear_arith)
                requires row < self.geo.height / 16;
        }
        let fg = self.fg;
        let bg = self.bg;
        self.draw_cell(c, col * CHAR_W, row * CHAR_H, fg, Some(bg));
    }

    /// A printable byte at the cursor.
    fn put_printable(&mut self, c: u8)
        requires
            old(self).wf(),
            old(self).console_ok(),
        ensures
            final(self).wf(),
            final(self).console_ok(),
            final(self).term() == old(self).term(),
            final(self).console() == printable_spec(old(self).term(), old(self).console(), c),
    {
        if self.col >= self.cols {
            self.newline();
        }
        let col = self.col;
        let row = self.row;
        self.draw_glyph(c, col, row);
        self.col = self.col + 1;
    }

    /// `n` spaces at the cursor.
    fn put_spaces(&mut self, n: usize)
        requires
            old(self).wf(),
            old(self).console_ok(),
        ensures
            final(self).wf(),
            final(self).console_ok(),
            final(self).term() == old(self).term(),
            final(self).console() == spaces_spec(old(self).term(), old(self).console(), n as nat),
        decreases n,
    {
        if n > 0 {
            self.put_printable(0x20);
            self.put_spaces(n - 1);
        }
    }

    /// Step back one cell and blank it.
    fn backspace(&mut self)
        requires
            old(self).wf(),
            old(self).console_ok(),
        ensures
            final(self).wf(),
            final(self).console_ok(),
            final(self).term() == old(self).term(),
            final(self).console() == backspace_spec(old(self).term(), old(self).console()),
    {
        if self.col == 0 {
            if self.row == 0 {
                return;
            }
            self.row = self.row - 1;
            self.col = self.cols - 1;
        } else {
            self.col = self.col - 1;
        }
        let col = self.col;
        let row = self.row;
        self.draw_glyph(0x20, col, row);
    }

    /// One character at the cursor.
    fn put_char(&mut self, c: char)
        requires
            old(self).wf(),
            old(self).console_ok(),
        ensures
            final(self).wf(),
            final(self).console_ok(),
            final(self).term() == old(self).term(),
            final(self).console() == put_char_spec(old(self).term(), old(self).console(), c),
    {
        if c == '\n' {
            self.newline();
        } else if c == '\r' {
            self.col = 0;
        } else if c == '\t' {
            let n = 4 - (self.col % 4);
            self.put_spaces(n);
        } else if c == '\u{8}' || c == '\u{7f}' {
            self.backspace();
        } else {
            let b: u8 = if (c as u32) < 0x80 { c as u8 } else { 0x3f };
            self.put_printable(b);
        }
    }

    /// Print `s` on the console.
    pub fn write_str(&mut self, s: &str)
        requires
            old(self).wf(),
            old(self).console_ok(),
        ensures
            final(self).wf(),
            final(self).console_ok(),
            final(self).term() == old(self).term(),
            final(self).console() == write_spec(old(self).term(), old(self).console(), s@),
    {
        let mut it = s.chars();
        let ghost mut rest = s@;
        proof {
            vstd::string::axiom_spec_iter(s);
        }
        loop
            invariant
                it.remaining() == rest,
                self.wf(),
                self.console_ok(),
                self.term() == old(self).term(),
                write_spec(old(self).term(), old(self).console(), s@) == write_spec(self.term(), self.console(), rest),
            ensures
                self.wf(),
                self.console_ok(),
                self.term() == old(self).term(),
                write_spec(old(self).term(), old(self).console(), s@) == self.console(),
            decreases rest.len(),
        {
            match it.next() {
                Some(c) => {
                    proof {
                        rest = rest.drop_first();
                    }
                    self.put_char(c);
                },
                None => {
                    break;
                },
            }
        }
    }

    /// Move to a fresh line unless the cursor is already at a line start.
    pub fn ensure_newline(&mut self)
        requires
            old(self).wf(),
            old(self).console_ok(),
        ensures
            final(self).wf(),
            final(self).console_ok(),
            final(self).term() == old(self).term(),
            final(self).console() == (if old(self).console().0 > 0 {
                newline_spec(old(self).term(), old(self).console())
            } else {
                old(self).console()
            }),
    {
        if self.col > 0 {
            self.newline();
        }
    }

    /// Draw the bytes of `text` in the console font at pixel (x, y), only
    /// the glyphs' set pixels, without moving the cursor.
    pub fn draw_text_at(&mut self, x: usize, y: usize, text: &str, fg: Color)
        requires
            old(self).wf(),
            x + CHAR_W * text.spec_bytes().len() <= usize::MAX,
            y + CHAR_H <= usize::MAX,
        ensures
            final(self).wf(),
            final(self).geometry() == old(self).geometry(),
            final(self).text() == old(self).text(),
            final(self).bytes() == text_spec(old(self).geometry(), old(self).bytes(), old(self).text().6,
                text.spec_bytes(), x as int, y as int, fg, text.spec_bytes().len()),
    {
        let bytes = text.as_bytes();
        let n = bytes.len();
        let mut i: usize = 0;
        while i < n
            invariant
                i <= n,
                n == text.spec_bytes().len(),
                bytes@ == text.spec_bytes(),
                x + CHAR_W * n <= usize::MAX,
                y + CHAR_H <= usize::MAX,
                self.wf(),
                self.geo == old(self).geo,
                self.text() == old(self).text(),
                self.buf@ == text_spec(old(self).geo, old(self).buf@, old(self).text().6, bytes@, x as int, y as int, fg, i as nat),
            decreases n - i,
        {
            proof {
                assert(CHAR_W * i + CHAR_W <= CHAR_W * n) by (nonlinear_arith)
                    requires i < n;
            }
            let fg2 = fg;
            self.draw_cell(bytes[i], x + i * CHAR_W, y, fg2, None);
            i = i + 1;
        }
    }
}

} // verus!
