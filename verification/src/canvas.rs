//! The raster surface and its mathematical model.
//!
//! A [`Canvas`] is an in-memory grid of RGBA pixels together with a current
//! draw color and blend mode. Its model, [`CanvasView`], is a sequence of
//! pixels plus that draw state. Every drawing operation of this crate is
//! specified as `brush` (select color and blend mode) followed by `paint`
//! (write a trace of pixel coordinates in order); a trace depends only on
//! the operation's arguments, never on the canvas contents.

use crate::intmath::floor_div;
use crate::types::{apply_blend, blend_mode_of, blend_px, BlendMode, Color, DrawError, Point};
use vstd::arithmetic::div_mod::lemma_fundamental_div_mod_converse;
use vstd::math::abs;
use vstd::math::max;
use vstd::prelude::*;

verus! {

/// The mathematical snapshot of a canvas: dimensions, row-major pixels,
/// and the current draw state.
#[verifier::ext_equal]
pub ghost struct CanvasView {
    pub width: int,
    pub height: int,
    /// Row-major: the pixel at `(x, y)` is `pixels[y * width + x]`.
    pub pixels: Seq<Color>,
    pub color: Color,
    pub mode: BlendMode,
}

impl CanvasView {
    /// Well-formed: the pixel sequence covers the grid exactly and is
    /// addressable (it fits a `usize`, as a real pixel vector must).
    pub open spec fn wf(self) -> bool {
        &&& self.pixels.len() == self.width * self.height
        &&& self.pixels.len() <= usize::MAX
        &&& self.width >= 0
        &&& self.height >= 0
    }

    pub open spec fn in_bounds(self, x: int, y: int) -> bool {
        0 <= x < self.width && 0 <= y < self.height
    }

    pub open spec fn idx(self, x: int, y: int) -> int {
        y * self.width + x
    }

    /// The color currently held by the pixel at `(x, y)`.
    pub open spec fn pix(self, x: int, y: int) -> Color {
        self.pixels[self.idx(x, y)]
    }

    /// One pixel write: composites the current draw color onto `(x, y)`
    /// under the current blend mode; out-of-bounds writes are clipped.
    pub open spec fn put(self, x: int, y: int) -> CanvasView {
        if self.in_bounds(x, y) {
            CanvasView {
                pixels: self.pixels.update(
                    self.idx(x, y),
                    apply_blend(self.pix(x, y), self.color, self.mode),
                ),
                ..self
            }
        } else {
            self
        }
    }

    /// Selects the draw color, and with it the blend mode its alpha calls
    /// for.
    pub open spec fn brush(self, c: Color) -> CanvasView {
        CanvasView { color: c, mode: blend_mode_of(c), ..self }
    }

    /// Writes a trace of pixel coordinates in order.
    pub open spec fn paint(self, t: Seq<(int, int)>) -> CanvasView
        decreases t.len(),
    {
        if t.len() == 0 {
            self
        } else {
            self.put(t[0].0, t[0].1).paint(t.drop_first())
        }
    }
}

/// Linear interpolation used by the line trace: the nearest integer to
/// `i * d / n` (ties round up), written with floor division.
pub open spec fn line_interp(i: int, d: int, n: int) -> int {
    if n == 0 {
        0
    } else {
        (2 * i * d + n) / (2 * n)
    }
}

/// The pixels of the segment from `(x1, y1)` to `(x2, y2)`, inclusive on
/// both ends, stepping once per unit of the longer axis.
pub open spec fn line_trace(x1: int, y1: int, x2: int, y2: int) -> Seq<(int, int)> {
    let n = max(abs(x2 - x1) as int, abs(y2 - y1) as int);
    Seq::new(
        (n + 1) as nat,
        |i: int| (x1 + line_interp(i, x2 - x1, n), y1 + line_interp(i, y2 - y1, n)),
    )
}

/// The pixels of the `w`-by-`h` rectangle anchored at `(x, y)`, row-major.
pub open spec fn rect_trace(x: int, y: int, w: int, h: int) -> Seq<(int, int)> {
    Seq::new((w * h) as nat, |k: int| (x + k % w, y + k / w))
}

/// Canvas coordinates drawing operations hand to the pixel writers stay
/// well inside `i64`, so that offset arithmetic never overflows.
pub open spec fn coord_ok(a: int) -> bool {
    -0x100_0000_0000 <= a <= 0x100_0000_0000
}

/// One write never changes the dimensions or the draw state, and keeps the
/// canvas well-formed.
pub proof fn lemma_put_meta(v: CanvasView, x: int, y: int)
    requires
        v.wf(),
    ensures
        v.put(x, y).width == v.width,
        v.put(x, y).height == v.height,
        v.put(x, y).color == v.color,
        v.put(x, y).mode == v.mode,
        v.put(x, y).pixels.len() == v.pixels.len(),
        v.put(x, y).wf(),
{
    if v.in_bounds(x, y) {
        lemma_idx_in_range(v, x, y);
        assert(v.put(x, y).pixels.len() == v.pixels.len());
    } else {
        assert(v.put(x, y) == v);
    }
}

/// Painting never changes the dimensions or the draw state, and keeps the
/// canvas well-formed.
pub proof fn lemma_paint_meta(v: CanvasView, t: Seq<(int, int)>)
    requires
        v.wf(),
    ensures
        v.paint(t).width == v.width,
        v.paint(t).height == v.height,
        v.paint(t).color == v.color,
        v.paint(t).mode == v.mode,
        v.paint(t).pixels.len() == v.pixels.len(),
        v.paint(t).wf(),
    decreases t.len(),
{
    if t.len() == 0 {
        assert(v.paint(t) == v);
    } else {
        assert(v.paint(t) == v.put(t[0].0, t[0].1).paint(t.drop_first()));
        lemma_put_meta(v, t[0].0, t[0].1);
        lemma_paint_meta(v.put(t[0].0, t[0].1), t.drop_first());
    }
}

/// A one-coordinate trace is a single write.
pub proof fn lemma_paint_single(v: CanvasView, x: int, y: int)
    ensures
        v.paint(seq![(x, y)]) == v.put(x, y),
{
    let t = seq![(x, y)];
    assert(t.drop_first() =~= Seq::<(int, int)>::empty());
    assert(v.put(x, y).paint(t.drop_first()) == v.put(x, y));
    assert(v.paint(t) == v.put(t[0].0, t[0].1).paint(t.drop_first()));
}

/// A two-coordinate trace is two writes in order.
pub proof fn lemma_paint_pair(v: CanvasView, x1: int, y1: int, x2: int, y2: int)
    ensures
        v.paint(seq![(x1, y1), (x2, y2)]) == v.put(x1, y1).put(x2, y2),
{
    let t = seq![(x1, y1), (x2, y2)];
    assert(t.drop_first() =~= seq![(x2, y2)]);
    assert(v.paint(t) == v.put(t[0].0, t[0].1).paint(t.drop_first()));
    lemma_paint_single(v.put(x1, y1), x2, y2);
}

/// Appending one coordinate to a trace paints it last.
pub proof fn lemma_paint_push(v: CanvasView, t: Seq<(int, int)>, x: int, y: int)
    ensures
        v.paint(t.push((x, y))) == v.paint(t).put(x, y),
    decreases t.len(),
{
    let p = (x, y);
    if t.len() == 0 {
        assert(t.push(p).drop_first() =~= Seq::<(int, int)>::empty());
        assert(t.push(p)[0] == p);
        assert(v.paint(t.push(p)) == v.put(x, y).paint(t.push(p).drop_first()));
        assert(v.paint(t) == v);
    } else {
        assert(t.push(p)[0] == t[0]);
        assert(t.push(p).drop_first() =~= t.drop_first().push(p));
        assert(v.paint(t.push(p)) == v.put(t[0].0, t[0].1).paint(t.drop_first().push(p)));
        assert(v.paint(t) == v.put(t[0].0, t[0].1).paint(t.drop_first()));
        lemma_paint_push(v.put(t[0].0, t[0].1), t.drop_first(), x, y);
    }
}

/// Painting a concatenation paints the two traces in turn.
pub proof fn lemma_paint_concat(v: CanvasView, a: Seq<(int, int)>, b: Seq<(int, int)>)
    ensures
        v.paint(a + b) == v.paint(a).paint(b),
    decreases a.len(),
{
    if a.len() == 0 {
        assert(a + b =~= b);
    } else {
        assert((a + b)[0] == a[0]);
        assert((a + b).drop_first() =~= a.drop_first() + b);
        lemma_paint_concat(v.put(a[0].0, a[0].1), a.drop_first(), b);
    }
}

/// Re-applying the color a canvas was already painted under changes
/// nothing: painting keeps the draw state the brush set.
pub proof fn lemma_rebrush(v: CanvasView, c: Color, t: Seq<(int, int)>)
    requires
        v.wf(),
    ensures
        v.brush(c).paint(t).brush(c) == v.brush(c).paint(t),
{
    lemma_paint_meta(v.brush(c), t);
    assert(v.brush(c).paint(t).brush(c) =~= v.brush(c).paint(t));
}

/// The in-memory raster surface: a `width` by `height` grid of pixels in
/// row-major order, plus the current draw color and blend mode.
pub struct Canvas {
    width: u32,
    height: u32,
    pixels: Vec<Color>,
    color: Color,
    mode: BlendMode,
}

impl View for Canvas {
    type V = CanvasView;

    closed spec fn view(&self) -> CanvasView {
        CanvasView {
            width: self.width as int,
            height: self.height as int,
            pixels: self.pixels@,
            color: self.color,
            mode: self.mode,
        }
    }
}

impl Canvas {
    /// A fresh canvas with every pixel set to `background`, which also
    /// becomes the initial draw color.
    pub fn new(width: u32, height: u32, background: Color) -> (c: Canvas)
        requires
            width as int * height as int <= usize::MAX as int,
        ensures
            c@.wf(),
            c@.width == width as int,
            c@.height == height as int,
            c@.pixels =~= Seq::new((width as int * height as int) as nat, |i: int| background),
            c@.color == background,
            c@.mode == blend_mode_of(background),
    {
        proof {
            assert(width as int * height as int >= 0) by (nonlinear_arith)
                requires
                    width as int >= 0,
                    height as int >= 0,
            ;
        }
        let n: usize = (width as usize) * (height as usize);
        let mut pixels: Vec<Color> = Vec::new();
        while pixels.len() < n
            invariant
                pixels@.len() <= n,
                forall|i: int| 0 <= i < pixels@.len() ==> pixels@[i] == background,
            decreases n - pixels@.len(),
        {
            pixels.push(background);
        }
        let mode = if background.a == 255 {
            BlendMode::Overwrite
        } else {
            BlendMode::Blend
        };
        Canvas { width, height, pixels, color: background, mode }
    }

    pub fn width(&self) -> (w: u32)
        ensures
            w as int == self@.width,
    {
        self.width
    }

    pub fn height(&self) -> (h: u32)
        ensures
            h as int == self@.height,
    {
        self.height
    }

    /// Reads one pixel back; for inspection, never used by the drawing
    /// operations themselves.
    pub fn pixel_at(&self, x: u32, y: u32) -> (c: Color)
        requires
            self@.wf(),
            self@.in_bounds(x as int, y as int),
        ensures
            c == self@.pix(x as int, y as int),
    {
        proof {
            lemma_idx_in_range(self@, x as int, y as int);
        }
        let i: usize = (y as usize) * (self.width as usize) + (x as usize);
        self.pixels[i]
    }

    /// Sets the draw color used by subsequent writes.
    pub fn set_draw_color(&mut self, c: Color)
        ensures
            final(self)@ == (CanvasView { color: c, ..old(self)@ }),
    {
        self.color = c;
    }

    /// Sets the blend mode used by subsequent writes.
    pub fn set_blend_mode(&mut self, m: BlendMode)
        ensures
            final(self)@ == (CanvasView { mode: m, ..old(self)@ }),
    {
        self.mode = m;
    }

    /// Applies `c` as the draw color together with the blend mode its
    /// alpha selects, in that order (mode first, as every drawing call of
    /// this crate does).
    pub(crate) fn apply_brush(&mut self, c: Color)
        ensures
            final(self)@ == old(self)@.brush(c),
    {
        let m = if c.a == 255 {
            BlendMode::Overwrite
        } else {
            BlendMode::Blend
        };
        self.set_blend_mode(m);
        self.set_draw_color(c);
    }

    /// Writes one pixel at `(x, y)` with the current draw state, clipped
    /// to the canvas bounds.
    pub(crate) fn put_px(&mut self, x: i64, y: i64)
        requires
            old(self)@.wf(),
        ensures
            final(self)@ == old(self)@.put(x as int, y as int),
            final(self)@.wf(),
    {
        if x >= 0 && y >= 0 && (x as u64) < (self.width as u64) && (y as u64)
            < (self.height as u64) {
            proof {
                lemma_idx_in_range(self@, x as int, y as int);
            }
            let i: usize = (y as usize) * (self.width as usize) + (x as usize);
            let blended = blend_px(self.pixels[i], self.color, self.mode);
            self.pixels[i] = blended;
        }
    }

    /// Writes one pixel at `p` with the current draw state.
    pub fn draw_point(&mut self, p: Point) -> (r: Result<(), DrawError>)
        requires
            old(self)@.wf(),
        ensures
            final(self)@ == old(self)@.put(p.x as int, p.y as int),
            final(self)@.wf(),
            r is Ok,
    {
        self.put_px(p.x as i64, p.y as i64);
        Ok(())
    }

    /// Draws the segment between `a` and `b`, both endpoints included.
    pub fn draw_line(&mut self, a: Point, b: Point) -> (r: Result<(), DrawError>)
        requires
            old(self)@.wf(),
        ensures
            final(self)@ == old(self)@.paint(
                line_trace(a.x as int, a.y as int, b.x as int, b.y as int),
            ),
            final(self)@.wf(),
            r is Ok,
    {
        self.line_px(a.x as i64, a.y as i64, b.x as i64, b.y as i64);
        Ok(())
    }

    /// Fills the `w`-by-`h` rectangle anchored at `(x, y)`.
    pub fn fill_rect(&mut self, x: i32, y: i32, w: u32, h: u32) -> (r: Result<(), DrawError>)
        requires
            old(self)@.wf(),
            w >= 1,
            h >= 1,
        ensures
            final(self)@ == old(self)@.paint(rect_trace(x as int, y as int, w as int, h as int)),
            final(self)@.wf(),
            r is Ok,
    {
        self.fill_rect_px(x as i64, y as i64, w as u64, h as u64);
        Ok(())
    }

    /// Segment drawing on wide coordinates; the internal form every
    /// operation of the crate uses, so that offsets from `i32` inputs
    /// never overflow.
    pub(crate) fn line_px(&mut self, x1: i64, y1: i64, x2: i64, y2: i64)
        requires
            old(self)@.wf(),
            coord_ok(x1 as int),
            coord_ok(y1 as int),
            coord_ok(x2 as int),
            coord_ok(y2 as int),
        ensures
            final(self)@ == old(self)@.paint(
                line_trace(x1 as int, y1 as int, x2 as int, y2 as int),
            ),
            final(self)@.wf(),
    {
        let ghost t = line_trace(x1 as int, y1 as int, x2 as int, y2 as int);
        let dx = x2 - x1;
        let dy = y2 - y1;
        let adx = if dx >= 0 {
            dx
        } else {
            -dx
        };
        let ady = if dy >= 0 {
            dy
        } else {
            -dy
        };
        let n = if adx >= ady {
            adx
        } else {
            ady
        };
        assert(n == max(abs(x2 as int - x1 as int) as int, abs(y2 as int - y1 as int) as int));
        assert(t.len() == n + 1);
        let mut i: i64 = 0;
        while i <= n
            invariant
                self@.wf(),
                0 <= i <= n + 1,
                coord_ok(x1 as int),
                coord_ok(y1 as int),
                dx == x2 - x1,
                dy == y2 - y1,
                abs(dx as int) <= n,
                abs(dy as int) <= n,
                0 <= n <= 0x200_0000_0000,
                t == line_trace(x1 as int, y1 as int, x2 as int, y2 as int),
                t.len() == n + 1,
                self@ == old(self)@.paint(t.subrange(0, i as int)),
            decreases n - i + 1,
        {
            let qx = interp_px(i, dx, n);
            let qy = interp_px(i, dy, n);
            let ghost prev = self@;
            self.put_px(x1 + qx, y1 + qy);
            proof {
                assert(t[i as int] == ((x1 + qx) as int, (y1 + qy) as int));
                assert(t.subrange(0, i + 1) =~= t.subrange(0, i as int).push(t[i as int]));
                lemma_paint_push(old(self)@, t.subrange(0, i as int), (x1 + qx) as int, (y1
                    + qy) as int);
            }
            i = i + 1;
        }
        proof {
            assert(t.subrange(0, t.len() as int) =~= t);
        }
    }

    /// Rectangle filling on wide coordinates, row-major.
    pub(crate) fn fill_rect_px(&mut self, x: i64, y: i64, w: u64, h: u64)
        requires
            old(self)@.wf(),
            coord_ok(x as int),
            coord_ok(y as int),
            1 <= w <= 0x100_0000_0000,
            1 <= h <= 0x100_0000_0000,
        ensures
            final(self)@ == old(self)@.paint(rect_trace(x as int, y as int, w as int, h as int)),
            final(self)@.wf(),
    {
        let ghost t = rect_trace(x as int, y as int, w as int, h as int);
        proof {
            assert(w as int * h as int >= w as int * 1) by (nonlinear_arith)
                requires
                    w as int >= 1,
                    h as int >= 1,
            ;
            assert(t.len() == w as int * h as int);
        }
        let mut row: u64 = 0;
        while row < h
            invariant
                self@.wf(),
                0 <= row <= h,
                coord_ok(x as int),
                coord_ok(y as int),
                1 <= w <= 0x100_0000_0000,
                1 <= h <= 0x100_0000_0000,
                t == rect_trace(x as int, y as int, w as int, h as int),
                t.len() == w as int * h as int,
                self@ == old(self)@.paint(t.subrange(0, row as int * w as int)),
            decreases h - row,
        {
            let mut col: u64 = 0;
            proof {
                assert((row as int + 1) * w as int <= h as int * w as int
                    && row as int * w as int + w as int == (row as int + 1) * w as int
                    && h as int * w as int == w as int * h as int) by (nonlinear_arith)
                    requires
                        0 <= row as int && (row as int) < h as int,
                        w as int >= 1,
                ;
            }
            while col < w
                invariant
                    self@.wf(),
                    0 <= col <= w,
                    0 <= row < h,
                    coord_ok(x as int),
                    coord_ok(y as int),
                    1 <= w <= 0x100_0000_0000,
                    1 <= h <= 0x100_0000_0000,
                    t == rect_trace(x as int, y as int, w as int, h as int),
                    t.len() == w as int * h as int,
                    row as int * w as int + w as int <= t.len(),
                    self@ == old(self)@.paint(t.subrange(0, row as int * w as int + col as int)),
                decreases w - col,
            {
                let ghost k = row as int * w as int + col as int;
                proof {
                    lemma_fundamental_div_mod_converse(k, w as int, row as int, col as int);
                    assert(t[k] == ((x + col) as int, (y + row) as int));
                }
                self.put_px(x + col as i64, y + row as i64);
                proof {
                    assert(t.subrange(0, k + 1) =~= t.subrange(0, k).push(t[k]));
                    lemma_paint_push(old(self)@, t.subrange(0, k), (x + col as i64) as int, (y
                        + row as i64) as int);
                }
                col = col + 1;
            }
            row = row + 1;
        }
        proof {
            assert(h as int * w as int == w as int * h as int) by (nonlinear_arith);
            assert(t.subrange(0, t.len() as int) =~= t);
        }
    }
}

/// An in-bounds coordinate pair indexes inside the pixel sequence.
pub proof fn lemma_idx_in_range(v: CanvasView, x: int, y: int)
    requires
        v.wf(),
        v.in_bounds(x, y),
    ensures
        0 <= v.idx(x, y) < v.pixels.len(),
        v.idx(x, y) < v.width * v.height,
        0 <= y * v.width,
{
    assert(0 <= y * v.width && 0 <= y * v.width + x && y * v.width + x < v.width * v.height)
        by (nonlinear_arith)
        requires
            0 <= x < v.width,
            0 <= y < v.height,
    ;
}

/// Executable form of [`line_interp`]; the step along one axis after `i`
/// of `n` steps of a segment with extent `d` on that axis.
fn interp_px(i: i64, d: i64, n: i64) -> (q: i64)
    requires
        0 <= i <= n,
        abs(d as int) <= n,
        n <= 0x200_0000_0000,
    ensures
        q == line_interp(i as int, d as int, n as int),
        abs(q as int) <= abs(d as int),
{
    if n == 0 {
        return 0;
    }
    proof {
        assert(-0x8_0000_0000_0000_0000_0000 <= 2 * (i as int) * (d as int)
            <= 0x8_0000_0000_0000_0000_0000) by (nonlinear_arith)
            requires
                0 <= i as int <= n as int,
                abs(d as int) <= n as int,
                n as int <= 0x200_0000_0000,
        ;
    }
    let num: i128 = 2 * (i as i128) * (d as i128) + (n as i128);
    let den: i128 = 2 * (n as i128);
    let q = floor_div(num, den);
    proof {
        let ii = i as int;
        let dd = d as int;
        let nn = n as int;
        if dd >= 0 {
            assert(0 <= 2 * ii * dd && 2 * ii * dd <= 2 * nn * dd) by (nonlinear_arith)
                requires
                    0 <= ii <= nn,
                    dd >= 0,
            ;
            vstd::arithmetic::div_mod::lemma_div_is_ordered(nn, 2 * ii * dd + nn, 2 * nn);
            vstd::arithmetic::div_mod::lemma_div_is_ordered(
                2 * ii * dd + nn,
                2 * nn * dd + nn,
                2 * nn,
            );
            assert(nn / (2 * nn) == 0) by {
                vstd::arithmetic::div_mod::lemma_basic_div(nn, 2 * nn);
            }
            assert((2 * nn * dd + nn) / (2 * nn) == dd) by {
                lemma_fundamental_div_mod_converse(2 * nn * dd + nn, 2 * nn, dd, nn);
            }
        } else {
            assert(2 * nn * dd + nn <= 2 * ii * dd + nn && 2 * ii * dd <= 0) by (nonlinear_arith)
                requires
                    0 <= ii <= nn,
                    dd < 0,
            ;
            vstd::arithmetic::div_mod::lemma_div_is_ordered(
                2 * nn * dd + nn,
                2 * ii * dd + nn,
                2 * nn,
            );
            vstd::arithmetic::div_mod::lemma_div_is_ordered(2 * ii * dd + nn, nn, 2 * nn);
            assert(nn / (2 * nn) == 0) by {
                vstd::arithmetic::div_mod::lemma_basic_div(nn, 2 * nn);
            }
            assert((2 * nn * dd + nn) / (2 * nn) == dd) by {
                lemma_fundamental_div_mod_converse(2 * nn * dd + nn, 2 * nn, dd, nn);
            }
        }
    }
    q as i64
}

} // verus!
