//! The primitive drawing operations: single pixels and straight lines,
//! each in an uncolored form (drawing with the canvas's current state) and
//! a colored form that first applies its color and the blend mode the
//! color's alpha selects.

use crate::canvas::{line_trace, Canvas};
use crate::intmath::{euclid_mod, floor_div};
use crate::types::{Color, DrawError, Point};
use vstd::prelude::*;

verus! {

/// The alpha channel scaled by `weight`, a fixed-point fraction over 256:
/// `(a * weight) >> 8`, saturated at 255 from above and reduced to its low
/// eight bits otherwise.
pub open spec fn weighted_alpha(a: int, weight: int) -> int {
    let w = (a * weight) / 256;
    if w > 255 {
        255
    } else {
        w % 256
    }
}

/// `c` with its alpha scaled by `weight`; the color channels are kept.
pub open spec fn weighted_color(c: Color, weight: int) -> Color {
    Color { r: c.r, g: c.g, b: c.b, a: weighted_alpha(c.a as int, weight as int) as u8 }
}

/// Executable form of [`weighted_alpha`].
fn weighted_alpha_px(a: u8, weight: i32) -> (r: u8)
    ensures
        r as int == weighted_alpha(a as int, weight as int),
{
    proof {
        assert(-0x100_0000_0000 <= a as int * weight as int <= 0x100_0000_0000)
            by (nonlinear_arith)
            requires
                0 <= a as int <= 255,
                -0x8000_0000 <= weight as int <= 0x8000_0000,
        ;
    }
    let t: i128 = (a as i128) * (weight as i128);
    let w = floor_div(t, 256);
    if w > 255 {
        255
    } else {
        let m = euclid_mod(w, 256);
        m as u8
    }
}

impl Canvas {
    /// Writes one pixel with the canvas's current color and blend mode.
    pub fn pixel(&mut self, p: Point) -> (r: Result<(), DrawError>)
        requires
            old(self)@.wf(),
        ensures
            final(self)@ == old(self)@.put(p.x as int, p.y as int),
            final(self)@.wf(),
            r is Ok,
    {
        self.draw_point(p)
    }

    /// Applies `color` (and the blend mode its alpha selects), then writes
    /// one pixel.
    pub fn pixel_colored(&mut self, p: Point, color: Color) -> (r: Result<(), DrawError>)
        requires
            old(self)@.wf(),
        ensures
            final(self)@ == old(self)@.brush(color).put(p.x as int, p.y as int),
            final(self)@.wf(),
            r is Ok,
    {
        self.apply_brush(color);
        self.draw_point(p)
    }

    /// Writes one pixel with `color`'s alpha scaled down by `weight`, a
    /// fixed-point fraction over 256; used to express partial coverage.
    pub fn pixel_weighted(&mut self, p: Point, color: Color, weight: i32) -> (r: Result<
        (),
        DrawError,
    >)
        requires
            old(self)@.wf(),
        ensures
            final(self)@ == old(self)@.brush(weighted_color(color, weight as int)).put(
                p.x as int,
                p.y as int,
            ),
            final(self)@.wf(),
            r is Ok,
    {
        let a = weighted_alpha_px(color.a, weight);
        let scaled = Color { r: color.r, g: color.g, b: color.b, a };
        assert(scaled == weighted_color(color, weight as int));
        self.pixel_colored(p, scaled)
    }

    /// Draws the horizontal run from `x1` to `x2` (either order, both ends
    /// included) on row `y`, with the current draw state.
    pub fn hline(&mut self, x1: i32, x2: i32, y: i32) -> (r: Result<(), DrawError>)
        requires
            old(self)@.wf(),
        ensures
            final(self)@ == old(self)@.paint(
                line_trace(x1 as int, y as int, x2 as int, y as int),
            ),
            final(self)@.wf(),
            r is Ok,
    {
        self.draw_line(Point { x: x1, y }, Point { x: x2, y })
    }

    /// [`Self::hline`] with `color` applied first.
    pub fn hline_colored(&mut self, x1: i32, x2: i32, y: i32, color: Color) -> (r: Result<
        (),
        DrawError,
    >)
        requires
            old(self)@.wf(),
        ensures
            final(self)@ == old(self)@.brush(color).paint(
                line_trace(x1 as int, y as int, x2 as int, y as int),
            ),
            final(self)@.wf(),
            r is Ok,
    {
        self.apply_brush(color);
        self.draw_line(Point { x: x1, y }, Point { x: x2, y })
    }

    /// Draws the vertical run from `y1` to `y2` (either order, both ends
    /// included) on column `x`, with the current draw state.
    pub fn vline(&mut self, x: i32, y1: i32, y2: i32) -> (r: Result<(), DrawError>)
        requires
            old(self)@.wf(),
        ensures
            final(self)@ == old(self)@.paint(
                line_trace(x as int, y1 as int, x as int, y2 as int),
            ),
            final(self)@.wf(),
            r is Ok,
    {
        self.draw_line(Point { x, y: y1 }, Point { x, y: y2 })
    }

    /// [`Self::vline`] with `color` applied first.
    pub fn vline_colored(&mut self, x: i32, y1: i32, y2: i32, color: Color) -> (r: Result<
        (),
        DrawError,
    >)
        requires
            old(self)@.wf(),
        ensures
            final(self)@ == old(self)@.brush(color).paint(
                line_trace(x as int, y1 as int, x as int, y2 as int),
            ),
            final(self)@.wf(),
            r is Ok,
    {
        self.apply_brush(color);
        self.draw_line(Point { x, y: y1 }, Point { x, y: y2 })
    }

    /// Applies `color`, then draws the segment from `start` to `end`.
    pub fn line(&mut self, start: Point, end: Point, color: Color) -> (r: Result<(), DrawError>)
        requires
            old(self)@.wf(),
        ensures
            final(self)@ == old(self)@.brush(color).paint(
                line_trace(start.x as int, start.y as int, end.x as int, end.y as int),
            ),
            final(self)@.wf(),
            r is Ok,
    {
        self.apply_brush(color);
        self.draw_line(start, end)
    }
}

} // verus!
