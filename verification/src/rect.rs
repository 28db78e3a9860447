//! Axis-aligned boxes: the filled box and the rectangle outline.
//!
//! Both accept their two corners in any order and normalize them; both
//! collapse to a pixel, a vertical line or a horizontal line when the
//! corners share a coordinate.

use crate::canvas::{lemma_paint_concat, line_trace, rect_trace, Canvas};
use crate::types::{Color, DrawError, Point};
use vstd::math::max;
use vstd::math::min;
use vstd::prelude::*;

verus! {

/// The pixels of the filled box with corners `a` and `b`: one pixel, a
/// line, or the full rectangle between the normalized corners (inclusive
/// on every side), row-major.
pub open spec fn box_trace(a: Point, b: Point) -> Seq<(int, int)> {
    if a.x == b.x && a.y == b.y {
        seq![(a.x as int, a.y as int)]
    } else if a.x == b.x {
        line_trace(a.x as int, a.y as int, a.x as int, b.y as int)
    } else if a.y == b.y {
        line_trace(a.x as int, a.y as int, b.x as int, a.y as int)
    } else {
        let x1 = min(a.x as int, b.x as int);
        let x2 = max(a.x as int, b.x as int);
        let y1 = min(a.y as int, b.y as int);
        let y2 = max(a.y as int, b.y as int);
        rect_trace(x1, y1, x2 - x1 + 1, y2 - y1 + 1)
    }
}

/// The pixels of the rectangle outline with corners `a` and `b`: the same
/// degenerate cases as the filled box, else the top and bottom rows and
/// (when at least one row lies strictly between them) the two side
/// columns, corner pixels drawn once.
pub open spec fn rectangle_trace(a: Point, b: Point) -> Seq<(int, int)> {
    if a.x == b.x && a.y == b.y {
        seq![(a.x as int, a.y as int)]
    } else if a.x == b.x {
        line_trace(a.x as int, a.y as int, a.x as int, b.y as int)
    } else if a.y == b.y {
        line_trace(a.x as int, a.y as int, b.x as int, a.y as int)
    } else {
        let x1 = min(a.x as int, b.x as int);
        let x2 = max(a.x as int, b.x as int);
        let y1 = min(a.y as int, b.y as int);
        let y2 = max(a.y as int, b.y as int);
        let across = line_trace(x1, y1, x2, y1) + line_trace(x1, y2, x2, y2);
        if y2 - y1 >= 2 {
            across + line_trace(x1, y1 + 1, x1, y2 - 1) + line_trace(x2, y1 + 1, x2, y2 - 1)
        } else {
            across
        }
    }
}

impl Canvas {
    /// Fills the axis-aligned box whose opposite corners are `a` and `b`,
    /// in either order, all four sides included.
    pub fn filled_box(&mut self, a: Point, b: Point, color: Color) -> (r: Result<(), DrawError>)
        requires
            old(self)@.wf(),
        ensures
            final(self)@ == old(self)@.brush(color).paint(box_trace(a, b)),
            final(self)@.wf(),
            r is Ok,
    {
        if a.x == b.x {
            if a.y == b.y {
                proof {
                    crate::canvas::lemma_paint_single(
                        old(self)@.brush(color),
                        a.x as int,
                        a.y as int,
                    );
                }
                return self.pixel_colored(a, color);
            } else {
                return self.vline_colored(a.x, a.y, b.y, color);
            }
        } else if a.y == b.y {
            return self.hline_colored(a.x, b.x, a.y, color);
        }
        let x1 = if a.x < b.x {
            a.x
        } else {
            b.x
        };
        let x2 = if a.x < b.x {
            b.x
        } else {
            a.x
        };
        let y1 = if a.y < b.y {
            a.y
        } else {
            b.y
        };
        let y2 = if a.y < b.y {
            b.y
        } else {
            a.y
        };
        self.apply_brush(color);
        let w = (x2 as i64 - x1 as i64 + 1) as u64;
        let h = (y2 as i64 - y1 as i64 + 1) as u64;
        self.fill_rect_px(x1 as i64, y1 as i64, w, h);
        Ok(())
    }

    /// Draws the outline of the axis-aligned box whose opposite corners
    /// are `a` and `b`, in either order.
    pub fn rectangle(&mut self, a: Point, b: Point, color: Color) -> (r: Result<(), DrawError>)
        requires
            old(self)@.wf(),
        ensures
            final(self)@ == old(self)@.brush(color).paint(rectangle_trace(a, b)),
            final(self)@.wf(),
            r is Ok,
    {
        if a.x == b.x {
            if a.y == b.y {
                proof {
                    crate::canvas::lemma_paint_single(
                        old(self)@.brush(color),
                        a.x as int,
                        a.y as int,
                    );
                }
                return self.pixel_colored(a, color);
            } else {
                return self.vline_colored(a.x, a.y, b.y, color);
            }
        } else if a.y == b.y {
            return self.hline_colored(a.x, b.x, a.y, color);
        }
        let x1 = if a.x < b.x {
            a.x
        } else {
            b.x
        };
        let x2 = if a.x < b.x {
            b.x
        } else {
            a.x
        };
        let y1 = if a.y < b.y {
            a.y
        } else {
            b.y
        };
        let y2 = if a.y < b.y {
            b.y
        } else {
            a.y
        };
        let ghost base = old(self)@.brush(color);
        let ghost top = line_trace(x1 as int, y1 as int, x2 as int, y1 as int);
        let ghost bottom = line_trace(x1 as int, y2 as int, x2 as int, y2 as int);
        self.apply_brush(color);
        self.hline(x1, x2, y1)?;
        self.hline(x1, x2, y2)?;
        proof {
            lemma_paint_concat(base, top, bottom);
        }
        if (y2 as i64) - (y1 as i64) >= 2 {
            let ghost left = line_trace(x1 as int, y1 as int + 1, x1 as int, y2 as int - 1);
            let ghost right = line_trace(x2 as int, y1 as int + 1, x2 as int, y2 as int - 1);
            self.vline(x1, y1 + 1, y2 - 1)?;
            self.vline(x2, y1 + 1, y2 - 1)?;
            proof {
                lemma_paint_concat(base, top + bottom, left);
                lemma_paint_concat(base, top + bottom + left, right);
            }
        }
        Ok(())
    }
}

} // verus!
