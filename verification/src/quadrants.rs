//! The quadrant mirror: writes one generated circle/ellipse offset into
//! all of its sign-symmetric positions around a center, either as single
//! pixels (outline mode) or as vertical spans connecting the mirrored rows
//! (filled mode).

use crate::canvas::{
    lemma_paint_concat, lemma_paint_pair, lemma_paint_single, line_trace, Canvas,
};
use crate::types::{DrawError, Point};
use vstd::prelude::*;

verus! {

/// The pixels the quadrant mirror writes for center `p` and nonnegative
/// offset `dp`: the center itself for a zero offset; the two vertically
/// mirrored positions (or the vertical span between them, when filled) for
/// a zero horizontal offset; else the four mirrored positions (or the two
/// vertical spans through them, when filled).
pub open spec fn quadrants_trace(p: Point, dp: Point, filled: bool) -> Seq<(int, int)> {
    quadrants_trace_xy(p.x as int, p.y as int, dp.x as int, dp.y as int, filled)
}

/// [`quadrants_trace`] over plain coordinates.
pub open spec fn quadrants_trace_xy(px: int, py: int, dx: int, dy: int, filled: bool) -> Seq<
    (int, int),
> {
    if dx == 0 {
        if dy == 0 {
            seq![(px, py)]
        } else if filled {
            line_trace(px, py - dy, px, py + dy)
        } else {
            seq![(px, py + dy), (px, py - dy)]
        }
    } else if filled {
        line_trace(px + dx, py - dy, px + dx, py + dy) + line_trace(
            px - dx,
            py - dy,
            px - dx,
            py + dy,
        )
    } else {
        seq![(px + dx, py + dy), (px - dx, py + dy), (px + dx, py - dy), (px - dx, py - dy)]
    }
}

impl Canvas {
    /// Writes the offset `dp` mirrored into all sign-symmetric positions
    /// around `p`, with the current draw state; filled mode draws vertical
    /// spans instead of single pixels.
    pub fn draw_quadrants(&mut self, p: Point, dp: Point, filled: bool) -> (r: Result<
        (),
        DrawError,
    >)
        requires
            old(self)@.wf(),
        ensures
            final(self)@ == old(self)@.paint(quadrants_trace(p, dp, filled)),
            final(self)@.wf(),
            r is Ok,
    {
        let px = p.x as i64;
        let py = p.y as i64;
        let dx = dp.x as i64;
        let dy = dp.y as i64;
        if dx == 0 {
            if dy == 0 {
                proof {
                    lemma_paint_single(old(self)@, px as int, py as int);
                }
                self.put_px(px, py);
            } else if filled {
                self.line_px(px, py - dy, px, py + dy);
            } else {
                proof {
                    lemma_paint_pair(old(self)@, px as int, (py + dy) as int, px as int, (py
                        - dy) as int);
                }
                self.put_px(px, py + dy);
                self.put_px(px, py - dy);
            }
        } else if filled {
            self.line_px(px + dx, py - dy, px + dx, py + dy);
            self.line_px(px - dx, py - dy, px - dx, py + dy);
            proof {
                lemma_paint_concat(
                    old(self)@,
                    line_trace((px + dx) as int, (py - dy) as int, (px + dx) as int, (py
                        + dy) as int),
                    line_trace((px - dx) as int, (py - dy) as int, (px - dx) as int, (py
                        + dy) as int),
                );
            }
        } else {
            let ghost t = quadrants_trace(p, dp, filled);
            let ghost front = seq![
                ((px + dx) as int, (py + dy) as int),
                ((px - dx) as int, (py + dy) as int),
            ];
            let ghost back = seq![
                ((px + dx) as int, (py - dy) as int),
                ((px - dx) as int, (py - dy) as int),
            ];
            proof {
                assert(t =~= front + back);
                lemma_paint_concat(old(self)@, front, back);
                lemma_paint_pair(old(self)@, (px + dx) as int, (py + dy) as int, (px
                    - dx) as int, (py + dy) as int);
                lemma_paint_pair(
                    old(self)@.paint(front),
                    (px + dx) as int,
                    (py - dy) as int,
                    (px - dx) as int,
                    (py - dy) as int,
                );
            }
            self.put_px(px + dx, py + dy);
            self.put_px(px - dx, py + dy);
            self.put_px(px + dx, py - dy);
            self.put_px(px - dx, py - dy);
        }
        Ok(())
    }
}

} // verus!
