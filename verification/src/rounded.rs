//! Rounded rectangles: the outline (four quarter-arcs joined by straight
//! segments) and the filled rounded box (a circle-quadrant sweep whose
//! horizontal spans are widened by the rectangle's flat extents).
//!
//! Both normalize their corners, fall back to the plain rectangle or box
//! when the radius is at most one, and clamp the radius independently to
//! half the width and half the height, applying the smaller result.

use crate::arc::arc_trace_xy;
use crate::canvas::{lemma_paint_concat, lemma_paint_single, lemma_rebrush, line_trace, Canvas};
use crate::rect::{box_trace, rectangle_trace};
use crate::types::{Color, DrawError, Point};
use vstd::math::max;
use vstd::math::min;
use vstd::prelude::*;

verus! {

/// The corner radius clamped so that twice of it exceeds neither the
/// width nor the height.
pub open spec fn clamp_rad(radius: int, w: int, h: int) -> int {
    let r1 = if 2 * radius > w {
        w / 2
    } else {
        radius
    };
    if 2 * r1 > h {
        h / 2
    } else {
        r1
    }
}

/// `2 * r <= w` bounds `r` by `w / 2`, so the clamped radius is at most
/// half of either dimension.
proof fn lemma_clamp_rad(radius: int, w: int, h: int)
    requires
        0 <= radius,
        1 <= w,
        1 <= h,
    ensures
        0 <= clamp_rad(radius, w, h) <= radius,
        2 * clamp_rad(radius, w, h) <= w + 1,
        2 * clamp_rad(radius, w, h) <= h + 1,
        clamp_rad(radius, w, h) <= w,
        clamp_rad(radius, w, h) <= h,
{
    vstd::arithmetic::div_mod::lemma_div_pos_is_pos(w, 2);
    vstd::arithmetic::div_mod::lemma_div_pos_is_pos(h, 2);
    vstd::arithmetic::div_mod::lemma_fundamental_div_mod(w, 2);
    vstd::arithmetic::div_mod::lemma_fundamental_div_mod(h, 2);
}

/// The straight connecting segments of the rounded-rectangle outline:
/// two horizontal runs along the top and bottom sides (when the rounded
/// corners have not crossed horizontally) and two vertical runs along the
/// left and right sides (when they have not crossed vertically).
pub open spec fn rounded_sides_trace(
    x1: int,
    y1: int,
    x2: int,
    y2: int,
    rad: int,
) -> Seq<(int, int)> {
    let xx1 = x1 + rad;
    let xx2 = x2 - rad;
    let yy1 = y1 + rad;
    let yy2 = y2 - rad;
    (if xx1 <= xx2 {
        line_trace(xx1, y1, xx2, y1) + line_trace(xx1, y2, xx2, y2)
    } else {
        Seq::empty()
    }) + (if yy1 <= yy2 {
        line_trace(x1, yy1, x1, yy2) + line_trace(x2, yy1, x2, yy2)
    } else {
        Seq::empty()
    })
}

/// The pixels of the rounded-rectangle outline with corners `a` and `b`:
/// the plain rectangle for a radius of at most one, the degenerate point
/// or line for equal coordinates, else the four quarter-arcs at the
/// corners (offset inward by the clamped radius) followed by the straight
/// connecting segments.
pub open spec fn rounded_rect_trace(a: Point, b: Point, radius: int) -> Seq<(int, int)> {
    if radius <= 1 {
        rectangle_trace(a, b)
    } else if a.x == b.x && a.y == b.y {
        seq![(a.x as int, a.y as int)]
    } else if a.x == b.x {
        line_trace(a.x as int, a.y as int, a.x as int, b.y as int)
    } else if a.y == b.y {
        line_trace(a.x as int, a.y as int, b.x as int, a.y as int)
    } else {
        let x1 = min(a.x as int, b.x as int);
        let x2 = max(a.x as int, b.x as int);
        let y1 = min(a.y as int, b.y as int);
        let y2 = max(a.y as int, b.y as int);
        let rad = clamp_rad(radius, x2 - x1, y2 - y1);
        let xx1 = x1 + rad;
        let xx2 = x2 - rad;
        let yy1 = y1 + rad;
        let yy2 = y2 - rad;
        arc_trace_xy(xx1, yy1, rad, 180, 270) + arc_trace_xy(xx2, yy1, rad, 270, 360)
            + arc_trace_xy(xx1, yy2, rad, 90, 180) + arc_trace_xy(xx2, yy2, rad, 0, 90)
            + rounded_sides_trace(x1, y1, x2, y2, rad)
    }
}

/// The constants of one rounded-box sweep: the top-left corner circle
/// center and the rectangle's flat extents beyond the four quarter
/// circles.
pub ghost struct RBoxCtx {
    pub x: int,
    pub y: int,
    pub dx: int,
    pub dy: int,
}

/// The spans one sweep step draws: when the row offset `cy` is new, the
/// two mirrored rows through the circle points (or the single center row
/// at offset zero), and when the column offset `cx` is new and distinct
/// from `cy`, the same for the transposed offsets — each span widened to
/// the right and downward by the flat extents.
pub open spec fn rbox_step(c: RBoxCtx, cx: int, cy: int, ocx: int, ocy: int) -> Seq<(int, int)> {
    let f1 = if ocy != cy {
        if cy > 0 {
            line_trace(c.x - cx, c.y + cy + c.dy, c.x + cx + c.dx, c.y + cy + c.dy) + line_trace(
                c.x - cx,
                c.y - cy,
                c.x + cx + c.dx,
                c.y - cy,
            )
        } else {
            line_trace(c.x - cx, c.y, c.x + cx + c.dx, c.y)
        }
    } else {
        Seq::empty()
    };
    let f2 = if ocx != cx {
        if cx != cy {
            if cx > 0 {
                line_trace(c.x - cy, c.y - cx, c.x + cy + c.dx, c.y - cx) + line_trace(
                    c.x - cy,
                    c.y + cx + c.dy,
                    c.x + cy + c.dx,
                    c.y + cx + c.dy,
                )
            } else {
                line_trace(c.x - cy, c.y, c.x + cy + c.dx, c.y)
            }
        } else {
            Seq::empty()
        }
    } else {
        Seq::empty()
    };
    f1 + f2
}

/// The pixels of the filled rounded-box sweep from state
/// `(cx, cy, ocx, ocy, df, de, dse)`: one step's spans, then the rest
/// with the standard midpoint-circle update, remembering the offsets
/// already drawn so each row is emitted once.
pub open spec fn rbox_gen(
    c: RBoxCtx,
    cx: int,
    cy: int,
    ocx: int,
    ocy: int,
    df: int,
    de: int,
    dse: int,
) -> Seq<(int, int)>
    decreases max(cy - cx + 1, 0),
{
    if cx > cy {
        Seq::empty()
    } else {
        let step = rbox_step(c, cx, cy, ocx, ocy);
        let ocy2 = if ocy != cy {
            cy
        } else {
            ocy
        };
        let ocx2 = if ocx != cx {
            cx
        } else {
            ocx
        };
        if df < 0 {
            step + rbox_gen(c, cx + 1, cy, ocx2, ocy2, df + de, de + 2, dse + 2)
        } else {
            step + rbox_gen(c, cx + 1, cy - 1, ocx2, ocy2, df + dse, de + 2, dse + 4)
        }
    }
}

/// The pixels of the filled rounded box with corners `a` and `b`: the
/// plain filled box for a radius of at most one, the degenerate point or
/// line for equal coordinates, else the circle-quadrant sweep with the
/// clamped radius.
pub open spec fn rounded_box_trace(a: Point, b: Point, radius: int) -> Seq<(int, int)> {
    if radius <= 1 {
        box_trace(a, b)
    } else if a.x == b.x && a.y == b.y {
        seq![(a.x as int, a.y as int)]
    } else if a.x == b.x {
        line_trace(a.x as int, a.y as int, a.x as int, b.y as int)
    } else if a.y == b.y {
        line_trace(a.x as int, a.y as int, b.x as int, a.y as int)
    } else {
        let x1 = min(a.x as int, b.x as int);
        let x2 = max(a.x as int, b.x as int);
        let y1 = min(a.y as int, b.y as int);
        let y2 = max(a.y as int, b.y as int);
        let rad = clamp_rad(radius, x2 - x1, y2 - y1);
        let c = RBoxCtx {
            x: x1 + rad,
            y: y1 + rad,
            dx: x2 - x1 - 2 * rad,
            dy: y2 - y1 - 2 * rad,
        };
        rbox_gen(c, 0, rad, -1, -1, 1 - rad, 3, 5 - 2 * rad)
    }
}

impl Canvas {
    /// Writes the spans of one rounded-box sweep step.
    fn rbox_step_px(
        &mut self,
        x: i64,
        y: i64,
        dxf: i64,
        dyf: i64,
        cx: i64,
        cy: i64,
        ocx: i64,
        ocy: i64,
    ) -> (r: Result<(), DrawError>)
        requires
            old(self)@.wf(),
            -0x1_0000_0000 <= x <= 0x1_0000_0000,
            -0x1_0000_0000 <= y <= 0x1_0000_0000,
            0 <= dxf <= 0x1_0000_0000,
            0 <= dyf <= 0x1_0000_0000,
            0 <= cx <= 0x1_0000_0000,
            0 <= cy <= 0x1_0000_0000,
        ensures
            final(self)@ == old(self)@.paint(
                rbox_step(
                    (RBoxCtx { x: x as int, y: y as int, dx: dxf as int, dy: dyf as int }),
                    cx as int,
                    cy as int,
                    ocx as int,
                    ocy as int,
                ),
            ),
            final(self)@.wf(),
            r is Ok,
    {
        let ghost c = RBoxCtx { x: x as int, y: y as int, dx: dxf as int, dy: dyf as int };
        let ghost f1 = if ocy as int != cy as int {
            if cy as int > 0 {
                line_trace(c.x - cx as int, c.y + cy as int + c.dy, c.x + cx as int + c.dx, c.y
                    + cy as int + c.dy) + line_trace(
                    c.x - cx as int,
                    c.y - cy as int,
                    c.x + cx as int + c.dx,
                    c.y - cy as int,
                )
            } else {
                line_trace(c.x - cx as int, c.y, c.x + cx as int + c.dx, c.y)
            }
        } else {
            Seq::<(int, int)>::empty()
        };
        if ocy != cy {
            if cy > 0 {
                self.line_px(x - cx, y + cy + dyf, x + cx + dxf, y + cy + dyf);
                self.line_px(x - cx, y - cy, x + cx + dxf, y - cy);
                proof {
                    lemma_paint_concat(
                        old(self)@,
                        line_trace(c.x - cx as int, c.y + cy as int + c.dy, c.x + cx as int + c.dx,
                            c.y + cy as int + c.dy),
                        line_trace(c.x - cx as int, c.y - cy as int, c.x + cx as int + c.dx, c.y
                            - cy as int),
                    );
                }
            } else {
                self.line_px(x - cx, y, x + cx + dxf, y);
            }
        } else {
            proof {
                assert(f1 =~= Seq::<(int, int)>::empty());
                assert(old(self)@.paint(f1) == old(self)@);
            }
        }
        assert(self@ == old(self)@.paint(f1));
        let ghost mid = self@;
        let ghost f2 = if ocx as int != cx as int {
            if cx as int != cy as int {
                if cx as int > 0 {
                    line_trace(c.x - cy as int, c.y - cx as int, c.x + cy as int + c.dx, c.y
                        - cx as int) + line_trace(
                        c.x - cy as int,
                        c.y + cx as int + c.dy,
                        c.x + cy as int + c.dx,
                        c.y + cx as int + c.dy,
                    )
                } else {
                    line_trace(c.x - cy as int, c.y, c.x + cy as int + c.dx, c.y)
                }
            } else {
                Seq::<(int, int)>::empty()
            }
        } else {
            Seq::<(int, int)>::empty()
        };
        if ocx != cx {
            if cx != cy {
                if cx > 0 {
                    self.line_px(x - cy, y - cx, x + cy + dxf, y - cx);
                    self.line_px(x - cy, y + cx + dyf, x + cy + dxf, y + cx + dyf);
                    proof {
                        lemma_paint_concat(
                            mid,
                            line_trace(c.x - cy as int, c.y - cx as int, c.x + cy as int + c.dx,
                                c.y - cx as int),
                            line_trace(c.x - cy as int, c.y + cx as int + c.dy, c.x + cy as int
                                + c.dx, c.y + cx as int + c.dy),
                        );
                    }
                } else {
                    self.line_px(x - cy, y, x + cy + dxf, y);
                }
            } else {
                proof {
                    assert(f2 =~= Seq::<(int, int)>::empty());
                    assert(mid.paint(f2) == mid);
                }
            }
        } else {
            proof {
                assert(f2 =~= Seq::<(int, int)>::empty());
                assert(mid.paint(f2) == mid);
            }
        }
        assert(self@ == mid.paint(f2));
        proof {
            lemma_paint_concat(old(self)@, f1, f2);
        }
        Ok(())
    }

    /// Draws the filled rounded box with corners `a` and `b` (in either
    /// order) and the given corner radius. A negative radius is rejected;
    /// a radius of at most one draws a plain filled box.
    pub fn rounded_box(&mut self, a: Point, b: Point, radius: i32, color: Color) -> (r: Result<
        (),
        DrawError,
    >)
        requires
            old(self)@.wf(),
        ensures
            radius < 0 ==> r == Err::<(), DrawError>(DrawError::InvalidParameter) && final(self)@
                == old(self)@,
            radius >= 0 ==> r is Ok && final(self)@ == old(self)@.brush(color).paint(
                rounded_box_trace(a, b, radius as int),
            ),
            final(self)@.wf(),
    {
        if radius < 0 {
            return Err(DrawError::InvalidParameter);
        }
        if radius <= 1 {
            return self.filled_box(a, b, color);
        }
        if a.x == b.x {
            if a.y == b.y {
                proof {
                    lemma_paint_single(old(self)@.brush(color), a.x as int, a.y as int);
                }
                return self.pixel_colored(a, color);
            } else {
                return self.vline_colored(a.x, a.y, b.y, color);
            }
        } else if a.y == b.y {
            return self.hline_colored(a.x, b.x, a.y, color);
        }
        let x1 = if a.x < b.x {
            a.x
        } else {
            b.x
        };
        let x2 = if a.x < b.x {
            b.x
        } else {
            a.x
        };
        let y1 = if a.y < b.y {
            a.y
        } else {
            b.y
        };
        let y2 = if a.y < b.y {
            b.y
        } else {
            a.y
        };
        let w: i64 = x2 as i64 - x1 as i64;
        let h: i64 = y2 as i64 - y1 as i64;
        let mut rad: i64 = radius as i64;
        if 2 * rad > w {
            rad = ((w as u64) / 2) as i64;
        }
        if 2 * rad > h {
            rad = ((h as u64) / 2) as i64;
        }
        proof {
            lemma_clamp_rad(radius as int, w as int, h as int);
            assert(rad as int == clamp_rad(radius as int, w as int, h as int));
        }
        let x: i64 = x1 as i64 + rad;
        let y: i64 = y1 as i64 + rad;
        let dxf: i64 = w - 2 * rad;
        let dyf: i64 = h - 2 * rad;

        self.apply_brush(color);
        let ghost base = old(self)@.brush(color);
        let ghost c = RBoxCtx { x: x as int, y: y as int, dx: dxf as int, dy: dyf as int };
        let ghost full = rounded_box_trace(a, b, radius as int);
        proof {
            assert(full == rbox_gen(c, 0, rad as int, -1, -1, 1 - rad as int, 3, 5 - 2
                * rad as int));
        }
        let mut cx: i64 = 0;
        let mut cy: i64 = rad;
        let mut ocx: i64 = -1;
        let mut ocy: i64 = -1;
        let mut df: i128 = 1 - rad as i128;
        let mut d_e: i128 = 3;
        let mut d_se: i128 = 5 - 2 * (rad as i128);
        let ghost mut done: Seq<(int, int)> = Seq::empty();
        proof {
            assert(base.paint(done) == base);
        }
        while cx <= cy
            invariant
                self@.wf(),
                self@ == base.paint(done),
                base == old(self)@.brush(color),
                c.x == x as int,
                c.y == y as int,
                c.dx == dxf as int,
                c.dy == dyf as int,
                -0x1_0000_0000 <= x <= 0x1_0000_0000,
                -0x1_0000_0000 <= y <= 0x1_0000_0000,
                0 <= dxf <= 0x1_0000_0000,
                0 <= dyf <= 0x1_0000_0000,
                0 <= rad && (rad as int) < 0x8000_0000,
                0 <= cx <= cy + 2,
                -1 <= cy <= rad,
                -1 <= ocx,
                -1 <= ocy,
                d_e as int == 2 * cx as int + 3,
                d_se as int == 2 * (cx as int - cy as int) + 5,
                -(1 + rad as int) - cx as int * (4 * rad as int + 12) <= df as int <= (1
                    + rad as int) + cx as int * (4 * rad as int + 12),
                done + rbox_gen(
                    c,
                    cx as int,
                    cy as int,
                    ocx as int,
                    ocy as int,
                    df as int,
                    d_e as int,
                    d_se as int,
                ) == full,
            decreases cy - cx + 2,
        {
            let ghost done0 = done;
            let ghost rest = rbox_gen(
                c,
                cx as int,
                cy as int,
                ocx as int,
                ocy as int,
                df as int,
                d_e as int,
                d_se as int,
            );
            let ghost step = rbox_step(c, cx as int, cy as int, ocx as int, ocy as int);
            self.rbox_step_px(x, y, dxf, dyf, cx, cy, ocx, ocy)?;
            proof {
                lemma_paint_concat(base, done0, step);
                done = done0 + step;
            }
            if ocy != cy {
                ocy = cy;
            }
            if ocx != cx {
                ocx = cx;
            }
            proof {
                let next: Seq<(int, int)> = if (df as int) < 0 {
                    rbox_gen(
                        c,
                        cx as int + 1,
                        cy as int,
                        ocx as int,
                        ocy as int,
                        df as int + d_e as int,
                        d_e as int + 2,
                        d_se as int + 2,
                    )
                } else {
                    rbox_gen(
                        c,
                        cx as int + 1,
                        cy as int - 1,
                        ocx as int,
                        ocy as int,
                        df as int + d_se as int,
                        d_e as int + 2,
                        d_se as int + 4,
                    )
                };
                assert(rest == step + next);
                assert(done0 + rest =~= (done0 + step) + next);
                assert(done + next == full);
                assert((1 + rad as int) + (cx as int + 1) * (4 * rad as int + 12) == (1
                    + rad as int) + cx as int * (4 * rad as int + 12) + (4 * rad as int + 12))
                    by (nonlinear_arith)
                ;
                assert(cx as int * (4 * rad as int + 12) <= 0x2_0000_0000_0000_0000)
                    by (nonlinear_arith)
                    requires
                        0 <= cx as int <= rad as int + 2,
                        0 <= rad as int && (rad as int) < 0x8000_0000,
                ;
            }
            if df < 0 {
                df = df + d_e;
                d_e = d_e + 2;
                d_se = d_se + 2;
            } else {
                df = df + d_se;
                d_e = d_e + 2;
                d_se = d_se + 4;
                cy = cy - 1;
            }
            cx = cx + 1;
        }
        proof {
            assert(rbox_gen(
                c,
                cx as int,
                cy as int,
                ocx as int,
                ocy as int,
                df as int,
                d_e as int,
                d_se as int,
            ) =~= Seq::<(int, int)>::empty());
            assert(done =~= full);
        }
        Ok(())
    }

    /// Draws the outline of the rounded rectangle with corners `a` and
    /// `b` (in either order) and the given corner radius: four
    /// quarter-arcs joined by straight segments. A negative radius is
    /// rejected; a radius of at most one draws a plain rectangle.
    #[verifier::rlimit(100)]
    pub fn rounded_rectangle(&mut self, a: Point, b: Point, radius: i32, color: Color) -> (r:
        Result<(), DrawError>)
        requires
            old(self)@.wf(),
        ensures
            radius < 0 ==> r == Err::<(), DrawError>(DrawError::InvalidParameter) && final(self)@
                == old(self)@,
            radius >= 0 ==> r is Ok && final(self)@ == old(self)@.brush(color).paint(
                rounded_rect_trace(a, b, radius as int),
            ),
            final(self)@.wf(),
    {
        if radius < 0 {
            return Err(DrawError::InvalidParameter);
        }
        if radius <= 1 {
            return self.rectangle(a, b, color);
        }
        if a.x == b.x {
            if a.y == b.y {
                proof {
                    lemma_paint_single(old(self)@.brush(color), a.x as int, a.y as int);
                }
                return self.pixel_colored(a, color);
            } else {
                return self.vline_colored(a.x, a.y, b.y, color);
            }
        } else if a.y == b.y {
            return self.hline_colored(a.x, b.x, a.y, color);
        }
        let x1 = if a.x < b.x {
            a.x
        } else {
            b.x
        };
        let x2 = if a.x < b.x {
            b.x
        } else {
            a.x
        };
        let y1 = if a.y < b.y {
            a.y
        } else {
            b.y
        };
        let y2 = if a.y < b.y {
            b.y
        } else {
            a.y
        };
        let w: i64 = x2 as i64 - x1 as i64;
        let h: i64 = y2 as i64 - y1 as i64;
        let mut rad: i64 = radius as i64;
        if 2 * rad > w {
            rad = ((w as u64) / 2) as i64;
        }
        if 2 * rad > h {
            rad = ((h as u64) / 2) as i64;
        }
        proof {
            lemma_clamp_rad(radius as int, w as int, h as int);
            assert(rad as int == clamp_rad(radius as int, w as int, h as int));
        }
        let xx1: i32 = (x1 as i64 + rad) as i32;
        let xx2: i32 = (x2 as i64 - rad) as i32;
        let yy1: i32 = (y1 as i64 + rad) as i32;
        let yy2: i32 = (y2 as i64 - rad) as i32;
        let radi: i32 = rad as i32;

        let ghost base = old(self)@.brush(color);
        let ghost t1 = arc_trace_xy(xx1 as int, yy1 as int, rad as int, 180, 270);
        let ghost t2 = arc_trace_xy(xx2 as int, yy1 as int, rad as int, 270, 360);
        let ghost t3 = arc_trace_xy(xx1 as int, yy2 as int, rad as int, 90, 180);
        let ghost t4 = arc_trace_xy(xx2 as int, yy2 as int, rad as int, 0, 90);
        self.arc(Point { x: xx1, y: yy1 }, radi, 180, 270, color)?;
        proof {
            lemma_rebrush(old(self)@, color, t1);
        }
        self.arc(Point { x: xx2, y: yy1 }, radi, 270, 360, color)?;
        proof {
            lemma_paint_concat(base, t1, t2);
            lemma_rebrush(old(self)@, color, t1 + t2);
        }
        self.arc(Point { x: xx1, y: yy2 }, radi, 90, 180, color)?;
        proof {
            lemma_paint_concat(base, t1 + t2, t3);
            lemma_rebrush(old(self)@, color, t1 + t2 + t3);
        }
        self.arc(Point { x: xx2, y: yy2 }, radi, 0, 90, color)?;
        proof {
            lemma_paint_concat(base, t1 + t2 + t3, t4);
            lemma_rebrush(old(self)@, color, t1 + t2 + t3 + t4);
        }
        let ghost arcs = t1 + t2 + t3 + t4;
        let ghost sides = rounded_sides_trace(
            x1 as int,
            y1 as int,
            x2 as int,
            y2 as int,
            rad as int,
        );
        if xx1 <= xx2 {
            let ghost top = line_trace(xx1 as int, y1 as int, xx2 as int, y1 as int);
            let ghost bottom = line_trace(xx1 as int, y2 as int, xx2 as int, y2 as int);
            self.hline_colored(xx1, xx2, y1, color)?;
            proof {
                lemma_paint_concat(base, arcs, top);
                lemma_rebrush(old(self)@, color, arcs + top);
            }
            self.hline_colored(xx1, xx2, y2, color)?;
            proof {
                lemma_paint_concat(base, arcs + top, bottom);
                lemma_rebrush(old(self)@, color, arcs + top + bottom);
            }
        }
        if yy1 <= yy2 {
            let ghost hpart: Seq<(int, int)> = if xx1 <= xx2 {
                line_trace(xx1 as int, y1 as int, xx2 as int, y1 as int) + line_trace(
                    xx1 as int,
                    y2 as int,
                    xx2 as int,
                    y2 as int,
                )
            } else {
                Seq::empty()
            };
            let ghost left = line_trace(x1 as int, yy1 as int, x1 as int, yy2 as int);
            let ghost right = line_trace(x2 as int, yy1 as int, x2 as int, yy2 as int);
            proof {
                assert(arcs + hpart =~= if xx1 <= xx2 {
                    arcs + line_trace(xx1 as int, y1 as int, xx2 as int, y1 as int) + line_trace(
                        xx1 as int,
                        y2 as int,
                        xx2 as int,
                        y2 as int,
                    )
                } else {
                    arcs
                });
            }
            self.vline_colored(x1, yy1, yy2, color)?;
            proof {
                lemma_paint_concat(base, arcs + hpart, left);
                lemma_rebrush(old(self)@, color, arcs + hpart + left);
            }
            self.vline_colored(x2, yy1, yy2, color)?;
            proof {
                lemma_paint_concat(base, arcs + hpart + left, right);
            }
        }
        proof {
            assert(self@ == base.paint(arcs + sides)) by {
                assert(arcs + sides =~= if xx1 <= xx2 {
                    if yy1 <= yy2 {
                        arcs + line_trace(xx1 as int, y1 as int, xx2 as int, y1 as int)
                            + line_trace(xx1 as int, y2 as int, xx2 as int, y2 as int)
                            + line_trace(x1 as int, yy1 as int, x1 as int, yy2 as int)
                            + line_trace(x2 as int, yy1 as int, x2 as int, yy2 as int)
                    } else {
                        arcs + line_trace(xx1 as int, y1 as int, xx2 as int, y1 as int)
                            + line_trace(xx1 as int, y2 as int, xx2 as int, y2 as int)
                    }
                } else {
                    if yy1 <= yy2 {
                        arcs + line_trace(x1 as int, yy1 as int, x1 as int, yy2 as int)
                            + line_trace(x2 as int, yy1 as int, x2 as int, yy2 as int)
                    } else {
                        arcs
                    }
                });
            }
            assert(rounded_rect_trace(a, b, radius as int) =~= arcs + sides);
        }
        Ok(())
    }
}

} // verus!
