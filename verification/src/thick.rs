//! Thick lines, drawn as filled quadrilaterals.
//!
//! A thick line is the rectangle around its center line: from the
//! direction `(dx, dy)` and length `l = sqrt(dx^2 + dy^2)` an
//! angle-dependent width correction `adj = 0.1 + 0.9 * |cos(2*ang)|`
//! (with `ang` the angle against the vertical axis, so
//! `|cos(2*ang)| = |dy^2 - dx^2| / l^2`) compensates for the visual
//! thinning of diagonal lines; the half-width normal offset is
//! `(dx, dy) * (width - adj) / (2 * l)`, and the four corners go to the
//! scanline polygon filler. All of it is computed in 16.16 fixed point
//! with an exact integer square root.

use crate::canvas::rect_trace;
use crate::canvas::Canvas;
use crate::intmath::floor_div;
use crate::polygon::polygon_trace;
use crate::types::{Color, DrawError, Point};
use vstd::prelude::*;

verus! {

/// The integer square root: the unique `r` with `r^2 <= n < (r+1)^2`.
pub open spec fn sqrt_floor(n: int) -> int {
    choose|r: int| 0 <= r && #[trigger] (r * r) <= n && n < (r + 1) * (r + 1)
}

/// Any witness of the square-root property is the square root.
pub proof fn lemma_sqrt_floor_is(n: int, r: int)
    requires
        0 <= r,
        r * r <= n,
        n < (r + 1) * (r + 1),
    ensures
        sqrt_floor(n) == r,
{
    assert(exists|q: int| 0 <= q && #[trigger] (q * q) <= n && n < (q + 1) * (q + 1)) by {
        assert(0 <= r && r * r <= n && n < (r + 1) * (r + 1));
    }
    let c = sqrt_floor(n);
    assert(0 <= c && c * c <= n && n < (c + 1) * (c + 1));
    assert(c == r) by (nonlinear_arith)
        requires
            0 <= r,
            0 <= c,
            r * r <= n,
            n < (r + 1) * (r + 1),
            c * c <= n,
            n < (c + 1) * (c + 1),
    ;
}

/// The integer square root by bisection.
fn isqrt(n: u128) -> (r: u128)
    ensures
        r as int * r as int <= n as int,
        (n as int) < (r as int + 1) * (r as int + 1),
        r == sqrt_floor(n as int),
{
    if n == 0 {
        proof {
            lemma_sqrt_floor_is(0, 0);
        }
        return 0;
    }
    let mut lo: u128 = 0;
    let mut hi: u128 = 0x1_0000_0000_0000_0000;
    proof {
        assert((n as int) < 0x1_0000_0000_0000_0000_0000_0000_0000_0000int);
    }
    while hi - lo > 1
        invariant
            0 <= lo < hi <= 0x1_0000_0000_0000_0000,
            lo as int * lo as int <= n as int,
            (n as int) < hi as int * hi as int,
        decreases hi - lo,
    {
        let mid = lo + (hi - lo) / 2;
        proof {
            assert((mid as int * mid as int) < 0x1_0000_0000_0000_0000_0000_0000_0000_0000)
                by (nonlinear_arith)
                requires
                    0 <= mid as int,
                    (mid as int) < 0x1_0000_0000_0000_0000,
            ;
        }
        if mid * mid <= n {
            lo = mid;
        } else {
            hi = mid;
        }
    }
    proof {
        assert(hi == lo + 1);
        lemma_sqrt_floor_is(n as int, lo as int);
    }
    lo
}

/// A value clamped into the signed 32-bit range, as an out-of-range
/// corner coordinate is.
pub open spec fn clamp_i32(v: int) -> int {
    if v < -0x8000_0000 {
        -0x8000_0000
    } else if v > 0x7FFF_FFFF {
        0x7FFF_FFFF
    } else {
        v
    }
}

/// The four corner points of the thick-line rectangle from `start` to
/// `end` (distinct points) of the given width, in 16.16 fixed point:
/// `(start + n, start - n, end - n, end + n)` rotated a quarter turn,
/// where `n` is the half-width normal offset described in the module
/// documentation.
pub open spec fn thick_corners(start: Point, end: Point, width: int) -> Seq<Point> {
    let dx = end.x as int - start.x as int;
    let dy = end.y as int - start.y as int;
    let l2 = dx * dx + dy * dy;
    let aa = if dy * dy - dx * dx >= 0 {
        dy * dy - dx * dx
    } else {
        dx * dx - dy * dy
    };
    let adj = (65536 * (l2 + 9 * aa)) / (10 * l2);
    let lq = sqrt_floor(l2 * 0x1_0000_0000);
    let wl2 = ((width * 65536 - adj) * 65536) / (2 * lq);
    let nx = (dx * wl2) / 65536;
    let ny = (dy * wl2) / 65536;
    seq![
        (Point {
            x: clamp_i32(start.x as int + ny) as i32,
            y: clamp_i32(start.y as int - nx) as i32,
        }),
        (Point {
            x: clamp_i32(start.x as int - ny) as i32,
            y: clamp_i32(start.y as int + nx) as i32,
        }),
        (Point { x: clamp_i32(end.x as int - ny) as i32, y: clamp_i32(end.y as int + nx) as i32 }),
        (Point { x: clamp_i32(end.x as int + ny) as i32, y: clamp_i32(end.y as int - nx) as i32 }),
    ]
}

/// The pixels of the thick line from `start` to `end` of the given
/// width: a filled square block for a zero-length line, a plain segment
/// for width one, else the filled corner quadrilateral.
pub open spec fn thick_line_trace(start: Point, end: Point, width: int) -> Seq<(int, int)> {
    if start.x == end.x && start.y == end.y {
        let wh = width / 2;
        rect_trace(
            start.x as int - wh,
            start.y as int - wh,
            width + wh + 1,
            width + wh + 1,
        )
    } else if width == 1 {
        line_trace_of(start, end)
    } else {
        polygon_trace(thick_corners(start, end, width))
    }
}

/// The segment trace between two points.
pub open spec fn line_trace_of(a: Point, b: Point) -> Seq<(int, int)> {
    crate::canvas::line_trace(a.x as int, a.y as int, b.x as int, b.y as int)
}

/// Clamps an offset corner coordinate into `i32`.
fn clamp_i32_px(v: i128) -> (r: i32)
    ensures
        r as int == clamp_i32(v as int),
{
    if v < -0x8000_0000 {
        -0x8000_0000i32
    } else if v > 0x7FFF_FFFF {
        0x7FFF_FFFFi32
    } else {
        v as i32
    }
}

/// Executable form of [`thick_corners`].
fn thick_corners_px(start: Point, end: Point, width: i32) -> (out: Vec<Point>)
    requires
        width >= 1,
        !(start.x == end.x && start.y == end.y),
    ensures
        out@ == thick_corners(start, end, width as int),
        out@.len() == 4,
{
    let dx: i64 = end.x as i64 - start.x as i64;
    let dy: i64 = end.y as i64 - start.y as i64;
    proof {
        assert(dx as int * dx as int + dy as int * dy as int >= 1 && dx as int * dx as int
            + dy as int * dy as int <= 0x4_0000_0000_0000_0000 && 0 <= dx as int * dx as int
            && 0 <= dy as int * dy as int) by (nonlinear_arith)
            requires
                -0x1_0000_0000 <= dx as int <= 0x1_0000_0000,
                -0x1_0000_0000 <= dy as int <= 0x1_0000_0000,
                dx != 0 || dy != 0,
        ;
    }
    let l2: i128 = (dx as i128) * (dx as i128) + (dy as i128) * (dy as i128);
    let aa: i128 = if (dy as i128) * (dy as i128) - (dx as i128) * (dx as i128) >= 0 {
        (dy as i128) * (dy as i128) - (dx as i128) * (dx as i128)
    } else {
        (dx as i128) * (dx as i128) - (dy as i128) * (dy as i128)
    };
    proof {
        assert(0 <= aa as int <= l2 as int);
    }
    let adj: i128 = floor_div(65536 * (l2 + 9 * aa), 10 * l2);
    proof {
        assert(65536 * (l2 as int + 9 * aa as int) <= (10 * l2 as int) * 65536)
            by (nonlinear_arith)
            requires
                0 <= aa as int <= l2 as int,
        ;
        vstd::arithmetic::div_mod::lemma_div_is_ordered(
            65536 * (l2 as int + 9 * aa as int),
            (10 * l2 as int) * 65536,
            10 * l2 as int,
        );
        vstd::arithmetic::div_mod::lemma_div_multiples_vanish(65536, 10 * l2 as int);
        vstd::arithmetic::mul::lemma_mul_is_commutative(10 * l2 as int, 65536);
        vstd::arithmetic::div_mod::lemma_div_pos_is_pos(
            65536 * (l2 as int + 9 * aa as int),
            10 * l2 as int,
        );
        assert(0 <= adj as int <= 65536);
    }
    let lq_u: u128 = isqrt((l2 as u128) * 0x1_0000_0000);
    proof {
        assert((lq_u as int + 1) * (lq_u as int + 1) > 0x1_0000_0000 ==> lq_u as int + 1 > 65536)
            by (nonlinear_arith)
        ;
        assert(l2 as int * 0x1_0000_0000 >= 0x1_0000_0000);
        assert(lq_u as int >= 65536);
        assert(lq_u as int * lq_u as int <= 0x4_0000_0000_0000_0000 * 0x1_0000_0000);
        assert(lq_u as int <= 0x4_0000_0000_0000) by (nonlinear_arith)
            requires
                lq_u as int * lq_u as int <= 0x4_0000_0000_0000_0000 * 0x1_0000_0000,
                0 <= lq_u as int,
        ;
    }
    let lq: i128 = lq_u as i128;
    let num: i128 = ((width as i128) * 65536 - adj) * 65536;
    let wl2: i128 = floor_div(num, 2 * lq);
    proof {
        assert(0 <= num as int <= 0x8000_0000_0000_0000_0000);
        vstd::arithmetic::div_mod::lemma_div_pos_is_pos(num as int, 2 * lq as int);
        vstd::arithmetic::div_mod::lemma_div_is_ordered_by_denominator(
            num as int,
            131072,
            2 * lq as int,
        );
        vstd::arithmetic::div_mod::lemma_div_is_ordered(
            num as int,
            131072int * 0x4000_0000_0000_0000,
            131072,
        );
        vstd::arithmetic::div_mod::lemma_div_multiples_vanish(0x4000_0000_0000_0000, 131072);
        assert(0 <= wl2 as int <= 0x4000_0000_0000_0000);
    }
    proof {
        assert(-0x1_0000_0000_0000_0000_0000_0000 <= dx as int * wl2 as int
            <= 0x1_0000_0000_0000_0000_0000_0000 && -0x1_0000_0000_0000_0000_0000_0000
            <= dy as int * wl2 as int <= 0x1_0000_0000_0000_0000_0000_0000) by (nonlinear_arith)
            requires
                -0x1_0000_0000 <= dx as int <= 0x1_0000_0000,
                -0x1_0000_0000 <= dy as int <= 0x1_0000_0000,
                0 <= wl2 as int <= 0x4000_0000_0000_0000,
        ;
    }
    let nx: i128 = floor_div((dx as i128) * wl2, 65536);
    let ny: i128 = floor_div((dy as i128) * wl2, 65536);
    proof {
        vstd::arithmetic::div_mod::lemma_div_is_ordered(
            (dx as i128 * wl2) as int,
            0x1_0000_0000_0000_0000_0000_0000,
            65536,
        );
        vstd::arithmetic::div_mod::lemma_div_is_ordered(
            -0x1_0000_0000_0000_0000_0000_0000,
            (dx as i128 * wl2) as int,
            65536,
        );
        vstd::arithmetic::div_mod::lemma_div_is_ordered(
            (dy as i128 * wl2) as int,
            0x1_0000_0000_0000_0000_0000_0000,
            65536,
        );
        vstd::arithmetic::div_mod::lemma_div_is_ordered(
            -0x1_0000_0000_0000_0000_0000_0000,
            (dy as i128 * wl2) as int,
            65536,
        );
        vstd::arithmetic::div_mod::lemma_div_multiples_vanish(
            0x1_0000_0000_0000_0000_0000,
            65536,
        );
        vstd::arithmetic::div_mod::lemma_div_multiples_vanish(
            -0x1_0000_0000_0000_0000_0000,
            65536,
        );
        assert(65536int * 0x1_0000_0000_0000_0000_0000 == 0x1_0000_0000_0000_0000_0000_0000);
    }
    let mut out: Vec<Point> = Vec::new();
    out.push(
        Point {
            x: clamp_i32_px(start.x as i128 + ny),
            y: clamp_i32_px(start.y as i128 - nx),
        },
    );
    out.push(
        Point {
            x: clamp_i32_px(start.x as i128 - ny),
            y: clamp_i32_px(start.y as i128 + nx),
        },
    );
    out.push(Point { x: clamp_i32_px(end.x as i128 - ny), y: clamp_i32_px(end.y as i128 + nx) });
    out.push(Point { x: clamp_i32_px(end.x as i128 + ny), y: clamp_i32_px(end.y as i128 - nx) });
    proof {
        assert(out@ =~= thick_corners(start, end, width as int));
    }
    out
}

impl Canvas {
    /// Draws the line from `start` to `end` with the given width: a
    /// non-positive width is rejected, a zero-length line becomes a
    /// filled square block, width one a plain line, and the general case
    /// a filled quadrilateral.
    pub fn thick_line(&mut self, start: Point, end: Point, width: i32, color: Color) -> (r: Result<
        (),
        DrawError,
    >)
        requires
            old(self)@.wf(),
        ensures
            width < 1 ==> r == Err::<(), DrawError>(DrawError::InvalidParameter) && final(self)@
                == old(self)@,
            width >= 1 ==> r is Ok && final(self)@ == old(self)@.brush(color).paint(
                thick_line_trace(start, end, width as int),
            ),
            final(self)@.wf(),
    {
        if width < 1 {
            return Err(DrawError::InvalidParameter);
        }
        if start.x == end.x && start.y == end.y {
            let wh: i64 = (width / 2) as i64;
            let side: u64 = (width as i64 + wh + 1) as u64;
            self.apply_brush(color);
            self.fill_rect_px(start.x as i64 - wh, start.y as i64 - wh, side, side);
            return Ok(());
        }
        if width == 1 {
            return self.line(start, end, color);
        }
        let verts = thick_corners_px(start, end, width);
        let r = self.fill_polygon(&verts, color);
        proof {
            assert(verts@.len() == 4);
        }
        r
    }
}

} // verus!
