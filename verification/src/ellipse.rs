//! The ellipse engine: an overscanned incremental midpoint ellipse.
//!
//! The radii are scaled up by an overscan factor chosen from their
//! magnitude (4 below 256, 2 below 512, 1 above), the two-region midpoint
//! generator runs in the scaled space, and every generated point is scaled
//! back down; a point is only emitted when the down-scaled column changes,
//! so the many scaled steps that land on one final pixel are drawn once.
//! Emission goes through the quadrant mirror; filled mode draws vertical
//! spans and takes care to emit each row only once.
//!
//! The second region's error term is reinitialized with 32-bit wrapping
//! arithmetic (widened and cropped): the classic formulation relies on
//! fixed-width signed overflow behaving as modular arithmetic, and the
//! crate preserves that deliberately.

use crate::canvas::{lemma_paint_concat, line_trace, Canvas};
use crate::intmath::euclid_mod;
use crate::quadrants::quadrants_trace_xy;
use crate::types::{Color, DrawError, Point};
use vstd::math::max;
use vstd::prelude::*;

verus! {

/// The constants of one ellipse generation run: the center, the scaled
/// radii with their squares and doubled squares, the overscan factor and
/// the fill flag.
pub ghost struct EllCtx {
    pub px: int,
    pub py: int,
    pub rxi: int,
    pub ryi: int,
    pub rx2: int,
    pub ry2: int,
    pub rx22: int,
    pub ry22: int,
    pub o: int,
    pub filled: bool,
}

/// The generator's loop state: the scaled point, the two slope terms, the
/// error term, and the last down-scaled point that was emitted.
pub ghost struct EllState {
    pub cur_x: int,
    pub cur_y: int,
    pub dx: int,
    pub dy: int,
    pub err: int,
    pub old_x: int,
    pub old_y: int,
}

/// The well-formed generation contexts: scaled radii in range and the
/// derived squares consistent.
pub open spec fn ell_ctx_wf(c: EllCtx) -> bool {
    &&& 1 <= c.rxi <= 32767
    &&& 1 <= c.ryi <= 32767
    &&& c.rx2 == c.rxi * c.rxi
    &&& c.ry2 == c.ryi * c.ryi
    &&& c.rx22 == 2 * c.rx2
    &&& c.ry22 == 2 * c.ry2
    &&& 1 <= c.o <= 4
}

/// A 64-bit value reduced to the range of a 32-bit two's-complement
/// integer, the wrapping the second region's error term relies on.
pub open spec fn crop32(v: int) -> int {
    let m = v % 0x1_0000_0000;
    if m > 0x7FFF_FFFF {
        m - 0x1_0000_0000
    } else {
        m
    }
}

/// Executable form of [`crop32`].
fn crop32_px(v: i128) -> (r: i64)
    requires
        crate::intmath::small_i128(v as int),
    ensures
        r as int == crop32(v as int),
        -0x8000_0000 <= r as int <= 0x7FFF_FFFF,
{
    let m = euclid_mod(v, 0x1_0000_0000);
    if m > 0x7FFF_FFFF {
        (m - 0x1_0000_0000) as i64
    } else {
        m as i64
    }
}

/// A 32-bit wrapping product of two cropped values.
fn wmul32(a: i64, b: i64) -> (r: i64)
    requires
        -0x8000_0000 <= a as int <= 0x7FFF_FFFF,
        -0x8000_0000 <= b as int <= 0x7FFF_FFFF,
    ensures
        r as int == crop32(a as int * b as int),
        -0x8000_0000 <= r as int <= 0x7FFF_FFFF,
{
    proof {
        assert(-0x4000_0000_0000_0000 <= a as int * b as int <= 0x4000_0000_0000_0000)
            by (nonlinear_arith)
            requires
                -0x8000_0000 <= a as int <= 0x8000_0000,
                -0x8000_0000 <= b as int <= 0x8000_0000,
        ;
    }
    crop32_px((a as i128) * (b as i128))
}

/// The second region's error term, reinitialized from the first region's
/// final state with 32-bit wrapping multiplication and addition, exactly
/// as the classic fixed-width formulation overflows.
pub open spec fn region2_err_init(rx2: int, ry2: int, cur_x: int, cur_y: int) -> int {
    let inner_2 = (ry2 + 3) / 4;
    let head = crop32(crop32(cur_x) * crop32(cur_x + 1));
    let head_head = crop32(crop32(ry2) * head);
    let head_inner = crop32(head_head + inner_2);
    let first_mul = crop32(crop32(rx2) * crop32(cur_y - 1));
    let second_mul = crop32(first_mul * crop32(cur_y - 1));
    let final_mul = crop32(crop32(rx2) * crop32(ry2));
    crop32(head_inner + crop32(second_mul - final_mul))
}

/// Executable form of [`region2_err_init`].
fn region2_err_init_px(rx2: i64, ry2: i64, cur_x: i64, cur_y: i64) -> (r: i64)
    requires
        0 <= rx2 < 0x8000_0000,
        0 <= ry2 < 0x8000_0000,
        0 <= cur_x < 0x1_0000_0000_0000,
        0 <= cur_y < 0x1_0000_0000_0000,
    ensures
        r as int == region2_err_init(rx2 as int, ry2 as int, cur_x as int, cur_y as int),
        -0x8000_0000 <= r as int <= 0x7FFF_FFFF,
{
    let inner_2: i64 = ((ry2 as u64 + 3) / 4) as i64;
    let cx = crop32_px(cur_x as i128);
    let cxp1 = crop32_px(cur_x as i128 + 1);
    let cym1 = crop32_px(cur_y as i128 - 1);
    let head = wmul32(cx, cxp1);
    let head_head = wmul32(ry2, head);
    let head_inner = crop32_px(head_head as i128 + inner_2 as i128);
    let first_mul = wmul32(rx2, cym1);
    let second_mul = wmul32(first_mul, cym1);
    let final_mul = wmul32(rx2, ry2);
    let r = crop32_px(head_inner as i128 + (crop32_px(second_mul as i128 - final_mul as i128)
        as i128));
    proof {
        assert(crop32(rx2 as int) == rx2 as int && crop32(ry2 as int) == ry2 as int) by {
            vstd::arithmetic::div_mod::lemma_small_mod(rx2 as nat, 0x1_0000_0000);
            vstd::arithmetic::div_mod::lemma_small_mod(ry2 as nat, 0x1_0000_0000);
        }
    }
    r
}

/// The first region of the midpoint generator: steps along x while the
/// boundary slope is at most one, emitting through the quadrant mirror
/// whenever the down-scaled column changes. Returns the trace and the
/// state the second region starts from.
pub open spec fn region1(c: EllCtx, s: EllState) -> (Seq<(int, int)>, EllState)
    decreases max(s.dy - s.dx + 1, 0),
{
    if s.dx > s.dy || c.ry22 < 1 || c.rx22 < 0 {
        (Seq::empty(), s)
    } else {
        let cur_x = s.cur_x + 1;
        let dx = s.dx + c.ry22;
        let e1 = s.err + dx + c.ry2;
        let cur_y = if e1 >= 0 {
            s.cur_y - 1
        } else {
            s.cur_y
        };
        let dy = if e1 >= 0 {
            s.dy - c.rx22
        } else {
            s.dy
        };
        let err = if e1 >= 0 {
            e1 - (s.dy - c.rx22)
        } else {
            e1
        };
        let src_x = cur_x / c.o;
        let src_y = cur_y / c.o;
        let emit = if src_x != s.old_x {
            quadrants_trace_xy(c.px, c.py, src_x, src_y, c.filled)
        } else {
            Seq::empty()
        };
        let old_x = if src_x != s.old_x {
            src_x
        } else {
            s.old_x
        };
        let old_y = if src_x != s.old_x {
            src_y
        } else {
            s.old_y
        };
        let tail = region1(c, EllState { cur_x, cur_y, dx, dy, err, old_x, old_y });
        (emit + tail.0, tail.1)
    }
}

/// One emission of the second region: from the row above the last emitted
/// row down to the new row — each row once, as single mirrored pixels, or,
/// in filled mode, only the topmost as a vertical span (the skip-ahead
/// that keeps filled mode from re-drawing a row).
pub open spec fn r2_emit(c: EllCtx, src_x: int, src_y: int, y: int) -> Seq<(int, int)>
    decreases max(y - src_y + 1, 0),
{
    if y < src_y {
        Seq::empty()
    } else if c.filled {
        quadrants_trace_xy(c.px, c.py, src_x, y, c.filled)
    } else {
        quadrants_trace_xy(c.px, c.py, src_x, y, c.filled) + r2_emit(c, src_x, src_y, y - 1)
    }
}

/// The second region of the midpoint generator: steps down along y to the
/// axis, emitting through [`r2_emit`] whenever the down-scaled column
/// changes. Returns the trace and the final state.
pub open spec fn region2(c: EllCtx, s: EllState) -> (Seq<(int, int)>, EllState)
    decreases max(s.cur_y, 0),
{
    if s.cur_y < 1 {
        (Seq::empty(), s)
    } else {
        let cur_y = s.cur_y - 1;
        let dy = s.dy - c.rx22;
        let e1 = s.err + c.rx2 - dy;
        let cur_x = if e1 <= 0 {
            s.cur_x + 1
        } else {
            s.cur_x
        };
        let dx = if e1 <= 0 {
            s.dx + c.ry22
        } else {
            s.dx
        };
        let err = if e1 <= 0 {
            e1 + (s.dx + c.ry22)
        } else {
            e1
        };
        let src_x = cur_x / c.o;
        let src_y = cur_y / c.o;
        let emit = if src_x != s.old_x {
            r2_emit(c, src_x, src_y, s.old_y - 1)
        } else {
            Seq::empty()
        };
        let old_x = if src_x != s.old_x {
            src_x
        } else {
            s.old_x
        };
        let old_y = if src_x != s.old_x {
            src_y
        } else {
            s.old_y
        };
        let tail = region2(c, EllState { cur_x, cur_y, dx, dy, err, old_x, old_y });
        (emit + tail.0, tail.1)
    }
}

/// The remaining vertical spans of filled mode, drawn from `from` up to
/// the horizontal axis once the generator has reached it.
pub open spec fn tail_fill(c: EllCtx, src_x: int, from: int) -> Seq<(int, int)>
    decreases max(1 - from, 0),
{
    if from > 0 {
        Seq::empty()
    } else {
        quadrants_trace_xy(c.px, c.py, src_x, from, c.filled) + tail_fill(c, src_x, from + 1)
    }
}

/// The overscan factor for radii `rx`, `ry`: 4 below 256, 2 below 512,
/// 1 from 512 up (larger radii need less oversampling to stay smooth).
pub open spec fn overscan_of(rx: int, ry: int) -> int {
    if rx >= 512 || ry >= 512 {
        1
    } else if rx >= 256 || ry >= 256 {
        2
    } else {
        4
    }
}

/// The generation context for center `p`, radii `rx`, `ry`.
pub open spec fn ell_ctx(p: Point, rx: int, ry: int, filled: bool) -> EllCtx {
    let o = overscan_of(rx, ry);
    let rxi = rx * o;
    let ryi = ry * o;
    EllCtx {
        px: p.x as int,
        py: p.y as int,
        rxi,
        ryi,
        rx2: rxi * rxi,
        ry2: ryi * ryi,
        rx22: 2 * (rxi * rxi),
        ry22: 2 * (ryi * ryi),
        o,
        filled,
    }
}

/// The initial generator state for a context `c`.
pub open spec fn ell_init(c: EllCtx) -> EllState {
    EllState {
        cur_x: 0,
        cur_y: c.ryi,
        dx: 0,
        dy: c.rx22 * c.ryi,
        err: c.ry2 - c.rx2 * c.ryi + c.rx2 / 4,
        old_x: 0,
        old_y: 0,
    }
}

/// The pixels of the ellipse of radii `rx`, `ry` around `p`: a single
/// pixel when both radii are zero, an axis-aligned segment when one is,
/// else the first mirrored point at the top of the minor axis followed by
/// the two generator regions and, in filled mode, the remaining vertical
/// spans.
pub open spec fn ellipse_trace(p: Point, rx: int, ry: int, filled: bool) -> Seq<(int, int)> {
    let px = p.x as int;
    let py = p.y as int;
    if rx == 0 && ry == 0 {
        seq![(px, py)]
    } else if rx == 0 {
        line_trace(px, py - ry, px, py + ry)
    } else if ry == 0 {
        line_trace(px - rx, py, px + rx, py)
    } else {
        let c = ell_ctx(p, rx, ry, filled);
        let first = quadrants_trace_xy(px, py, 0, ry, filled);
        let r1 = region1(c, ell_init(c));
        let s1 = r1.1;
        if s1.cur_y > 0 {
            let e2 = region2_err_init(c.rx2, c.ry2, s1.cur_x, s1.cur_y);
            let r2 = region2(
                c,
                EllState {
                    cur_x: s1.cur_x,
                    cur_y: s1.cur_y,
                    dx: s1.dx,
                    dy: s1.dy,
                    err: e2,
                    old_x: s1.old_x,
                    old_y: s1.old_y,
                },
            );
            let s2 = r2.1;
            if filled {
                first + r1.0 + r2.0 + tail_fill(c, s2.cur_x / c.o, s2.old_y - 1)
            } else {
                first + r1.0 + r2.0
            }
        } else {
            first + r1.0
        }
    }
}

impl Canvas {
    /// Draws the ellipse of radii `radius_x`, `radius_y` around `p`,
    /// outlined or filled. Negative radii are rejected; two zero radii
    /// draw a point, one zero radius an axis-aligned segment.
    #[verifier::rlimit(100)]
    pub fn ellipse(&mut self, p: Point, radius_x: i16, radius_y: i16, color: Color, filled: bool)
        -> (r: Result<(), DrawError>)
        requires
            old(self)@.wf(),
        ensures
            (radius_x < 0 || radius_y < 0) ==> r == Err::<(), DrawError>(
                DrawError::InvalidParameter,
            ) && final(self)@ == old(self)@,
            (radius_x >= 0 && radius_y >= 0) ==> r is Ok && final(self)@ == old(self)@.brush(
                color,
            ).paint(ellipse_trace(p, radius_x as int, radius_y as int, filled)),
            final(self)@.wf(),
    {
        if radius_x < 0 || radius_y < 0 {
            return Err(DrawError::InvalidParameter);
        }
        self.apply_brush(color);
        let ghost base = old(self)@.brush(color);
        let px: i64 = p.x as i64;
        let py: i64 = p.y as i64;
        if radius_x == 0 {
            if radius_y == 0 {
                proof {
                    crate::canvas::lemma_paint_single(base, px as int, py as int);
                }
                self.put_px(px, py);
                return Ok(());
            }
            self.line_px(px, py - radius_y as i64, px, py + radius_y as i64);
            return Ok(());
        }
        if radius_y == 0 {
            self.line_px(px - radius_x as i64, py, px + radius_x as i64, py);
            return Ok(());
        }
        let rx: i64 = radius_x as i64;
        let ry: i64 = radius_y as i64;

        // First mirrored point at the top of the minor axis, before scaling.
        let ghost full = ellipse_trace(p, rx as int, ry as int, filled);
        let ghost c = ell_ctx(p, rx as int, ry as int, filled);
        let ghost first = quadrants_trace_xy(px as int, py as int, 0, ry as int, filled);
        self.draw_quadrants(p, Point { x: 0, y: radius_y as i32 }, filled)?;

        // Overscan factor and scaled radii.
        let o: i64;
        let rxi: i64;
        let ryi: i64;
        if rx >= 512 || ry >= 512 {
            o = 1;
            rxi = rx;
            ryi = ry;
        } else if rx >= 256 || ry >= 256 {
            o = 2;
            rxi = rx * 2;
            ryi = ry * 2;
        } else {
            o = 4;
            rxi = rx * 4;
            ryi = ry * 4;
        }
        proof {
            assert(1 <= rxi <= 32767 && 1 <= ryi <= 32767);
            assert(rxi * rxi <= 32767 * 32767 && ryi * ryi <= 32767 * 32767 && 1 <= rxi * rxi
                && 1 <= ryi * ryi) by (nonlinear_arith)
                requires
                    1 <= rxi <= 32767,
                    1 <= ryi <= 32767,
            ;
        }
        let rx2: i64 = rxi * rxi;
        let ry2: i64 = ryi * ryi;
        let rx22: i64 = 2 * rx2;
        let ry22: i64 = 2 * ry2;
        proof {
            assert(ell_ctx_wf(c));
            assert(c.o == o as int && c.rxi == rxi as int && c.ryi == ryi as int && c.rx2
                == rx2 as int && c.ry2 == ry2 as int && c.rx22 == rx22 as int && c.ry22
                == ry22 as int);
            assert((rx22 as int) * (ryi as int) <= 0x8000_0000 * 0x8000) by (nonlinear_arith)
                requires
                    0 <= rx22 as int <= 0x8000_0000,
                    0 <= ryi as int <= 0x8000,
            ;
            assert((rx2 as int) * (ryi as int) <= 0x4000_0000 * 0x8000) by (nonlinear_arith)
                requires
                    0 <= rx2 as int <= 0x4000_0000,
                    0 <= ryi as int <= 0x8000,
            ;
        }
        let mut cur_x: i64 = 0;
        let mut cur_y: i64 = ryi;
        let mut del_x: i128 = 0;
        let mut del_y: i128 = (rx22 as i128) * (cur_y as i128);
        let mut err: i128 = (ry2 as i128) - (rx2 as i128) * (ryi as i128) + ((rx2 as u64
            / 4) as i128);
        let mut old_x: i64 = 0;
        let mut old_y: i64 = 0;
        let mut src_x: i64 = 0;
        let ghost r1 = region1(c, ell_init(c));
        let ghost target1 = first + r1.0;
        let ghost mut done: Seq<(int, int)> = first;
        proof {
            assert(err as int == ell_init(c).err);
        }

        // Region 1: step along x while the boundary slope is at most one.
        while del_x <= del_y
            invariant
                self@.wf(),
                self@ == base.paint(done),
                base == old(self)@.brush(color),
                ell_ctx_wf(c),
                c.px == px as int,
                c.py == py as int,
                c.o == o as int,
                c.rxi == rxi as int,
                c.ryi == ryi as int,
                c.rx2 == rx2 as int,
                c.ry2 == ry2 as int,
                c.rx22 == rx22 as int,
                c.ry22 == ry22 as int,
                c.filled == filled,
                1 <= c.rx2 <= 0x4000_0000,
                1 <= c.ry2 <= 0x4000_0000,
                px == p.x as int,
                py == p.y as int,
                1 <= o <= 4,
                0 <= cur_x && cur_x as int <= c.rx2 + 1,
                cur_x == 0 ==> cur_y == ryi,
                0 <= cur_y <= ryi,
                del_x as int == c.ry22 * cur_x as int,
                del_y as int == c.rx22 * cur_y as int,
                del_x as int <= c.rx22 * c.ryi + c.ry22,
                -0x4_0000_0000_0000 * (cur_x as int + 1) <= err as int <= 0x4_0000_0000_0000 * (
                cur_x as int + 1),
                0 <= old_x <= cur_x,
                0 <= old_y <= ryi,
                src_x as int == cur_x as int / c.o,
                done + region1(
                    c,
                    (EllState {
                        cur_x: cur_x as int,
                        cur_y: cur_y as int,
                        dx: del_x as int,
                        dy: del_y as int,
                        err: err as int,
                        old_x: old_x as int,
                        old_y: old_y as int,
                    }),
                ).0 == target1,
                region1(
                    c,
                    (EllState {
                        cur_x: cur_x as int,
                        cur_y: cur_y as int,
                        dx: del_x as int,
                        dy: del_y as int,
                        err: err as int,
                        old_x: old_x as int,
                        old_y: old_y as int,
                    }),
                ).1 == r1.1,
            decreases c.rx2 + 2 - cur_x as int,
        {
            let ghost st = EllState {
                cur_x: cur_x as int,
                cur_y: cur_y as int,
                dx: del_x as int,
                dy: del_y as int,
                err: err as int,
                old_x: old_x as int,
                old_y: old_y as int,
            };
            proof {
                assert(c.ry22 * (cur_x as int + 1) == c.ry22 * cur_x as int + c.ry22
                    && c.rx22 * (cur_y as int - 1) == c.rx22 * cur_y as int - c.rx22
                    && c.rx22 * cur_y as int <= c.rx22 * c.ryi) by (nonlinear_arith)
                    requires
                        0 <= c.rx22,
                        cur_y as int <= c.ryi,
                ;
                assert(0 <= c.rx22 * cur_y as int && c.rx22 * cur_y as int <= 0x4000_0000_0000
                    && 0 <= c.ry22 * cur_x as int && c.ry22 * (cur_x as int + 1)
                    <= 0x4000_0000_0000_0000 && c.rx22 * c.ryi <= 0x4000_0000_0000)
                    by (nonlinear_arith)
                    requires
                        0 <= c.rx22 <= 0x8000_0000,
                        0 <= c.ry22 <= 0x8000_0000,
                        0 <= cur_y as int <= 0x8000,
                        0 <= cur_x as int <= 0x4000_0001,
                        1 <= c.ryi <= 0x8000,
                ;
                if cur_x >= 1 {
                    assert(cur_y as int >= 1) by (nonlinear_arith)
                        requires
                            c.ry22 * cur_x as int <= c.rx22 * cur_y as int,
                            1 <= cur_x as int,
                            2 <= c.ry22,
                            0 <= c.rx22,
                            0 <= cur_y as int,
                    ;
                }
                assert(cur_y >= 1);
            }
            cur_x = cur_x + 1;
            del_x = del_x + ry22 as i128;
            err = err + del_x + ry2 as i128;
            if err >= 0 {
                cur_y = cur_y - 1;
                del_y = del_y - rx22 as i128;
                err = err - del_y;
            }
            proof {
                assert(cur_x as int <= c.rx2 + 1) by (nonlinear_arith)
                    requires
                        c.ry22 * cur_x as int <= c.rx22 * c.ryi + c.ry22,
                        c.rx22 == 2 * c.rx2,
                        c.ry22 == 2 * c.ry2,
                        c.rx2 == c.rxi * c.rxi,
                        c.ry2 == c.ryi * c.ryi,
                        1 <= c.rxi <= 32767,
                        1 <= c.ryi <= 32767,
                        0 <= cur_x as int,
                ;
            }
            src_x = crate::intmath::div_small(cur_x, o);
            let src_y: i64 = crate::intmath::div_small(cur_y, o);
            let ghost nxt = EllState {
                cur_x: cur_x as int,
                cur_y: cur_y as int,
                dx: del_x as int,
                dy: del_y as int,
                err: err as int,
                old_x: if src_x as int != st.old_x {
                    src_x as int
                } else {
                    st.old_x
                },
                old_y: if src_x as int != st.old_x {
                    src_y as int
                } else {
                    st.old_y
                },
            };
            let ghost emit = if src_x as int != st.old_x {
                quadrants_trace_xy(c.px, c.py, src_x as int, src_y as int, c.filled)
            } else {
                Seq::<(int, int)>::empty()
            };
            proof {
                assert(region1(c, st).0 == emit + region1(c, nxt).0 && region1(c, st).1
                    == region1(c, nxt).1);
            }
            if src_x != old_x {
                self.draw_quadrants(p, Point { x: src_x as i32, y: src_y as i32 }, filled)?;
                proof {
                    lemma_paint_concat(base, done, emit);
                    done = done + emit;
                    assert(done + region1(c, nxt).0 =~= target1);
                }
                old_x = src_x;
                old_y = src_y;
            } else {
                proof {
                    assert(emit =~= Seq::<(int, int)>::empty());
                    assert(emit + region1(c, nxt).0 =~= region1(c, nxt).0);
                }
            }
        }
        proof {
            assert(done =~= target1);
        }
        let ghost s1 = r1.1;
        assert(cur_x as int == s1.cur_x && cur_y as int == s1.cur_y && del_x as int == s1.dx
            && del_y as int == s1.dy && old_x as int == s1.old_x && old_y as int == s1.old_y);

        if cur_y > 0 {
            // Region 2: the error term is reinitialized with 32-bit
            // wrapping arithmetic, then the generator steps down along y.
            let e2 = region2_err_init_px(rx2, ry2, cur_x, cur_y);
            err = e2 as i128;
            let ghost r2 = region2(
                c,
                EllState {
                    cur_x: s1.cur_x,
                    cur_y: s1.cur_y,
                    dx: s1.dx,
                    dy: s1.dy,
                    err: err as int,
                    old_x: s1.old_x,
                    old_y: s1.old_y,
                },
            );
            let ghost target2 = target1 + r2.0;
            while cur_y > 0
                invariant
                    self@.wf(),
                    self@ == base.paint(done),
                    base == old(self)@.brush(color),
                    ell_ctx_wf(c),
                    c.px == px as int,
                    c.py == py as int,
                    c.o == o as int,
                    c.rxi == rxi as int,
                    c.ryi == ryi as int,
                    c.rx2 == rx2 as int,
                    c.ry2 == ry2 as int,
                    c.rx22 == rx22 as int,
                    c.ry22 == ry22 as int,
                    c.filled == filled,
                    1 <= c.rx2 <= 0x4000_0000,
                    1 <= c.ry2 <= 0x4000_0000,
                    px == p.x as int,
                    py == p.y as int,
                    1 <= o <= 4,
                    0 <= cur_x && cur_x as int + cur_y as int <= c.rx2 + 1 + c.ryi,
                    0 <= cur_y <= ryi,
                    del_x as int == c.ry22 * cur_x as int,
                    del_y as int == c.rx22 * cur_y as int,
                    -0x8000_0000 - (ryi as int - cur_y as int) * 0x1_0000_0000_0000_0000
                        <= err as int,
                    err as int <= 0x8000_0000 + (ryi as int - cur_y as int)
                        * 0x1_0000_0000_0000_0000,
                    0 <= old_x,
                    old_x as int <= c.rx2 + 1 + c.ryi,
                    0 <= old_y <= ryi,
                    src_x as int == cur_x as int / c.o,
                    done + region2(
                        c,
                        (EllState {
                            cur_x: cur_x as int,
                            cur_y: cur_y as int,
                            dx: del_x as int,
                            dy: del_y as int,
                            err: err as int,
                            old_x: old_x as int,
                            old_y: old_y as int,
                        }),
                    ).0 == target2,
                    region2(
                        c,
                        (EllState {
                            cur_x: cur_x as int,
                            cur_y: cur_y as int,
                            dx: del_x as int,
                            dy: del_y as int,
                            err: err as int,
                            old_x: old_x as int,
                            old_y: old_y as int,
                        }),
                    ).1 == r2.1,
                decreases cur_y,
            {
                let ghost st = EllState {
                    cur_x: cur_x as int,
                    cur_y: cur_y as int,
                    dx: del_x as int,
                    dy: del_y as int,
                    err: err as int,
                    old_x: old_x as int,
                    old_y: old_y as int,
                };
                proof {
                    assert(c.ry22 * (cur_x as int + 1) == c.ry22 * cur_x as int + c.ry22
                        && c.rx22 * (cur_y as int - 1) == c.rx22 * cur_y as int - c.rx22)
                        by (nonlinear_arith)
                    ;
                    assert(0 <= c.ry22 * cur_x as int && c.ry22 * (cur_x as int + 1)
                        <= 0x4000_0000_0000_0000 && c.rx22 * cur_y as int <= 0x4000_0000_0000
                        && 0 <= c.rx22 * cur_y as int) by (nonlinear_arith)
                        requires
                            0 <= cur_x as int <= c.rx2 + 1 + c.ryi,
                            0 <= cur_y as int <= 0x8000,
                            0 <= c.ry22 <= 0x8000_0000,
                            0 <= c.rx22 <= 0x8000_0000,
                            c.rx2 + 1 + c.ryi <= 0x4100_0000,
                    ;
                    assert((ryi as int - (cur_y as int - 1)) * 0x1_0000_0000_0000_0000 == (
                    ryi as int - cur_y as int) * 0x1_0000_0000_0000_0000 + 0x1_0000_0000_0000_0000
                        && 0 <= (ryi as int - cur_y as int) * 0x1_0000_0000_0000_0000
                        <= 0x8000 * 0x1_0000_0000_0000_0000) by (nonlinear_arith)
                        requires
                            0 <= ryi as int - cur_y as int <= 0x8000,
                    ;
                }
                cur_y = cur_y - 1;
                del_y = del_y - rx22 as i128;
                err = err + rx2 as i128 - del_y;
                if err <= 0 {
                    cur_x = cur_x + 1;
                    del_x = del_x + ry22 as i128;
                    err = err + del_x;
                }
                src_x = crate::intmath::div_small(cur_x, o);
                let src_y: i64 = crate::intmath::div_small(cur_y, o);
                let ghost nxt = EllState {
                    cur_x: cur_x as int,
                    cur_y: cur_y as int,
                    dx: del_x as int,
                    dy: del_y as int,
                    err: err as int,
                    old_x: if src_x as int != st.old_x {
                        src_x as int
                    } else {
                        st.old_x
                    },
                    old_y: if src_x as int != st.old_x {
                        src_y as int
                    } else {
                        st.old_y
                    },
                };
                let ghost emit = if src_x as int != st.old_x {
                    r2_emit(c, src_x as int, src_y as int, st.old_y - 1)
                } else {
                    Seq::<(int, int)>::empty()
                };
                proof {
                    assert(region2(c, st).0 == emit + region2(c, nxt).0 && region2(c, st).1
                        == region2(c, nxt).1);
                }
                if src_x != old_x {
                    let ghost before = done;
                    if filled {
                        if old_y - 1 >= src_y {
                            let ghost q = quadrants_trace_xy(
                                c.px,
                                c.py,
                                src_x as int,
                                old_y as int - 1,
                                c.filled,
                            );
                            proof {
                                assert(emit == q);
                                lemma_paint_concat(base, done, q);
                                done = done + q;
                            }
                            self.draw_quadrants(
                                p,
                                Point { x: src_x as i32, y: (old_y - 1) as i32 },
                                filled,
                            )?;
                        } else {
                            proof {
                                assert(emit =~= Seq::<(int, int)>::empty());
                            }
                        }
                    } else {
                        let mut yy: i64 = old_y - 1;
                        let ghost etarget = before + emit;
                        while yy >= src_y
                            invariant
                                self@.wf(),
                                self@ == base.paint(done),
                                base == old(self)@.brush(color),
                                c.px == px as int,
                                c.py == py as int,
                                c.filled == filled,
                                !filled,
                                px == p.x as int,
                                py == p.y as int,
                                0 <= src_y <= 0x8000,
                                -0x8001 <= yy <= 0x8000,
                                0 <= src_x <= 0x4200_0000,
                                done + r2_emit(c, src_x as int, src_y as int, yy as int)
                                    == etarget,
                            decreases yy - src_y + 1,
                        {
                            let ghost q = quadrants_trace_xy(
                                c.px,
                                c.py,
                                src_x as int,
                                yy as int,
                                c.filled,
                            );
                            proof {
                                assert(r2_emit(c, src_x as int, src_y as int, yy as int) == q
                                    + r2_emit(c, src_x as int, src_y as int, yy as int - 1));
                                lemma_paint_concat(base, done, q);
                                done = done + q;
                                assert(done + r2_emit(c, src_x as int, src_y as int, yy as int
                                    - 1) =~= etarget);
                            }
                            self.draw_quadrants(p, Point { x: src_x as i32, y: yy as i32 }, filled)?;
                            yy = yy - 1;
                        }
                        proof {
                            assert(r2_emit(c, src_x as int, src_y as int, yy as int)
                                =~= Seq::<(int, int)>::empty());
                            assert(done =~= etarget);
                        }
                    }
                    old_x = src_x;
                    old_y = src_y;
                    proof {
                        assert(done =~= before + emit);
                        assert(done + region2(c, nxt).0 =~= target2);
                    }
                } else {
                    proof {
                        assert(emit + region2(c, nxt).0 =~= region2(c, nxt).0);
                    }
                }
            }
            proof {
                assert(done =~= target2);
            }
            let ghost s2 = r2.1;
            assert(cur_x as int == s2.cur_x && old_y as int == s2.old_y && src_x as int
                == s2.cur_x / c.o);

            // Remaining vertical spans of filled mode.
            if filled {
                let ghost tf = tail_fill(c, src_x as int, old_y as int - 1);
                let ghost target3 = target2 + tf;
                let mut i: i64 = old_y - 1;
                while i <= 0
                    invariant
                        self@.wf(),
                        self@ == base.paint(done),
                        base == old(self)@.brush(color),
                        c.px == px as int,
                        c.py == py as int,
                        c.filled == filled,
                        filled,
                        px == p.x as int,
                        py == p.y as int,
                        -0x8000 <= i <= 0x8000,
                        0 <= src_x <= 0x4200_0000,
                        done + tail_fill(c, src_x as int, i as int) == target3,
                    decreases 1 - i,
                {
                    let ghost q = quadrants_trace_xy(c.px, c.py, src_x as int, i as int, c.filled);
                    proof {
                        assert(tail_fill(c, src_x as int, i as int) == q + tail_fill(
                            c,
                            src_x as int,
                            i as int + 1,
                        ));
                        lemma_paint_concat(base, done, q);
                        done = done + q;
                        assert(done + tail_fill(c, src_x as int, i as int + 1) =~= target3);
                    }
                    self.draw_quadrants(p, Point { x: src_x as i32, y: i as i32 }, filled)?;
                    i = i + 1;
                }
                proof {
                    assert(tail_fill(c, src_x as int, i as int) =~= Seq::<(int, int)>::empty());
                    assert(done =~= target3);
                    assert(full == target3);
                }
            } else {
                proof {
                    assert(full == target2);
                }
            }
        } else {
            proof {
                assert(full == target1);
            }
        }
        assert(self@ == base.paint(full));
        Ok(())
    }

    /// Draws the filled circle of radius `rad` around `p`: the filled
    /// ellipse with both radii equal to `rad`.
    pub fn filled_circle(&mut self, p: Point, rad: i16, color: Color) -> (r: Result<(), DrawError>)
        requires
            old(self)@.wf(),
        ensures
            rad < 0 ==> r == Err::<(), DrawError>(DrawError::InvalidParameter) && final(self)@
                == old(self)@,
            rad >= 0 ==> r is Ok && final(self)@ == old(self)@.brush(color).paint(
                ellipse_trace(p, rad as int, rad as int, true),
            ),
            final(self)@.wf(),
    {
        self.ellipse(p, rad, rad, color, true)
    }
}

} // verus!
