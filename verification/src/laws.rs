//! Laws that relate the drawing operations: facts that hold of every
//! trace, stated over the same views and trace functions the operations'
//! own contracts use.

use crate::canvas::{line_interp, line_trace, CanvasView};
use crate::types::{apply_blend, BlendMode, Color, Point};
use vstd::arithmetic::div_mod::lemma_basic_div;
use vstd::arithmetic::div_mod::lemma_fundamental_div_mod_converse;
use vstd::math::abs;
use vstd::math::max;
use vstd::prelude::*;

verus! {

/// Trace entry `p` lands on pixel index `i` of a `width` by `height` grid.
pub open spec fn on_pixel(p: (int, int), i: int, width: int, height: int) -> bool {
    &&& 0 <= p.0 < width
    &&& 0 <= p.1 < height
    &&& p.1 * width + p.0 == i
}

/// Some entry of trace `t` lands on pixel index `i`.
pub open spec fn covers(t: Seq<(int, int)>, i: int, width: int, height: int) -> bool {
    exists|k: int| 0 <= k < t.len() && on_pixel(#[trigger] t[k], i, width, height)
}

/// Painting under the overwriting blend mode sets every covered pixel to
/// the draw color and leaves every other pixel alone.
pub proof fn lemma_paint_overwrite_char(v: CanvasView, t: Seq<(int, int)>)
    requires
        v.wf(),
        v.mode == BlendMode::Overwrite,
    ensures
        forall|i: int|
            0 <= i < v.pixels.len() ==> #[trigger] v.paint(t).pixels[i] == (if covers(
                t,
                i,
                v.width,
                v.height,
            ) {
                v.color
            } else {
                v.pixels[i]
            }),
    decreases t.len(),
{
    crate::canvas::lemma_paint_meta(v, t);
    if t.len() == 0 {
        assert(v.paint(t) == v);
        assert(forall|i: int| !covers(t, i, v.width, v.height));
    } else {
        let p = t[0];
        let v1 = v.put(p.0, p.1);
        let rest = t.drop_first();
        assert(v.paint(t) == v1.paint(rest));
        crate::canvas::lemma_put_meta(v, p.0, p.1);
        lemma_paint_overwrite_char(v1, rest);
        assert forall|i: int| 0 <= i < v.pixels.len() implies #[trigger] v.paint(t).pixels[i] == (
        if covers(t, i, v.width, v.height) {
            v.color
        } else {
            v.pixels[i]
        }) by {
            if covers(rest, i, v.width, v.height) {
                let k = choose|k: int|
                    0 <= k < rest.len() && on_pixel(#[trigger] rest[k], i, v.width, v.height);
                assert(t[k + 1] == rest[k]);
                assert(on_pixel(t[k + 1], i, v.width, v.height));
                assert(covers(t, i, v.width, v.height));
            } else if v.in_bounds(p.0, p.1) && v.idx(p.0, p.1) == i {
                assert(on_pixel(t[0], i, v.width, v.height)) by {
                    crate::canvas::lemma_idx_in_range(v, p.0, p.1);
                }
                assert(covers(t, i, v.width, v.height));
                assert(v1.pixels[i] == v.color);
            } else {
                if v.in_bounds(p.0, p.1) {
                    crate::canvas::lemma_idx_in_range(v, p.0, p.1);
                    assert(v1.pixels[i] == v.pixels[i]);
                } else {
                    assert(v1 == v);
                }
                if covers(t, i, v.width, v.height) {
                    let k = choose|k: int|
                        0 <= k < t.len() && on_pixel(#[trigger] t[k], i, v.width, v.height);
                    if k == 0 {
                        assert(p.1 * v.width + p.0 == i && 0 <= p.0 < v.width && 0 <= p.1
                            < v.height);
                        assert(v.in_bounds(p.0, p.1) && v.idx(p.0, p.1) == i);
                        assert(false);
                    } else {
                        assert(rest[k - 1] == t[k]);
                        assert(covers(rest, i, v.width, v.height));
                        assert(false);
                    }
                }
            }
        }
    }
}

/// Issuing the same trace twice under the same opaque color leaves the
/// canvas exactly as issuing it once: opaque colors select the
/// overwriting blend mode, whose writes are idempotent. Every drawing
/// operation's contract has the form `brush` then `paint`, so this is
/// idempotence of any drawing call with an opaque color.
pub proof fn lemma_opaque_draw_idempotent(v: CanvasView, c: Color, t: Seq<(int, int)>)
    requires
        v.wf(),
        c.a == 255,
    ensures
        v.brush(c).paint(t).brush(c).paint(t) == v.brush(c).paint(t),
{
    let w = v.brush(c);
    let w1 = w.paint(t);
    assert(w.wf() && w.mode == BlendMode::Overwrite && w.color == c);
    crate::canvas::lemma_paint_meta(w, t);
    assert(w1.brush(c) =~= w1);
    lemma_paint_overwrite_char(w, t);
    lemma_paint_overwrite_char(w1, t);
    assert forall|i: int| 0 <= i < w1.pixels.len() implies #[trigger] w1.paint(t).pixels[i]
        == w1.pixels[i] by {
        if covers(t, i, w1.width, w1.height) {
            assert(w1.pixels[i] == w.color);
        }
    }
    assert(w1.paint(t).pixels =~= w1.pixels) by {
        crate::canvas::lemma_paint_meta(w1, t);
    }
    assert(w1.paint(t) =~= w1) by {
        crate::canvas::lemma_paint_meta(w1, t);
    }
}

/// Two trace entries on the same pixel index of one grid are the same
/// coordinate pair: row-major indexing is injective.
pub proof fn lemma_on_pixel_injective(p: (int, int), q: (int, int), i: int, width: int, height: int)
    requires
        on_pixel(p, i, width, height),
        on_pixel(q, i, width, height),
    ensures
        p == q,
{
    lemma_fundamental_div_mod_converse(i, width, p.1, p.0);
    lemma_fundamental_div_mod_converse(i, width, q.1, q.0);
}

/// No two entries of `t` are the same coordinate pair.
pub open spec fn distinct_coords(t: Seq<(int, int)>) -> bool {
    forall|k1: int, k2: int|
        0 <= k1 < k2 < t.len() ==> #[trigger] t[k1] != #[trigger] t[k2]
}

/// Painting a trace whose coordinates are pairwise distinct composites
/// every covered pixel exactly once and leaves every other pixel alone —
/// under any blend mode.
pub proof fn lemma_paint_distinct_char(v: CanvasView, t: Seq<(int, int)>)
    requires
        v.wf(),
        distinct_coords(t),
    ensures
        forall|i: int|
            0 <= i < v.pixels.len() ==> #[trigger] v.paint(t).pixels[i] == (if covers(
                t,
                i,
                v.width,
                v.height,
            ) {
                apply_blend(v.pixels[i], v.color, v.mode)
            } else {
                v.pixels[i]
            }),
    decreases t.len(),
{
    crate::canvas::lemma_paint_meta(v, t);
    if t.len() == 0 {
        assert(v.paint(t) == v);
        assert(forall|i: int| !covers(t, i, v.width, v.height));
    } else {
        let p = t[0];
        let v1 = v.put(p.0, p.1);
        let rest = t.drop_first();
        assert(v.paint(t) == v1.paint(rest));
        crate::canvas::lemma_put_meta(v, p.0, p.1);
        assert(distinct_coords(rest)) by {
            assert(forall|k1: int, k2: int|
                0 <= k1 < k2 < rest.len() ==> #[trigger] rest[k1] != #[trigger] rest[k2]) by {
                assert(forall|k: int| 0 <= k < rest.len() ==> #[trigger] rest[k] == t[k + 1]);
            }
        }
        lemma_paint_distinct_char(v1, rest);
        assert forall|i: int| 0 <= i < v.pixels.len() implies #[trigger] v.paint(t).pixels[i] == (
        if covers(t, i, v.width, v.height) {
            apply_blend(v.pixels[i], v.color, v.mode)
        } else {
            v.pixels[i]
        }) by {
            if v.in_bounds(p.0, p.1) {
                crate::canvas::lemma_idx_in_range(v, p.0, p.1);
            }
            if covers(rest, i, v.width, v.height) {
                let k = choose|k: int|
                    0 <= k < rest.len() && on_pixel(#[trigger] rest[k], i, v.width, v.height);
                assert(t[k + 1] == rest[k]);
                assert(covers(t, i, v.width, v.height));
                // the head cannot hit the same pixel as a later entry
                if v.in_bounds(p.0, p.1) && v.idx(p.0, p.1) == i {
                    assert(on_pixel(t[0], i, v.width, v.height));
                    lemma_on_pixel_injective(t[0], t[k + 1], i, v.width, v.height);
                    assert(false);
                }
                assert(v1.pixels[i] == v.pixels[i]);
            } else if v.in_bounds(p.0, p.1) && v.idx(p.0, p.1) == i {
                assert(on_pixel(t[0], i, v.width, v.height));
                assert(covers(t, i, v.width, v.height));
                assert(v1.pixels[i] == apply_blend(v.pixels[i], v.color, v.mode));
                assert(v.paint(t).pixels[i] == v1.pixels[i]);
            } else {
                if v.in_bounds(p.0, p.1) {
                    assert(v1.pixels[i] == v.pixels[i]);
                } else {
                    assert(v1 == v);
                }
                if covers(t, i, v.width, v.height) {
                    let k = choose|k: int|
                        0 <= k < t.len() && on_pixel(#[trigger] t[k], i, v.width, v.height);
                    if k == 0 {
                        assert(v.in_bounds(p.0, p.1) && v.idx(p.0, p.1) == i);
                        assert(false);
                    } else {
                        assert(rest[k - 1] == t[k]);
                        assert(covers(rest, i, v.width, v.height));
                        assert(false);
                    }
                }
            }
        }
    }
}

/// Along an axis the line interpolation steps one pixel per index.
pub proof fn lemma_line_interp_axis(i: int, d: int, n: int)
    requires
        0 <= i <= n,
        d == n || d == -n || d == 0,
    ensures
        d == n ==> line_interp(i, d, n) == i,
        d == -n ==> line_interp(i, d, n) == -i,
        d == 0 ==> line_interp(i, d, n) == 0,
{
    if n == 0 {
    } else {
        if d == n {
            assert(2 * i * n + n == i * (2 * n) + n) by (nonlinear_arith);
            lemma_fundamental_div_mod_converse(2 * i * n + n, 2 * n, i, n);
        }
        if d == -n {
            assert(2 * i * (-n) + n == (-i) * (2 * n) + n) by (nonlinear_arith);
            lemma_fundamental_div_mod_converse(2 * i * (-n) + n, 2 * n, -i, n);
        }
        if d == 0 {
            assert(2 * i * 0 + n == n) by (nonlinear_arith);
            lemma_basic_div(n, 2 * n);
        }
    }
}

/// A horizontal segment visits row `y` only, stepping one column per
/// index from `x1` toward `x2`.
pub proof fn lemma_hline_trace(x1: int, x2: int, y: int)
    ensures
        line_trace(x1, y, x2, y).len() == abs(x2 - x1) + 1,
        forall|i: int|
            0 <= i <= abs(x2 - x1) ==> #[trigger] line_trace(x1, y, x2, y)[i] == (x1 + (if x2 >= x1 {
                i
            } else {
                -i
            }), y),
{
    let n = abs(x2 - x1) as int;
    assert forall|i: int| 0 <= i <= n implies #[trigger] line_trace(x1, y, x2, y)[i] == (x1 + (
    if x2 >= x1 {
        i
    } else {
        -i
    }), y) by {
        lemma_line_interp_axis(i, x2 - x1, n);
        lemma_line_interp_axis(i, 0, n);
    }
}

/// A vertical segment visits column `x` only, stepping one row per index
/// from `y1` toward `y2`.
pub proof fn lemma_vline_trace(x: int, y1: int, y2: int)
    ensures
        line_trace(x, y1, x, y2).len() == abs(y2 - y1) + 1,
        forall|i: int|
            0 <= i <= abs(y2 - y1) ==> #[trigger] line_trace(x, y1, x, y2)[i] == (x, y1 + (if y2
                >= y1 {
                i
            } else {
                -i
            })),
{
    let n = abs(y2 - y1) as int;
    assert forall|i: int| 0 <= i <= n implies #[trigger] line_trace(x, y1, x, y2)[i] == (x, y1 + (
    if y2 >= y1 {
        i
    } else {
        -i
    })) by {
        lemma_line_interp_axis(i, y2 - y1, n);
        lemma_line_interp_axis(i, 0, n);
    }
}

/// Painting an axis-aligned segment in one direction or the other leaves
/// the same canvas: the two traces visit the same pixels, each once.
pub proof fn lemma_paint_axis_line_reverse(v: CanvasView, x1: int, y1: int, x2: int, y2: int)
    requires
        v.wf(),
        x1 == x2 || y1 == y2,
    ensures
        v.paint(line_trace(x1, y1, x2, y2)) == v.paint(line_trace(x2, y2, x1, y1)),
{
    let fwd = line_trace(x1, y1, x2, y2);
    let rev = line_trace(x2, y2, x1, y1);
    if x1 == x2 && y1 == y2 {
        assert(fwd =~= rev) by {
            lemma_vline_trace(x1, y1, y2);
            lemma_vline_trace(x2, y2, y1);
        }
    } else if x1 == x2 {
        lemma_vline_trace(x1, y1, y2);
        lemma_vline_trace(x2, y2, y1);
        let n = abs(y2 - y1) as int;
        assert(distinct_coords(fwd));
        assert(distinct_coords(rev));
        assert forall|i: int| 0 <= i < v.pixels.len() implies covers(fwd, i, v.width, v.height)
            == covers(rev, i, v.width, v.height) by {
            if covers(fwd, i, v.width, v.height) {
                let k = choose|k: int|
                    0 <= k < fwd.len() && on_pixel(#[trigger] fwd[k], i, v.width, v.height);
                assert(rev[n - k] == fwd[k]);
                assert(on_pixel(rev[n - k], i, v.width, v.height));
            }
            if covers(rev, i, v.width, v.height) {
                let k = choose|k: int|
                    0 <= k < rev.len() && on_pixel(#[trigger] rev[k], i, v.width, v.height);
                assert(fwd[n - k] == rev[k]);
                assert(on_pixel(fwd[n - k], i, v.width, v.height));
            }
        }
        lemma_paint_distinct_char(v, fwd);
        lemma_paint_distinct_char(v, rev);
        crate::canvas::lemma_paint_meta(v, fwd);
        crate::canvas::lemma_paint_meta(v, rev);
        assert(v.paint(fwd) =~= v.paint(rev));
    } else {
        lemma_hline_trace(x1, x2, y1);
        lemma_hline_trace(x2, x1, y2);
        let n = abs(x2 - x1) as int;
        assert(distinct_coords(fwd));
        assert(distinct_coords(rev));
        assert forall|i: int| 0 <= i < v.pixels.len() implies covers(fwd, i, v.width, v.height)
            == covers(rev, i, v.width, v.height) by {
            if covers(fwd, i, v.width, v.height) {
                let k = choose|k: int|
                    0 <= k < fwd.len() && on_pixel(#[trigger] fwd[k], i, v.width, v.height);
                assert(rev[n - k] == fwd[k]);
                assert(on_pixel(rev[n - k], i, v.width, v.height));
            }
            if covers(rev, i, v.width, v.height) {
                let k = choose|k: int|
                    0 <= k < rev.len() && on_pixel(#[trigger] rev[k], i, v.width, v.height);
                assert(fwd[n - k] == rev[k]);
                assert(on_pixel(fwd[n - k], i, v.width, v.height));
            }
        }
        lemma_paint_distinct_char(v, fwd);
        lemma_paint_distinct_char(v, rev);
        crate::canvas::lemma_paint_meta(v, fwd);
        crate::canvas::lemma_paint_meta(v, rev);
        assert(v.paint(fwd) =~= v.paint(rev));
    }
}

/// A filled box is independent of the order its two corners are given
/// in: both orders paint the same pixels to the same final canvas.
pub proof fn lemma_box_order_independent(v: CanvasView, a: Point, b: Point, c: Color)
    requires
        v.wf(),
    ensures
        v.brush(c).paint(crate::rect::box_trace(a, b)) == v.brush(c).paint(
            crate::rect::box_trace(b, a),
        ),
{
    let w = v.brush(c);
    if a.x == b.x && a.y == b.y {
        assert(crate::rect::box_trace(a, b) =~= crate::rect::box_trace(b, a));
    } else if a.x == b.x {
        lemma_paint_axis_line_reverse(w, a.x as int, a.y as int, b.x as int, b.y as int);
    } else if a.y == b.y {
        lemma_paint_axis_line_reverse(w, a.x as int, a.y as int, b.x as int, b.y as int);
    } else {
        assert(crate::rect::box_trace(a, b) =~= crate::rect::box_trace(b, a));
    }
}

/// An ellipse with both radii zero writes exactly one pixel, at its
/// center.
pub proof fn lemma_ellipse_point(v: CanvasView, p: Point, c: Color, filled: bool)
    requires
        v.wf(),
    ensures
        crate::ellipse::ellipse_trace(p, 0, 0, filled) == seq![(p.x as int, p.y as int)],
        v.brush(c).paint(crate::ellipse::ellipse_trace(p, 0, 0, filled)) == v.brush(c).put(
            p.x as int,
            p.y as int,
        ),
{
    crate::canvas::lemma_paint_single(v.brush(c), p.x as int, p.y as int);
}

/// For radius zero, an arc over any angles and an ellipse outline write
/// the same single pixel: both collapse to the center.
pub proof fn lemma_arc_zero_matches_ellipse(p: Point, start: int, end: int)
    ensures
        crate::arc::arc_trace(p, 0, start, end) == crate::ellipse::ellipse_trace(p, 0, 0, false),
{
}

/// A zero-length thick line of width `w` fills an axis-aligned square
/// block: `w + w/2 + 1` pixels on a side, with its top-left corner at the
/// point minus `w/2` on both axes.
pub proof fn lemma_thick_line_zero_length(p: Point, w: int)
    requires
        w >= 1,
    ensures
        crate::thick::thick_line_trace(p, p, w) == crate::canvas::rect_trace(
            p.x as int - w / 2,
            p.y as int - w / 2,
            w + w / 2 + 1,
            w + w / 2 + 1,
        ),
{
}

/// The scanline filler touches no row outside the polygon's vertical
/// vertex range: every painted pixel lies between the lowest and the
/// highest vertex row, inclusive.
pub proof fn lemma_polygon_rows_bounded(vs: Seq<Point>)
    requires
        vs.len() >= 1,
    ensures
        forall|k: int|
            0 <= k < crate::polygon::polygon_trace(vs).len() ==> crate::polygon::poly_min_y(
                vs,
                vs.len() as int,
            ) <= (#[trigger] crate::polygon::polygon_trace(vs)[k]).1 <= crate::polygon::poly_max_y(
                vs,
                vs.len() as int,
            ),
{
    let lo = crate::polygon::poly_min_y(vs, vs.len() as int);
    let hi = crate::polygon::poly_max_y(vs, vs.len() as int);
    lemma_rows_trace_bounded(vs, lo, hi);
}

/// Trace `t` writes the pixel `(x, y)` at least once.
pub open spec fn trace_hits(t: Seq<(int, int)>, x: int, y: int) -> bool {
    exists|k: int| 0 <= k < t.len() && #[trigger] t[k] == (x, y)
}

/// Column `x` lies inside the filled span of the crossing pair at `j`:
/// between the rounded left end of crossing `j` and the rounded right end
/// of crossing `j + 1` (in either order, as the horizontal line draws
/// them).
pub open spec fn in_span(xs: Seq<int>, j: int, x: int) -> bool {
    let l = crate::polygon::span_left(xs[j]);
    let r = crate::polygon::span_right(xs[j + 1]);
    vstd::math::min(l, r) <= x <= max(l, r)
}

/// A horizontal segment writes exactly the columns between its two ends.
proof fn lemma_hline_hits(x1: int, x2: int, y: int, x: int, yq: int)
    ensures
        trace_hits(line_trace(x1, y, x2, y), x, yq) == (yq == y && vstd::math::min(x1, x2) <= x
            <= max(x1, x2)),
{
    let t = line_trace(x1, y, x2, y);
    lemma_hline_trace(x1, x2, y);
    let n = abs(x2 - x1) as int;
    if yq == y && vstd::math::min(x1, x2) <= x <= max(x1, x2) {
        let i = if x2 >= x1 {
            x - x1
        } else {
            x1 - x
        };
        assert(0 <= i <= n);
        assert(t[i] == (x, y));
        assert(trace_hits(t, x, yq));
    }
    if trace_hits(t, x, yq) {
        let k = choose|k: int| 0 <= k < t.len() && #[trigger] t[k] == (x, yq);
        assert(t[k] == (x1 + (if x2 >= x1 {
            k
        } else {
            -k
        }), y));
    }
}

/// The spans from pair index `j` on write pixel `(x, y)` exactly when
/// some pair at or after `j` covers column `x`.
proof fn lemma_spans_hits(xs: Seq<int>, y: int, j: int, x: int)
    requires
        0 <= j,
    ensures
        trace_hits(crate::polygon::spans_trace(xs, y, j), x, y) == (exists|m: int|
            0 <= m && j + 2 * m + 1 < xs.len() && #[trigger] in_span(xs, j + 2 * m, x)),
    decreases max(xs.len() - j, 0),
{
    let t = crate::polygon::spans_trace(xs, y, j);
    if j + 1 >= xs.len() {
        assert(!trace_hits(t, x, y)) by {
            assert(t.len() == 0);
        }
        assert(!(exists|m: int|
            0 <= m && j + 2 * m + 1 < xs.len() && #[trigger] in_span(xs, j + 2 * m, x)));
    } else {
        let l = crate::polygon::span_left(xs[j]);
        let r = crate::polygon::span_right(xs[j + 1]);
        let seg = line_trace(l, y, r, y);
        let rest = crate::polygon::spans_trace(xs, y, j + 2);
        assert(t == seg + rest);
        lemma_hline_hits(l, r, y, x, y);
        lemma_spans_hits(xs, y, j + 2, x);
        if trace_hits(t, x, y) {
            let k = choose|k: int| 0 <= k < t.len() && #[trigger] t[k] == (x, y);
            if k < seg.len() {
                assert(seg[k] == (x, y));
                assert(trace_hits(seg, x, y));
                assert(in_span(xs, j, x));
                assert(j + 2 * 0 + 1 < xs.len() && in_span(xs, j + 2 * 0, x));
            } else {
                assert(rest[k - seg.len()] == (x, y));
                assert(trace_hits(rest, x, y));
                let m = choose|m: int|
                    0 <= m && j + 2 + 2 * m + 1 < xs.len() && #[trigger] in_span(
                        xs,
                        j + 2 + 2 * m,
                        x,
                    );
                assert(j + 2 * (m + 1) + 1 < xs.len() && in_span(xs, j + 2 * (m + 1), x));
            }
        }
        if exists|m: int| 0 <= m && j + 2 * m + 1 < xs.len() && #[trigger] in_span(xs, j + 2 * m, x) {
            let m = choose|m: int|
                0 <= m && j + 2 * m + 1 < xs.len() && #[trigger] in_span(xs, j + 2 * m, x);
            if m == 0 {
                assert(trace_hits(seg, x, y));
                let k = choose|k: int| 0 <= k < seg.len() && #[trigger] seg[k] == (x, y);
                assert(t[k] == seg[k]);
                assert(trace_hits(t, x, y));
            } else {
                assert(j + 2 + 2 * (m - 1) + 1 < xs.len() && in_span(xs, j + 2 + 2 * (m - 1), x));
                assert(trace_hits(rest, x, y));
                let k = choose|k: int| 0 <= k < rest.len() && #[trigger] rest[k] == (x, y);
                assert(t[seg.len() + k] == rest[k]);
                assert(trace_hits(t, x, y));
            }
        }
    }
}

/// The rows from `y0` on write pixel `(x, y)` exactly when `y` is one of
/// those rows and its own span list covers column `x`.
proof fn lemma_rows_hits(vs: Seq<Point>, y0: int, max_y: int, x: int, y: int)
    ensures
        trace_hits(crate::polygon::rows_trace(vs, y0, max_y), x, y) == (y0 <= y <= max_y
            && trace_hits(crate::polygon::row_trace(vs, y, max_y), x, y)),
    decreases max(max_y - y0 + 1, 0),
{
    let t = crate::polygon::rows_trace(vs, y0, max_y);
    if y0 > max_y {
        assert(!trace_hits(t, x, y)) by {
            assert(t.len() == 0);
        }
    } else {
        let row = crate::polygon::row_trace(vs, y0, max_y);
        let rest = crate::polygon::rows_trace(vs, y0 + 1, max_y);
        assert(t == row + rest);
        lemma_spans_trace_row(
            crate::polygon::sort_seq(
                crate::polygon::row_crossings(vs, y0, max_y, vs.len() as int),
            ),
            y0,
            0,
        );
        lemma_rows_hits(vs, y0 + 1, max_y, x, y);
        if trace_hits(t, x, y) {
            let k = choose|k: int| 0 <= k < t.len() && #[trigger] t[k] == (x, y);
            if k < row.len() {
                assert(row[k] == (x, y));
                assert(y == y0);
                assert(trace_hits(row, x, y));
            } else {
                assert(rest[k - row.len()] == (x, y));
                assert(trace_hits(rest, x, y));
            }
        }
        if y0 <= y <= max_y && trace_hits(crate::polygon::row_trace(vs, y, max_y), x, y) {
            if y == y0 {
                let k = choose|k: int| 0 <= k < row.len() && #[trigger] row[k] == (x, y);
                assert(t[k] == row[k]);
                assert(trace_hits(t, x, y));
            } else {
                assert(trace_hits(rest, x, y));
                let k = choose|k: int| 0 <= k < rest.len() && #[trigger] rest[k] == (x, y);
                assert(t[row.len() + k] == rest[k]);
                assert(trace_hits(t, x, y));
            }
        }
    }
}

/// The scanline filler writes pixel `(x, y)` exactly when `y` lies
/// between the polygon's lowest and highest vertex row and `x` lies
/// inside one of the spans formed by pairing that row's sorted edge
/// crossings — and then writes it on that row's pass.
pub proof fn lemma_polygon_scanline(vs: Seq<Point>, x: int, y: int)
    requires
        vs.len() >= 1,
    ensures
        trace_hits(crate::polygon::polygon_trace(vs), x, y) == {
            let lo = crate::polygon::poly_min_y(vs, vs.len() as int);
            let hi = crate::polygon::poly_max_y(vs, vs.len() as int);
            let xs = crate::polygon::sort_seq(
                crate::polygon::row_crossings(vs, y, hi, vs.len() as int),
            );
            lo <= y <= hi && exists|m: int|
                0 <= m && 2 * m + 1 < xs.len() && #[trigger] in_span(xs, 2 * m, x)
        },
{
    let lo = crate::polygon::poly_min_y(vs, vs.len() as int);
    let hi = crate::polygon::poly_max_y(vs, vs.len() as int);
    let xs = crate::polygon::sort_seq(crate::polygon::row_crossings(vs, y, hi, vs.len() as int));
    lemma_rows_hits(vs, lo, hi, x, y);
    lemma_spans_hits(xs, y, 0, x);
    if lo <= y <= hi {
        assert((exists|m: int|
            0 <= m && 0 + 2 * m + 1 < xs.len() && #[trigger] in_span(xs, 0 + 2 * m, x))
            == (exists|m: int|
            0 <= m && 2 * m + 1 < xs.len() && #[trigger] in_span(xs, 2 * m, x))) by {
            if exists|m: int|
                0 <= m && 0 + 2 * m + 1 < xs.len() && #[trigger] in_span(xs, 0 + 2 * m, x) {
                let m = choose|m: int|
                    0 <= m && 0 + 2 * m + 1 < xs.len() && #[trigger] in_span(xs, 0 + 2 * m, x);
                assert(0 <= m && 2 * m + 1 < xs.len() && in_span(xs, 2 * m, x));
            }
            if exists|m: int|
                0 <= m && 2 * m + 1 < xs.len() && #[trigger] in_span(xs, 2 * m, x) {
                let m = choose|m: int|
                    0 <= m && 2 * m + 1 < xs.len() && #[trigger] in_span(xs, 2 * m, x);
                assert(0 <= m && 0 + 2 * m + 1 < xs.len() && in_span(xs, 0 + 2 * m, x));
            }
        }
    }
}

/// Every pixel of a span list lies on its row.
proof fn lemma_spans_trace_row(xs: Seq<int>, y: int, j: int)
    ensures
        forall|k: int|
            0 <= k < crate::polygon::spans_trace(xs, y, j).len() ==> (
            #[trigger] crate::polygon::spans_trace(xs, y, j)[k]).1 == y,
    decreases max(xs.len() - j, 0),
{
    if j < 0 || j + 1 >= xs.len() {
    } else {
        let seg = line_trace(
            crate::polygon::span_left(xs[j]),
            y,
            crate::polygon::span_right(xs[j + 1]),
            y,
        );
        let rest = crate::polygon::spans_trace(xs, y, j + 2);
        lemma_hline_trace(crate::polygon::span_left(xs[j]), crate::polygon::span_right(xs[j + 1]), y);
        lemma_spans_trace_row(xs, y, j + 2);
        assert(crate::polygon::spans_trace(xs, y, j) == seg + rest);
        assert forall|k: int| 0 <= k < (seg + rest).len() implies (#[trigger] (seg + rest)[k]).1
            == y by {
            if k < seg.len() {
                assert((seg + rest)[k] == seg[k]);
            } else {
                assert((seg + rest)[k] == rest[k - seg.len()]);
            }
        }
    }
}

/// Every pixel of the row sweep lies between its first and last row.
proof fn lemma_rows_trace_bounded(vs: Seq<Point>, y: int, max_y: int)
    ensures
        forall|k: int|
            0 <= k < crate::polygon::rows_trace(vs, y, max_y).len() ==> y <= (
            #[trigger] crate::polygon::rows_trace(vs, y, max_y)[k]).1 <= max_y,
    decreases max(max_y - y + 1, 0),
{
    if y > max_y {
    } else {
        let row = crate::polygon::row_trace(vs, y, max_y);
        let rest = crate::polygon::rows_trace(vs, y + 1, max_y);
        lemma_spans_trace_row(
            crate::polygon::sort_seq(
                crate::polygon::row_crossings(vs, y, max_y, vs.len() as int),
            ),
            y,
            0,
        );
        lemma_rows_trace_bounded(vs, y + 1, max_y);
        assert(crate::polygon::rows_trace(vs, y, max_y) == row + rest);
        assert forall|k: int| 0 <= k < (row + rest).len() implies y <= (#[trigger] (row
            + rest)[k]).1 <= max_y by {
            if k < row.len() {
                assert((row + rest)[k] == row[k]);
            } else {
                assert((row + rest)[k] == rest[k - row.len()]);
            }
        }
    }
}

} // verus!
