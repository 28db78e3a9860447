//! The scanline polygon filler.
//!
//! For every raster row from the polygon's lowest to its highest vertex,
//! every non-horizontal edge whose half-open vertical span contains the
//! row (inclusive at the very last row, so the bottom scanline is not
//! dropped) contributes an x crossing in 16.16 fixed point. The crossings
//! of a row are sorted and paired off, and each pair is filled with a
//! horizontal line whose ends are rounded to the nearest pixel with a
//! deliberate inward bias, so adjacent spans tile without double-drawing
//! the seam. This even-odd rule handles non-convex and self-intersecting
//! polygons.

use crate::canvas::{lemma_paint_concat, line_trace, Canvas};
use crate::intmath::{euclid_mod, floor_div, lemma_trunc_div_bound, trunc_div, trunc_div_exec};
use crate::types::{Color, DrawError, Point};
use vstd::math::max;
use vstd::math::min;
use vstd::prelude::*;

verus! {

/// The smallest vertex y among the first `n` vertices.
pub open spec fn poly_min_y(vs: Seq<Point>, n: int) -> int
    decreases n,
{
    if n <= 1 {
        vs[0].y as int
    } else {
        min(poly_min_y(vs, n - 1), vs[n - 1].y as int)
    }
}

/// The largest vertex y among the first `n` vertices.
pub open spec fn poly_max_y(vs: Seq<Point>, n: int) -> int
    decreases n,
{
    if n <= 1 {
        vs[0].y as int
    } else {
        max(poly_max_y(vs, n - 1), vs[n - 1].y as int)
    }
}

/// Edge `i` of the closed polygon (from vertex `i-1` to vertex `i`,
/// wrapping at zero), with its endpoints ordered by y:
/// `(y_low, x_low, y_high, x_high)`.
pub open spec fn edge_ordered(vs: Seq<Point>, i: int) -> (int, int, int, int) {
    let a = vs[if i == 0 {
        vs.len() - 1
    } else {
        i - 1
    }];
    let b = vs[i];
    if a.y as int <= b.y as int {
        (a.y as int, a.x as int, b.y as int, b.x as int)
    } else {
        (b.y as int, b.x as int, a.y as int, a.x as int)
    }
}

/// Whether edge `i` contributes a crossing at row `y`: its vertical span
/// contains `y` half-open, or closed from above at the polygon's last row.
pub open spec fn edge_crosses(vs: Seq<Point>, i: int, y: int, max_y: int) -> bool {
    let e = edge_ordered(vs, i);
    e.0 != e.2 && ((e.0 <= y && y < e.2) || (y == max_y && e.0 < y && y <= e.2))
}

/// The 16.16 fixed-point x at which edge `i` crosses row `y`:
/// `65536 * (y - y_low) * (x_high - x_low) / (y_high - y_low)
///  + 65536 * x_low`, the division truncating toward zero.
pub open spec fn edge_cross_x(vs: Seq<Point>, i: int, y: int) -> int {
    let e = edge_ordered(vs, i);
    trunc_div(65536 * (y - e.0) * (e.3 - e.1), e.2 - e.0) + 65536 * e.1
}

/// The crossings of row `y` contributed by the first `n` edges, in edge
/// order.
pub open spec fn row_crossings(vs: Seq<Point>, y: int, max_y: int, n: int) -> Seq<int>
    decreases n,
{
    if n <= 0 {
        Seq::empty()
    } else {
        row_crossings(vs, y, max_y, n - 1) + (if edge_crosses(vs, n - 1, y, max_y) {
            seq![edge_cross_x(vs, n - 1, y)]
        } else {
            Seq::empty()
        })
    }
}

/// `v` inserted into `s` before the first element it does not exceed.
pub open spec fn insert_sorted(s: Seq<int>, v: int) -> Seq<int>
    decreases s.len(),
{
    if s.len() == 0 {
        seq![v]
    } else if s[0] < v {
        seq![s[0]] + insert_sorted(s.drop_first(), v)
    } else {
        seq![v] + s
    }
}

/// The first `n` elements of `s` sorted ascending by repeated insertion.
pub open spec fn sort_upto(s: Seq<int>, n: int) -> Seq<int>
    decreases n,
{
    if n <= 0 {
        Seq::empty()
    } else {
        insert_sorted(sort_upto(s, n - 1), s[n - 1])
    }
}

/// `s` sorted ascending.
pub open spec fn sort_seq(s: Seq<int>) -> Seq<int> {
    sort_upto(s, s.len() as int)
}

/// The left end of a filled span whose crossing is `v` in 16.16 fixed
/// point: rounded to nearest with a one-subpixel inward nudge.
pub open spec fn span_left(v: int) -> int {
    (v + 1) / 65536 + ((v + 1) / 32768) % 2
}

/// The right end of a filled span; the mirror image of [`span_left`].
pub open spec fn span_right(v: int) -> int {
    (v - 1) / 65536 + ((v - 1) / 32768) % 2
}

/// The pixels of the spans formed by pairing the sorted crossings `xs`
/// from index `j` on: each pair fills the row between its rounded ends.
pub open spec fn spans_trace(xs: Seq<int>, y: int, j: int) -> Seq<(int, int)>
    decreases max(xs.len() - j, 0),
{
    if j < 0 || j + 1 >= xs.len() {
        Seq::empty()
    } else {
        line_trace(span_left(xs[j]), y, span_right(xs[j + 1]), y) + spans_trace(xs, y, j + 2)
    }
}

/// The pixels one row of the filled polygon paints.
pub open spec fn row_trace(vs: Seq<Point>, y: int, max_y: int) -> Seq<(int, int)> {
    spans_trace(sort_seq(row_crossings(vs, y, max_y, vs.len() as int)), y, 0)
}

/// The pixels of all rows from `y` up to `max_y`.
pub open spec fn rows_trace(vs: Seq<Point>, y: int, max_y: int) -> Seq<(int, int)>
    decreases max(max_y - y + 1, 0),
{
    if y > max_y {
        Seq::empty()
    } else {
        row_trace(vs, y, max_y) + rows_trace(vs, y + 1, max_y)
    }
}

/// The pixels of the filled polygon with vertex list `vs` (at least 3
/// vertices): every row between the lowest and highest vertex, in order.
pub open spec fn polygon_trace(vs: Seq<Point>) -> Seq<(int, int)> {
    rows_trace(vs, poly_min_y(vs, vs.len() as int), poly_max_y(vs, vs.len() as int))
}

/// Inserting before the first element not below `v` is [`insert_sorted`].
proof fn lemma_insert_sorted_split(s: Seq<int>, v: int, k: int)
    requires
        0 <= k <= s.len(),
        forall|j: int| 0 <= j < k ==> s[j] < v,
        k < s.len() ==> !(s[k] < v),
    ensures
        insert_sorted(s, v) == s.subrange(0, k) + seq![v] + s.subrange(k, s.len() as int),
    decreases k,
{
    if k == 0 {
        if s.len() == 0 {
            assert(insert_sorted(s, v) =~= s.subrange(0, 0) + seq![v] + s.subrange(0, 0));
        } else {
            assert(insert_sorted(s, v) =~= s.subrange(0, 0) + seq![v] + s.subrange(
                0,
                s.len() as int,
            ));
        }
    } else {
        assert(s[0] < v);
        lemma_insert_sorted_split(s.drop_first(), v, k - 1);
        assert(s.drop_first().subrange(0, k - 1) =~= s.subrange(1, k));
        assert(s.drop_first().subrange(k - 1, s.drop_first().len() as int) =~= s.subrange(
            k,
            s.len() as int,
        ));
        assert(insert_sorted(s, v) =~= s.subrange(0, k) + seq![v] + s.subrange(k, s.len() as int));
    }
}

/// Sorts a vector of bounded values ascending by insertion; the result is
/// the specification-level sort of the input.
fn sort_i64(v: &Vec<i64>) -> (out: Vec<i64>)
    requires
        forall|j: int|
            0 <= j < v@.len() ==> -0x2_0000_0000_0000 <= #[trigger] v@[j] <= 0x2_0000_0000_0000,
    ensures
        out@.map_values(|x: i64| x as int) == sort_seq(v@.map_values(|x: i64| x as int)),
        forall|j: int|
            0 <= j < out@.len() ==> -0x2_0000_0000_0000 <= #[trigger] out@[j]
                <= 0x2_0000_0000_0000,
{
    let ghost f = |x: i64| x as int;
    let ghost sv = v@.map_values(f);
    let mut out: Vec<i64> = Vec::new();
    let mut i: usize = 0;
    proof {
        assert(sv.len() == v@.len());
    }
    while i < v.len()
        invariant
            0 <= i <= v@.len(),
            sv == v@.map_values(f),
            sv.len() == v@.len(),
            f == (|x: i64| x as int),
            forall|j: int|
                0 <= j < v@.len() ==> -0x2_0000_0000_0000 <= #[trigger] v@[j]
                    <= 0x2_0000_0000_0000,
            forall|j: int|
                0 <= j < out@.len() ==> -0x2_0000_0000_0000 <= #[trigger] out@[j]
                    <= 0x2_0000_0000_0000,
            out@.map_values(f) == sort_upto(sv, i as int),
            out@.len() == i,
        decreases v@.len() - i,
    {
        let val = v[i];
        let mut k: usize = 0;
        while k < out.len() && out[k] < val
            invariant
                0 <= k <= out@.len(),
                forall|j: int| 0 <= j < k ==> out@[j] < val,
            decreases out@.len() - k,
        {
            k = k + 1;
        }
        let ghost before = out@;
        out.insert(k, val);
        proof {
            lemma_insert_sorted_split(before.map_values(f), val as int, k as int);
            assert(before.map_values(f).subrange(0, k as int) =~= before.subrange(
                0,
                k as int,
            ).map_values(f));
            assert(before.map_values(f).subrange(k as int, before.len() as int)
                =~= before.subrange(k as int, before.len() as int).map_values(f));
            assert(out@.map_values(f) =~= insert_sorted(before.map_values(f), val as int));
            assert(sv[i as int] == val as int);
            assert(out@.map_values(f) == sort_upto(sv, i as int + 1));
        }
        i = i + 1;
    }
    proof {
        assert(out@.map_values(f) == sort_seq(sv));
    }
    out
}

/// The left or right end of a span, executable form.
fn span_end_px(v: i64, right: bool) -> (r: i64)
    ensures
        !right ==> r == span_left(v as int),
        right ==> r == span_right(v as int),
        (-0x2_0000_0000_0000 <= v <= 0x2_0000_0000_0000) ==> -0x100_0000_0000 <= r
            <= 0x100_0000_0000,
{
    let w: i128 = if right {
        v as i128 - 1
    } else {
        v as i128 + 1
    };
    let q = floor_div(w, 65536);
    let h = floor_div(w, 32768);
    proof {
        vstd::arithmetic::div_mod::lemma_div_multiples_vanish(0x1_0000_0000_0000, 65536);
        vstd::arithmetic::div_mod::lemma_div_multiples_vanish(-0x1_0000_0000_0000, 65536);
        vstd::arithmetic::div_mod::lemma_div_is_ordered(
            w as int,
            65536int * 0x1_0000_0000_0000,
            65536,
        );
        vstd::arithmetic::div_mod::lemma_div_is_ordered(
            65536int * (-0x1_0000_0000_0000),
            w as int,
            65536,
        );
        vstd::arithmetic::div_mod::lemma_div_multiples_vanish(0x2_0000_0000_0000, 32768);
        vstd::arithmetic::div_mod::lemma_div_multiples_vanish(-0x2_0000_0000_0000, 32768);
        vstd::arithmetic::div_mod::lemma_div_is_ordered(
            w as int,
            32768int * 0x2_0000_0000_0000,
            32768,
        );
        vstd::arithmetic::div_mod::lemma_div_is_ordered(
            32768int * (-0x2_0000_0000_0000),
            w as int,
            32768,
        );
        if -0x2_0000_0000_0000 <= v as int && v as int <= 0x2_0000_0000_0000 {
            vstd::arithmetic::div_mod::lemma_div_multiples_vanish(0x2_0000_0001, 65536);
            vstd::arithmetic::div_mod::lemma_div_multiples_vanish(-0x2_0000_0001, 65536);
            vstd::arithmetic::div_mod::lemma_div_is_ordered(
                w as int,
                65536int * 0x2_0000_0001,
                65536,
            );
            vstd::arithmetic::div_mod::lemma_div_is_ordered(
                65536int * (-0x2_0000_0001),
                w as int,
                65536,
            );
        }
    }
    let b = euclid_mod(h, 2);
    (q + b) as i64
}

impl Canvas {
    /// Fills the closed polygon with the given vertices (edges between
    /// consecutive vertices and from the last back to the first) by
    /// even-odd scanline rasterization. Fewer than 3 vertices are
    /// rejected, and nothing is drawn.
    pub fn fill_polygon(&mut self, verts: &Vec<Point>, color: Color) -> (r: Result<(), DrawError>)
        requires
            old(self)@.wf(),
        ensures
            verts@.len() < 3 ==> r == Err::<(), DrawError>(DrawError::InvalidGeometry)
                && final(self)@ == old(self)@,
            verts@.len() >= 3 ==> r is Ok && final(self)@ == old(self)@.brush(color).paint(
                polygon_trace(verts@),
            ),
            final(self)@.wf(),
    {
        if verts.len() < 3 {
            return Err(DrawError::InvalidGeometry);
        }
        let ghost vs = verts@;
        let ghost full = polygon_trace(vs);
        let n = verts.len();

        // Lowest and highest vertex rows.
        let mut min_y: i32 = verts[0].y;
        let mut max_y: i32 = verts[0].y;
        let mut vi: usize = 1;
        while vi < n
            invariant
                1 <= vi <= n,
                n == vs.len(),
                vs == verts@,
                3 <= n,
                min_y as int == poly_min_y(vs, vi as int),
                max_y as int == poly_max_y(vs, vi as int),
                min_y <= max_y,
            decreases n - vi,
        {
            let vy = verts[vi].y;
            if vy < min_y {
                min_y = vy;
            } else if vy > max_y {
                max_y = vy;
            }
            vi = vi + 1;
        }

        self.apply_brush(color);
        let ghost base = old(self)@.brush(color);
        let ghost mut done: Seq<(int, int)> = Seq::empty();
        proof {
            assert(base.paint(done) == base);
        }
        let mut y: i64 = min_y as i64;
        while y <= max_y as i64
            invariant
                self@.wf(),
                self@ == base.paint(done),
                base == old(self)@.brush(color),
                vs == verts@,
                n == vs.len(),
                3 <= n,
                min_y as int == poly_min_y(vs, n as int),
                max_y as int == poly_max_y(vs, n as int),
                min_y as int <= y <= max_y as int + 1,
                done + rows_trace(vs, y as int, max_y as int) == full,
            decreases max_y as int - y + 1,
        {
            // Crossings of this row, in edge order.
            let mut cross: Vec<i64> = Vec::new();
            let mut i: usize = 0;
            while i < n
                invariant
                    0 <= i <= n,
                    vs == verts@,
                    n == vs.len(),
                    3 <= n,
                    max_y as int == poly_max_y(vs, n as int),
                    min_y as int <= y <= max_y as int,
                    cross@.len() <= i,
                    cross@.map_values(|x: i64| x as int) == row_crossings(
                        vs,
                        y as int,
                        max_y as int,
                        i as int,
                    ),
                    forall|j: int|
                        0 <= j < cross@.len() ==> -0x2_0000_0000_0000 <= #[trigger] cross@[j]
                            <= 0x2_0000_0000_0000,
                decreases n - i,
            {
                let ghost f = |x: i64| x as int;
                let a = if i == 0 {
                    verts[n - 1]
                } else {
                    verts[i - 1]
                };
                let b = verts[i];
                let y1: i64;
                let x1: i64;
                let y2: i64;
                let x2: i64;
                if a.y <= b.y {
                    y1 = a.y as i64;
                    x1 = a.x as i64;
                    y2 = b.y as i64;
                    x2 = b.x as i64;
                } else {
                    y1 = b.y as i64;
                    x1 = b.x as i64;
                    y2 = a.y as i64;
                    x2 = a.x as i64;
                }
                if y1 != y2 && ((y1 <= y && y < y2) || (y == max_y as i64 && y1 < y && y
                    <= y2)) {
                    let t1: i128 = 65536 * ((y - y1) as i128);
                    proof {
                        assert(-0x1_0000_0000_0000_0000_0000 <= t1 as int * (x2 as int
                            - x1 as int) <= 0x1_0000_0000_0000_0000_0000) by (nonlinear_arith)
                            requires
                                -0x1_0000_0000_0000 <= t1 as int <= 0x1_0000_0000_0000,
                                -0x1_0000_0000 <= x2 as int - x1 as int <= 0x1_0000_0000,
                        ;
                    }
                    let num: i128 = t1 * ((x2 - x1) as i128);
                    let den: i128 = (y2 - y1) as i128;
                    let q = trunc_div_exec(num, den);
                    proof {
                        assert(65536 * (y as int - y1 as int) * (x2 as int - x1 as int) <= (
                        y2 as int - y1 as int) * 0x1_0000_0000_0000 && -((y2 as int
                            - y1 as int) * 0x1_0000_0000_0000) <= 65536 * (y as int
                            - y1 as int) * (x2 as int - x1 as int)) by (nonlinear_arith)
                            requires
                                0 <= y as int - y1 as int <= y2 as int - y1 as int,
                                -0x1_0000_0000 <= x2 as int - x1 as int <= 0x1_0000_0000,
                                0 < y2 as int - y1 as int,
                        ;
                        lemma_trunc_div_bound(num as int, den as int, 0x1_0000_0000_0000);
                    }
                    let v: i64 = (q as i64) + 65536 * x1;
                    cross.push(v);
                    proof {
                        assert(v as int == edge_cross_x(vs, i as int, y as int));
                        assert(edge_crosses(vs, i as int, y as int, max_y as int));
                        assert(cross@.map_values(f) =~= row_crossings(
                            vs,
                            y as int,
                            max_y as int,
                            i as int,
                        ) + seq![v as int]);
                        assert(cross@.map_values(f) == row_crossings(
                            vs,
                            y as int,
                            max_y as int,
                            i as int + 1,
                        ));
                    }
                } else {
                    proof {
                        assert(!edge_crosses(vs, i as int, y as int, max_y as int));
                        assert(row_crossings(vs, y as int, max_y as int, i as int + 1)
                            =~= row_crossings(vs, y as int, max_y as int, i as int));
                    }
                }
                i = i + 1;
            }

            let sorted = sort_i64(&cross);
            let ghost xs = sort_seq(row_crossings(vs, y as int, max_y as int, n as int));
            proof {
                assert(xs == sorted@.map_values(|x: i64| x as int));
                assert(rows_trace(vs, y as int, max_y as int) == row_trace(
                    vs,
                    y as int,
                    max_y as int,
                ) + rows_trace(vs, y as int + 1, max_y as int));
            }
            let ghost after_row = done + row_trace(vs, y as int, max_y as int);

            // Fill between consecutive pairs of crossings.
            let mut j: usize = 0;
            while sorted.len() - j > 1
                invariant
                    j <= sorted@.len(),
                    self@.wf(),
                    self@ == base.paint(done),
                    base == old(self)@.brush(color),
                    xs == sorted@.map_values(|x: i64| x as int),
                    xs.len() == sorted@.len(),
                    forall|jj: int|
                        0 <= jj < sorted@.len() ==> -0x2_0000_0000_0000 <= #[trigger] sorted@[jj]
                            <= 0x2_0000_0000_0000,
                    min_y as int <= y <= max_y as int,
                    0 <= j,
                    done + spans_trace(xs, y as int, j as int) == after_row,
                decreases xs.len() - j,
            {
                let va = sorted[j];
                let vb = sorted[j + 1];
                let xa = span_end_px(va, false);
                let xb = span_end_px(vb, true);
                let ghost seg = line_trace(xa as int, y as int, xb as int, y as int);
                proof {
                    assert(spans_trace(xs, y as int, j as int) == seg + spans_trace(
                        xs,
                        y as int,
                        j as int + 2,
                    ));
                    lemma_paint_concat(base, done, seg);
                }
                self.line_px(xa, y, xb, y);
                proof {
                    done = done + seg;
                    assert(done + spans_trace(xs, y as int, j as int + 2) =~= after_row);
                }
                j = j + 2;
            }
            proof {
                assert(spans_trace(xs, y as int, j as int) =~= Seq::<(int, int)>::empty());
                assert(done =~= after_row);
                assert(done + rows_trace(vs, y as int + 1, max_y as int) =~= full);
            }
            y = y + 1;
        }
        proof {
            assert(rows_trace(vs, y as int, max_y as int) =~= Seq::<(int, int)>::empty());
            assert(done =~= full);
        }
        Ok(())
    }
}

} // verus!
