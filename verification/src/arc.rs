//! The arc engine: a circle-sector outline drawn with the octant-restricted
//! midpoint circle algorithm.
//!
//! The circle is divided into eight 45-degree octants, numbered from angle
//! zero going clockwise (the y axis grows downward). A bitmask records
//! which octants are visible between the start and the end angle; the two
//! boundary octants get a stop offset, the Bresenham step at which their
//! bit is flipped, computed from a fixed-point sine of the folded angle.

use crate::canvas::{lemma_paint_concat, lemma_paint_single, Canvas};
use crate::intmath::euclid_mod;
use crate::types::{Color, DrawError, Point};
use vstd::arithmetic::div_mod::lemma_fundamental_div_mod;
use vstd::math::max;
use vstd::prelude::*;

verus! {

/// The sine of `d` degrees in fixed point with 30 fractional bits, rounded
/// to nearest, for `0 <= d <= 45` (out-of-range arguments take the last
/// entry).
pub open spec fn sin_q30(d: int) -> int {
    if d == 0 {
        0
    } else
    if d == 1 {
        18739379
    } else
    if d == 2 {
        37473049
    } else
    if d == 3 {
        56195305
    } else
    if d == 4 {
        74900443
    } else
    if d == 5 {
        93582766
    } else
    if d == 6 {
        112236583
    } else
    if d == 7 {
        130856211
    } else
    if d == 8 {
        149435979
    } else
    if d == 9 {
        167970228
    } else
    if d == 10 {
        186453311
    } else
    if d == 11 {
        204879599
    } else
    if d == 12 {
        223243478
    } else
    if d == 13 {
        241539355
    } else
    if d == 14 {
        259761657
    } else
    if d == 15 {
        277904834
    } else
    if d == 16 {
        295963357
    } else
    if d == 17 {
        313931728
    } else
    if d == 18 {
        331804471
    } else
    if d == 19 {
        349576144
    } else
    if d == 20 {
        367241333
    } else
    if d == 21 {
        384794656
    } else
    if d == 22 {
        402230767
    } else
    if d == 23 {
        419544355
    } else
    if d == 24 {
        436730145
    } else
    if d == 25 {
        453782903
    } else
    if d == 26 {
        470697435
    } else
    if d == 27 {
        487468587
    } else
    if d == 28 {
        504091252
    } else
    if d == 29 {
        520560366
    } else
    if d == 30 {
        536870912
    } else
    if d == 31 {
        553017922
    } else
    if d == 32 {
        568996477
    } else
    if d == 33 {
        584801711
    } else
    if d == 34 {
        600428808
    } else
    if d == 35 {
        615873009
    } else
    if d == 36 {
        631129609
    } else
    if d == 37 {
        646193961
    } else
    if d == 38 {
        661061475
    } else
    if d == 39 {
        675727625
    } else
    if d == 40 {
        690187940
    } else
    if d == 41 {
        704438018
    } else
    if d == 42 {
        718473518
    } else
    if d == 43 {
        732290163
    } else
    if d == 44 {
        745883746
    } else {
        759250125
    }
}

/// Executable form of [`sin_q30`].
fn sin_q30_px(d: u32) -> (r: u64)
    requires
        d <= 45,
    ensures
        r as int == sin_q30(d as int),
        r < 0x4000_0000,
{
    match d {
        0 => 0,
        1 => 18739379,
        2 => 37473049,
        3 => 56195305,
        4 => 74900443,
        5 => 93582766,
        6 => 112236583,
        7 => 130856211,
        8 => 149435979,
        9 => 167970228,
        10 => 186453311,
        11 => 204879599,
        12 => 223243478,
        13 => 241539355,
        14 => 259761657,
        15 => 277904834,
        16 => 295963357,
        17 => 313931728,
        18 => 331804471,
        19 => 349576144,
        20 => 367241333,
        21 => 384794656,
        22 => 402230767,
        23 => 419544355,
        24 => 436730145,
        25 => 453782903,
        26 => 470697435,
        27 => 487468587,
        28 => 504091252,
        29 => 520560366,
        30 => 536870912,
        31 => 553017922,
        32 => 568996477,
        33 => 584801711,
        34 => 600428808,
        35 => 615873009,
        36 => 631129609,
        37 => 646193961,
        38 => 661061475,
        39 => 675727625,
        40 => 690187940,
        41 => 704438018,
        42 => 718473518,
        43 => 732290163,
        44 => 745883746,
        _ => 759250125,
    }
}

/// Folds an angle `d` lying inside octant `oct` onto `[0, 45]`, the range
/// on which each octant mirrors the leading one's sine.
pub open spec fn oct_fold(oct: int, d: int) -> int {
    if oct == 0 {
        d
    } else if oct == 1 {
        90 - d
    } else if oct == 2 {
        d - 90
    } else if oct == 3 {
        180 - d
    } else if oct == 4 {
        d - 180
    } else if oct == 5 {
        270 - d
    } else if oct == 6 {
        d - 270
    } else {
        360 - d
    }
}

/// The Bresenham step at which the boundary octant holding angle `d`
/// stops (or starts) contributing pixels: the minor-axis projection
/// `radius * sin(folded angle)`, floored.
pub open spec fn stopval_of(oct: int, d: int, radius: int) -> int {
    radius * sin_q30(oct_fold(oct, d)) / 0x4000_0000
}

/// Executable form of [`stopval_of`] for an angle inside octant `oct`.
fn stopval_px(oct: u32, d: u32, radius: i64) -> (r: i64)
    requires
        oct < 8,
        45 * oct <= d < 45 * (oct + 1),
        1 <= radius < 0x8000_0000,
    ensures
        r == stopval_of(oct as int, d as int, radius as int),
        0 <= r <= radius,
{
    let f: u32 = if oct == 0 {
        d
    } else if oct == 1 {
        90 - d
    } else if oct == 2 {
        d - 90
    } else if oct == 3 {
        180 - d
    } else if oct == 4 {
        d - 180
    } else if oct == 5 {
        270 - d
    } else if oct == 6 {
        d - 270
    } else {
        360 - d
    };
    let s = sin_q30_px(f);
    let prod: u64 = (radius as u64) * s;
    proof {
        assert((radius as int * s as int) < 0x2000_0000_0000_0000) by (nonlinear_arith)
            requires
                1 <= radius as int && (radius as int) < 0x8000_0000,
                0 <= s as int && (s as int) < 0x4000_0000,
        ;
        assert(radius as int * s as int <= radius as int * 0x3FFF_FFFF) by (nonlinear_arith)
            requires
                1 <= radius as int,
                s as int <= 0x3FFF_FFFF,
        ;
        vstd::arithmetic::div_mod::lemma_div_is_ordered(
            radius as int * s as int,
            radius as int * 0x3FFF_FFFF,
            0x4000_0000,
        );
        assert(radius as int * 0x3FFF_FFFF < radius as int * 0x4000_0000) by (nonlinear_arith)
            requires
                1 <= radius as int,
        ;
        assert((radius as int * 0x3FFF_FFFF) / 0x4000_0000 <= radius as int) by {
            vstd::arithmetic::div_mod::lemma_div_is_ordered(
                radius as int * 0x3FFF_FFFF,
                radius as int * 0x4000_0000,
                0x4000_0000,
            );
            vstd::arithmetic::div_mod::lemma_div_multiples_vanish(radius as int, 0x4000_0000);
            vstd::arithmetic::mul::lemma_mul_is_commutative(radius as int, 0x4000_0000);
        }
        assert(0 <= radius as int * s as int / 0x4000_0000) by {
            vstd::arithmetic::div_mod::lemma_div_pos_is_pos(radius as int * s as int, 0x4000_0000);
        }
    }
    let q = prod / 0x4000_0000;
    q as i64
}

/// Flips octant `k`'s bit of the visibility mask.
pub open spec fn oct_toggle(m: u8, k: u32) -> u8 {
    if m & (1u8 << k) != 0 {
        m & (!(1u8 << k))
    } else {
        m | (1u8 << k)
    }
}

/// Executable form of [`oct_toggle`].
fn oct_toggle_px(m: u8, k: u32) -> (r: u8)
    requires
        k < 8,
    ensures
        r == oct_toggle(m, k),
{
    if m & (1u8 << k) != 0 {
        m & (!(1u8 << k))
    } else {
        m | (1u8 << k)
    }
}

/// One step of the octant walk that builds the visibility mask, starting
/// one before the start octant and stopping at the end octant (`fuel`
/// bounds the walk at one full turn): the start-boundary octant's bit is
/// cleared (odd octants: set) and its stop offset recorded, the
/// end-boundary octant's bit is set (odd octants: cleared) with its stop
/// offset, every octant passed through has its bit set, and a start octant
/// equal to the end octant either draws the whole circle (when the arc
/// wraps) or suppresses that octant.
pub open spec fn arc_walk(
    oct: int,
    m: u8,
    svs: int,
    sve: int,
    soct: int,
    eoct: int,
    us: int,
    ue: int,
    radius: int,
    fuel: nat,
) -> (u8, int, int)
    decreases fuel,
{
    if fuel == 0 {
        (m, svs, sve)
    } else {
        let o = if oct + 1 >= 8 {
            oct + 1 - 8
        } else {
            oct + 1
        };
        let m1 = if o == soct {
            if o % 2 == 1 {
                m | (1u8 << (o as u32))
            } else {
                m & (!(1u8 << (o as u32)))
            }
        } else {
            m
        };
        let svs1 = if o == soct {
            stopval_of(o, us, radius)
        } else {
            svs
        };
        let m2 = if o == eoct {
            if soct == eoct {
                if us > ue {
                    255u8
                } else {
                    m1 & (!(1u8 << (o as u32)))
                }
            } else if o % 2 == 1 {
                m1 & (!(1u8 << (o as u32)))
            } else {
                m1 | (1u8 << (o as u32))
            }
        } else if o != soct {
            m1 | (1u8 << (o as u32))
        } else {
            m1
        };
        let sve1 = if o == eoct {
            stopval_of(o, ue, radius)
        } else {
            sve
        };
        if o == eoct {
            (m2, svs1, sve1)
        } else {
            arc_walk(o, m2, svs1, sve1, soct, eoct, us, ue, radius, (fuel - 1) as nat)
        }
    }
}

/// The (at most two) pixels the generation loop writes at step `(cx, cy)`
/// under visibility mask `m`: one from the vertically-major reflection
/// pair, one from the transposed pair, each picked by the first set bit
/// among that pair's candidate octants, with the axis and diagonal cases
/// deduplicated.
pub open spec fn arc_step_first(px: int, py: int, cx: int, cy: int, m: u8) -> Seq<(int, int)> {
    if cx > 0 {
        if m & 4u8 != 0 {
            seq![(px - cx, py + cy)]
        } else if m & 2u8 != 0 {
            seq![(px + cx, py + cy)]
        } else if m & 32u8 != 0 {
            seq![(px - cx, py - cy)]
        } else if m & 64u8 != 0 {
            seq![(px + cx, py - cy)]
        } else {
            Seq::empty()
        }
    } else {
        if m & 96u8 != 0 {
            seq![(px, py - cy)]
        } else if m & 6u8 != 0 {
            seq![(px, py + cy)]
        } else {
            Seq::empty()
        }
    }
}

/// The transposed half of one generation step; see [`arc_step_first`].
pub open spec fn arc_step_second(px: int, py: int, cx: int, cy: int, m: u8) -> Seq<(int, int)> {
    if cx > 0 && cx != cy {
        if m & 8u8 != 0 {
            seq![(px - cy, py + cx)]
        } else if m & 1u8 != 0 {
            seq![(px + cy, py + cx)]
        } else if m & 16u8 != 0 {
            seq![(px - cy, py - cx)]
        } else if m & 128u8 != 0 {
            seq![(px + cy, py - cx)]
        } else {
            Seq::empty()
        }
    } else if cx == 0 {
        if m & 24u8 != 0 {
            seq![(px - cy, py)]
        } else if m & 129u8 != 0 {
            seq![(px + cy, py)]
        } else {
            Seq::empty()
        }
    } else {
        Seq::empty()
    }
}

/// All pixels of one generation step.
pub open spec fn arc_step_trace(px: int, py: int, cx: int, cy: int, m: u8) -> Seq<(int, int)> {
    arc_step_first(px, py, cx, cy, m) + arc_step_second(px, py, cx, cy, m)
}

/// The constants of one arc generation run: the center, the two stop
/// offsets and the two boundary octants.
pub ghost struct ArcCtx {
    pub px: int,
    pub py: int,
    pub svs: int,
    pub sve: int,
    pub soct: u32,
    pub eoct: u32,
}

/// The pixels of the midpoint-circle generation loop from state
/// `(cx, cy, df, de, dse, m)`: one step's pixels, then — after flipping a
/// boundary octant whose stop offset equals `cx` — the rest with the
/// standard midpoint update.
pub open spec fn arc_gen(c: ArcCtx, cx: int, cy: int, df: int, de: int, dse: int, m: u8) -> Seq<
    (int, int),
>
    decreases max(cy - cx + 1, 0),
{
    if cx > cy {
        Seq::empty()
    } else {
        let step = arc_step_trace(c.px, c.py, cx, cy, m);
        let m1 = if c.svs == cx {
            oct_toggle(m, c.soct)
        } else {
            m
        };
        let m2 = if c.sve == cx {
            oct_toggle(m1, c.eoct)
        } else {
            m1
        };
        if df < 0 {
            step + arc_gen(c, cx + 1, cy, df + de, de + 2, dse + 2, m2)
        } else {
            step + arc_gen(c, cx + 1, cy - 1, df + dse, de + 2, dse + 4, m2)
        }
    }
}

/// The pixels of the arc of `radius` around `p` from `start` to `end`
/// degrees (normalized into `[0, 360)`): the center alone for radius zero,
/// else the generation loop run under the mask and stop offsets of the
/// octant walk.
pub open spec fn arc_trace(p: Point, radius: int, start: int, end: int) -> Seq<(int, int)> {
    arc_trace_xy(p.x as int, p.y as int, radius, start, end)
}

/// [`arc_trace`] over plain center coordinates.
pub open spec fn arc_trace_xy(px: int, py: int, radius: int, start: int, end: int) -> Seq<
    (int, int),
> {
    if radius == 0 {
        seq![(px, py)]
    } else {
        let us = start % 360;
        let ue = end % 360;
        let soct = us / 45;
        let eoct = ue / 45;
        let w = arc_walk(soct - 1, 0, 0, 0, soct, eoct, us, ue, radius, 8);
        let c = ArcCtx { px, py, svs: w.1, sve: w.2, soct: soct as u32, eoct: eoct as u32 };
        arc_gen(c, 0, radius, 1 - radius, 3, 5 - 2 * radius, w.0)
    }
}

/// An angle normalized into `[0, 360)`.
fn mod360(a: i32) -> (r: u32)
    ensures
        r as int == (a as int) % 360,
        r < 360,
{
    let m = euclid_mod(a as i128, 360);
    m as u32
}

impl Canvas {
    /// Writes the (at most two) pixels of one arc generation step.
    fn arc_step(&mut self, px: i64, py: i64, cx: i64, cy: i64, m: u8) -> (r: Result<
        (),
        DrawError,
    >)
        requires
            old(self)@.wf(),
            -0x8000_0000 <= px <= 0x8000_0000,
            -0x8000_0000 <= py <= 0x8000_0000,
            0 <= cx <= 0x8000_0000,
            0 <= cy <= 0x8000_0000,
        ensures
            final(self)@ == old(self)@.paint(
                arc_step_trace(px as int, py as int, cx as int, cy as int, m),
            ),
            final(self)@.wf(),
            r is Ok,
    {
        let ghost first = arc_step_first(px as int, py as int, cx as int, cy as int, m);
        let ghost second = arc_step_second(px as int, py as int, cx as int, cy as int, m);
        if cx > 0 {
            if m & 4u8 != 0 {
                proof {
                    lemma_paint_single(old(self)@, (px - cx) as int, (py + cy) as int);
                }
                self.put_px(px - cx, py + cy);
            } else if m & 2u8 != 0 {
                proof {
                    lemma_paint_single(old(self)@, (px + cx) as int, (py + cy) as int);
                }
                self.put_px(px + cx, py + cy);
            } else if m & 32u8 != 0 {
                proof {
                    lemma_paint_single(old(self)@, (px - cx) as int, (py - cy) as int);
                }
                self.put_px(px - cx, py - cy);
            } else if m & 64u8 != 0 {
                proof {
                    lemma_paint_single(old(self)@, (px + cx) as int, (py - cy) as int);
                }
                self.put_px(px + cx, py - cy);
            }
        } else {
            if m & 96u8 != 0 {
                proof {
                    lemma_paint_single(old(self)@, px as int, (py - cy) as int);
                }
                self.put_px(px, py - cy);
            } else if m & 6u8 != 0 {
                proof {
                    lemma_paint_single(old(self)@, px as int, (py + cy) as int);
                }
                self.put_px(px, py + cy);
            }
        }
        assert(self@ == old(self)@.paint(first));
        let ghost mid = self@;
        if cx > 0 && cx != cy {
            if m & 8u8 != 0 {
                proof {
                    lemma_paint_single(mid, (px - cy) as int, (py + cx) as int);
                }
                self.put_px(px - cy, py + cx);
            } else if m & 1u8 != 0 {
                proof {
                    lemma_paint_single(mid, (px + cy) as int, (py + cx) as int);
                }
                self.put_px(px + cy, py + cx);
            } else if m & 16u8 != 0 {
                proof {
                    lemma_paint_single(mid, (px - cy) as int, (py - cx) as int);
                }
                self.put_px(px - cy, py - cx);
            } else if m & 128u8 != 0 {
                proof {
                    lemma_paint_single(mid, (px + cy) as int, (py - cx) as int);
                }
                self.put_px(px + cy, py - cx);
            }
        } else if cx == 0 {
            if m & 24u8 != 0 {
                proof {
                    lemma_paint_single(mid, (px - cy) as int, py as int);
                }
                self.put_px(px - cy, py);
            } else if m & 129u8 != 0 {
                proof {
                    lemma_paint_single(mid, (px + cy) as int, py as int);
                }
                self.put_px(px + cy, py);
            }
        }
        assert(self@ == mid.paint(second));
        proof {
            lemma_paint_concat(old(self)@, first, second);
        }
        Ok(())
    }

    /// Draws the outline of the circle sector of `radius` around `p`
    /// between `start` and `end` degrees (clockwise, normalized into
    /// `[0, 360)`). A negative radius is rejected; radius zero draws the
    /// center pixel.
    pub fn arc(&mut self, p: Point, radius: i32, start: i32, end: i32, color: Color) -> (r: Result<
        (),
        DrawError,
    >)
        requires
            old(self)@.wf(),
        ensures
            radius < 0 ==> r == Err::<(), DrawError>(DrawError::InvalidParameter) && final(self)@
                == old(self)@,
            radius >= 0 ==> r is Ok && final(self)@ == old(self)@.brush(color).paint(
                arc_trace(p, radius as int, start as int, end as int),
            ),
            final(self)@.wf(),
    {
        if radius < 0 {
            return Err(DrawError::InvalidParameter);
        }
        if radius == 0 {
            proof {
                lemma_paint_single(old(self)@.brush(color), p.x as int, p.y as int);
            }
            return self.pixel_colored(p, color);
        }
        let us: u32 = mod360(start);
        let ue: u32 = mod360(end);
        let soct: u32 = us / 45;
        let eoct: u32 = ue / 45;
        proof {
            lemma_fundamental_div_mod(us as int, 45);
            lemma_fundamental_div_mod(ue as int, 45);
        }
        let rad: i64 = radius as i64;

        // Octant walk: build the visibility mask and the two stop offsets.
        let ghost target = arc_walk(
            soct as int - 1,
            0,
            0,
            0,
            soct as int,
            eoct as int,
            us as int,
            ue as int,
            rad as int,
            8,
        );
        let mut oct: i64 = soct as i64 - 1;
        let mut m: u8 = 0;
        let mut svs: i64 = 0;
        let mut sve: i64 = 0;
        let mut fuel: u32 = 8;
        loop
            invariant_except_break
                1 <= fuel <= 8,
                -1 <= oct < 8,
                us < 360,
                ue < 360,
                soct == us / 45,
                eoct == ue / 45,
                1 <= rad < 0x8000_0000,
                arc_walk(
                    oct as int,
                    m,
                    svs as int,
                    sve as int,
                    soct as int,
                    eoct as int,
                    us as int,
                    ue as int,
                    rad as int,
                    fuel as nat,
                ) == target,
            ensures
                (m, svs as int, sve as int) == target,
            decreases fuel,
        {
            let ghost oct0 = oct as int;
            let ghost m0 = m;
            let ghost svs0 = svs as int;
            let ghost sve0 = sve as int;
            let ghost fuel0 = fuel as nat;
            let o: i64 = if oct + 1 >= 8 {
                oct + 1 - 8
            } else {
                oct + 1
            };
            if o == soct as i64 {
                if o % 2 == 1 {
                    m = m | (1u8 << (o as u32));
                } else {
                    m = m & (!(1u8 << (o as u32)));
                }
                svs = stopval_px(soct, us, rad);
            }
            if o == eoct as i64 {
                if soct == eoct {
                    if us > ue {
                        m = 255;
                    } else {
                        m = m & (!(1u8 << (o as u32)));
                    }
                } else if o % 2 == 1 {
                    m = m & (!(1u8 << (o as u32)));
                } else {
                    m = m | (1u8 << (o as u32));
                }
                sve = stopval_px(eoct, ue, rad);
                proof {
                    assert(arc_walk(
                        oct0,
                        m0,
                        svs0,
                        sve0,
                        soct as int,
                        eoct as int,
                        us as int,
                        ue as int,
                        rad as int,
                        fuel0,
                    ) == (m, svs as int, sve as int));
                }
                break ;
            } else if o != soct as i64 {
                m = m | (1u8 << (o as u32));
            }
            proof {
                assert(arc_walk(
                    oct0,
                    m0,
                    svs0,
                    sve0,
                    soct as int,
                    eoct as int,
                    us as int,
                    ue as int,
                    rad as int,
                    fuel0,
                ) == arc_walk(
                    o as int,
                    m,
                    svs as int,
                    sve as int,
                    soct as int,
                    eoct as int,
                    us as int,
                    ue as int,
                    rad as int,
                    (fuel0 - 1) as nat,
                ));
            }
            fuel = fuel - 1;
            if fuel == 0 {
                proof {
                    assert(arc_walk(
                        o as int,
                        m,
                        svs as int,
                        sve as int,
                        soct as int,
                        eoct as int,
                        us as int,
                        ue as int,
                        rad as int,
                        0,
                    ) == (m, svs as int, sve as int));
                }
                break ;
            }
            oct = o;
        }

        // Generation loop: the standard midpoint circle, restricted by the
        // visibility mask, flipping a boundary octant when its stop offset
        // is reached.
        self.apply_brush(color);
        let ghost base = old(self)@.brush(color);
        let ghost c = ArcCtx {
            px: p.x as int,
            py: p.y as int,
            svs: svs as int,
            sve: sve as int,
            soct,
            eoct,
        };
        let ghost full = arc_gen(c, 0, rad as int, 1 - rad as int, 3, 5 - 2 * rad as int, m);
        assert(full == arc_trace(p, radius as int, start as int, end as int));
        let px: i64 = p.x as i64;
        let py: i64 = p.y as i64;
        let mut cx: i64 = 0;
        let mut cy: i64 = rad;
        let mut df: i128 = 1 - rad as i128;
        let mut d_e: i128 = 3;
        let mut d_se: i128 = 5 - 2 * (rad as i128);
        let ghost mut done: Seq<(int, int)> = Seq::empty();
        proof {
            assert(base.paint(done) == base);
        }
        while cx <= cy
            invariant
                self@.wf(),
                self@ == base.paint(done),
                done + arc_gen(c, cx as int, cy as int, df as int, d_e as int, d_se as int, m)
                    == full,
                base == old(self)@.brush(color),
                px == p.x as int,
                py == p.y as int,
                soct == c.soct,
                eoct == c.eoct,
                svs as int == c.svs,
                sve as int == c.sve,
                c.px == p.x as int,
                c.py == p.y as int,
                c.soct < 8,
                c.eoct < 8,
                1 <= rad < 0x8000_0000,
                0 <= cx <= cy + 2,
                -1 <= cy <= rad,
                d_e as int == 2 * cx as int + 3,
                d_se as int == 2 * (cx as int - cy as int) + 5,
                -(1 + rad as int) - cx as int * (4 * rad as int + 12) <= df as int <= (1
                    + rad as int) + cx as int * (4 * rad as int + 12),
            decreases cy - cx + 2,
        {
            let ghost done0 = done;
            let ghost rest = arc_gen(
                c,
                cx as int,
                cy as int,
                df as int,
                d_e as int,
                d_se as int,
                m,
            );
            let ghost step = arc_step_trace(px as int, py as int, cx as int, cy as int, m);
            self.arc_step(px, py, cx, cy, m)?;
            proof {
                lemma_paint_concat(base, done0, step);
                done = done0 + step;
            }
            if svs == cx {
                m = oct_toggle_px(m, soct);
            }
            if sve == cx {
                m = oct_toggle_px(m, eoct);
            }
            proof {
                let next: Seq<(int, int)> = if (df as int) < 0 {
                    arc_gen(
                        c,
                        cx as int + 1,
                        cy as int,
                        df as int + d_e as int,
                        d_e as int + 2,
                        d_se as int + 2,
                        m,
                    )
                } else {
                    arc_gen(
                        c,
                        cx as int + 1,
                        cy as int - 1,
                        df as int + d_se as int,
                        d_e as int + 2,
                        d_se as int + 4,
                        m,
                    )
                };
                assert(rest == step + next);
                assert(done0 + rest =~= (done0 + step) + next);
                assert(done + next == full);
                assert((1 + rad as int) + (cx as int + 1) * (4 * rad as int + 12) == (1
                    + rad as int) + cx as int * (4 * rad as int + 12) + (4 * rad as int + 12))
                    by (nonlinear_arith)
                ;
                assert(cx as int * (4 * rad as int + 12) <= 0x2_0000_0000_0000_0000)
                    by (nonlinear_arith)
                    requires
                        0 <= cx as int <= rad as int + 2,
                        1 <= rad as int && (rad as int) < 0x8000_0000,
                ;
            }
            if df < 0 {
                df = df + d_e;
                d_e = d_e + 2;
                d_se = d_se + 2;
            } else {
                df = df + d_se;
                d_e = d_e + 2;
                d_se = d_se + 4;
                cy = cy - 1;
            }
            cx = cx + 1;
        }
        proof {
            assert(arc_gen(c, cx as int, cy as int, df as int, d_e as int, d_se as int, m)
                =~= Seq::<(int, int)>::empty());
            assert(done =~= full);
        }
        Ok(())
    }
}

} // verus!
