//! Value types shared by every drawing operation: screen points, RGBA
//! colors, the blend policy, and the library's error kinds.

use vstd::prelude::*;

verus! {

/// An integer screen coordinate. Passed by value, never mutated.
#[derive(Clone, Copy, PartialEq, Eq, Structural, Debug)]
pub struct Point {
    pub x: i32,
    pub y: i32,
}

impl Point {
    pub fn new(x: i32, y: i32) -> (p: Point)
        ensures
            p.x == x,
            p.y == y,
    {
        Point { x, y }
    }
}

/// An RGBA color with 8-bit channels. Alpha 255 is fully opaque; any other
/// alpha requests alpha blending.
#[derive(Clone, Copy, PartialEq, Eq, Structural, Debug)]
pub struct Color {
    pub r: u8,
    pub g: u8,
    pub b: u8,
    pub a: u8,
}

impl Color {
    pub fn new(r: u8, g: u8, b: u8, a: u8) -> (c: Color)
        ensures
            c == (Color { r, g, b, a }),
    {
        Color { r, g, b, a }
    }

    pub fn rgb(r: u8, g: u8, b: u8) -> (c: Color)
        ensures
            c == (Color { r, g, b, a: 255 }),
    {
        Color { r, g, b, a: 255 }
    }
}

/// Whether a pixel write overwrites the destination or alpha-composites
/// onto it. `Overwrite` corresponds to drawing with no blending.
#[derive(Clone, Copy, PartialEq, Eq, Structural, Debug)]
pub enum BlendMode {
    Overwrite,
    Blend,
}

/// The blend mode every drawing call selects from the alpha channel of the
/// color it is about to use: opaque colors overwrite, all others blend.
pub open spec fn blend_mode_of(c: Color) -> BlendMode {
    if c.a == 255 {
        BlendMode::Overwrite
    } else {
        BlendMode::Blend
    }
}

/// One color channel of source-over compositing on 8-bit channels:
/// `(src * a + dst * (255 - a)) / 255`, truncated.
pub open spec fn blend_channel(dst: int, src: int, a: int) -> int {
    (src * a + dst * (255 - a)) / 255
}

/// The alpha channel of source-over compositing:
/// `src_a + dst_a * (255 - src_a) / 255`, truncated.
pub open spec fn blend_alpha(dst_a: int, src_a: int) -> int {
    src_a + dst_a * (255 - src_a) / 255
}

/// The color a pixel holds after `src` is drawn onto `dst` under `mode`.
pub open spec fn apply_blend(dst: Color, src: Color, mode: BlendMode) -> Color {
    match mode {
        BlendMode::Overwrite => src,
        BlendMode::Blend => (Color {
            r: blend_channel(dst.r as int, src.r as int, src.a as int) as u8,
            g: blend_channel(dst.g as int, src.g as int, src.a as int) as u8,
            b: blend_channel(dst.b as int, src.b as int, src.a as int) as u8,
            a: blend_alpha(dst.a as int, src.a as int) as u8,
        }),
    }
}

/// One composited channel, executable form.
fn blend_channel_exec(dst: u8, src: u8, a: u8) -> (r: u8)
    ensures
        r as int == blend_channel(dst as int, src as int, a as int),
{
    proof {
        assert(src as int * a as int + dst as int * (255 - a as int) <= 255 * 255)
            by (nonlinear_arith)
            requires
                src <= 255,
                dst <= 255,
                a <= 255,
        ;
    }
    let num: u32 = (src as u32) * (a as u32) + (dst as u32) * (255 - a as u32);
    (num / 255) as u8
}

/// The composited alpha channel, executable form.
fn blend_alpha_exec(dst_a: u8, src_a: u8) -> (r: u8)
    ensures
        r as int == blend_alpha(dst_a as int, src_a as int),
{
    proof {
        assert(dst_a as int * (255 - src_a as int) <= 255 * (255 - src_a as int)
            && 255 * (255 - src_a as int) <= 255 * 255) by (nonlinear_arith)
            requires
                dst_a <= 255,
                src_a <= 255,
        ;
        vstd::arithmetic::div_mod::lemma_div_is_ordered(
            dst_a as int * (255 - src_a as int),
            255 * (255 - src_a as int),
            255,
        );
        assert((255 * (255 - src_a as int)) / 255 == 255 - src_a as int);
    }
    let scaled: u32 = (dst_a as u32) * (255 - src_a as u32) / 255;
    src_a + (scaled as u8)
}

/// Composites `src` over `dst` under `mode`; the executable counterpart of
/// [`apply_blend`].
pub fn blend_px(dst: Color, src: Color, mode: BlendMode) -> (r: Color)
    ensures
        r == apply_blend(dst, src, mode),
{
    match mode {
        BlendMode::Overwrite => src,
        BlendMode::Blend => Color {
            r: blend_channel_exec(dst.r, src.r, src.a),
            g: blend_channel_exec(dst.g, src.g, src.a),
            b: blend_channel_exec(dst.b, src.b, src.a),
            a: blend_alpha_exec(dst.a, src.a),
        },
    }
}

/// What a drawing operation reports when it cannot run.
#[derive(Clone, Copy, PartialEq, Eq, Structural, Debug)]
pub enum DrawError {
    /// A polygon was given fewer than 3 vertices.
    InvalidGeometry,
    /// A radius was negative, or a line width was not positive.
    InvalidParameter,
    /// A write to the underlying surface failed. The in-memory canvas of
    /// this crate never reports it; it exists so that callers drawing to a
    /// fallible surface share the library's error type.
    CanvasWriteFailed,
}

} // verus!
