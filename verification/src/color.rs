//! Premultiplied-alpha RGBA color values and the Porter-Duff "over"
//! compositing operator.

use vstd::prelude::*;

verus! {

/// An RGBA color with 8-bit channels. Each channel ranges over [0, 255].
#[derive(Clone, Copy, Debug, PartialEq, Eq, Structural)]
pub struct Color {
    pub r: u8,
    pub g: u8,
    pub b: u8,
    pub a: u8,
}

/// One channel of `premultiply`: the channel scaled by alpha / 255,
/// rounded down.
pub open spec fn premul_channel(c: int, a: int) -> int {
    c * a / 255
}

/// The premultiplied form of a color: r, g and b scaled by a / 255.
pub open spec fn premul_spec(c: Color) -> Color {
    Color {
        r: premul_channel(c.r as int, c.a as int) as u8,
        g: premul_channel(c.g as int, c.a as int) as u8,
        b: premul_channel(c.b as int, c.a as int) as u8,
        a: c.a,
    }
}

/// A color is in premultiplied form when no color channel exceeds alpha.
/// Blending keeps every channel within [0, 255] exactly for such sources.
pub open spec fn premultiplied(c: Color) -> bool {
    c.r <= c.a && c.g <= c.a && c.b <= c.a
}

/// One channel of the "over" operator on premultiplied colors:
/// src + dst * (255 - src_alpha) / 255, with the division rounded down.
pub open spec fn blend_channel(dst: int, src: int, src_a: int) -> int {
    src + dst * (255 - src_a) / 255
}

/// The "over" operator: `src` (already premultiplied) composited onto `dst`.
/// The alpha channel follows the same formula as the color channels.
pub open spec fn blend_spec(dst: Color, src: Color) -> Color {
    Color {
        r: blend_channel(dst.r as int, src.r as int, src.a as int) as u8,
        g: blend_channel(dst.g as int, src.g as int, src.a as int) as u8,
        b: blend_channel(dst.b as int, src.b as int, src.a as int) as u8,
        a: blend_channel(dst.a as int, src.a as int, src.a as int) as u8,
    }
}

proof fn lemma_premul_channel_bounds(c: int, a: int)
    requires
        0 <= c <= 255,
        0 <= a <= 255,
    ensures
        0 <= premul_channel(c, a) <= a,
        premul_channel(c, a) <= c,
{
    assert(c * a <= 255 * a) by (nonlinear_arith)
        requires 0 <= c <= 255, 0 <= a;
    assert(c * a <= c * 255) by (nonlinear_arith)
        requires 0 <= a <= 255, 0 <= c;
    assert(c * a >= 0) by (nonlinear_arith)
        requires 0 <= c, 0 <= a;
    assert(255 * a / 255 == a);
    assert(c * a / 255 <= 255 * a / 255) by {
        vstd::arithmetic::div_mod::lemma_div_is_ordered(c * a, 255 * a, 255);
    }
    assert(c * a / 255 <= c * 255 / 255) by {
        vstd::arithmetic::div_mod::lemma_div_is_ordered(c * a, c * 255, 255);
    }
    assert(c * 255 / 255 == c);
}

proof fn lemma_blend_channel_bounds(dst: int, src: int, src_a: int)
    requires
        0 <= dst <= 255,
        0 <= src <= src_a <= 255,
    ensures
        0 <= blend_channel(dst, src, src_a) <= 255,
{
    let inv = 255 - src_a;
    assert(0 <= dst * inv <= 255 * inv) by (nonlinear_arith)
        requires 0 <= dst <= 255, 0 <= inv;
    assert(dst * inv / 255 <= 255 * inv / 255) by {
        vstd::arithmetic::div_mod::lemma_div_is_ordered(dst * inv, 255 * inv, 255);
    }
    assert(255 * inv / 255 == inv);
    assert(dst * inv / 255 >= 0);
}

impl Color {
    pub fn new(r: u8, g: u8, b: u8, a: u8) -> (c: Color)
        ensures
            c == (Color { r, g, b, a }),
    {
        Color { r, g, b, a }
    }

    /// The fully transparent color: every channel zero.
    pub fn transparent() -> (c: Color)
        ensures
            c == (Color { r: 0, g: 0, b: 0, a: 0 }),
    {
        Color { r: 0, g: 0, b: 0, a: 0 }
    }

    /// Scales the color channels by alpha / 255, producing the
    /// premultiplied form that `blend` expects as its source.
    pub fn premultiply(&self) -> (c: Color)
        ensures
            c == premul_spec(*self),
            premultiplied(c),
    {
        proof {
            lemma_premul_channel_bounds(self.r as int, self.a as int);
            lemma_premul_channel_bounds(self.g as int, self.a as int);
            lemma_premul_channel_bounds(self.b as int, self.a as int);
        }
        let r = ((self.r as u32 * self.a as u32) / 255) as u8;
        let g = ((self.g as u32 * self.a as u32) / 255) as u8;
        let b = ((self.b as u32 * self.a as u32) / 255) as u8;
        Color { r, g, b, a: self.a }
    }

    /// Composites the premultiplied color `src` over `dst`:
    /// out = src + dst * (255 - src.a) / 255 on every channel.
    pub fn blend(dst: &Color, src: &Color) -> (c: Color)
        requires
            premultiplied(*src),
        ensures
            c == blend_spec(*dst, *src),
            premultiplied(*dst) ==> premultiplied(c),
    {
        proof {
            lemma_blend_channel_bounds(dst.r as int, src.r as int, src.a as int);
            lemma_blend_channel_bounds(dst.g as int, src.g as int, src.a as int);
            lemma_blend_channel_bounds(dst.b as int, src.b as int, src.a as int);
            lemma_blend_channel_bounds(dst.a as int, src.a as int, src.a as int);
            if premultiplied(*dst) {
                lemma_blend_preserves_premultiplied(*dst, *src);
            }
        }
        let inv_a = 255 - src.a as u32;
        let r = (src.r as u32 + (dst.r as u32 * inv_a) / 255) as u8;
        let g = (src.g as u32 + (dst.g as u32 * inv_a) / 255) as u8;
        let b = (src.b as u32 + (dst.b as u32 * inv_a) / 255) as u8;
        let a = (src.a as u32 + (dst.a as u32 * inv_a) / 255) as u8;
        Color { r, g, b, a }
    }
}

/// Blending a fully opaque premultiplied source replaces the destination.
pub proof fn lemma_blend_opaque(dst: Color, src: Color)
    requires
        premultiplied(src),
        src.a == 255,
    ensures
        blend_spec(dst, src) == src,
{
    assert(dst.r as int * 0 == 0) by (nonlinear_arith);
    assert(dst.g as int * 0 == 0) by (nonlinear_arith);
    assert(dst.b as int * 0 == 0) by (nonlinear_arith);
    assert(dst.a as int * 0 == 0) by (nonlinear_arith);
}

/// Blending a fully transparent premultiplied source leaves the
/// destination unchanged.
pub proof fn lemma_blend_transparent(dst: Color, src: Color)
    requires
        premultiplied(src),
        src.a == 0,
    ensures
        blend_spec(dst, src) == dst,
{
    assert(src.r == 0 && src.g == 0 && src.b == 0);
    assert(dst.r as int * 255 / 255 == dst.r as int);
    assert(dst.g as int * 255 / 255 == dst.g as int);
    assert(dst.b as int * 255 / 255 == dst.b as int);
    assert(dst.a as int * 255 / 255 == dst.a as int);
}

/// Blending keeps the premultiplied invariant: if both inputs are in
/// premultiplied form, so is the blended output.
pub proof fn lemma_blend_preserves_premultiplied(dst: Color, src: Color)
    requires
        premultiplied(dst),
        premultiplied(src),
    ensures
        premultiplied(blend_spec(dst, src)),
{
    let inv = 255 - src.a as int;
    lemma_blend_channel_bounds(dst.r as int, src.r as int, src.a as int);
    lemma_blend_channel_bounds(dst.g as int, src.g as int, src.a as int);
    lemma_blend_channel_bounds(dst.b as int, src.b as int, src.a as int);
    lemma_blend_channel_bounds(dst.a as int, src.a as int, src.a as int);
    assert(dst.r as int * inv <= dst.a as int * inv) by (nonlinear_arith)
        requires dst.r <= dst.a, 0 <= inv;
    assert(dst.g as int * inv <= dst.a as int * inv) by (nonlinear_arith)
        requires dst.g <= dst.a, 0 <= inv;
    assert(dst.b as int * inv <= dst.a as int * inv) by (nonlinear_arith)
        requires dst.b <= dst.a, 0 <= inv;
    vstd::arithmetic::div_mod::lemma_div_is_ordered(
        dst.r as int * inv, dst.a as int * inv, 255);
    vstd::arithmetic::div_mod::lemma_div_is_ordered(
        dst.g as int * inv, dst.a as int * inv, 255);
    vstd::arithmetic::div_mod::lemma_div_is_ordered(
        dst.b as int * inv, dst.a as int * inv, 255);
}

} // verus!
