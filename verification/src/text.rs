//! Text style parameters and the text-rasterizer boundary: an external
//! collaborator that turns a string and a style into an RGBA byte buffer
//! for a box of a given size. The library only blits what comes back,
//! pixel by pixel and bounds-checked, so no promise is demanded of an
//! implementation.

use vstd::prelude::*;
use crate::color::Color;

verus! {

/// Which font a piece of text is shaped with: the rasterizer's built-in
/// default, or caller-supplied font data.
pub enum FontParameters {
    Builtin,
    Custom(Vec<u8>),
}

/// The style of a piece of text: its content, color, scale in points, and
/// font selection.
pub struct TextParameters {
    pub text: String,
    pub color: Color,
    pub scale: u32,
    pub font: FontParameters,
}

impl TextParameters {
    pub fn new(text: String, color: Color, scale: u32, font: FontParameters)
        -> (t: TextParameters)
        ensures
            t.text == text,
            t.color == color,
            t.scale == scale,
            t.font == font,
    {
        TextParameters { text, color, scale, font }
    }
}

/// The text-rasterizer boundary. An implementation is expected to return
/// an RGBA buffer of exactly box_width * box_height * 4 bytes, row-major,
/// top-left origin, and an all-zero buffer of that size when it cannot
/// rasterize; the surface's text operation holds neither against it and
/// blits defensively.
pub trait TextRasterizer {
    fn rasterize(&self, params: &TextParameters, box_width: u32, box_height: u32) -> Vec<u8>;
}

} // verus!
