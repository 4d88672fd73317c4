//! Plain RGBA bitmaps: the shape that image decoders deliver and that the
//! surface's sprite and image operations consume (width, height, and a
//! row-major pixel array with its origin in the top-left corner).

use vstd::prelude::*;
use crate::color::Color;

verus! {

/// A width x height grid of colors, row-major, origin top-left.
#[derive(Clone, Debug, PartialEq)]
pub struct Bitmap {
    pub width: u32,
    pub height: u32,
    pub pixels: Vec<Color>,
}

impl Bitmap {
    /// A bitmap is well formed when the pixel array has exactly
    /// width * height entries.
    pub open spec fn wf(&self) -> bool {
        &&& self.pixels@.len() == self.width as int * self.height as int
        &&& self.width as int * self.height as int <= u32::MAX as int
    }

    /// The pixel grid, row-major.
    pub open spec fn grid(&self) -> Seq<Color> {
        self.pixels@
    }

    pub open spec fn width_spec(&self) -> int {
        self.width as int
    }

    pub open spec fn height_spec(&self) -> int {
        self.height as int
    }

    /// The pixel at column x, row y.
    pub open spec fn pixel(&self, x: int, y: int) -> Color {
        self.pixels@[y * self.width as int + x]
    }

    /// Builds a bitmap from a row-major pixel array.
    pub fn new(width: u32, height: u32, pixels: Vec<Color>) -> (b: Bitmap)
        requires
            pixels@.len() == width as int * height as int,
            width as int * height as int <= u32::MAX as int,
        ensures
            b.wf(),
            b.width_spec() == width as int,
            b.height_spec() == height as int,
            b.grid() == pixels@,
    {
        Bitmap { width, height, pixels }
    }

    /// Builds a bitmap from raw RGBA bytes, 4 bytes per pixel, row-major.
    pub fn from_rgba_bytes(width: u32, height: u32, data: &[u8]) -> (b: Bitmap)
        requires
            data@.len() == 4 * (width as int * height as int),
            width as int * height as int <= u32::MAX as int,
        ensures
            b.wf(),
            b.width_spec() == width as int,
            b.height_spec() == height as int,
            forall|k: int| 0 <= k < width as int * height as int ==> b.grid()[k] == (Color {
                r: data@[4 * k],
                g: data@[4 * k + 1],
                b: data@[4 * k + 2],
                a: data@[4 * k + 3],
            }),
    {
        let n = (data.len() / 4) as usize;
        let mut pixels: Vec<Color> = Vec::new();
        let mut k: usize = 0;
        while k < n
            invariant
                n == width as int * height as int,
                data@.len() == 4 * n,
                4 * n <= usize::MAX as int,
                k <= n,
                pixels@.len() == k,
                forall|i: int| 0 <= i < k ==> pixels@[i] == (Color {
                    r: data@[4 * i],
                    g: data@[4 * i + 1],
                    b: data@[4 * i + 2],
                    a: data@[4 * i + 3],
                }),
            decreases n - k,
        {
            let c = Color {
                r: data[4 * k],
                g: data[4 * k + 1],
                b: data[4 * k + 2],
                a: data[4 * k + 3],
            };
            pixels.push(c);
            k = k + 1;
        }
        Bitmap { width, height, pixels }
    }

    pub fn width(&self) -> (w: u32)
        ensures
            w as int == self.width_spec(),
    {
        self.width
    }

    pub fn height(&self) -> (h: u32)
        ensures
            h as int == self.height_spec(),
    {
        self.height
    }

    /// The pixel at column x, row y, when in bounds.
    pub fn get_pixel(&self, x: u32, y: u32) -> (c: Option<Color>)
        requires
            self.wf(),
        ensures
            match c {
                Some(col) => x < self.width_spec() && y < self.height_spec()
                    && col == self.pixel(x as int, y as int),
                None => !(x < self.width_spec() && y < self.height_spec()),
            },
    {
        if x < self.width && y < self.height {
            proof {
                lemma_row_major_index(self.width as int, self.height as int, x as int, y as int);
            }
            Some(self.pixels[(y as usize) * (self.width as usize) + (x as usize)])
        } else {
            None
        }
    }

    /// An equal copy of the bitmap.
    pub fn duplicate(&self) -> (b: Bitmap)
        ensures
            b.width == self.width,
            b.height == self.height,
            b.grid() == self.grid(),
    {
        let mut pixels: Vec<Color> = Vec::new();
        let mut k: usize = 0;
        let n = self.pixels.len();
        while k < n
            invariant
                n == self.pixels@.len(),
                k <= n,
                pixels@.len() == k,
                forall|i: int| 0 <= i < k ==> pixels@[i] == self.pixels@[i],
            decreases n - k,
        {
            pixels.push(self.pixels[k]);
            k = k + 1;
        }
        proof {
            assert(pixels@ =~= self.grid());
        }
        Bitmap { width: self.width, height: self.height, pixels }
    }

    /// The pixel grid flattened to RGBA bytes, 4 bytes per pixel, row-major.
    pub fn to_rgba_bytes(&self) -> (data: Vec<u8>)
        ensures
            data@.len() == 4 * self.grid().len(),
            forall|k: int| 0 <= k < self.grid().len() ==> {
                &&& data@[4 * k] == self.grid()[k].r
                &&& data@[4 * k + 1] == self.grid()[k].g
                &&& data@[4 * k + 2] == self.grid()[k].b
                &&& data@[4 * k + 3] == self.grid()[k].a
            },
    {
        let mut data: Vec<u8> = Vec::new();
        let mut k: usize = 0;
        while k < self.pixels.len()
            invariant
                k <= self.pixels@.len(),
                data@.len() == 4 * k,
                forall|i: int| 0 <= i < k ==> {
                    &&& data@[4 * i] == self.pixels@[i].r
                    &&& data@[4 * i + 1] == self.pixels@[i].g
                    &&& data@[4 * i + 2] == self.pixels@[i].b
                    &&& data@[4 * i + 3] == self.pixels@[i].a
                },
            decreases self.pixels@.len() - k,
        {
            let p = self.pixels[k];
            data.push(p.r);
            data.push(p.g);
            data.push(p.b);
            data.push(p.a);
            k = k + 1;
        }
        data
    }
}

/// Within a width x height grid, the row-major index of an in-bounds cell
/// lies inside the pixel array.
pub proof fn lemma_row_major_index(w: int, h: int, x: int, y: int)
    requires
        0 <= x < w,
        0 <= y < h,
    ensures
        0 <= y * w + x < w * h,
{
    assert(y * w + x < w * h) by (nonlinear_arith)
        requires 0 <= x < w, 0 <= y < h;
    assert(y * w >= 0) by (nonlinear_arith)
        requires y >= 0, w >= 0;
}

} // verus!
