//! The drawable pixel surface: a width x height buffer of colors with
//! bounds-checked point access, a draw mode (replace or blend), and the
//! drawing primitives. Every primitive is specified as a fold of the cell
//! sequence it emits over the single-pixel paint step.

use vstd::prelude::*;
use crate::color::{blend_spec, premul_spec, Color};
use crate::bitmap::{lemma_row_major_index, Bitmap};
use crate::raster::{line_pts, lemma_line_pts_single, lemma_line_pts_symmetric};

verus! {

/// A point on the surface's integer grid. Coordinates may lie outside the
/// surface; such cells are silently skipped by every drawing operation.
#[derive(Clone, Copy, Debug, PartialEq, Eq, Structural)]
pub struct Point {
    pub x: i32,
    pub y: i32,
}

impl Point {
    pub fn new(x: i32, y: i32) -> (p: Point)
        ensures
            p == (Point { x, y }),
    {
        Point { x, y }
    }

    /// The point as a spec-level pair.
    pub open spec fn pair(&self) -> (int, int) {
        (self.x as int, self.y as int)
    }
}

/// How a drawing operation combines an incoming color with the cell it
/// lands on: plain replacement, or "over" compositing.
#[derive(Clone, Copy, Debug, PartialEq, Eq, Structural)]
pub enum DrawMode {
    Blend,
    Replace,
}

/// Drawing coordinates are kept within this magnitude so that the
/// rasterizers' integer arithmetic cannot overflow.
pub const COORD_LIMIT: i32 = 0x1000_0000;

/// A coordinate pair small enough for the rasterizers' arithmetic.
pub open spec fn coord_ok(p: (int, int)) -> bool {
    &&& -(COORD_LIMIT as int) <= p.0 <= COORD_LIMIT as int
    &&& -(COORD_LIMIT as int) <= p.1 <= COORD_LIMIT as int
}

/// Whether a cell position lies on a w x h grid.
pub open spec fn pt_in(w: int, h: int, p: (int, int)) -> bool {
    0 <= p.0 < w && 0 <= p.1 < h
}

/// What one paint step leaves in a cell: under `Replace` the premultiplied
/// incoming color; under `Blend` the incoming color premultiplied and
/// composited over the cell.
pub open spec fn apply_mode(dst: Color, c: Color, mode: DrawMode) -> Color {
    match mode {
        DrawMode::Replace => premul_spec(c),
        DrawMode::Blend => blend_spec(dst, premul_spec(c)),
    }
}

/// One paint step on a row-major w x h grid: out-of-bounds positions leave
/// the grid unchanged.
pub open spec fn paint_at(g: Seq<Color>, w: int, h: int, p: (int, int), c: Color, mode: DrawMode)
    -> Seq<Color>
{
    if pt_in(w, h, p) {
        let i = p.1 * w + p.0;
        g.update(i, apply_mode(g[i], c, mode))
    } else {
        g
    }
}

/// Paint steps folded over a sequence of positions, all with one color.
pub open spec fn paint_pts(
    g: Seq<Color>, w: int, h: int, pts: Seq<(int, int)>, c: Color, mode: DrawMode,
) -> Seq<Color>
    decreases pts.len(),
{
    if pts.len() == 0 {
        g
    } else {
        paint_pts(paint_at(g, w, h, pts[0], c, mode), w, h, pts.drop_first(), c, mode)
    }
}

/// Paint steps folded over a sequence of position-color pairs.
pub open spec fn paint_items(
    g: Seq<Color>, w: int, h: int, items: Seq<((int, int), Color)>, mode: DrawMode,
) -> Seq<Color>
    decreases items.len(),
{
    if items.len() == 0 {
        g
    } else {
        paint_items(
            paint_at(g, w, h, items[0].0, items[0].1, mode), w, h, items.drop_first(), mode)
    }
}

/// Painting a concatenation paints the first part, then the second.
pub proof fn lemma_paint_pts_concat(
    g: Seq<Color>, w: int, h: int, a: Seq<(int, int)>, b: Seq<(int, int)>, c: Color,
    mode: DrawMode,
)
    ensures
        paint_pts(g, w, h, a + b, c, mode)
            == paint_pts(paint_pts(g, w, h, a, c, mode), w, h, b, c, mode),
    decreases a.len(),
{
    if a.len() == 0 {
        assert(a + b =~= b);
    } else {
        assert((a + b)[0] == a[0]);
        assert((a + b).drop_first() =~= a.drop_first() + b);
        lemma_paint_pts_concat(paint_at(g, w, h, a[0], c, mode), w, h, a.drop_first(), b, c, mode);
    }
}

/// A mutable width x height buffer of colors, drawn into by the primitive
/// operations below and cleared or resized wholesale.
#[derive(Clone, Debug)]
pub struct Surface2D {
    pub width: u32,
    pub height: u32,
    pub clear_color: Color,
    pub values: Vec<Color>,
    pub draw_mode: DrawMode,
}

impl Surface2D {
    /// The surface is well formed when its buffer holds exactly
    /// width * height cells.
    pub open spec fn wf(&self) -> bool {
        &&& self.values@.len() == self.width as int * self.height as int
        &&& self.width as int * self.height as int <= u32::MAX as int
    }

    /// The cell grid, row-major, origin top-left.
    pub open spec fn grid(&self) -> Seq<Color> {
        self.values@
    }

    /// Whether a position lies on the surface.
    pub open spec fn in_bounds(&self, p: (int, int)) -> bool {
        pt_in(self.width as int, self.height as int, p)
    }

    /// The cell at column x, row y.
    pub open spec fn cell(&self, x: int, y: int) -> Color {
        self.values@[y * self.width as int + x]
    }

    /// The shape of the surface: everything except the cell contents.
    pub open spec fn same_shape(&self, other: &Surface2D) -> bool {
        &&& self.width == other.width
        &&& self.height == other.height
        &&& self.clear_color == other.clear_color
        &&& self.draw_mode == other.draw_mode
    }

    /// A fresh surface of the given dimensions, filled with the clear
    /// color, drawing in blend mode.
    pub fn new(width: u32, height: u32, clear_color: Color) -> (s: Surface2D)
        requires
            width as int * height as int <= u32::MAX as int,
        ensures
            s.wf(),
            s.width == width,
            s.height == height,
            s.clear_color == clear_color,
            s.draw_mode == DrawMode::Blend,
            forall|i: int| 0 <= i < s.grid().len() ==> s.grid()[i] == clear_color,
    {
        let n = (width * height) as usize;
        Surface2D {
            width,
            height,
            clear_color,
            values: filled(n, clear_color),
            draw_mode: DrawMode::Blend,
        }
    }

    /// A surface holding a copy of the given bitmap, with a transparent
    /// clear color, drawing in blend mode.
    pub fn from_image(image: &Bitmap) -> (s: Surface2D)
        requires
            image.wf(),
        ensures
            s.wf(),
            s.width as int == image.width_spec(),
            s.height as int == image.height_spec(),
            s.clear_color == (Color { r: 0, g: 0, b: 0, a: 0 }),
            s.draw_mode == DrawMode::Blend,
            s.grid() == image.grid(),
    {
        let mut values: Vec<Color> = Vec::new();
        let mut k: usize = 0;
        let n = image.pixels.len();
        while k < n
            invariant
                n == image.pixels@.len(),
                k <= n,
                values@.len() == k,
                forall|i: int| 0 <= i < k ==> values@[i] == image.pixels@[i],
            decreases n - k,
        {
            values.push(image.pixels[k]);
            k = k + 1;
        }
        proof {
            assert(values@ =~= image.grid());
        }
        Surface2D {
            width: image.width,
            height: image.height,
            clear_color: Color { r: 0, g: 0, b: 0, a: 0 },
            values,
            draw_mode: DrawMode::Blend,
        }
    }

    /// A surface decoded from raw BGRA bytes, 4 bytes per cell, row-major.
    pub fn from_data_bgra(width: u32, height: u32, data: &[u8]) -> (s: Surface2D)
        requires
            data@.len() == 4 * (width as int * height as int),
            width as int * height as int <= u32::MAX as int,
        ensures
            s.wf(),
            s.width == width,
            s.height == height,
            s.clear_color == (Color { r: 0, g: 0, b: 0, a: 0 }),
            s.draw_mode == DrawMode::Blend,
            forall|k: int| 0 <= k < width as int * height as int ==> s.grid()[k] == (Color {
                r: data@[4 * k + 2],
                g: data@[4 * k + 1],
                b: data@[4 * k],
                a: data@[4 * k + 3],
            }),
    {
        let n = (data.len() / 4) as usize;
        let mut values: Vec<Color> = Vec::new();
        let mut k: usize = 0;
        while k < n
            invariant
                n == width as int * height as int,
                data@.len() == 4 * n,
                4 * n <= usize::MAX as int,
                k <= n,
                values@.len() == k,
                forall|i: int| 0 <= i < k ==> values@[i] == (Color {
                    r: data@[4 * i + 2],
                    g: data@[4 * i + 1],
                    b: data@[4 * i],
                    a: data@[4 * i + 3],
                }),
            decreases n - k,
        {
            let c = Color {
                r: data[4 * k + 2],
                g: data[4 * k + 1],
                b: data[4 * k],
                a: data[4 * k + 3],
            };
            values.push(c);
            k = k + 1;
        }
        Surface2D {
            width,
            height,
            clear_color: Color { r: 0, g: 0, b: 0, a: 0 },
            values,
            draw_mode: DrawMode::Blend,
        }
    }

    pub fn width(&self) -> (w: u32)
        ensures
            w == self.width,
    {
        self.width
    }

    pub fn height(&self) -> (h: u32)
        ensures
            h == self.height,
    {
        self.height
    }

    /// Bounds-checked point access: the cell under a position, when the
    /// position lies on the surface.
    pub fn get_pixel(&self, position: Point) -> (c: Option<Color>)
        requires
            self.wf(),
        ensures
            match c {
                Some(col) => self.in_bounds(position.pair())
                    && col == self.cell(position.x as int, position.y as int),
                None => !self.in_bounds(position.pair()),
            },
    {
        if position.x >= 0 && position.y >= 0
            && (position.x as i64) < (self.width as i64)
            && (position.y as i64) < (self.height as i64)
        {
            proof {
                lemma_row_major_index(
                    self.width as int, self.height as int, position.x as int, position.y as int);
            }
            let i = (position.y as usize) * (self.width as usize) + (position.x as usize);
            Some(self.values[i])
        } else {
            None
        }
    }

    /// Draws a point: a no-op outside the surface; inside, the cell takes
    /// the premultiplied color under `Replace`, or that color composited
    /// over the cell under `Blend`.
    pub fn draw_pixel(&mut self, position: Point, color: Color)
        requires
            old(self).wf(),
        ensures
            final(self).wf(),
            old(self).same_shape(final(self)),
            final(self).grid() == paint_at(
                old(self).grid(), old(self).width as int, old(self).height as int,
                position.pair(), color, old(self).draw_mode),
            !old(self).in_bounds(position.pair()) ==> final(self).grid() == old(self).grid(),
            old(self).in_bounds(position.pair()) && old(self).draw_mode == DrawMode::Replace
                ==> final(self).cell(position.x as int, position.y as int)
                    == premul_spec(color),
    {
        if position.x >= 0 && position.y >= 0
            && (position.x as i64) < (self.width as i64)
            && (position.y as i64) < (self.height as i64)
        {
            proof {
                lemma_row_major_index(
                    self.width as int, self.height as int, position.x as int, position.y as int);
            }
            let i = (position.y as usize) * (self.width as usize) + (position.x as usize);
            let dst = self.values[i];
            let px = color.premultiply();
            let out = match self.draw_mode {
                DrawMode::Replace => px,
                DrawMode::Blend => Color::blend(&dst, &px),
            };
            self.values[i] = out;
        }
    }

    /// Overwrites every cell with the clear color.
    pub fn clear(&mut self)
        requires
            old(self).wf(),
        ensures
            final(self).wf(),
            old(self).same_shape(final(self)),
            final(self).grid().len() == old(self).grid().len(),
            forall|i: int| 0 <= i < final(self).grid().len()
                ==> final(self).grid()[i] == old(self).clear_color,
    {
        let n = self.values.len();
        self.values = filled(n, self.clear_color);
    }

    /// Reallocates the buffer to the new dimensions and refills it
    /// entirely with the clear color; previous contents are dropped.
    pub fn resize(&mut self, new_width: u32, new_height: u32)
        requires
            old(self).wf(),
            new_width as int * new_height as int <= u32::MAX as int,
        ensures
            final(self).wf(),
            final(self).width == new_width,
            final(self).height == new_height,
            final(self).clear_color == old(self).clear_color,
            final(self).draw_mode == old(self).draw_mode,
            forall|i: int| 0 <= i < final(self).grid().len()
                ==> final(self).grid()[i] == old(self).clear_color,
    {
        self.width = new_width;
        self.height = new_height;
        let n = (new_width * new_height) as usize;
        self.values = filled(n, self.clear_color);
    }

    /// The cell grid flattened to RGBA bytes, 4 bytes per cell, row-major.
    pub fn raw_values(&self) -> (data: Vec<u8>)
        ensures
            data@.len() == 4 * self.grid().len(),
            forall|k: int| 0 <= k < self.grid().len() ==> {
                &&& data@[4 * k] == self.grid()[k].r
                &&& data@[4 * k + 1] == self.grid()[k].g
                &&& data@[4 * k + 2] == self.grid()[k].b
                &&& data@[4 * k + 3] == self.grid()[k].a
            },
    {
        let mut data: Vec<u8> = Vec::new();
        let mut k: usize = 0;
        while k < self.values.len()
            invariant
                k <= self.values@.len(),
                data@.len() == 4 * k,
                forall|i: int| 0 <= i < k ==> {
                    &&& data@[4 * i] == self.values@[i].r
                    &&& data@[4 * i + 1] == self.values@[i].g
                    &&& data@[4 * i + 2] == self.values@[i].b
                    &&& data@[4 * i + 3] == self.values@[i].a
                },
            decreases self.values@.len() - k,
        {
            let p = self.values[k];
            data.push(p.r);
            data.push(p.g);
            data.push(p.b);
            data.push(p.a);
            k = k + 1;
        }
        data
    }

    /// The cell grid flattened to BGRA bytes, 4 bytes per cell, row-major.
    pub fn raw_bgra_values(&self) -> (data: Vec<u8>)
        ensures
            data@.len() == 4 * self.grid().len(),
            forall|k: int| 0 <= k < self.grid().len() ==> {
                &&& data@[4 * k] == self.grid()[k].b
                &&& data@[4 * k + 1] == self.grid()[k].g
                &&& data@[4 * k + 2] == self.grid()[k].r
                &&& data@[4 * k + 3] == self.grid()[k].a
            },
    {
        let mut data: Vec<u8> = Vec::new();
        let mut k: usize = 0;
        while k < self.values.len()
            invariant
                k <= self.values@.len(),
                data@.len() == 4 * k,
                forall|i: int| 0 <= i < k ==> {
                    &&& data@[4 * i] == self.values@[i].b
                    &&& data@[4 * i + 1] == self.values@[i].g
                    &&& data@[4 * i + 2] == self.values@[i].r
                    &&& data@[4 * i + 3] == self.values@[i].a
                },
            decreases self.values@.len() - k,
        {
            let p = self.values[k];
            data.push(p.b);
            data.push(p.g);
            data.push(p.r);
            data.push(p.a);
            k = k + 1;
        }
        data
    }

    /// The surface's current contents as a bitmap.
    pub fn image(&self) -> (b: Bitmap)
        requires
            self.wf(),
        ensures
            b.wf(),
            b.width_spec() == self.width as int,
            b.height_spec() == self.height as int,
            b.grid() == self.grid(),
    {
        let mut pixels: Vec<Color> = Vec::new();
        let mut k: usize = 0;
        let n = self.values.len();
        while k < n
            invariant
                n == self.values@.len(),
                k <= n,
                pixels@.len() == k,
                forall|i: int| 0 <= i < k ==> pixels@[i] == self.values@[i],
            decreases n - k,
        {
            pixels.push(self.values[k]);
            k = k + 1;
        }
        proof {
            assert(pixels@ =~= self.grid());
        }
        Bitmap { width: self.width, height: self.height, pixels }
    }
}

impl Surface2D {
    /// Draws a line between the endpoints with Bresenham's algorithm:
    /// straight runs for the axis-aligned cases, otherwise the shallow or
    /// steep stepper, with identical cell coverage whichever endpoint
    /// comes first.
    pub fn draw_line(&mut self, start: Point, end: Point, color: Color)
        requires
            old(self).wf(),
            coord_ok(start.pair()),
            coord_ok(end.pair()),
        ensures
            final(self).wf(),
            old(self).same_shape(final(self)),
            final(self).grid() == paint_pts(
                old(self).grid(), old(self).width as int, old(self).height as int,
                line_pts(start.x as int, start.y as int, end.x as int, end.y as int),
                color, old(self).draw_mode),
    {
        let ghost w = self.width as int;
        let ghost h = self.height as int;
        let ghost mode = self.draw_mode;
        let ghost all = line_pts(start.x as int, start.y as int, end.x as int, end.y as int);
        let dx = if end.x >= start.x { end.x - start.x } else { start.x - end.x };
        let dy = if end.y >= start.y { end.y - start.y } else { start.y - end.y };

        if dx == 0 {
            let y0 = if end.y < start.y { end.y } else { start.y };
            let y1 = if end.y < start.y { start.y } else { end.y };
            assert(all == crate::raster::vertical_pts(start.x as int, y0 as int, y1 as int));
            let mut y = y0;
            while y <= y1
                invariant
                    self.wf(),
                    old(self).same_shape(self),
                    w == self.width as int,
                    h == self.height as int,
                    mode == self.draw_mode,
                    y0 <= y,
                    y <= y1 + 1,
                    y1 < i32::MAX,
                    paint_pts(
                        self.grid(), w, h,
                        crate::raster::vertical_pts(start.x as int, y as int, y1 as int),
                        color, mode)
                        == paint_pts(old(self).grid(), w, h, all, color, mode),
                decreases y1 + 1 - y,
            {
                let ghost pre = self.grid();
                let ghost rest = crate::raster::vertical_pts(
                    start.x as int, y as int + 1, y1 as int);
                self.draw_pixel(Point { x: start.x, y }, color);
                proof {
                    let run = crate::raster::vertical_pts(start.x as int, y as int, y1 as int);
                    assert(run == seq![(start.x as int, y as int)] + rest);
                    assert(run[0] == (start.x as int, y as int));
                    assert(run.drop_first() =~= rest);
                }
                y = y + 1;
            }
        } else if dy == 0 {
            let x0 = if end.x < start.x { end.x } else { start.x };
            let x1 = if end.x < start.x { start.x } else { end.x };
            assert(all == crate::raster::horizontal_pts(start.y as int, x0 as int, x1 as int));
            let mut x = x0;
            while x <= x1
                invariant
                    self.wf(),
                    old(self).same_shape(self),
                    w == self.width as int,
                    h == self.height as int,
                    mode == self.draw_mode,
                    x0 <= x,
                    x <= x1 + 1,
                    x1 < i32::MAX,
                    paint_pts(
                        self.grid(), w, h,
                        crate::raster::horizontal_pts(start.y as int, x as int, x1 as int),
                        color, mode)
                        == paint_pts(old(self).grid(), w, h, all, color, mode),
                decreases x1 + 1 - x,
            {
                let ghost rest = crate::raster::horizontal_pts(
                    start.y as int, x as int + 1, x1 as int);
                self.draw_pixel(Point { x, y: start.y }, color);
                proof {
                    let run = crate::raster::horizontal_pts(start.y as int, x as int, x1 as int);
                    assert(run == seq![(x as int, start.y as int)] + rest);
                    assert(run[0] == (x as int, start.y as int));
                    assert(run.drop_first() =~= rest);
                }
                x = x + 1;
            }
        } else if dy < dx {
            if start.x > end.x {
                self.draw_line_low(end, start, color);
            } else {
                self.draw_line_low(start, end, color);
            }
        } else {
            if start.y > end.y {
                self.draw_line_high(end, start, color);
            } else {
                self.draw_line_high(start, end, color);
            }
        }
    }

    /// Draws an axis-aligned rectangle between two opposite corners:
    /// filled cell by cell in row-major order, or as four outline edges.
    pub fn draw_rectangle(&mut self, start: Point, end: Point, color: Color, fill: bool)
        requires
            old(self).wf(),
            coord_ok(start.pair()),
            coord_ok(end.pair()),
        ensures
            final(self).wf(),
            old(self).same_shape(final(self)),
            fill ==> final(self).grid() == paint_pts(
                old(self).grid(), old(self).width as int, old(self).height as int,
                crate::raster::rect_fill_pts(
                    vstd::math::min(start.x as int, end.x as int),
                    vstd::math::max(start.x as int, end.x as int),
                    vstd::math::min(start.y as int, end.y as int),
                    vstd::math::max(start.y as int, end.y as int)),
                color, old(self).draw_mode),
            !fill ==> final(self).grid() == paint_pts(
                old(self).grid(), old(self).width as int, old(self).height as int,
                crate::raster::rect_outline_pts(
                    start.x as int, start.y as int, end.x as int, end.y as int),
                color, old(self).draw_mode),
    {
        let ghost w = self.width as int;
        let ghost h = self.height as int;
        let ghost mode = self.draw_mode;
        if fill {
            let x0 = if end.x < start.x { end.x } else { start.x };
            let x1 = if end.x < start.x { start.x } else { end.x };
            let y0 = if end.y < start.y { end.y } else { start.y };
            let y1 = if end.y < start.y { start.y } else { end.y };
            let ghost all = crate::raster::rect_fill_pts(
                x0 as int, x1 as int, y0 as int, y1 as int);
            let mut y = y0;
            while y <= y1
                invariant
                    self.wf(),
                    old(self).same_shape(self),
                    w == self.width as int,
                    h == self.height as int,
                    mode == self.draw_mode,
                    y0 <= y,
                    y <= y1 + 1,
                    y1 < i32::MAX,
                    x0 <= x1,
                    x1 < i32::MAX,
                    paint_pts(
                        self.grid(), w, h,
                        crate::raster::rect_fill_pts(x0 as int, x1 as int, y as int, y1 as int),
                        color, mode)
                        == paint_pts(old(self).grid(), w, h, all, color, mode),
                decreases y1 + 1 - y,
            {
                let ghost below = crate::raster::rect_fill_pts(
                    x0 as int, x1 as int, y as int + 1, y1 as int);
                proof {
                    assert(crate::raster::rect_fill_pts(
                        x0 as int, x1 as int, y as int, y1 as int)
                        == crate::raster::horizontal_pts(y as int, x0 as int, x1 as int) + below);
                }
                let mut x = x0;
                while x <= x1
                    invariant
                        self.wf(),
                        old(self).same_shape(self),
                        w == self.width as int,
                        h == self.height as int,
                        mode == self.draw_mode,
                        x0 <= x,
                        x <= x1 + 1,
                        x1 < i32::MAX,
                        paint_pts(
                            self.grid(), w, h,
                            crate::raster::horizontal_pts(y as int, x as int, x1 as int) + below,
                            color, mode)
                            == paint_pts(old(self).grid(), w, h, all, color, mode),
                    decreases x1 + 1 - x,
                {
                    let ghost run = crate::raster::horizontal_pts(y as int, x as int, x1 as int)
                        + below;
                    self.draw_pixel(Point { x, y }, color);
                    proof {
                        let rest = crate::raster::horizontal_pts(
                            y as int, x as int + 1, x1 as int) + below;
                        assert(run[0] == (x as int, y as int));
                        assert(run.drop_first() =~= rest);
                    }
                    x = x + 1;
                }
                proof {
                    assert(crate::raster::horizontal_pts(y as int, x as int, x1 as int)
                        =~= Seq::<(int, int)>::empty());
                    assert(crate::raster::horizontal_pts(y as int, x as int, x1 as int) + below
                        =~= below);
                }
                y = y + 1;
            }
        } else {
            let ghost g0 = self.grid();
            let ghost l1 = line_pts(start.x as int, start.y as int, end.x as int, start.y as int);
            let ghost l2 = line_pts(end.x as int, start.y as int, end.x as int, end.y as int);
            let ghost l3 = line_pts(end.x as int, end.y as int, start.x as int, end.y as int);
            let ghost l4 = line_pts(start.x as int, end.y as int, start.x as int, start.y as int);
            self.draw_line(Point { x: start.x, y: start.y }, Point { x: end.x, y: start.y }, color);
            let ghost g1 = self.grid();
            self.draw_line(Point { x: end.x, y: start.y }, Point { x: end.x, y: end.y }, color);
            let ghost g2 = self.grid();
            self.draw_line(Point { x: end.x, y: end.y }, Point { x: start.x, y: end.y }, color);
            let ghost g3 = self.grid();
            self.draw_line(Point { x: start.x, y: end.y }, Point { x: start.x, y: start.y }, color);
            proof {
                lemma_paint_pts_concat(g0, w, h, l1, l2, color, mode);
                lemma_paint_pts_concat(g0, w, h, l1 + l2, l3, color, mode);
                lemma_paint_pts_concat(g0, w, h, l1 + l2 + l3, l4, color, mode);
            }
        }
    }

    /// Draws a circle with the midpoint algorithm: one octant is stepped
    /// with second-order decision increments, and each base point is
    /// reflected into all 8 octants (outline) or connected by 4 horizontal
    /// spans (fill).
    pub fn draw_circle(&mut self, center: Point, radius: u32, color: Color, fill: bool)
        requires
            old(self).wf(),
            vstd::math::abs(center.x as int) + radius as int <= COORD_LIMIT as int,
            vstd::math::abs(center.y as int) + radius as int <= COORD_LIMIT as int,
        ensures
            final(self).wf(),
            old(self).same_shape(final(self)),
            final(self).grid() == paint_pts(
                old(self).grid(), old(self).width as int, old(self).height as int,
                crate::raster::circle_pts(
                    center.x as int, center.y as int, radius as int, fill),
                color, old(self).draw_mode),
    {
        let ghost w = self.width as int;
        let ghost h = self.height as int;
        let ghost mode = self.draw_mode;
        let ghost all = crate::raster::circle_pts(
            center.x as int, center.y as int, radius as int, fill);
        let r = radius as i64;
        let mut x: i64 = 0;
        let mut y: i64 = r;
        let mut d: i64 = 5 - 4 * r;
        let mut da: i64 = 12;
        let mut db: i64 = 20 - 8 * r;
        while x <= y
            invariant
                self.wf(),
                old(self).same_shape(self),
                w == self.width as int,
                h == self.height as int,
                mode == self.draw_mode,
                r == radius as int,
                vstd::math::abs(center.x as int) + r as int <= COORD_LIMIT as int,
                vstd::math::abs(center.y as int) + r as int <= COORD_LIMIT as int,
                0 <= x,
                x <= y + 2,
                -1 <= y,
                y <= r,
                da as int == 8 * x as int + 12,
                db as int == 20 + 8 * x as int - 8 * y as int,
                d as int == 4 * x as int * x as int + 8 * x as int
                    + 4 * y as int * y as int - 4 * y as int
                    - 4 * r as int * r as int + 5,
                paint_pts(
                    self.grid(), w, h,
                    crate::raster::circle_emit(
                        crate::raster::circle_arc(x as int, y as int, d as int),
                        center.x as int, center.y as int, fill),
                    color, mode)
                    == paint_pts(old(self).grid(), w, h, all, color, mode),
            decreases y + 2 - x,
        {
            let ghost g0 = self.grid();
            let ghost arc = crate::raster::circle_arc(x as int, y as int, d as int);
            let ghost head = if fill {
                crate::raster::octant_spans(center.x as int, center.y as int, x as int, y as int)
            } else {
                crate::raster::octant_pts(center.x as int, center.y as int, x as int, y as int)
            };
            proof {
                assert(0 <= x as int && x as int <= r as int);
                assert(0 <= y as int && y as int <= r as int);
            }
            if fill {
                self.draw_circle_octants_filled(center, x as i32, y as i32, color);
            } else {
                self.draw_circle_octants(center, x as i32, y as i32, color);
            }
            proof {
                let rest = if (d as int) < 0 {
                    crate::raster::circle_arc(
                        x as int + 1, y as int, d as int + 8 * x as int + 12)
                } else {
                    crate::raster::circle_arc(
                        x as int + 1, y as int - 1, d as int + 20 + 8 * x as int - 8 * y as int)
                };
                assert(arc == seq![(x as int, y as int)] + rest);
                assert(arc[0] == (x as int, y as int));
                assert(arc.drop_first() =~= rest);
                assert(crate::raster::circle_emit(arc, center.x as int, center.y as int, fill)
                    == head + crate::raster::circle_emit(
                        rest, center.x as int, center.y as int, fill));
                lemma_paint_pts_concat(
                    g0, w, h, head,
                    crate::raster::circle_emit(rest, center.x as int, center.y as int, fill),
                    color, mode);
            }
            proof {
                let xi = x as int;
                let yi = y as int;
                let ri = r as int;
                assert((d as int + da as int) < 0x4000_0000_0000_0000
                    && -0x4000_0000_0000_0000 < (d as int + da as int))
                    by (nonlinear_arith)
                    requires
                        da as int == 8 * xi + 12,
                        d as int == 4 * xi * xi + 8 * xi + 4 * yi * yi - 4 * yi
                            - 4 * ri * ri + 5,
                        0 <= xi <= ri + 2,
                        -1 <= yi <= ri,
                        0 <= ri <= COORD_LIMIT as int;
                assert((d as int + db as int) < 0x4000_0000_0000_0000
                    && -0x4000_0000_0000_0000 < (d as int + db as int))
                    by (nonlinear_arith)
                    requires
                        db as int == 20 + 8 * xi - 8 * yi,
                        d as int == 4 * xi * xi + 8 * xi + 4 * yi * yi - 4 * yi
                            - 4 * ri * ri + 5,
                        0 <= xi <= ri + 2,
                        -1 <= yi <= ri,
                        0 <= ri <= COORD_LIMIT as int;
            }
            if d < 0 {
                proof {
                    assert((d + da) as int == 4 * (x as int + 1) * (x as int + 1)
                        + 8 * (x as int + 1) + 4 * y as int * y as int - 4 * y as int
                        - 4 * r as int * r as int + 5) by (nonlinear_arith)
                        requires
                            da as int == 8 * x as int + 12,
                            d as int == 4 * x as int * x as int + 8 * x as int
                                + 4 * y as int * y as int - 4 * y as int
                                - 4 * r as int * r as int + 5,
                            (d + da) as int == d as int + da as int;
                }
                d = d + da;
                db = db + 8;
            } else {
                proof {
                    assert((d + db) as int == 4 * (x as int + 1) * (x as int + 1)
                        + 8 * (x as int + 1) + 4 * (y as int - 1) * (y as int - 1)
                        - 4 * (y as int - 1) - 4 * r as int * r as int + 5)
                        by (nonlinear_arith)
                        requires
                            db as int == 20 + 8 * x as int - 8 * y as int,
                            d as int == 4 * x as int * x as int + 8 * x as int
                                + 4 * y as int * y as int - 4 * y as int
                                - 4 * r as int * r as int + 5,
                            (d + db) as int == d as int + db as int;
                }
                y = y - 1;
                d = d + db;
                db = db + 16;
            }
            x = x + 1;
            da = da + 8;
        }
        proof {
            assert(crate::raster::circle_arc(x as int, y as int, d as int)
                =~= Seq::<(int, int)>::empty());
        }
    }

    /// Draws the 8 octant reflections of one circle base point.
    fn draw_circle_octants(&mut self, center: Point, x: i32, y: i32, color: Color)
        requires
            old(self).wf(),
            0 <= x,
            0 <= y,
            vstd::math::abs(center.x as int) + x as int <= COORD_LIMIT as int,
            vstd::math::abs(center.x as int) + y as int <= COORD_LIMIT as int,
            vstd::math::abs(center.y as int) + x as int <= COORD_LIMIT as int,
            vstd::math::abs(center.y as int) + y as int <= COORD_LIMIT as int,
        ensures
            final(self).wf(),
            old(self).same_shape(final(self)),
            final(self).grid() == paint_pts(
                old(self).grid(), old(self).width as int, old(self).height as int,
                crate::raster::octant_pts(center.x as int, center.y as int, x as int, y as int),
                color, old(self).draw_mode),
    {
        let ghost w = self.width as int;
        let ghost h = self.height as int;
        let ghost mode = self.draw_mode;
        let ghost s = crate::raster::octant_pts(
            center.x as int, center.y as int, x as int, y as int);
        let ghost g0 = self.grid();
        self.draw_pixel(Point { x: center.x + x, y: center.y + y }, color);
        let ghost g1 = self.grid();
        self.draw_pixel(Point { x: center.x - x, y: center.y + y }, color);
        let ghost g2 = self.grid();
        self.draw_pixel(Point { x: center.x + x, y: center.y - y }, color);
        let ghost g3 = self.grid();
        self.draw_pixel(Point { x: center.x - x, y: center.y - y }, color);
        let ghost g4 = self.grid();
        self.draw_pixel(Point { x: center.x + y, y: center.y + x }, color);
        let ghost g5 = self.grid();
        self.draw_pixel(Point { x: center.x - y, y: center.y + x }, color);
        let ghost g6 = self.grid();
        self.draw_pixel(Point { x: center.x + y, y: center.y - x }, color);
        let ghost g7 = self.grid();
        self.draw_pixel(Point { x: center.x - y, y: center.y - x }, color);
        proof {
            let cx = center.x as int;
            let cy = center.y as int;
            let xi = x as int;
            let yi = y as int;
            assert(s.drop_first() =~= seq![
                (cx - xi, cy + yi), (cx + xi, cy - yi), (cx - xi, cy - yi),
                (cx + yi, cy + xi), (cx - yi, cy + xi), (cx + yi, cy - xi),
                (cx - yi, cy - xi)]);
            assert(paint_pts(g0, w, h, s, color, mode)
                == paint_pts(g1, w, h, s.drop_first(), color, mode));
            let s1 = seq![
                (cx - xi, cy + yi), (cx + xi, cy - yi), (cx - xi, cy - yi),
                (cx + yi, cy + xi), (cx - yi, cy + xi), (cx + yi, cy - xi),
                (cx - yi, cy - xi)];
            let s2 = seq![
                (cx + xi, cy - yi), (cx - xi, cy - yi),
                (cx + yi, cy + xi), (cx - yi, cy + xi), (cx + yi, cy - xi),
                (cx - yi, cy - xi)];
            assert(s1.drop_first() =~= s2);
            assert(paint_pts(g1, w, h, s1, color, mode)
                == paint_pts(g2, w, h, s2, color, mode));
            let s3 = seq![
                (cx - xi, cy - yi),
                (cx + yi, cy + xi), (cx - yi, cy + xi), (cx + yi, cy - xi),
                (cx - yi, cy - xi)];
            assert(s2.drop_first() =~= s3);
            assert(paint_pts(g2, w, h, s2, color, mode)
                == paint_pts(g3, w, h, s3, color, mode));
            let s4 = seq![
                (cx + yi, cy + xi), (cx - yi, cy + xi), (cx + yi, cy - xi),
                (cx - yi, cy - xi)];
            assert(s3.drop_first() =~= s4);
            assert(paint_pts(g3, w, h, s3, color, mode)
                == paint_pts(g4, w, h, s4, color, mode));
            let s5 = seq![(cx - yi, cy + xi), (cx + yi, cy - xi), (cx - yi, cy - xi)];
            assert(s4.drop_first() =~= s5);
            assert(paint_pts(g4, w, h, s4, color, mode)
                == paint_pts(g5, w, h, s5, color, mode));
            let s6 = seq![(cx + yi, cy - xi), (cx - yi, cy - xi)];
            assert(s5.drop_first() =~= s6);
            assert(paint_pts(g5, w, h, s5, color, mode)
                == paint_pts(g6, w, h, s6, color, mode));
            let s7 = seq![(cx - yi, cy - xi)];
            assert(s6.drop_first() =~= s7);
            assert(paint_pts(g6, w, h, s6, color, mode)
                == paint_pts(g7, w, h, s7, color, mode));
            assert(s7.drop_first() =~= Seq::<(int, int)>::empty());
            assert(paint_pts(g7, w, h, s7, color, mode)
                == paint_pts(self.grid(), w, h, Seq::<(int, int)>::empty(), color, mode));
        }
    }

    /// Draws the 4 horizontal spans connecting the octant reflections of
    /// one circle base point.
    fn draw_circle_octants_filled(&mut self, center: Point, x: i32, y: i32, color: Color)
        requires
            old(self).wf(),
            0 <= x,
            0 <= y,
            vstd::math::abs(center.x as int) + x as int <= COORD_LIMIT as int,
            vstd::math::abs(center.x as int) + y as int <= COORD_LIMIT as int,
            vstd::math::abs(center.y as int) + x as int <= COORD_LIMIT as int,
            vstd::math::abs(center.y as int) + y as int <= COORD_LIMIT as int,
        ensures
            final(self).wf(),
            old(self).same_shape(final(self)),
            final(self).grid() == paint_pts(
                old(self).grid(), old(self).width as int, old(self).height as int,
                crate::raster::octant_spans(center.x as int, center.y as int, x as int, y as int),
                color, old(self).draw_mode),
    {
        let ghost w = self.width as int;
        let ghost h = self.height as int;
        let ghost mode = self.draw_mode;
        let ghost cx = center.x as int;
        let ghost cy = center.y as int;
        let ghost l1 = line_pts(cx - x as int, cy + y as int, cx + x as int, cy + y as int);
        let ghost l2 = line_pts(cx - x as int, cy - y as int, cx + x as int, cy - y as int);
        let ghost l3 = line_pts(cx - y as int, cy + x as int, cx + y as int, cy + x as int);
        let ghost l4 = line_pts(cx - y as int, cy - x as int, cx + y as int, cy - x as int);
        let ghost g0 = self.grid();
        self.draw_line(
            Point { x: center.x - x, y: center.y + y },
            Point { x: center.x + x, y: center.y + y }, color);
        self.draw_line(
            Point { x: center.x - x, y: center.y - y },
            Point { x: center.x + x, y: center.y - y }, color);
        self.draw_line(
            Point { x: center.x - y, y: center.y + x },
            Point { x: center.x + y, y: center.y + x }, color);
        self.draw_line(
            Point { x: center.x - y, y: center.y - x },
            Point { x: center.x + y, y: center.y - x }, color);
        proof {
            lemma_paint_pts_concat(g0, w, h, l1, l2, color, mode);
            lemma_paint_pts_concat(g0, w, h, l1 + l2, l3, color, mode);
            lemma_paint_pts_concat(g0, w, h, l1 + l2 + l3, l4, color, mode);
        }
    }

    /// Draws a triangle: three outline edges, or a scanline fill whose
    /// spans run between the exact crossings of the row's bounding edges.
    pub fn draw_triangle(&mut self, p0: Point, p1: Point, p2: Point, color: Color, fill: bool)
        requires
            old(self).wf(),
            coord_ok(p0.pair()),
            coord_ok(p1.pair()),
            coord_ok(p2.pair()),
        ensures
            final(self).wf(),
            old(self).same_shape(final(self)),
            fill ==> final(self).grid() == paint_pts(
                old(self).grid(), old(self).width as int, old(self).height as int,
                crate::raster::tri_fill_pts(p0.pair(), p1.pair(), p2.pair()),
                color, old(self).draw_mode),
            !fill ==> final(self).grid() == paint_pts(
                old(self).grid(), old(self).width as int, old(self).height as int,
                crate::raster::tri_outline_pts(p0.pair(), p1.pair(), p2.pair()),
                color, old(self).draw_mode),
    {
        let ghost w = self.width as int;
        let ghost h = self.height as int;
        let ghost mode = self.draw_mode;
        if fill {
            self.draw_triangle_filled(p0, p1, p2, color);
        } else {
            let ghost g0 = self.grid();
            let ghost l1 = line_pts(p0.x as int, p0.y as int, p1.x as int, p1.y as int);
            let ghost l2 = line_pts(p1.x as int, p1.y as int, p2.x as int, p2.y as int);
            let ghost l3 = line_pts(p2.x as int, p2.y as int, p0.x as int, p0.y as int);
            self.draw_line(p0, p1, color);
            self.draw_line(p1, p2, color);
            self.draw_line(p2, p0, color);
            proof {
                lemma_paint_pts_concat(g0, w, h, l1, l2, color, mode);
                lemma_paint_pts_concat(g0, w, h, l1 + l2, l3, color, mode);
            }
        }
    }

    /// Fills a triangle scanline by scanline: the corners are sorted by
    /// ascending y, and every row between the topmost and bottommost corner
    /// is spanned between the exact crossings of its two bounding edges.
    fn draw_triangle_filled(&mut self, p0: Point, p1: Point, p2: Point, color: Color)
        requires
            old(self).wf(),
            coord_ok(p0.pair()),
            coord_ok(p1.pair()),
            coord_ok(p2.pair()),
        ensures
            final(self).wf(),
            old(self).same_shape(final(self)),
            final(self).grid() == paint_pts(
                old(self).grid(), old(self).width as int, old(self).height as int,
                crate::raster::tri_fill_pts(p0.pair(), p1.pair(), p2.pair()),
                color, old(self).draw_mode),
    {
        let ghost w = self.width as int;
        let ghost h = self.height as int;
        let ghost mode = self.draw_mode;
        let ghost all = crate::raster::tri_fill_pts(p0.pair(), p1.pair(), p2.pair());

        // Sort the corners by ascending y, stable for ties.
        let (a, b, c) = if p0.y > p1.y {
            if p1.y > p2.y {
                (p2, p1, p0)
            } else if p0.y > p2.y {
                (p1, p2, p0)
            } else {
                (p1, p0, p2)
            }
        } else if p0.y > p2.y {
            (p2, p0, p1)
        } else if p1.y > p2.y {
            (p0, p2, p1)
        } else {
            (p0, p1, p2)
        };
        proof {
            assert(crate::raster::sort3_by_y(p0.pair(), p1.pair(), p2.pair())
                == (a.pair(), b.pair(), c.pair()));
        }

        if a.y == c.y {
            let mn1 = if b.x < c.x { b.x } else { c.x };
            let mn = if a.x < mn1 { a.x } else { mn1 };
            let mx1 = if b.x > c.x { b.x } else { c.x };
            let mx = if a.x > mx1 { a.x } else { mx1 };
            self.draw_line(Point { x: mn, y: a.y }, Point { x: mx, y: a.y }, color);
        } else {
            let mut yy = a.y;
            while yy <= c.y
                invariant
                    self.wf(),
                    old(self).same_shape(self),
                    w == self.width as int,
                    h == self.height as int,
                    mode == self.draw_mode,
                    coord_ok(a.pair()),
                    coord_ok(b.pair()),
                    coord_ok(c.pair()),
                    a.y <= b.y,
                    b.y <= c.y,
                    a.y < c.y,
                    a.y <= yy,
                    yy <= c.y + 1,
                    paint_pts(
                        self.grid(), w, h,
                        crate::raster::tri_rows(a.pair(), b.pair(), c.pair(), yy as int),
                        color, mode)
                        == paint_pts(old(self).grid(), w, h,
                            crate::raster::tri_rows(a.pair(), b.pair(), c.pair(), a.y as int),
                            color, mode),
                decreases c.y + 1 - yy,
            {
                let ghost g0 = self.grid();
                let ghost rows = crate::raster::tri_rows(a.pair(), b.pair(), c.pair(), yy as int);
                let ghost rest = crate::raster::tri_rows(
                    a.pair(), b.pair(), c.pair(), yy as int + 1);

                let e_long_lo = crate::raster::edge_cross_lo(a.x, a.y, c.x, c.y, yy);
                let e_long_hi = crate::raster::edge_cross_hi(a.x, a.y, c.x, c.y, yy);
                let (lo, hi) = if a.y < b.y && yy <= b.y {
                    let e2_lo = crate::raster::edge_cross_lo(a.x, a.y, b.x, b.y, yy);
                    let e2_hi = crate::raster::edge_cross_hi(a.x, a.y, b.x, b.y, yy);
                    (
                        if e_long_lo < e2_lo { e_long_lo } else { e2_lo },
                        if e_long_hi > e2_hi { e_long_hi } else { e2_hi },
                    )
                } else if yy > b.y {
                    let e2_lo = crate::raster::edge_cross_lo(b.x, b.y, c.x, c.y, yy);
                    let e2_hi = crate::raster::edge_cross_hi(b.x, b.y, c.x, c.y, yy);
                    (
                        if e_long_lo < e2_lo { e_long_lo } else { e2_lo },
                        if e_long_hi > e2_hi { e_long_hi } else { e2_hi },
                    )
                } else {
                    let mn = if a.x < b.x { a.x as i64 } else { b.x as i64 };
                    let mx = if a.x > b.x { a.x as i64 } else { b.x as i64 };
                    (
                        if e_long_lo < mn { e_long_lo } else { mn },
                        if e_long_hi > mx { e_long_hi } else { mx },
                    )
                };
                proof {
                    assert(lo as int
                        == crate::raster::tri_row_lo(a.pair(), b.pair(), c.pair(), yy as int));
                    assert(hi as int
                        == crate::raster::tri_row_hi(a.pair(), b.pair(), c.pair(), yy as int));
                    assert(rows == (if lo as int <= hi as int {
                        line_pts(lo as int, yy as int, hi as int, yy as int)
                    } else {
                        Seq::<(int, int)>::empty()
                    }) + rest);
                }
                if lo <= hi {
                    let ghost row = line_pts(lo as int, yy as int, hi as int, yy as int);
                    self.draw_line(
                        Point { x: lo as i32, y: yy }, Point { x: hi as i32, y: yy }, color);
                    proof {
                        lemma_paint_pts_concat(g0, w, h, row, rest, color, mode);
                    }
                } else {
                    proof {
                        assert(rows =~= rest);
                    }
                }
                yy = yy + 1;
            }
            proof {
                assert(crate::raster::tri_rows(a.pair(), b.pair(), c.pair(), yy as int)
                    =~= Seq::<(int, int)>::empty());
            }
        }
    }

    /// The shallow-slope stepper: walks x from start to end, stepping y by
    /// the sign of the slope when the decision variable turns positive.
    fn draw_line_low(&mut self, start: Point, end: Point, color: Color)
        requires
            old(self).wf(),
            coord_ok(start.pair()),
            coord_ok(end.pair()),
            start.x < end.x,
            vstd::math::abs(end.y as int - start.y as int) <= end.x as int - start.x as int,
        ensures
            final(self).wf(),
            old(self).same_shape(final(self)),
            final(self).grid() == paint_pts(
                old(self).grid(), old(self).width as int, old(self).height as int,
                crate::raster::low_run(start.x as int, start.y as int, end.x as int, end.y as int),
                color, old(self).draw_mode),
    {
        let ghost w = self.width as int;
        let ghost h = self.height as int;
        let ghost mode = self.draw_mode;
        let ghost all = crate::raster::low_run(
            start.x as int, start.y as int, end.x as int, end.y as int);
        let dx = end.x - start.x;
        let mut dy = end.y - start.y;
        let mut yi: i32 = 1;
        if dy < 0 {
            yi = -1;
            dy = -dy;
        }
        let mut d = 2 * dy - dx;
        let mut y = start.y;
        let mut x = start.x;
        while x <= end.x
            invariant
                self.wf(),
                old(self).same_shape(self),
                w == self.width as int,
                h == self.height as int,
                mode == self.draw_mode,
                coord_ok(start.pair()),
                coord_ok(end.pair()),
                dx == end.x as int - start.x as int,
                dy == vstd::math::abs(end.y as int - start.y as int),
                dy <= dx,
                yi as int == (if end.y < start.y { -1int } else { 1int }),
                start.x <= x,
                x <= end.x + 1,
                vstd::math::abs(y as int - start.y as int) <= x as int - start.x as int,
                -2 * dx as int <= d as int <= 2 * dy as int,
                paint_pts(
                    self.grid(), w, h,
                    crate::raster::low_pts(
                        x as int, end.x as int, y as int, yi as int, d as int,
                        dx as int, dy as int),
                    color, mode)
                    == paint_pts(old(self).grid(), w, h, all, color, mode),
            decreases end.x + 1 - x,
        {
            let ghost run = crate::raster::low_pts(
                x as int, end.x as int, y as int, yi as int, d as int, dx as int, dy as int);
            self.draw_pixel(Point { x, y }, color);
            proof {
                let rest = if d as int > 0 {
                    crate::raster::low_pts(
                        x as int + 1, end.x as int, y as int + yi as int, yi as int,
                        d as int + 2 * (dy as int - dx as int), dx as int, dy as int)
                } else {
                    crate::raster::low_pts(
                        x as int + 1, end.x as int, y as int, yi as int,
                        d as int + 2 * dy as int, dx as int, dy as int)
                };
                assert(run == seq![(x as int, y as int)] + rest);
                assert(run[0] == (x as int, y as int));
                assert(run.drop_first() =~= rest);
            }
            if d > 0 {
                y = y + yi;
                d = d + 2 * (dy - dx);
            } else {
                d = d + 2 * dy;
            }
            x = x + 1;
        }
    }

    /// The steep-slope stepper: walks y from start to end, stepping x by
    /// the sign of the slope when the decision variable turns positive.
    fn draw_line_high(&mut self, start: Point, end: Point, color: Color)
        requires
            old(self).wf(),
            coord_ok(start.pair()),
            coord_ok(end.pair()),
            start.y < end.y,
            vstd::math::abs(end.x as int - start.x as int) <= end.y as int - start.y as int,
        ensures
            final(self).wf(),
            old(self).same_shape(final(self)),
            final(self).grid() == paint_pts(
                old(self).grid(), old(self).width as int, old(self).height as int,
                crate::raster::high_run(
                    start.x as int, start.y as int, end.x as int, end.y as int),
                color, old(self).draw_mode),
    {
        let ghost w = self.width as int;
        let ghost h = self.height as int;
        let ghost mode = self.draw_mode;
        let ghost all = crate::raster::high_run(
            start.x as int, start.y as int, end.x as int, end.y as int);
        let dy = end.y - start.y;
        let mut dx = end.x - start.x;
        let mut xi: i32 = 1;
        if dx < 0 {
            xi = -1;
            dx = -dx;
        }
        let mut d = 2 * dx - dy;
        let mut x = start.x;
        let mut y = start.y;
        while y <= end.y
            invariant
                self.wf(),
                old(self).same_shape(self),
                w == self.width as int,
                h == self.height as int,
                mode == self.draw_mode,
                coord_ok(start.pair()),
                coord_ok(end.pair()),
                dy == end.y as int - start.y as int,
                dx == vstd::math::abs(end.x as int - start.x as int),
                dx <= dy,
                xi as int == (if end.x < start.x { -1int } else { 1int }),
                start.y <= y,
                y <= end.y + 1,
                vstd::math::abs(x as int - start.x as int) <= y as int - start.y as int,
                -2 * dy as int <= d as int <= 2 * dx as int,
                paint_pts(
                    self.grid(), w, h,
                    crate::raster::high_pts(
                        y as int, end.y as int, x as int, xi as int, d as int,
                        dy as int, dx as int),
                    color, mode)
                    == paint_pts(old(self).grid(), w, h, all, color, mode),
            decreases end.y + 1 - y,
        {
            let ghost run = crate::raster::high_pts(
                y as int, end.y as int, x as int, xi as int, d as int, dy as int, dx as int);
            self.draw_pixel(Point { x, y }, color);
            proof {
                let rest = if d as int > 0 {
                    crate::raster::high_pts(
                        y as int + 1, end.y as int, x as int + xi as int, xi as int,
                        d as int + 2 * (dx as int - dy as int), dy as int, dx as int)
                } else {
                    crate::raster::high_pts(
                        y as int + 1, end.y as int, x as int, xi as int,
                        d as int + 2 * dx as int, dy as int, dx as int)
                };
                assert(run == seq![(x as int, y as int)] + rest);
                assert(run[0] == (x as int, y as int));
                assert(run.drop_first() =~= rest);
            }
            if d > 0 {
                x = x + xi;
                d = d + 2 * (dx - dy);
            } else {
                d = d + 2 * dx;
            }
            y = y + 1;
        }
    }
}

/// The position-color pairs of a sprite blit: source pixel k of a bitmap
/// sw cells wide lands at (px + k % sw, py + k / sw).
pub open spec fn sprite_items(pixels: Seq<Color>, sw: int, px: int, py: int)
    -> Seq<((int, int), Color)>
{
    Seq::new(pixels.len(), |k: int| ((px + k % sw, py + k / sw), pixels[k]))
}

/// The position-color pairs of an RGBA byte-buffer blit w cells wide:
/// bytes 4k..4k+4 form the color of the cell at (px + k % w, py + k / w).
pub open spec fn buffer_items(data: Seq<u8>, px: int, py: int, w: int)
    -> Seq<((int, int), Color)>
{
    Seq::new(
        data.len() / 4,
        |k: int| (
            (px + k % w, py + k / w),
            Color { r: data[4 * k], g: data[4 * k + 1], b: data[4 * k + 2], a: data[4 * k + 3] },
        ),
    )
}

impl Surface2D {
    /// One paint step at an i64 cell position: the shared bounds check and
    /// mode dispatch behind every drawing operation.
    fn draw_cell(&mut self, x: i64, y: i64, color: Color)
        requires
            old(self).wf(),
        ensures
            final(self).wf(),
            old(self).same_shape(final(self)),
            final(self).grid() == paint_at(
                old(self).grid(), old(self).width as int, old(self).height as int,
                (x as int, y as int), color, old(self).draw_mode),
    {
        if x >= 0 && y >= 0 && x < self.width as i64 && y < self.height as i64 {
            proof {
                lemma_row_major_index(
                    self.width as int, self.height as int, x as int, y as int);
            }
            let i = (y as usize) * (self.width as usize) + (x as usize);
            let dst = self.values[i];
            let px = color.premultiply();
            let out = match self.draw_mode {
                DrawMode::Replace => px,
                DrawMode::Blend => Color::blend(&dst, &px),
            };
            self.values[i] = out;
        }
    }

    /// Blits a bitmap with its top-left corner at the given position,
    /// compositing pixel by pixel; destination cells off the surface are
    /// silently skipped.
    pub fn draw_sprite(&mut self, sprite: &Bitmap, position: Point)
        requires
            old(self).wf(),
            sprite.wf(),
        ensures
            final(self).wf(),
            old(self).same_shape(final(self)),
            final(self).grid() == paint_items(
                old(self).grid(), old(self).width as int, old(self).height as int,
                sprite_items(
                    sprite.grid(), sprite.width_spec(),
                    position.x as int, position.y as int),
                old(self).draw_mode),
    {
        let ghost w = self.width as int;
        let ghost h = self.height as int;
        let ghost mode = self.draw_mode;
        let ghost items = sprite_items(
            sprite.grid(), sprite.width_spec(), position.x as int, position.y as int);
        let n = sprite.pixels.len();
        proof {
            assert(items.skip(0) =~= items);
        }
        let mut k: usize = 0;
        while k < n
            invariant
                self.wf(),
                old(self).same_shape(self),
                w == self.width as int,
                h == self.height as int,
                mode == self.draw_mode,
                sprite.wf(),
                n == sprite.grid().len(),
                items == sprite_items(
                    sprite.grid(), sprite.width_spec(), position.x as int, position.y as int),
                k <= n,
                paint_items(self.grid(), w, h, items.skip(k as int), mode)
                    == paint_items(old(self).grid(), w, h, items, mode),
            decreases n - k,
        {
            proof {
                if sprite.width_spec() == 0 {
                    assert(sprite.width_spec() * sprite.height_spec() == 0) by (nonlinear_arith)
                        requires sprite.width_spec() == 0;
                    assert(false);
                }
                assert(k as int % sprite.width_spec() < sprite.width_spec()
                    && 0 <= k as int % sprite.width_spec()) by {
                    vstd::arithmetic::div_mod::lemma_mod_bound(
                        k as int, sprite.width_spec());
                };
                assert(0 <= k as int / sprite.width_spec() <= k as int) by {
                    vstd::arithmetic::div_mod::lemma_div_pos_is_pos(
                        k as int, sprite.width_spec());
                    vstd::arithmetic::div_mod::lemma_div_nonincreasing(
                        k as int, sprite.width_spec());
                };
            }
            let sw = sprite.width as u64;
            let x = position.x as i64 + ((k as u64 % sw) as i64);
            let y = position.y as i64 + ((k as u64 / sw) as i64);
            let c = sprite.pixels[k];
            self.draw_cell(x, y, c);
            proof {
                let rem = items.skip(k as int);
                assert(rem[0] == items[k as int]);
                assert(rem.drop_first() =~= items.skip(k as int + 1));
            }
            k = k + 1;
        }
        proof {
            assert(items.skip(n as int) =~= Seq::<((int, int), Color)>::empty());
        }
    }

    /// Blits an RGBA byte buffer, 4 bytes per pixel and `width` pixels per
    /// row, with its top-left corner at the given position. Trailing bytes
    /// short of a full pixel are ignored.
    pub fn draw_buffer(&mut self, data: &[u8], position: Point, width: u32)
        requires
            old(self).wf(),
            data@.len() >= 4 ==> width > 0,
        ensures
            final(self).wf(),
            old(self).same_shape(final(self)),
            final(self).grid() == paint_items(
                old(self).grid(), old(self).width as int, old(self).height as int,
                buffer_items(data@, position.x as int, position.y as int, width as int),
                old(self).draw_mode),
    {
        let ghost w = self.width as int;
        let ghost h = self.height as int;
        let ghost mode = self.draw_mode;
        let ghost items = buffer_items(
            data@, position.x as int, position.y as int, width as int);
        let n = data.len() / 4;
        proof {
            assert(items.skip(0) =~= items);
        }
        let mut k: usize = 0;
        while k < n
            invariant
                self.wf(),
                old(self).same_shape(self),
                w == self.width as int,
                h == self.height as int,
                mode == self.draw_mode,
                n == data@.len() / 4,
                data@.len() <= usize::MAX as int,
                n >= 1 ==> width > 0,
                items == buffer_items(
                    data@, position.x as int, position.y as int, width as int),
                k <= n,
                paint_items(self.grid(), w, h, items.skip(k as int), mode)
                    == paint_items(old(self).grid(), w, h, items, mode),
            decreases n - k,
        {
            proof {
                assert(4 * k as int + 3 < data@.len());
                assert((k as int) % (width as int) < width as int
                    && 0 <= (k as int) % (width as int)) by {
                    vstd::arithmetic::div_mod::lemma_mod_bound(k as int, width as int);
                };
                assert(0 <= (k as int) / (width as int) <= k as int) by {
                    vstd::arithmetic::div_mod::lemma_div_pos_is_pos(k as int, width as int);
                    vstd::arithmetic::div_mod::lemma_div_nonincreasing(k as int, width as int);
                };
            }
            let bw = width as u64;
            let x = position.x as i64 + ((k as u64 % bw) as i64);
            let y = position.y as i64 + ((k as u64 / bw) as i64);
            let c = Color {
                r: data[4 * k],
                g: data[4 * k + 1],
                b: data[4 * k + 2],
                a: data[4 * k + 3],
            };
            self.draw_cell(x, y, c);
            proof {
                let rem = items.skip(k as int);
                assert(rem[0] == items[k as int]);
                assert(rem.drop_first() =~= items.skip(k as int + 1));
            }
            k = k + 1;
        }
        proof {
            assert(items.skip(n as int) =~= Seq::<((int, int), Color)>::empty());
        }
    }

    /// Rasterizes a piece of text into a box of the given size through the
    /// injected rasterizer and blits the returned buffer at the position.
    /// Whatever buffer came back, the surface changes only as one such
    /// blit; a zero-width box is skipped outright.
    pub fn draw_text<R: crate::text::TextRasterizer>(
        &mut self,
        rasterizer: &R,
        text: &crate::text::TextParameters,
        position: Point,
        width: u32,
        height: u32,
    )
        requires
            old(self).wf(),
        ensures
            final(self).wf(),
            old(self).same_shape(final(self)),
            exists|data: Seq<u8>| final(self).grid() == #[trigger] paint_items(
                old(self).grid(), old(self).width as int, old(self).height as int,
                buffer_items(data, position.x as int, position.y as int, width as int),
                old(self).draw_mode),
    {
        let data = rasterizer.rasterize(text, width, height);
        if width > 0 {
            self.draw_buffer(data.as_slice(), position, width);
            proof {
                assert(final(self).grid() == paint_items(
                    old(self).grid(), old(self).width as int, old(self).height as int,
                    buffer_items(
                        data@, position.x as int, position.y as int, width as int),
                    old(self).draw_mode));
            }
        } else {
            proof {
                let empty_items = buffer_items(
                    Seq::<u8>::empty(), position.x as int, position.y as int, width as int);
                assert(empty_items =~= Seq::<((int, int), Color)>::empty());
                assert(final(self).grid() == paint_items(
                    old(self).grid(), old(self).width as int, old(self).height as int,
                    buffer_items(
                        Seq::<u8>::empty(), position.x as int, position.y as int,
                        width as int),
                    old(self).draw_mode));
            }
        }
    }
}

/// Drawing a line from a point to itself paints exactly the one cell at
/// that point: with `draw_line`'s contract, the surface after
/// `draw_line(a, a, c)` equals the surface after `draw_pixel(a, c)`.
pub proof fn lemma_line_degenerate(
    g: Seq<Color>, w: int, h: int, p: (int, int), c: Color, mode: DrawMode,
)
    ensures
        paint_pts(g, w, h, line_pts(p.0, p.1, p.0, p.1), c, mode) == paint_at(g, w, h, p, c, mode),
{
    lemma_line_pts_single(p.0, p.1);
    let run = seq![(p.0, p.1)];
    assert(line_pts(p.0, p.1, p.0, p.1) =~= run);
    assert(run.drop_first() =~= Seq::<(int, int)>::empty());
    assert(run[0] == p);
    assert(paint_pts(g, w, h, run, c, mode)
        == paint_pts(paint_at(g, w, h, p, c, mode), w, h, run.drop_first(), c, mode));
    assert(paint_pts(paint_at(g, w, h, p, c, mode), w, h, Seq::<(int, int)>::empty(), c, mode)
        == paint_at(g, w, h, p, c, mode));
}

/// A line paints the same cells whichever endpoint comes first: with
/// `draw_line`'s contract, `draw_line(a, b, c)` and `draw_line(b, a, c)`
/// from one state leave identical surfaces.
pub proof fn lemma_line_endpoint_order(
    g: Seq<Color>, w: int, h: int, a: (int, int), b: (int, int), c: Color, mode: DrawMode,
)
    ensures
        paint_pts(g, w, h, line_pts(a.0, a.1, b.0, b.1), c, mode)
            == paint_pts(g, w, h, line_pts(b.0, b.1, a.0, a.1), c, mode),
{
    lemma_line_pts_symmetric(a.0, a.1, b.0, b.1);
}

/// Round trip through `Surface2D::from_image`: reading any cell of the
/// built surface gives the source bitmap's pixel; in particular a fully
/// opaque source pixel is reproduced exactly.
pub proof fn lemma_from_image_round_trip(s: Surface2D, b: Bitmap, x: int, y: int)
    requires
        b.wf(),
        s.wf(),
        s.width as int == b.width_spec(),
        s.height as int == b.height_spec(),
        s.grid() == b.grid(),
        0 <= x < b.width_spec(),
        0 <= y < b.height_spec(),
        b.pixel(x, y).a == 255,
    ensures
        s.in_bounds((x, y)),
        s.cell(x, y) == b.pixel(x, y),
{
}

/// A vector of n copies of one color.
fn filled(n: usize, c: Color) -> (v: Vec<Color>)
    ensures
        v@.len() == n,
        forall|i: int| 0 <= i < n ==> v@[i] == c,
{
    let mut v: Vec<Color> = Vec::new();
    let mut k: usize = 0;
    while k < n
        invariant
            k <= n,
            v@.len() == k,
            forall|i: int| 0 <= i < k ==> v@[i] == c,
        decreases n - k,
    {
        v.push(c);
        k = k + 1;
    }
    v
}

} // verus!
