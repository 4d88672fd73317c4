//! The point-emission geometry of the drawing primitives: which grid
//! positions a line, circle, rectangle or triangle touches, and in which
//! order. The surface operations are specified as folds of these sequences.

use vstd::prelude::*;
use vstd::math::{abs, max, min};

verus! {

/// The cells of a vertical run at column x, rows y0 up to y1 inclusive,
/// in ascending order.
pub open spec fn vertical_pts(x: int, y0: int, y1: int) -> Seq<(int, int)>
    decreases y1 + 1 - y0,
{
    if y0 > y1 {
        Seq::empty()
    } else {
        seq![(x, y0)] + vertical_pts(x, y0 + 1, y1)
    }
}

/// The cells of a horizontal run at row y, columns x0 up to x1 inclusive,
/// in ascending order.
pub open spec fn horizontal_pts(y: int, x0: int, x1: int) -> Seq<(int, int)>
    decreases x1 + 1 - x0,
{
    if x0 > x1 {
        Seq::empty()
    } else {
        seq![(x0, y)] + horizontal_pts(y, x0 + 1, x1)
    }
}

/// The cells of the shallow-slope stepper: x walks from x to ex, y follows
/// by yi whenever the decision variable d is positive.
pub open spec fn low_pts(x: int, ex: int, y: int, yi: int, d: int, dx: int, dy: int)
    -> Seq<(int, int)>
    decreases ex + 1 - x,
{
    if x > ex {
        Seq::empty()
    } else {
        let rest = if d > 0 {
            low_pts(x + 1, ex, y + yi, yi, d + 2 * (dy - dx), dx, dy)
        } else {
            low_pts(x + 1, ex, y, yi, d + 2 * dy, dx, dy)
        };
        seq![(x, y)] + rest
    }
}

/// The cells of the steep-slope stepper: y walks from y to ey, x follows
/// by xi whenever the decision variable d is positive.
pub open spec fn high_pts(y: int, ey: int, x: int, xi: int, d: int, dy: int, dx: int)
    -> Seq<(int, int)>
    decreases ey + 1 - y,
{
    if y > ey {
        Seq::empty()
    } else {
        let rest = if d > 0 {
            high_pts(y + 1, ey, x + xi, xi, d + 2 * (dx - dy), dy, dx)
        } else {
            high_pts(y + 1, ey, x, xi, d + 2 * dx, dy, dx)
        };
        seq![(x, y)] + rest
    }
}

/// A shallow run from (sx, sy) to (ex, ey), for sx < ex: the stepper
/// started with the standard decision variable 2*dy - dx.
pub open spec fn low_run(sx: int, sy: int, ex: int, ey: int) -> Seq<(int, int)> {
    let dx = ex - sx;
    let dy = abs(ey - sy) as int;
    let yi: int = if ey < sy { -1 } else { 1 };
    low_pts(sx, ex, sy, yi, 2 * dy - dx, dx, dy)
}

/// A steep run from (sx, sy) to (ex, ey), for sy < ey.
pub open spec fn high_run(sx: int, sy: int, ex: int, ey: int) -> Seq<(int, int)> {
    let dy = ey - sy;
    let dx = abs(ex - sx) as int;
    let xi: int = if ex < sx { -1 } else { 1 };
    high_pts(sy, ey, sx, xi, 2 * dx - dy, dy, dx)
}

/// The cells a line from (sx, sy) to (ex, ey) touches: straight runs for
/// the axis-aligned cases, otherwise the shallow or steep stepper with the
/// endpoints ordered so the primary axis increases.
pub open spec fn line_pts(sx: int, sy: int, ex: int, ey: int) -> Seq<(int, int)> {
    let dx = abs(ex - sx) as int;
    let dy = abs(ey - sy) as int;
    if dx == 0 {
        vertical_pts(sx, min(sy, ey), max(sy, ey))
    } else if dy == 0 {
        horizontal_pts(sy, min(sx, ex), max(sx, ex))
    } else if dy < dx {
        if sx > ex {
            low_run(ex, ey, sx, sy)
        } else {
            low_run(sx, sy, ex, ey)
        }
    } else {
        if sy > ey {
            high_run(ex, ey, sx, sy)
        } else {
            high_run(sx, sy, ex, ey)
        }
    }
}

/// A line from a point to itself touches exactly that point.
pub proof fn lemma_line_pts_single(x: int, y: int)
    ensures
        line_pts(x, y, x, y) =~= seq![(x, y)],
{
    assert(line_pts(x, y, x, y) == vertical_pts(x, y, y));
    assert(vertical_pts(x, y + 1, y) =~= Seq::<(int, int)>::empty());
    assert(vertical_pts(x, y, y) =~= seq![(x, y)]);
}

/// A line touches the same cells, in the same order, whichever endpoint
/// comes first.
pub proof fn lemma_line_pts_symmetric(sx: int, sy: int, ex: int, ey: int)
    ensures
        line_pts(sx, sy, ex, ey) == line_pts(ex, ey, sx, sy),
{
    let dx = abs(ex - sx) as int;
    let dy = abs(ey - sy) as int;
    assert(abs(sx - ex) == abs(ex - sx));
    assert(abs(sy - ey) == abs(ey - sy));
    if dx == 0 {
        assert(sx == ex);
        assert(min(sy, ey) == min(ey, sy));
        assert(max(sy, ey) == max(ey, sy));
    } else if dy == 0 {
        assert(min(sx, ex) == min(ex, sx));
        assert(max(sx, ex) == max(ex, sx));
    } else if dy < dx {
        if sx > ex {
            assert(line_pts(sx, sy, ex, ey) == low_run(ex, ey, sx, sy));
            assert(line_pts(ex, ey, sx, sy) == low_run(ex, ey, sx, sy));
        } else {
            assert(sx < ex);
            assert(line_pts(sx, sy, ex, ey) == low_run(sx, sy, ex, ey));
            assert(line_pts(ex, ey, sx, sy) == low_run(sx, sy, ex, ey));
        }
    } else {
        if sy > ey {
            assert(line_pts(sx, sy, ex, ey) == high_run(ex, ey, sx, sy));
            assert(line_pts(ex, ey, sx, sy) == high_run(ex, ey, sx, sy));
        } else {
            if sy == ey {
                assert(dy == 0 && dx == 0);
                assert(false);
            }
            assert(sy < ey);
            assert(line_pts(sx, sy, ex, ey) == high_run(sx, sy, ex, ey));
            assert(line_pts(ex, ey, sx, sy) == high_run(sx, sy, ex, ey));
        }
    }
}

/// The base points (x, y) of one circle octant, emitted by the midpoint
/// stepper from (0, r) with decision variable d = 5 - 4r. On each step the
/// second-order increments are 8x + 12 (x advances) and 20 + 8x - 8y
/// (x advances and y retreats).
pub open spec fn circle_arc(x: int, y: int, d: int) -> Seq<(int, int)>
    decreases y + 2 - x,
{
    if x > y {
        Seq::empty()
    } else {
        let rest = if d < 0 {
            circle_arc(x + 1, y, d + 8 * x + 12)
        } else {
            circle_arc(x + 1, y - 1, d + 20 + 8 * x - 8 * y)
        };
        seq![(x, y)] + rest
    }
}

/// The 8 symmetric reflections of an octant base point around the center.
pub open spec fn octant_pts(cx: int, cy: int, x: int, y: int) -> Seq<(int, int)> {
    seq![
        (cx + x, cy + y),
        (cx - x, cy + y),
        (cx + x, cy - y),
        (cx - x, cy - y),
        (cx + y, cy + x),
        (cx - y, cy + x),
        (cx + y, cy - x),
        (cx - y, cy - x),
    ]
}

/// The 4 horizontal spans connecting the symmetric reflections of an
/// octant base point.
pub open spec fn octant_spans(cx: int, cy: int, x: int, y: int) -> Seq<(int, int)> {
    line_pts(cx - x, cy + y, cx + x, cy + y)
        + line_pts(cx - x, cy - y, cx + x, cy - y)
        + line_pts(cx - y, cy + x, cx + y, cy + x)
        + line_pts(cx - y, cy - x, cx + y, cy - x)
}

/// Expands each octant base point to its 8 reflections (outline) or its 4
/// spans (fill), in emission order.
pub open spec fn circle_emit(arc: Seq<(int, int)>, cx: int, cy: int, fill: bool)
    -> Seq<(int, int)>
    decreases arc.len(),
{
    if arc.len() == 0 {
        Seq::empty()
    } else {
        let head = if fill {
            octant_spans(cx, cy, arc[0].0, arc[0].1)
        } else {
            octant_pts(cx, cy, arc[0].0, arc[0].1)
        };
        head + circle_emit(arc.drop_first(), cx, cy, fill)
    }
}

/// The cells a circle of the given radius around (cx, cy) touches.
pub open spec fn circle_pts(cx: int, cy: int, r: int, fill: bool) -> Seq<(int, int)> {
    circle_emit(circle_arc(0, r, 5 - 4 * r), cx, cy, fill)
}

/// The cells of a filled axis-aligned rectangle, rows y0..=y1 and columns
/// x0..=x1, row-major.
pub open spec fn rect_fill_pts(x0: int, x1: int, y0: int, y1: int) -> Seq<(int, int)>
    decreases y1 + 1 - y0,
{
    if y0 > y1 {
        Seq::empty()
    } else {
        horizontal_pts(y0, x0, x1) + rect_fill_pts(x0, x1, y0 + 1, y1)
    }
}

/// The cells of a rectangle outline: its four edges drawn as lines, in
/// order top, right, bottom, left.
pub open spec fn rect_outline_pts(sx: int, sy: int, ex: int, ey: int) -> Seq<(int, int)> {
    line_pts(sx, sy, ex, sy)
        + line_pts(ex, sy, ex, ey)
        + line_pts(ex, ey, sx, ey)
        + line_pts(sx, ey, sx, sy)
}

/// The three triangle corners ordered by ascending y, stable for ties.
pub open spec fn sort3_by_y(p0: (int, int), p1: (int, int), p2: (int, int))
    -> ((int, int), (int, int), (int, int))
{
    if p0.1 > p1.1 {
        if p1.1 > p2.1 {
            (p2, p1, p0)
        } else if p0.1 > p2.1 {
            (p1, p2, p0)
        } else {
            (p1, p0, p2)
        }
    } else if p0.1 > p2.1 {
        (p2, p0, p1)
    } else if p1.1 > p2.1 {
        (p0, p2, p1)
    } else {
        (p0, p1, p2)
    }
}

/// Division rounding up, for a positive divisor.
pub open spec fn ceil_div(a: int, b: int) -> int {
    (a + b - 1) / b
}

/// The x coordinate where the edge from (px, py) to (qx, qy) crosses row
/// yy, rounded down. Meaningful for py < qy and py <= yy <= qy.
pub open spec fn edge_x_hi(px: int, py: int, qx: int, qy: int, yy: int) -> int {
    px + (yy - py) * (qx - px) / (qy - py)
}

/// The same crossing, rounded up.
pub open spec fn edge_x_lo(px: int, py: int, qx: int, qy: int, yy: int) -> int {
    px + ceil_div((yy - py) * (qx - px), qy - py)
}

/// The left bound of a filled triangle's span on row yy, for corners
/// (a, b, c) sorted by ascending y with a.y < c.y: the least cell at or
/// beyond the exact crossings of the row's two bounding edges.
pub open spec fn tri_row_lo(a: (int, int), b: (int, int), c: (int, int), yy: int) -> int {
    let long = edge_x_lo(a.0, a.1, c.0, c.1, yy);
    if a.1 < b.1 && yy <= b.1 {
        min(long, edge_x_lo(a.0, a.1, b.0, b.1, yy))
    } else if yy > b.1 {
        min(long, edge_x_lo(b.0, b.1, c.0, c.1, yy))
    } else {
        min(long, min(a.0, b.0))
    }
}

/// The right bound of a filled triangle's span on row yy.
pub open spec fn tri_row_hi(a: (int, int), b: (int, int), c: (int, int), yy: int) -> int {
    let long = edge_x_hi(a.0, a.1, c.0, c.1, yy);
    if a.1 < b.1 && yy <= b.1 {
        max(long, edge_x_hi(a.0, a.1, b.0, b.1, yy))
    } else if yy > b.1 {
        max(long, edge_x_hi(b.0, b.1, c.0, c.1, yy))
    } else {
        max(long, max(a.0, b.0))
    }
}

/// The cells of a filled triangle from row yy down to row cy: one
/// horizontal span per row, empty where the span holds no cell.
pub open spec fn tri_rows(a: (int, int), b: (int, int), c: (int, int), yy: int)
    -> Seq<(int, int)>
    decreases c.1 + 1 - yy,
{
    if yy > c.1 {
        Seq::empty()
    } else {
        let lo = tri_row_lo(a, b, c, yy);
        let hi = tri_row_hi(a, b, c, yy);
        let row = if lo <= hi {
            line_pts(lo, yy, hi, yy)
        } else {
            Seq::empty()
        };
        row + tri_rows(a, b, c, yy + 1)
    }
}

/// The cells of a filled triangle: its corners sorted by y, then one span
/// per row between the exact edge crossings; a triangle whose corners
/// share one row fills that row between its outermost corners.
pub open spec fn tri_fill_pts(p0: (int, int), p1: (int, int), p2: (int, int))
    -> Seq<(int, int)>
{
    let (a, b, c) = sort3_by_y(p0, p1, p2);
    if a.1 == c.1 {
        line_pts(min(a.0, min(b.0, c.0)), a.1, max(a.0, max(b.0, c.0)), a.1)
    } else {
        tri_rows(a, b, c, a.1)
    }
}

/// The cells of a triangle outline: its three edges drawn as lines.
pub open spec fn tri_outline_pts(p0: (int, int), p1: (int, int), p2: (int, int))
    -> Seq<(int, int)>
{
    line_pts(p0.0, p0.1, p1.0, p1.1)
        + line_pts(p1.0, p1.1, p2.0, p2.1)
        + line_pts(p2.0, p2.1, p0.0, p0.1)
}

/// Division of an i64 by a positive divisor, rounded toward negative
/// infinity, as spec-level integer division rounds.
pub(crate) fn floor_div_i64(a: i64, b: i64) -> (q: i64)
    requires
        0 < b,
        -0x1000_0000_0000_0000 <= a as int <= 0x1000_0000_0000_0000,
    ensures
        q as int == a as int / b as int,
{
    if a >= 0 {
        let qq = (a as u64) / (b as u64);
        qq as i64
    } else {
        let m = (-a) as u64;
        let qq = m / (b as u64);
        let rr = m % (b as u64);
        proof {
            vstd::arithmetic::div_mod::lemma_fundamental_div_mod(m as int, b as int);
            assert(m as int == -(a as int));
            assert(m as int == b as int * qq as int + rr as int);
            if rr as int == 0 {
                assert(a as int == (-(qq as int)) * b as int + 0) by (nonlinear_arith)
                    requires
                        m as int == b as int * qq as int + rr as int,
                        rr as int == 0,
                        m as int == -(a as int);
                vstd::arithmetic::div_mod::lemma_fundamental_div_mod_converse_div(
                    a as int, b as int, -(qq as int), 0);
            } else {
                assert(a as int == (-(qq as int) - 1) * b as int + (b as int - rr as int))
                    by (nonlinear_arith)
                    requires
                        m as int == b as int * qq as int + rr as int,
                        m as int == -(a as int);
                vstd::arithmetic::div_mod::lemma_fundamental_div_mod_converse_div(
                    a as int, b as int, -(qq as int) - 1, b as int - rr as int);
            }
        }
        if rr == 0 {
            -(qq as i64)
        } else {
            -(qq as i64) - 1
        }
    }
}

/// The column where the edge from (px, py) to (qx, qy) crosses row yy,
/// rounded down: the exec form of `edge_x_hi`.
pub(crate) fn edge_cross_hi(px: i32, py: i32, qx: i32, qy: i32, yy: i32) -> (r: i64)
    requires
        -0x1000_0000 <= px as int <= 0x1000_0000,
        -0x1000_0000 <= py as int <= 0x1000_0000,
        -0x1000_0000 <= qx as int <= 0x1000_0000,
        -0x1000_0000 <= qy as int <= 0x1000_0000,
        py < qy,
        py <= yy <= qy,
    ensures
        r as int == edge_x_hi(px as int, py as int, qx as int, qy as int, yy as int),
        min(px as int, qx as int) <= r as int <= max(px as int, qx as int),
{
    let t = yy as i64 - py as i64;
    let run = qx as i64 - px as i64;
    proof {
        assert(-0x1000_0000_0000_0000 <= t as int * run as int <= 0x1000_0000_0000_0000)
            by (nonlinear_arith)
            requires
                -0x2000_0001 <= t as int <= 0x2000_0001,
                -0x2000_0001 <= run as int <= 0x2000_0001;
    }
    let num = t * run;
    let den = qy as i64 - py as i64;
    let q = floor_div_i64(num, den);
    proof {
        lemma_edge_x_bounds(px as int, py as int, qx as int, qy as int, yy as int);
        assert(q as int
            == edge_x_hi(px as int, py as int, qx as int, qy as int, yy as int) - px as int);
    }
    px as i64 + q
}

/// The same crossing rounded up: the exec form of `edge_x_lo`.
pub(crate) fn edge_cross_lo(px: i32, py: i32, qx: i32, qy: i32, yy: i32) -> (r: i64)
    requires
        -0x1000_0000 <= px as int <= 0x1000_0000,
        -0x1000_0000 <= py as int <= 0x1000_0000,
        -0x1000_0000 <= qx as int <= 0x1000_0000,
        -0x1000_0000 <= qy as int <= 0x1000_0000,
        py < qy,
        py <= yy <= qy,
    ensures
        r as int == edge_x_lo(px as int, py as int, qx as int, qy as int, yy as int),
        min(px as int, qx as int) <= r as int <= max(px as int, qx as int),
{
    let t = yy as i64 - py as i64;
    let run = qx as i64 - px as i64;
    proof {
        assert(-0xf00_0000_0000_0000 <= t as int * run as int <= 0xf00_0000_0000_0000)
            by (nonlinear_arith)
            requires
                -0x2000_0001 <= t as int <= 0x2000_0001,
                -0x2000_0001 <= run as int <= 0x2000_0001;
    }
    let num = t * run;
    let den = qy as i64 - py as i64;
    let q = floor_div_i64(num + den - 1, den);
    proof {
        lemma_edge_x_bounds(px as int, py as int, qx as int, qy as int, yy as int);
        assert(q as int
            == edge_x_lo(px as int, py as int, qx as int, qy as int, yy as int) - px as int);
    }
    px as i64 + q
}

/// An edge crossing, rounded either way, stays between the edge's two
/// endpoint columns.
pub proof fn lemma_edge_x_bounds(px: int, py: int, qx: int, qy: int, yy: int)
    requires
        py < qy,
        py <= yy <= qy,
    ensures
        min(px, qx) <= edge_x_hi(px, py, qx, qy, yy) <= max(px, qx),
        min(px, qx) <= edge_x_lo(px, py, qx, qy, yy) <= max(px, qx),
{
    let t = yy - py;
    let den = qy - py;
    let run = qx - px;
    let num = t * run;
    if run >= 0 {
        assert(0 <= t * run && t * run <= den * run) by (nonlinear_arith)
            requires 0 <= t <= den, run >= 0;
        vstd::arithmetic::div_mod::lemma_div_pos_is_pos(num, den);
        vstd::arithmetic::div_mod::lemma_div_is_ordered(num, den * run, den);
        vstd::arithmetic::div_mod::lemma_div_multiples_vanish(run, den);
        assert(0 <= num / den <= run);
        vstd::arithmetic::div_mod::lemma_div_pos_is_pos(num + den - 1, den);
        assert(den * (run + 1) - 1 == run * den + (den - 1)) by (nonlinear_arith);
        vstd::arithmetic::div_mod::lemma_fundamental_div_mod_converse_div(
            den * (run + 1) - 1, den, run, den - 1);
        assert(num + den - 1 <= den * (run + 1) - 1) by (nonlinear_arith)
            requires t * run <= den * run, num == t * run;
        vstd::arithmetic::div_mod::lemma_div_is_ordered(num + den - 1, den * (run + 1) - 1, den);
        assert(0 <= ceil_div(num, den) <= run);
    } else {
        assert(den * run <= t * run && t * run <= 0) by (nonlinear_arith)
            requires 0 <= t <= den, run < 0;
        vstd::arithmetic::div_mod::lemma_div_is_ordered(den * run, num, den);
        vstd::arithmetic::div_mod::lemma_div_multiples_vanish(run, den);
        assert(den * run == run * den) by (nonlinear_arith);
        vstd::arithmetic::div_mod::lemma_div_is_ordered(num, 0, den);
        vstd::arithmetic::div_mod::lemma_div_of0(den);
        assert(run <= num / den <= 0);
        vstd::arithmetic::div_mod::lemma_div_is_ordered(den * run, num + den - 1, den);
        vstd::arithmetic::div_mod::lemma_fundamental_div_mod_converse_div(
            den - 1, den, 0, den - 1);
        assert(den - 1 == 0 * den + (den - 1)) by (nonlinear_arith);
        vstd::arithmetic::div_mod::lemma_div_is_ordered(num + den - 1, den - 1, den);
        assert(run <= ceil_div(num, den) <= 0);
    }
}

} // verus!
