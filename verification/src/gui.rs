//! The hierarchical panel layout: a tree of named panels whose positions
//! and sizes are given in absolute pixels or as fractions of the parent,
//! resolved each frame into axis-aligned pixel rectangles clamped to the
//! parent, with a display payload per node.

use vstd::prelude::*;
use vstd::math::min;
use crate::bitmap::Bitmap;
use crate::color::Color;
use crate::surface::Surface2D;
use crate::text::{TextParameters, TextRasterizer};

verus! {

/// A non-negative fraction num / den, the unit of relative measures.
/// Because it is unsigned, a relative offset never points left or up of
/// the anchor, and a clamped rectangle never inverts.
#[derive(Clone, Copy, Debug, PartialEq, Eq, Structural)]
pub struct Fraction {
    pub num: u32,
    pub den: u32,
}

impl Fraction {
    /// A fraction is well formed when its denominator is positive.
    pub open spec fn wf(&self) -> bool {
        self.den > 0
    }

    pub fn new(num: u32, den: u32) -> (f: Fraction)
        requires
            den > 0,
        ensures
            f == (Fraction { num, den }),
            f.wf(),
    {
        Fraction { num, den }
    }

    /// The fraction applied to a length: length * num / den, rounded down.
    pub open spec fn of(&self, length: int) -> int {
        length * self.num as int / self.den as int
    }
}

/// A measure used for both position and size: fixed pixels, or a fraction
/// of the corresponding parent extent per axis.
#[derive(Clone, Debug)]
pub enum GUITransform {
    /// Pixel values.
    Absolute(u32, u32),
    /// As a fraction of the corresponding parent extent.
    Relative(Fraction, Fraction),
}

/// A transform is well formed when its fractions are.
pub open spec fn transform_wf(t: GUITransform) -> bool {
    match t {
        GUITransform::Absolute(_, _) => true,
        GUITransform::Relative(fx, fy) => fx.wf() && fy.wf(),
    }
}

/// The pixel offset a transform yields along the x axis, against the
/// parent's width.
pub open spec fn offset_x(t: GUITransform, dw: int) -> int {
    match t {
        GUITransform::Absolute(x, _) => x as int,
        GUITransform::Relative(fx, _) => fx.of(dw),
    }
}

/// The pixel offset a transform yields along the y axis, against the
/// parent's height.
pub open spec fn offset_y(t: GUITransform, dh: int) -> int {
    match t {
        GUITransform::Absolute(_, y) => y as int,
        GUITransform::Relative(_, fy) => fy.of(dh),
    }
}

/// An axis-aligned pixel rectangle, left/top inclusive edges at or before
/// right/bottom.
#[derive(Clone, Copy, Debug, PartialEq, Eq, Structural)]
pub struct Rect {
    pub left: u32,
    pub top: u32,
    pub right: u32,
    pub bottom: u32,
}

/// The rectangle a panel resolves to against a parent anchor and extent:
/// the position offset placed from the anchor, the dimension offset added
/// to it, both clamped into [anchor, anchor + extent] on each axis. A
/// panel reaching past its parent is cut at the parent's edge; one placed
/// entirely outside collapses to a zero-extent rectangle on that edge.
pub open spec fn resolved_rect(
    position: GUITransform, dimensions: GUITransform, ax: int, ay: int, dw: int, dh: int,
) -> (int, int, int, int) {
    let ox = offset_x(position, dw);
    let oy = offset_y(position, dh);
    let ex = offset_x(dimensions, dw);
    let ey = offset_y(dimensions, dh);
    (ax + min(ox, dw), ay + min(oy, dh), ax + min(ox + ex, dw), ay + min(oy + ey, dh))
}

/// The pixel offset of one transform axis, executable form.
fn offset_along(t: &GUITransform, extent: u32, x_axis: bool) -> (r: u64)
    requires
        transform_wf(*t),
    ensures
        x_axis ==> r as int == offset_x(*t, extent as int),
        !x_axis ==> r as int == offset_y(*t, extent as int),
{
    match t {
        GUITransform::Absolute(x, y) => {
            if x_axis { *x as u64 } else { *y as u64 }
        },
        GUITransform::Relative(fx, fy) => {
            let f = if x_axis { fx } else { fy };
            proof {
                assert(extent as int * f.num as int <= 0xffff_ffff * 0xffff_ffff)
                    by (nonlinear_arith)
                    requires
                        0 <= extent as int <= 0xffff_ffff,
                        0 <= f.num as int <= 0xffff_ffff;
                assert(extent as int * f.num as int >= 0) by (nonlinear_arith)
                    requires 0 <= extent as int, 0 <= f.num as int;
            }
            (extent as u64 * f.num as u64) / f.den as u64
        },
    }
}

/// One clamped edge pair along an axis: anchor + min(off_p, extent) and
/// anchor + min(off_p + off_d, extent).
fn resolve_axis(anchor: u32, extent: u32, off_p: u64, off_d: u64) -> (r: (u32, u32))
    requires
        anchor as int + extent as int <= u32::MAX as int,
    ensures
        r.0 as int == anchor as int + min(off_p as int, extent as int),
        r.1 as int == anchor as int + min(off_p as int + off_d as int, extent as int),
        anchor as int <= r.0 as int <= r.1 as int <= anchor as int + extent as int,
{
    let lo = if off_p >= extent as u64 { extent } else { off_p as u32 };
    let hi = if off_p >= extent as u64 || off_d >= extent as u64 {
        extent
    } else {
        let s = off_p + off_d;
        if s >= extent as u64 { extent } else { s as u32 }
    };
    (anchor + lo, anchor + hi)
}

/// Resolves a panel's transforms against a parent anchor and extent into
/// its clamped rectangle.
pub fn resolve_rect(
    position: &GUITransform, dimensions: &GUITransform, anchor: (u32, u32), extent: (u32, u32),
) -> (r: Rect)
    requires
        transform_wf(*position),
        transform_wf(*dimensions),
        anchor.0 as int + extent.0 as int <= u32::MAX as int,
        anchor.1 as int + extent.1 as int <= u32::MAX as int,
    ensures
        (r.left as int, r.top as int, r.right as int, r.bottom as int) == resolved_rect(
            *position, *dimensions, anchor.0 as int, anchor.1 as int,
            extent.0 as int, extent.1 as int),
        anchor.0 as int <= r.left as int <= r.right as int
            <= anchor.0 as int + extent.0 as int,
        anchor.1 as int <= r.top as int <= r.bottom as int
            <= anchor.1 as int + extent.1 as int,
{
    let ox = offset_along(position, extent.0, true);
    let oy = offset_along(position, extent.1, false);
    let ex = offset_along(dimensions, extent.0, true);
    let ey = offset_along(dimensions, extent.1, false);
    let (left, right) = resolve_axis(anchor.0, extent.0, ox, ex);
    let (top, bottom) = resolve_axis(anchor.1, extent.1, oy, ey);
    Rect { left, top, right, bottom }
}

/// What a panel displays: a bitmap, rasterized text, a flat color behind
/// nested panels, or a drawable pixel surface.
pub enum GUIPanelContent {
    Image(Bitmap),
    Text(TextParameters),
    Panels(Color, Vec<GUIPanel>),
    Surface2D(Surface2D),
}

/// A node of the layout tree. Names need not be unique; an inactive panel
/// and its whole subtree are skipped during resolution.
pub struct GUIPanel {
    pub name: String,
    pub active: bool,
    /// Position of the top-left corner of the panel.
    pub position: GUITransform,
    pub dimensions: GUITransform,
    pub content: GUIPanelContent,
}

/// What the display pass draws for one resolved node: a flat color or a
/// bitmap (an image, rasterized text, or a surface's current contents).
#[derive(Debug, PartialEq)]
pub enum DisplayPayload {
    FlatColor(Color),
    Image(Bitmap),
}

/// The per-frame output of the layout resolver: a clamped rectangle in
/// pixels, a display payload, and the resolved children in input order.
pub struct ResolvedNode {
    pub rect: Rect,
    pub payload: DisplayPayload,
    pub children: Vec<ResolvedNode>,
}

/// The panels nested directly under a panel: its children for `Panels`
/// content, none otherwise.
pub open spec fn children_of(p: GUIPanel) -> Seq<GUIPanel> {
    match p.content {
        GUIPanelContent::Panels(_, children) => children@,
        _ => Seq::empty(),
    }
}

/// A panel tree is well formed when every transform's fractions have
/// positive denominators and every bitmap and surface in it is well formed.
pub open spec fn panel_wf(p: GUIPanel) -> bool
    decreases p,
{
    &&& transform_wf(p.position)
    &&& transform_wf(p.dimensions)
    &&& match p.content {
        GUIPanelContent::Image(b) => b.wf(),
        GUIPanelContent::Text(_) => true,
        GUIPanelContent::Panels(_, children) => panels_wf(children@),
        GUIPanelContent::Surface2D(s) => s.wf(),
    }
}

/// Well-formedness of a sequence of sibling panels.
pub open spec fn panels_wf(kids: Seq<GUIPanel>) -> bool
    decreases kids,
{
    kids.len() == 0 || (panel_wf(kids[0]) && panels_wf(kids.drop_first()))
}

/// Every member of a well-formed sibling sequence is well formed.
pub proof fn lemma_panels_wf_index(kids: Seq<GUIPanel>, i: int)
    requires
        panels_wf(kids),
        0 <= i < kids.len(),
    ensures
        panel_wf(kids[i]),
    decreases kids,
{
    if i > 0 {
        lemma_panels_wf_index(kids.drop_first(), i - 1);
    }
}

/// What a text box of extent w x h displays for a rasterizer buffer
/// `data`: when the pixel count fits in u32, a w x h bitmap that decodes
/// `data` as RGBA when it holds exactly 4 bytes per cell and is fully
/// transparent otherwise; when the count does not fit, a 0 x 0 bitmap.
pub open spec fn text_box_bitmap(w: int, h: int, data: Seq<u8>, out: Bitmap) -> bool {
    &&& out.wf()
    &&& if w * h <= u32::MAX as int {
        &&& out.width_spec() == w
        &&& out.height_spec() == h
        &&& if data.len() == 4 * (w * h) {
            forall|k: int| 0 <= k < w * h ==> out.grid()[k] == (Color {
                r: data[4 * k],
                g: data[4 * k + 1],
                b: data[4 * k + 2],
                a: data[4 * k + 3],
            })
        } else {
            forall|k: int| 0 <= k < w * h
                ==> out.grid()[k] == (Color { r: 0, g: 0, b: 0, a: 0 })
        }
    } else {
        out.width_spec() == 0 && out.height_spec() == 0
    }
}

/// Whether a resolved node is what the resolver owes for an active panel
/// against the given parent anchor and extent: the clamped rectangle, the
/// payload its content calls for, and, under `Panels`, children standing
/// in this relation to the active children in order. The bytes handed
/// back by the injected text rasterizer are outside data, so a text
/// payload is the text box bitmap of some byte sequence.
pub open spec fn resolves_to(
    p: GUIPanel, ax: int, ay: int, dw: int, dh: int, n: ResolvedNode,
) -> bool
    decreases p,
{
    let (l, t, r, b) = resolved_rect(p.position, p.dimensions, ax, ay, dw, dh);
    &&& p.active
    &&& n.rect.left as int == l
    &&& n.rect.top as int == t
    &&& n.rect.right as int == r
    &&& n.rect.bottom as int == b
    &&& match p.content {
        GUIPanelContent::Image(bm) => {
            &&& (n.payload matches DisplayPayload::Image(out) && out.grid() == bm.grid()
                && out.width == bm.width && out.height == bm.height)
            &&& n.children@.len() == 0
        },
        GUIPanelContent::Text(_) => {
            &&& (n.payload matches DisplayPayload::Image(out)
                && exists|data: Seq<u8>| #[trigger] text_box_bitmap(r - l, b - t, data, out))
            &&& n.children@.len() == 0
        },
        GUIPanelContent::Panels(color, children) => {
            &&& n.payload == DisplayPayload::FlatColor(color)
            &&& children_resolve(children@, l, t, r - l, b - t, n.children@)
        },
        GUIPanelContent::Surface2D(s) => {
            &&& (n.payload matches DisplayPayload::Image(out) && out.grid() == s.grid()
                && out.width == s.width && out.height == s.height)
            &&& n.children@.len() == 0
        },
    }
}

/// Whether `out` is exactly the resolved forms of the active panels of
/// `kids`, in order: inactive panels contribute nothing.
pub open spec fn children_resolve(
    kids: Seq<GUIPanel>, ax: int, ay: int, dw: int, dh: int, out: Seq<ResolvedNode>,
) -> bool
    decreases kids,
{
    if kids.len() == 0 {
        out.len() == 0
    } else if !kids[0].active {
        children_resolve(kids.drop_first(), ax, ay, dw, dh, out)
    } else {
        &&& out.len() > 0
        &&& resolves_to(kids[0], ax, ay, dw, dh, out[0])
        &&& children_resolve(kids.drop_first(), ax, ay, dw, dh, out.drop_first())
    }
}

/// Appending an inactive panel to a sibling sequence adds nothing to what
/// it resolves to.
proof fn lemma_children_resolve_push_inactive(
    kids: Seq<GUIPanel>, ax: int, ay: int, dw: int, dh: int, out: Seq<ResolvedNode>, k: GUIPanel,
)
    requires
        children_resolve(kids, ax, ay, dw, dh, out),
        !k.active,
    ensures
        children_resolve(kids.push(k), ax, ay, dw, dh, out),
    decreases kids,
{
    if kids.len() == 0 {
        assert(kids.push(k)[0] == k);
        assert(kids.push(k).drop_first() =~= kids);
    } else {
        assert(kids.push(k)[0] == kids[0]);
        assert(kids.push(k).drop_first() =~= kids.drop_first().push(k));
        if !kids[0].active {
            lemma_children_resolve_push_inactive(kids.drop_first(), ax, ay, dw, dh, out, k);
        } else {
            lemma_children_resolve_push_inactive(
                kids.drop_first(), ax, ay, dw, dh, out.drop_first(), k);
        }
    }
}

/// Appending an active panel and its resolved node extends what a sibling
/// sequence resolves to by that node.
proof fn lemma_children_resolve_push_active(
    kids: Seq<GUIPanel>, ax: int, ay: int, dw: int, dh: int, out: Seq<ResolvedNode>,
    k: GUIPanel, n: ResolvedNode,
)
    requires
        children_resolve(kids, ax, ay, dw, dh, out),
        k.active,
        resolves_to(k, ax, ay, dw, dh, n),
    ensures
        children_resolve(kids.push(k), ax, ay, dw, dh, out.push(n)),
    decreases kids,
{
    let kids2 = kids.push(k);
    let out2 = out.push(n);
    if kids.len() == 0 {
        assert(out.len() == 0);
        assert(kids2.len() == 1);
        assert(kids2[0] == k);
        assert(out2[0] == n);
        assert(kids2.drop_first() =~= Seq::<GUIPanel>::empty());
        assert(out2.drop_first() =~= Seq::<ResolvedNode>::empty());
        assert(children_resolve(kids2.drop_first(), ax, ay, dw, dh, out2.drop_first()));
        assert(children_resolve(kids2, ax, ay, dw, dh, out2));
    } else {
        assert(kids2[0] == kids[0]);
        assert(kids2.drop_first() =~= kids.drop_first().push(k));
        if !kids[0].active {
            lemma_children_resolve_push_active(kids.drop_first(), ax, ay, dw, dh, out, k, n);
            assert(children_resolve(kids2.drop_first(), ax, ay, dw, dh, out2));
            assert(children_resolve(kids2, ax, ay, dw, dh, out2));
        } else {
            assert(out.len() > 0);
            assert(out2[0] == out[0]);
            assert(out2.drop_first() =~= out.drop_first().push(n));
            lemma_children_resolve_push_active(
                kids.drop_first(), ax, ay, dw, dh, out.drop_first(), k, n);
            assert(children_resolve(kids2.drop_first(), ax, ay, dw, dh, out2.drop_first()));
            assert(children_resolve(kids2, ax, ay, dw, dh, out2));
        }
    }
}

/// A sibling sequence with no active panel resolves to no nodes at all:
/// inactive panels and their subtrees contribute nothing.
pub proof fn lemma_inactive_contribute_nothing(
    kids: Seq<GUIPanel>, ax: int, ay: int, dw: int, dh: int, out: Seq<ResolvedNode>,
)
    requires
        children_resolve(kids, ax, ay, dw, dh, out),
        forall|i: int| 0 <= i < kids.len() ==> !(#[trigger] kids[i]).active,
    ensures
        out.len() == 0,
    decreases kids,
{
    if kids.len() > 0 {
        assert(!kids[0].active);
        lemma_inactive_contribute_nothing(kids.drop_first(), ax, ay, dw, dh, out);
    }
}

/// A bitmap for a rasterized text box: the decoded buffer when it has
/// exactly 4 bytes per cell, a transparent box of the same extent
/// otherwise, a 0 x 0 box when the pixel count overflows u32.
fn text_bitmap(w: u32, h: u32, data: &Vec<u8>) -> (b: Bitmap)
    ensures
        text_box_bitmap(w as int, h as int, data@, b),
{
    proof {
        assert(0 <= w as int * h as int <= 0xffff_ffff * 0xffff_ffff) by (nonlinear_arith)
            requires
                0 <= w as int <= 0xffff_ffff,
                0 <= h as int <= 0xffff_ffff;
    }
    if (w as u64) * (h as u64) <= u32::MAX as u64 {
        let cells = w as u64 * h as u64;
        if data.len() as u64 == 4 * cells {
            Bitmap::from_rgba_bytes(w, h, data.as_slice())
        } else {
            let mut pixels: Vec<Color> = Vec::new();
            let n = cells as usize;
            let mut k: usize = 0;
            while k < n
                invariant
                    k <= n,
                    n == w as int * h as int,
                    n <= u32::MAX as int,
                    pixels@.len() == k,
                    forall|i: int| 0 <= i < k
                        ==> pixels@[i] == (Color { r: 0, g: 0, b: 0, a: 0 }),
                decreases n - k,
            {
                pixels.push(Color { r: 0, g: 0, b: 0, a: 0 });
                k = k + 1;
            }
            Bitmap::new(w, h, pixels)
        }
    } else {
        Bitmap::new(0, 0, Vec::new())
    }
}

impl GUIPanel {
    /// Resolves this panel against a parent anchor and extent: nothing for
    /// an inactive panel; otherwise its clamped rectangle, the payload its
    /// content calls for (text through the injected rasterizer), and its
    /// active children resolved recursively against this rectangle.
    pub fn resolve<R: TextRasterizer>(
        &self, rasterizer: &R, anchor: (u32, u32), extent: (u32, u32),
    ) -> (res: Option<ResolvedNode>)
        requires
            panel_wf(*self),
            anchor.0 as int + extent.0 as int <= u32::MAX as int,
            anchor.1 as int + extent.1 as int <= u32::MAX as int,
        ensures
            res is Some <==> self.active,
            res matches Some(n) ==> resolves_to(
                *self, anchor.0 as int, anchor.1 as int,
                extent.0 as int, extent.1 as int, n),
        decreases *self,
    {
        if !self.active {
            return None;
        }
        let rect = resolve_rect(&self.position, &self.dimensions, anchor, extent);
        match &self.content {
            GUIPanelContent::Image(bm) => {
                Some(ResolvedNode {
                    rect,
                    payload: DisplayPayload::Image(bm.duplicate()),
                    children: Vec::new(),
                })
            },
            GUIPanelContent::Text(t) => {
                let bw = rect.right - rect.left;
                let bh = rect.bottom - rect.top;
                let data = rasterizer.rasterize(t, bw, bh);
                let bm = text_bitmap(bw, bh, &data);
                let node = ResolvedNode {
                    rect,
                    payload: DisplayPayload::Image(bm),
                    children: Vec::new(),
                };
                proof {
                    let (l, tp, r, bt) = resolved_rect(
                        self.position, self.dimensions, anchor.0 as int, anchor.1 as int,
                        extent.0 as int, extent.1 as int);
                    assert(text_box_bitmap(r - l, bt - tp, data@, bm));
                    assert(node.payload matches DisplayPayload::Image(out)
                        && text_box_bitmap(r - l, bt - tp, data@, out));
                    assert(resolves_to(
                        *self, anchor.0 as int, anchor.1 as int,
                        extent.0 as int, extent.1 as int, node));
                }
                Some(node)
            },
            GUIPanelContent::Panels(color, children) => {
                let cw = rect.right - rect.left;
                let ch = rect.bottom - rect.top;
                let mut out: Vec<ResolvedNode> = Vec::new();
                let mut i: usize = 0;
                proof {
                    assert(children@.take(0) =~= Seq::<GUIPanel>::empty());
                }
                while i < children.len()
                    invariant
                        panel_wf(*self),
                        self.content == GUIPanelContent::Panels(*color, *children),
                        i <= children@.len(),
                        rect.left as int + cw as int <= u32::MAX as int,
                        rect.top as int + ch as int <= u32::MAX as int,
                        children_resolve(
                            children@.take(i as int), rect.left as int, rect.top as int,
                            cw as int, ch as int, out@),
                    decreases children@.len() - i,
                {
                    proof {
                        assert(children_of(*self) == children@);
                        assert(decreases_to!(*self => self.content));
                        assert(decreases_to!(self.content => children@[i as int]));
                        lemma_panels_wf_index(children@, i as int);
                    }
                    let child = &children[i];
                    let r = child.resolve(rasterizer, (rect.left, rect.top), (cw, ch));
                    proof {
                        assert(children@.take(i as int + 1)
                            =~= children@.take(i as int).push(children@[i as int]));
                    }
                    match r {
                        Some(n) => {
                            proof {
                                lemma_children_resolve_push_active(
                                    children@.take(i as int), rect.left as int, rect.top as int,
                                    cw as int, ch as int, out@, children@[i as int], n);
                            }
                            out.push(n);
                        },
                        None => {
                            proof {
                                lemma_children_resolve_push_inactive(
                                    children@.take(i as int), rect.left as int, rect.top as int,
                                    cw as int, ch as int, out@, children@[i as int]);
                            }
                        },
                    }
                    i = i + 1;
                }
                proof {
                    assert(children@.take(children@.len() as int) =~= children@);
                }
                Some(ResolvedNode {
                    rect,
                    payload: DisplayPayload::FlatColor(*color),
                    children: out,
                })
            },
            GUIPanelContent::Surface2D(s) => {
                Some(ResolvedNode {
                    rect,
                    payload: DisplayPayload::Image(s.image()),
                    children: Vec::new(),
                })
            },
        }
    }
}

/// The number of panels in a tree, this panel included.
pub open spec fn panel_size(p: GUIPanel) -> nat
    decreases p,
{
    match p.content {
        GUIPanelContent::Panels(_, children) => 1 + panels_size(children@),
        _ => 1,
    }
}

/// The number of panels in a forest of trees.
pub open spec fn panels_size(kids: Seq<GUIPanel>) -> nat
    decreases kids,
{
    if kids.len() == 0 {
        0
    } else {
        panel_size(kids[0]) + panels_size(kids.drop_first())
    }
}

proof fn lemma_panels_size_concat(a: Seq<GUIPanel>, b: Seq<GUIPanel>)
    ensures
        panels_size(a + b) == panels_size(a) + panels_size(b),
    decreases a.len(),
{
    if a.len() == 0 {
        assert(a + b =~= b);
    } else {
        assert((a + b)[0] == a[0]);
        assert((a + b).drop_first() =~= a.drop_first() + b);
        lemma_panels_size_concat(a.drop_first(), b);
    }
}

/// Breadth-first search by name over a queue of panel trees: the front
/// panel is inspected first; a miss appends its direct children (only
/// `Panels` content has any) behind the rest of the queue.
pub open spec fn bfs_find(queue: Seq<GUIPanel>, name: Seq<char>) -> Option<GUIPanel>
    decreases panels_size(queue),
    via bfs_find_decreases
{
    if queue.len() == 0 {
        None
    } else if queue[0].name@ == name {
        Some(queue[0])
    } else {
        bfs_find(queue.drop_first() + children_of(queue[0]), name)
    }
}

#[via_fn]
proof fn bfs_find_decreases(queue: Seq<GUIPanel>, name: Seq<char>) {
    if queue.len() > 0 {
        lemma_panels_size_concat(queue.drop_first(), children_of(queue[0]));
        assert(panels_size(queue)
            == panel_size(queue[0]) + panels_size(queue.drop_first()));
        assert(panel_size(queue[0]) == 1 + panels_size(children_of(queue[0])));
    }
}

impl GUIPanel {
    /// Finds the first panel with the given name in breadth-first order,
    /// this panel included, descending only into `Panels` content. Panels
    /// are searched whether active or not.
    pub fn find_by_name<'a>(&'a self, name: &String) -> (res: Option<&'a GUIPanel>)
        ensures
            match res {
                Some(p) => bfs_find(seq![*self], name@) == Some(*p),
                None => bfs_find(seq![*self], name@) is None,
            },
    {
        let ghost f = |p: &GUIPanel| *p;
        let mut queue: Vec<&'a GUIPanel> = Vec::new();
        queue.push(self);
        proof {
            assert(queue@.map_values(f) =~= seq![*self]);
        }
        loop
            invariant
                f == (|p: &GUIPanel| *p),
                bfs_find(queue@.map_values(f), name@) == bfs_find(seq![*self], name@),
            decreases panels_size(queue@.map_values(f)),
        {
            let ghost q0 = queue@.map_values(f);
            if queue.len() == 0 {
                return None;
            }
            let front: &'a GUIPanel = queue.remove(0);
            proof {
                assert(q0[0] == *front);
                assert(queue@.map_values(f) =~= q0.drop_first());
            }
            if front.name.eq(name) {
                proof {
                    assert(bfs_find(q0, name@) == Some(*front));
                }
                return Some(front);
            }
            match &front.content {
                GUIPanelContent::Panels(_, children) => {
                    let mut j: usize = 0;
                    while j < children.len()
                        invariant
                            f == (|p: &GUIPanel| *p),
                            j <= children@.len(),
                            queue@.map_values(f)
                                =~= q0.drop_first() + children_of(*front).take(j as int),
                            children_of(*front) == children@,
                        decreases children@.len() - j,
                    {
                        let ghost qpre = queue@;
                        queue.push(&children[j]);
                        proof {
                            assert(queue@ =~= qpre.push(&children@[j as int]));
                            assert(children_of(*front).take(j as int + 1)
                                =~= children_of(*front).take(j as int).push(children@[j as int]));
                            assert(queue@.map_values(f)
                                =~= qpre.map_values(f).push(children@[j as int]));
                            assert(queue@.map_values(f)
                                =~= q0.drop_first() + children_of(*front).take(j as int + 1));
                        }
                        j = j + 1;
                    }
                    proof {
                        assert(children_of(*front).take(children@.len() as int)
                            =~= children_of(*front));
                    }
                },
                _ => {
                    proof {
                        assert(children_of(*front) =~= Seq::<GUIPanel>::empty());
                        assert(queue@.map_values(f)
                            =~= q0.drop_first() + children_of(*front));
                    }
                },
            }
            proof {
                assert(queue@.map_values(f)
                    =~= q0.drop_first() + children_of(*front));
                lemma_panels_size_concat(q0.drop_first(), children_of(*front));
                assert(panel_size(q0[0]) == 1 + panels_size(children_of(*front)));
                assert(panels_size(q0)
                    == panel_size(q0[0]) + panels_size(q0.drop_first()));
            }
        }
    }
}

/// The display pass's draw order for one resolved subtree: the node's own
/// rectangle and payload first, then each child subtree in order, so that
/// children always paint over their parent (pre-order, back to front).
pub open spec fn display_items(n: ResolvedNode) -> Seq<(Rect, DisplayPayload)>
    decreases n,
{
    seq![(n.rect, n.payload)] + display_items_forest(n.children@)
}

/// The concatenated draw order of a forest of resolved subtrees.
pub open spec fn display_items_forest(ns: Seq<ResolvedNode>) -> Seq<(Rect, DisplayPayload)>
    decreases ns,
{
    if ns.len() == 0 {
        Seq::empty()
    } else {
        display_items(ns[0]) + display_items_forest(ns.drop_first())
    }
}

proof fn lemma_display_items_forest_push(ns: Seq<ResolvedNode>, n: ResolvedNode)
    ensures
        display_items_forest(ns.push(n))
            == display_items_forest(ns) + display_items(n),
    decreases ns.len(),
{
    if ns.len() == 0 {
        assert(ns.push(n)[0] == n);
        assert(ns.push(n).drop_first() =~= Seq::<ResolvedNode>::empty());
        assert(display_items_forest(Seq::<ResolvedNode>::empty())
            =~= Seq::<(Rect, DisplayPayload)>::empty());
        assert(display_items_forest(ns)
            =~= Seq::<(Rect, DisplayPayload)>::empty());
        assert(display_items_forest(ns.push(n))
            =~= display_items(n) + display_items_forest(Seq::<ResolvedNode>::empty()));
        assert(display_items_forest(ns.push(n))
            =~= display_items_forest(ns) + display_items(n));
    } else {
        assert(ns.push(n)[0] == ns[0]);
        assert(ns.push(n).drop_first() =~= ns.drop_first().push(n));
        lemma_display_items_forest_push(ns.drop_first(), n);
        assert(display_items(ns[0]) + (display_items_forest(ns.drop_first())
            + display_items(n))
            =~= (display_items(ns[0]) + display_items_forest(ns.drop_first()))
                + display_items(n));
    }
}

impl ResolvedNode {
    /// The display pass's draw order: this node first, then each child
    /// subtree, as references into the tree.
    pub fn display_list<'a>(&'a self) -> (out: Vec<(Rect, &'a DisplayPayload)>)
        ensures
            out@.map_values(|it: (Rect, &DisplayPayload)| (it.0, *it.1))
                == display_items(*self),
        decreases *self,
    {
        let mut out: Vec<(Rect, &'a DisplayPayload)> = Vec::new();
        out.push((self.rect, &self.payload));
        proof {
            assert(out@.map_values(|it: (Rect, &DisplayPayload)| (it.0, *it.1))
                =~= seq![(self.rect, self.payload)]
                    + display_items_forest(self.children@.take(0)));
        }
        let mut i: usize = 0;
        while i < self.children.len()
            invariant
                i <= self.children@.len(),
                out@.map_values(|it: (Rect, &DisplayPayload)| (it.0, *it.1))
                    == seq![(self.rect, self.payload)]
                        + display_items_forest(self.children@.take(i as int)),
            decreases self.children@.len() - i,
        {
            proof {
                assert(decreases_to!(*self => self.children));
                assert(decreases_to!(self.children => self.children@[i as int]));
            }
            let mut sub = self.children[i].display_list();
            let ghost pre = out@;
            let ghost subv = sub@;
            out.append(&mut sub);
            proof {
                let f = |it: (Rect, &DisplayPayload)| (it.0, *it.1);
                assert(out@.map_values(f) =~= pre.map_values(f) + subv.map_values(f));
                assert(self.children@.take(i as int + 1)
                    =~= self.children@.take(i as int).push(self.children@[i as int]));
                lemma_display_items_forest_push(
                    self.children@.take(i as int), self.children@[i as int]);
                assert(out@.map_values(f)
                    =~= seq![(self.rect, self.payload)]
                        + display_items_forest(self.children@.take(i as int + 1)));
            }
            i = i + 1;
        }
        proof {
            assert(self.children@.take(self.children@.len() as int) =~= self.children@);
        }
        out
    }
}

} // verus!
