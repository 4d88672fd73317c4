use pixel_engine::{
    Bitmap, Color, DisplayPayload, DrawMode, Fraction, GUIPanel, GUIPanelContent, GUITransform,
    Point, Rect, Surface2D, TextParameters, TextRasterizer,
};
use pixel_engine::text::FontParameters;

/// A rasterizer that fills the whole box with one opaque byte pattern.
struct SolidRaster {
    level: u8,
}

impl TextRasterizer for SolidRaster {
    fn rasterize(&self, _params: &TextParameters, box_width: u32, box_height: u32) -> Vec<u8> {
        let n = (box_width as usize) * (box_height as usize);
        let mut out = Vec::with_capacity(4 * n);
        for _ in 0..n {
            out.extend_from_slice(&[self.level, self.level, self.level, 255]);
        }
        out
    }
}

/// A rasterizer that returns a buffer of the wrong size.
struct BrokenRaster;

impl TextRasterizer for BrokenRaster {
    fn rasterize(&self, _params: &TextParameters, _w: u32, _h: u32) -> Vec<u8> {
        vec![1, 2, 3]
    }
}

fn color_panel(name: &str, position: GUITransform, dimensions: GUITransform) -> GUIPanel {
    GUIPanel {
        name: name.to_string(),
        active: true,
        position,
        dimensions,
        content: GUIPanelContent::Panels(Color::new(0, 0, 0, 255), Vec::new()),
    }
}

fn text_params() -> TextParameters {
    TextParameters {
        text: "hello".to_string(),
        color: Color::new(0, 255, 0, 255),
        scale: 20,
        font: FontParameters::Builtin,
    }
}

#[test]
fn relative_layout_resolves_to_fractions_of_parent() {
    let panel = color_panel(
        "p",
        GUITransform::Relative(Fraction::new(1, 10), Fraction::new(1, 10)),
        GUITransform::Relative(Fraction::new(8, 10), Fraction::new(8, 10)),
    );
    let node = panel.resolve(&SolidRaster { level: 0 }, (0, 0), (100, 100)).unwrap();
    assert_eq!(
        node.rect,
        Rect { left: 10, top: 10, right: 90, bottom: 90 }
    );
}

#[test]
fn absolute_layout_clamps_to_the_parent_edge() {
    let panel = color_panel(
        "p",
        GUITransform::Absolute(150, 0),
        GUITransform::Absolute(50, 50),
    );
    let node = panel.resolve(&SolidRaster { level: 0 }, (0, 0), (100, 100)).unwrap();
    assert_eq!(
        node.rect,
        Rect { left: 100, top: 0, right: 100, bottom: 50 }
    );
}

#[test]
fn oversized_relative_fraction_is_cut_at_the_parent() {
    let panel = color_panel(
        "p",
        GUITransform::Relative(Fraction::new(1, 2), Fraction::new(0, 1)),
        GUITransform::Relative(Fraction::new(3, 2), Fraction::new(3, 2)),
    );
    let node = panel.resolve(&SolidRaster { level: 0 }, (0, 0), (100, 100)).unwrap();
    assert_eq!(
        node.rect,
        Rect { left: 50, top: 0, right: 100, bottom: 100 }
    );
}

#[test]
fn inactive_panel_resolves_to_nothing() {
    let mut panel = color_panel(
        "p",
        GUITransform::Absolute(0, 0),
        GUITransform::Absolute(10, 10),
    );
    panel.active = false;
    assert!(panel.resolve(&SolidRaster { level: 0 }, (0, 0), (100, 100)).is_none());
}

#[test]
fn inactive_children_contribute_no_nodes() {
    let mut inactive_child = color_panel(
        "child_a",
        GUITransform::Absolute(0, 0),
        GUITransform::Absolute(5, 5),
    );
    inactive_child.active = false;
    let active_child = color_panel(
        "child_b",
        GUITransform::Absolute(1, 1),
        GUITransform::Absolute(5, 5),
    );
    let mut inactive_child2 = color_panel(
        "child_c",
        GUITransform::Absolute(2, 2),
        GUITransform::Absolute(5, 5),
    );
    inactive_child2.active = false;
    let root = GUIPanel {
        name: "root".to_string(),
        active: true,
        position: GUITransform::Absolute(10, 10),
        dimensions: GUITransform::Absolute(50, 50),
        content: GUIPanelContent::Panels(
            Color::new(7, 7, 7, 255),
            vec![inactive_child, active_child, inactive_child2],
        ),
    };
    let node = root.resolve(&SolidRaster { level: 0 }, (0, 0), (100, 100)).unwrap();
    assert_eq!(node.children.len(), 1);
    // the surviving child resolved against the root's rectangle
    assert_eq!(
        node.children[0].rect,
        Rect { left: 11, top: 11, right: 16, bottom: 16 }
    );
    assert_eq!(node.payload, DisplayPayload::FlatColor(Color::new(7, 7, 7, 255)));
}

#[test]
fn image_content_passes_the_bitmap_through() {
    let bm = Bitmap::new(2, 1, vec![Color::new(1, 2, 3, 255), Color::new(4, 5, 6, 255)]);
    let panel = GUIPanel {
        name: "img".to_string(),
        active: true,
        position: GUITransform::Absolute(0, 0),
        dimensions: GUITransform::Absolute(2, 1),
        content: GUIPanelContent::Image(bm),
    };
    let node = panel.resolve(&SolidRaster { level: 0 }, (0, 0), (10, 10)).unwrap();
    match node.payload {
        DisplayPayload::Image(out) => {
            assert_eq!(out.get_pixel(0, 0), Some(Color::new(1, 2, 3, 255)));
            assert_eq!(out.get_pixel(1, 0), Some(Color::new(4, 5, 6, 255)));
        }
        _ => panic!("image panel must resolve to a bitmap payload"),
    }
    assert!(node.children.is_empty());
}

#[test]
fn text_content_uses_the_rasterized_buffer() {
    let panel = GUIPanel {
        name: "label".to_string(),
        active: true,
        position: GUITransform::Absolute(2, 2),
        dimensions: GUITransform::Absolute(4, 3),
        content: GUIPanelContent::Text(text_params()),
    };
    let node = panel.resolve(&SolidRaster { level: 9 }, (0, 0), (100, 100)).unwrap();
    match node.payload {
        DisplayPayload::Image(out) => {
            assert_eq!(out.width(), 4);
            assert_eq!(out.height(), 3);
            assert_eq!(out.get_pixel(3, 2), Some(Color::new(9, 9, 9, 255)));
        }
        _ => panic!("text panel must resolve to a bitmap payload"),
    }
}

#[test]
fn text_content_survives_a_misbehaving_rasterizer() {
    let panel = GUIPanel {
        name: "label".to_string(),
        active: true,
        position: GUITransform::Absolute(2, 2),
        dimensions: GUITransform::Absolute(4, 3),
        content: GUIPanelContent::Text(text_params()),
    };
    let node = panel.resolve(&BrokenRaster, (0, 0), (100, 100)).unwrap();
    match node.payload {
        DisplayPayload::Image(out) => {
            // a wrong-sized buffer falls back to a transparent box
            assert_eq!(out.width(), 4);
            assert_eq!(out.height(), 3);
            assert_eq!(out.get_pixel(0, 0), Some(Color::new(0, 0, 0, 0)));
        }
        _ => panic!("text panel must resolve to a bitmap payload"),
    }
}

#[test]
fn surface_content_snapshots_the_surface() {
    let mut surface = Surface2D::new(3, 3, Color::transparent());
    surface.draw_mode = DrawMode::Replace;
    surface.draw_pixel(Point::new(1, 1), Color::new(200, 0, 0, 255));
    let panel = GUIPanel {
        name: "canvas".to_string(),
        active: true,
        position: GUITransform::Absolute(0, 0),
        dimensions: GUITransform::Absolute(3, 3),
        content: GUIPanelContent::Surface2D(surface),
    };
    let node = panel.resolve(&SolidRaster { level: 0 }, (0, 0), (10, 10)).unwrap();
    match node.payload {
        DisplayPayload::Image(out) => {
            assert_eq!(out.get_pixel(1, 1), Some(Color::new(200, 0, 0, 255)));
            assert_eq!(out.get_pixel(0, 0), Some(Color::transparent()));
        }
        _ => panic!("surface panel must resolve to a bitmap payload"),
    }
}

#[test]
fn nested_children_resolve_against_their_parents_rectangle() {
    let grandchild = color_panel(
        "gc",
        GUITransform::Relative(Fraction::new(1, 2), Fraction::new(1, 2)),
        GUITransform::Relative(Fraction::new(1, 2), Fraction::new(1, 2)),
    );
    let child = GUIPanel {
        name: "c".to_string(),
        active: true,
        position: GUITransform::Absolute(10, 10),
        dimensions: GUITransform::Absolute(40, 40),
        content: GUIPanelContent::Panels(Color::new(1, 1, 1, 255), vec![grandchild]),
    };
    let root = GUIPanel {
        name: "r".to_string(),
        active: true,
        position: GUITransform::Absolute(100, 100),
        dimensions: GUITransform::Absolute(100, 100),
        content: GUIPanelContent::Panels(Color::new(2, 2, 2, 255), vec![child]),
    };
    let node = root.resolve(&SolidRaster { level: 0 }, (0, 0), (400, 400)).unwrap();
    assert_eq!(node.rect, Rect { left: 100, top: 100, right: 200, bottom: 200 });
    let c = &node.children[0];
    assert_eq!(c.rect, Rect { left: 110, top: 110, right: 150, bottom: 150 });
    let gc = &c.children[0];
    assert_eq!(gc.rect, Rect { left: 130, top: 130, right: 150, bottom: 150 });
}

#[test]
fn find_by_name_returns_the_shallowest_match_first() {
    let deep = GUIPanel {
        name: "target".to_string(),
        active: true,
        position: GUITransform::Absolute(1, 0),
        dimensions: GUITransform::Absolute(1, 1),
        content: GUIPanelContent::Panels(Color::new(0, 0, 0, 255), Vec::new()),
    };
    let wrapper = GUIPanel {
        name: "wrapper".to_string(),
        active: true,
        position: GUITransform::Absolute(2, 0),
        dimensions: GUITransform::Absolute(1, 1),
        content: GUIPanelContent::Panels(Color::new(0, 0, 0, 255), vec![deep]),
    };
    let shallow = GUIPanel {
        name: "target".to_string(),
        active: false, // found even when inactive
        position: GUITransform::Absolute(3, 0),
        dimensions: GUITransform::Absolute(1, 1),
        content: GUIPanelContent::Panels(Color::new(0, 0, 0, 255), Vec::new()),
    };
    let root = GUIPanel {
        name: "root".to_string(),
        active: true,
        position: GUITransform::Absolute(0, 0),
        dimensions: GUITransform::Absolute(10, 10),
        content: GUIPanelContent::Panels(Color::new(0, 0, 0, 255), vec![wrapper, shallow]),
    };
    // breadth-first: the depth-1 "target" wins over the depth-2 one
    let found = root.find_by_name(&"target".to_string()).expect("present");
    match found.position {
        GUITransform::Absolute(x, _) => assert_eq!(x, 3),
        _ => panic!("wrong panel found"),
    }
    assert!(root.find_by_name(&"absent".to_string()).is_none());
    assert_eq!(root.find_by_name(&"root".to_string()).unwrap().name, "root");
    // descends into nested panels when no shallower match exists
    assert!(root.find_by_name(&"wrapper".to_string()).is_some());
}

#[test]
fn display_list_is_preorder_parent_before_children() {
    let leaf1 = color_panel("l1", GUITransform::Absolute(0, 0), GUITransform::Absolute(1, 1));
    let leaf2 = color_panel("l2", GUITransform::Absolute(1, 1), GUITransform::Absolute(2, 2));
    let mid = GUIPanel {
        name: "m".to_string(),
        active: true,
        position: GUITransform::Absolute(5, 5),
        dimensions: GUITransform::Absolute(20, 20),
        content: GUIPanelContent::Panels(Color::new(0, 0, 0, 255), vec![leaf1, leaf2]),
    };
    let node = mid.resolve(&SolidRaster { level: 0 }, (0, 0), (100, 100)).unwrap();
    let list = node.display_list();
    let rects: Vec<Rect> = list.iter().map(|it| it.0).collect();
    assert_eq!(
        rects,
        vec![
            Rect { left: 5, top: 5, right: 25, bottom: 25 },
            Rect { left: 5, top: 5, right: 6, bottom: 6 },
            Rect { left: 6, top: 6, right: 8, bottom: 8 },
        ]
    );
}
