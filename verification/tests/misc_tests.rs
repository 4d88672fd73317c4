use pixel_engine::text::FontParameters;
use pixel_engine::{
    Bitmap, Color, DrawMode, Point, ResizeMode, ScrollDirection, Shader, Surface2D,
    TextParameters, TextRasterizer, WindowSettings,
};

#[test]
fn bitmap_bytes_round_trip() {
    let data: Vec<u8> = vec![1, 2, 3, 4, 5, 6, 7, 8, 9, 10, 11, 12];
    let bm = Bitmap::from_rgba_bytes(3, 1, &data);
    assert_eq!(bm.to_rgba_bytes(), data);
    assert_eq!(bm.get_pixel(1, 0), Some(Color::new(5, 6, 7, 8)));
}

#[test]
fn bitmap_duplicate_is_equal() {
    let bm = Bitmap::new(1, 2, vec![Color::new(1, 2, 3, 4), Color::new(5, 6, 7, 8)]);
    let copy = bm.duplicate();
    assert_eq!(copy, bm);
}

/// A rasterizer that numbers the bytes of the requested box.
struct CountingRaster;

impl TextRasterizer for CountingRaster {
    fn rasterize(&self, _params: &TextParameters, box_width: u32, box_height: u32) -> Vec<u8> {
        let n = (box_width as usize) * (box_height as usize);
        let mut out = Vec::with_capacity(4 * n);
        for k in 0..n {
            out.extend_from_slice(&[(4 * k) as u8, (4 * k + 1) as u8, (4 * k + 2) as u8, 255]);
        }
        out
    }
}

#[test]
fn draw_text_blits_the_rasterized_box() {
    let mut s = Surface2D::new(4, 4, Color::transparent());
    s.draw_mode = DrawMode::Replace;
    let params = TextParameters::new(
        "hi".to_string(),
        Color::new(255, 255, 255, 255),
        12,
        FontParameters::Builtin,
    );
    s.draw_text(&CountingRaster, &params, Point::new(1, 1), 2, 2);
    // pixel k of the 2x2 box lands at (1 + k % 2, 1 + k / 2), carrying
    // bytes 4k..4k+4; opaque pixels land unchanged under Replace
    assert_eq!(
        s.get_pixel(Point::new(1, 1)).unwrap(),
        Color::new(0, 1, 2, 255)
    );
    assert_eq!(
        s.get_pixel(Point::new(2, 1)).unwrap(),
        Color::new(4, 5, 6, 255)
    );
    assert_eq!(
        s.get_pixel(Point::new(1, 2)).unwrap(),
        Color::new(8, 9, 10, 255)
    );
    assert_eq!(
        s.get_pixel(Point::new(2, 2)).unwrap(),
        Color::new(12, 13, 14, 255)
    );
    assert_eq!(s.get_pixel(Point::new(0, 0)).unwrap(), Color::transparent());
}

#[test]
fn draw_text_with_zero_width_box_changes_nothing() {
    let clear = Color::new(3, 3, 3, 255);
    let mut s = Surface2D::new(2, 2, clear);
    let params = TextParameters::new(
        "hi".to_string(),
        Color::new(255, 255, 255, 255),
        12,
        FontParameters::Builtin,
    );
    s.draw_text(&CountingRaster, &params, Point::new(0, 0), 0, 2);
    for y in 0..2 {
        for x in 0..2 {
            assert_eq!(s.get_pixel(Point::new(x, y)).unwrap(), clear);
        }
    }
}

#[test]
fn window_settings_carry_their_fields() {
    let s = WindowSettings::new(640, 360, ResizeMode::KeepAspectRatio);
    assert_eq!(s.logical_width, 640);
    assert_eq!(s.logical_height, 360);
    assert_eq!(s.resize_mode, ResizeMode::KeepAspectRatio);
    assert_ne!(ResizeMode::Resize, ResizeMode::NoResize);
    assert_ne!(ScrollDirection::Up, ScrollDirection::Down);
    assert_ne!(ScrollDirection::Up, ScrollDirection::NoScroll);
}

#[test]
fn shader_carries_name_and_source() {
    let sh = Shader::new("flat".to_string(), "fn main() {}".to_string());
    assert_eq!(sh.name, "flat");
    assert_eq!(sh.contents, "fn main() {}");
}
