use pixel_engine::Color;

#[test]
fn new_stores_channels() {
    let c = Color::new(1, 2, 3, 4);
    assert_eq!(c.r, 1);
    assert_eq!(c.g, 2);
    assert_eq!(c.b, 3);
    assert_eq!(c.a, 4);
}

#[test]
fn premultiply_scales_by_alpha() {
    let c = Color::new(255, 128, 0, 128).premultiply();
    assert_eq!(c.r, 128); // 255 * 128 / 255
    assert_eq!(c.g, 64); // floor(128 * 128 / 255)
    assert_eq!(c.b, 0);
    assert_eq!(c.a, 128);
}

#[test]
fn premultiply_opaque_is_identity() {
    let c = Color::new(10, 20, 30, 255).premultiply();
    assert_eq!(c, Color::new(10, 20, 30, 255));
}

#[test]
fn premultiply_transparent_zeroes_color() {
    let c = Color::new(200, 100, 50, 0).premultiply();
    assert_eq!(c, Color::new(0, 0, 0, 0));
}

#[test]
fn blend_opaque_source_replaces() {
    let dst = Color::new(10, 20, 30, 40);
    let src = Color::new(100, 50, 25, 255);
    assert_eq!(Color::blend(&dst, &src), src);
}

#[test]
fn blend_transparent_source_keeps_destination() {
    let dst = Color::new(10, 20, 30, 40);
    let src = Color::new(0, 0, 0, 0);
    assert_eq!(Color::blend(&dst, &src), dst);
}

#[test]
fn blend_half_alpha_mixes() {
    let dst = Color::new(100, 100, 100, 255);
    let src = Color::new(255, 128, 0, 128).premultiply();
    let out = Color::blend(&dst, &src);
    // out.c = src.c + dst.c * (255 - 128) / 255, and 100 * 127 / 255 == 49
    assert_eq!(out.r, 128 + 49);
    assert_eq!(out.g, 64 + 49);
    assert_eq!(out.b, 49);
    assert_eq!(out.a, 255);
}

#[test]
fn transparent_constant_is_all_zero() {
    assert_eq!(Color::transparent(), Color::new(0, 0, 0, 0));
}
