use pixel_engine::{Bitmap, Color, DrawMode, Point, Surface2D};

fn read(s: &Surface2D, x: i32, y: i32) -> Color {
    s.get_pixel(Point::new(x, y)).expect("pixel in bounds")
}

#[test]
fn new_fills_with_clear_color() {
    let clear = Color::new(9, 8, 7, 255);
    let s = Surface2D::new(4, 3, clear);
    assert_eq!(s.width(), 4);
    assert_eq!(s.height(), 3);
    for y in 0..3 {
        for x in 0..4 {
            assert_eq!(read(&s, x, y), clear);
        }
    }
}

#[test]
fn replace_write_then_read_gives_premultiplied() {
    let mut s = Surface2D::new(8, 8, Color::transparent());
    s.draw_mode = DrawMode::Replace;
    let c = Color::new(255, 128, 0, 128);
    s.draw_pixel(Point::new(3, 5), c);
    assert_eq!(read(&s, 3, 5), c.premultiply());
}

#[test]
fn out_of_bounds_draw_changes_nothing() {
    let clear = Color::new(1, 2, 3, 4);
    let mut s = Surface2D::new(4, 4, clear);
    s.draw_mode = DrawMode::Replace;
    let c = Color::new(255, 255, 255, 255);
    s.draw_pixel(Point::new(-1, 0), c);
    s.draw_pixel(Point::new(0, -1), c);
    s.draw_pixel(Point::new(4, 0), c);
    s.draw_pixel(Point::new(0, 4), c);
    s.draw_pixel(Point::new(100, 100), c);
    for y in 0..4 {
        for x in 0..4 {
            assert_eq!(read(&s, x, y), clear);
        }
    }
}

#[test]
fn blend_mode_composites_onto_cell() {
    let mut s = Surface2D::new(2, 2, Color::new(100, 100, 100, 255));
    let c = Color::new(255, 128, 0, 128);
    s.draw_pixel(Point::new(1, 1), c);
    let src = c.premultiply();
    let expected = Color::blend(&Color::new(100, 100, 100, 255), &src);
    assert_eq!(read(&s, 1, 1), expected);
    assert_eq!(read(&s, 0, 0), Color::new(100, 100, 100, 255));
}

#[test]
fn clear_restores_every_cell() {
    let clear = Color::new(5, 6, 7, 255);
    let mut s = Surface2D::new(5, 5, clear);
    s.draw_mode = DrawMode::Replace;
    for y in 0..5 {
        for x in 0..5 {
            s.draw_pixel(Point::new(x, y), Color::new(200, 0, 0, 255));
        }
    }
    s.clear();
    for y in 0..5 {
        for x in 0..5 {
            assert_eq!(read(&s, x, y), clear);
        }
    }
}

#[test]
fn resize_drops_contents_and_refills() {
    let clear = Color::new(0, 0, 9, 255);
    let mut s = Surface2D::new(3, 3, clear);
    s.draw_mode = DrawMode::Replace;
    s.draw_pixel(Point::new(1, 1), Color::new(250, 0, 0, 255));
    s.resize(5, 2);
    assert_eq!(s.width(), 5);
    assert_eq!(s.height(), 2);
    for y in 0..2 {
        for x in 0..5 {
            assert_eq!(read(&s, x, y), clear);
        }
    }
}

#[test]
fn from_image_round_trips_opaque_pixels() {
    let mut pixels = Vec::new();
    for k in 0..6u8 {
        pixels.push(Color::new(k * 10, k * 20, k * 30, 255));
    }
    let bm = Bitmap::new(3, 2, pixels.clone());
    let s = Surface2D::from_image(&bm);
    assert_eq!(s.width(), 3);
    assert_eq!(s.height(), 2);
    for y in 0..2 {
        for x in 0..3 {
            assert_eq!(read(&s, x, y), pixels[(y * 3 + x) as usize]);
        }
    }
}

#[test]
fn from_data_bgra_swizzles() {
    let data = vec![
        1, 2, 3, 4, // pixel 0: b=1 g=2 r=3 a=4
        5, 6, 7, 8, // pixel 1
    ];
    let s = Surface2D::from_data_bgra(2, 1, &data);
    assert_eq!(read(&s, 0, 0), Color::new(3, 2, 1, 4));
    assert_eq!(read(&s, 1, 0), Color::new(7, 6, 5, 8));
}

#[test]
fn raw_values_are_rgba_row_major() {
    let mut s = Surface2D::new(2, 1, Color::transparent());
    s.draw_mode = DrawMode::Replace;
    s.draw_pixel(Point::new(0, 0), Color::new(1, 2, 3, 255));
    s.draw_pixel(Point::new(1, 0), Color::new(4, 5, 6, 255));
    assert_eq!(s.raw_values(), vec![1, 2, 3, 255, 4, 5, 6, 255]);
    assert_eq!(s.raw_bgra_values(), vec![3, 2, 1, 255, 6, 5, 4, 255]);
}

#[test]
fn image_copies_current_contents() {
    let mut s = Surface2D::new(2, 2, Color::transparent());
    s.draw_mode = DrawMode::Replace;
    s.draw_pixel(Point::new(1, 0), Color::new(9, 9, 9, 255));
    let bm = s.image();
    assert_eq!(bm.width(), 2);
    assert_eq!(bm.height(), 2);
    assert_eq!(bm.get_pixel(1, 0), Some(Color::new(9, 9, 9, 255)));
    assert_eq!(bm.get_pixel(0, 1), Some(Color::transparent()));
    assert_eq!(bm.get_pixel(2, 0), None);
}

#[test]
fn get_pixel_out_of_bounds_is_none() {
    let s = Surface2D::new(2, 2, Color::transparent());
    assert!(s.get_pixel(Point::new(-1, 0)).is_none());
    assert!(s.get_pixel(Point::new(2, 0)).is_none());
    assert!(s.get_pixel(Point::new(0, 2)).is_none());
}

#[test]
fn sprite_blits_and_clips() {
    let sprite = Bitmap::new(
        2,
        2,
        vec![
            Color::new(10, 0, 0, 255),
            Color::new(20, 0, 0, 255),
            Color::new(30, 0, 0, 255),
            Color::new(40, 0, 0, 255),
        ],
    );
    let clear = Color::transparent();
    let mut s = Surface2D::new(3, 3, clear);
    s.draw_mode = DrawMode::Replace;
    // top-left corner of the sprite lands off the surface: only the
    // in-bounds pixels appear.
    s.draw_sprite(&sprite, Point::new(-1, -1));
    assert_eq!(read(&s, 0, 0), Color::new(40, 0, 0, 255));
    assert_eq!(read(&s, 1, 0), clear);
    assert_eq!(read(&s, 0, 1), clear);
    // fully inside
    let mut t = Surface2D::new(3, 3, clear);
    t.draw_mode = DrawMode::Replace;
    t.draw_sprite(&sprite, Point::new(1, 1));
    assert_eq!(read(&t, 1, 1), Color::new(10, 0, 0, 255));
    assert_eq!(read(&t, 2, 1), Color::new(20, 0, 0, 255));
    assert_eq!(read(&t, 1, 2), Color::new(30, 0, 0, 255));
    assert_eq!(read(&t, 2, 2), Color::new(40, 0, 0, 255));
    assert_eq!(read(&t, 0, 0), clear);
}

#[test]
fn buffer_blit_places_rows_by_width() {
    let mut s = Surface2D::new(4, 4, Color::transparent());
    s.draw_mode = DrawMode::Replace;
    // two pixels wide, two rows, opaque gray levels 1..=4
    let data = vec![
        1, 1, 1, 255, 2, 2, 2, 255, // row 0
        3, 3, 3, 255, 4, 4, 4, 255, // row 1
    ];
    s.draw_buffer(&data, Point::new(1, 2), 2);
    assert_eq!(read(&s, 1, 2), Color::new(1, 1, 1, 255));
    assert_eq!(read(&s, 2, 2), Color::new(2, 2, 2, 255));
    assert_eq!(read(&s, 1, 3), Color::new(3, 3, 3, 255));
    assert_eq!(read(&s, 2, 3), Color::new(4, 4, 4, 255));
    assert_eq!(read(&s, 0, 0), Color::transparent());
}

#[test]
fn buffer_blit_ignores_trailing_partial_pixel() {
    let mut s = Surface2D::new(2, 1, Color::transparent());
    s.draw_mode = DrawMode::Replace;
    let data = vec![7, 7, 7, 255, 9, 9, 9]; // 3 trailing bytes: no pixel
    s.draw_buffer(&data, Point::new(0, 0), 2);
    assert_eq!(read(&s, 0, 0), Color::new(7, 7, 7, 255));
    assert_eq!(read(&s, 1, 0), Color::transparent());
}

#[test]
fn zero_sized_surface_accepts_draws_and_reads_nothing() {
    let mut s = Surface2D::new(0, 0, Color::transparent());
    assert_eq!(s.width(), 0);
    assert_eq!(s.height(), 0);
    assert!(s.get_pixel(Point::new(0, 0)).is_none());
    s.draw_pixel(Point::new(0, 0), Color::new(1, 1, 1, 255));
    s.draw_line(Point::new(0, 0), Point::new(3, 3), Color::new(1, 1, 1, 255));
    s.draw_circle(Point::new(0, 0), 2, Color::new(1, 1, 1, 255), true);
    assert!(s.raw_values().is_empty());
    s.resize(2, 2);
    assert_eq!(s.get_pixel(Point::new(1, 1)), Some(Color::transparent()));
}
