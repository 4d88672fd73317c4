use pixel_engine::{Color, DrawMode, Point, Surface2D};

const W: i32 = 32;
const H: i32 = 32;

fn canvas() -> Surface2D {
    let mut s = Surface2D::new(W as u32, H as u32, Color::transparent());
    s.draw_mode = DrawMode::Replace;
    s
}

fn ink() -> Color {
    Color::new(255, 255, 255, 255)
}

fn painted(s: &Surface2D) -> Vec<(i32, i32)> {
    let mut out = Vec::new();
    for y in 0..H {
        for x in 0..W {
            if s.get_pixel(Point::new(x, y)).unwrap() != Color::transparent() {
                out.push((x, y));
            }
        }
    }
    out
}

#[test]
fn line_to_itself_is_one_pixel() {
    let mut s = canvas();
    s.draw_line(Point::new(7, 9), Point::new(7, 9), ink());
    assert_eq!(painted(&s), vec![(7, 9)]);
}

#[test]
fn line_endpoint_order_is_irrelevant() {
    let cases = [
        ((1, 1), (10, 4)),  // shallow, positive slope
        ((1, 4), (10, 1)),  // shallow, negative slope
        ((2, 1), (5, 12)),  // steep, positive slope
        ((2, 12), (5, 1)),  // steep, negative slope
        ((3, 3), (3, 14)),  // vertical
        ((3, 3), (14, 3)),  // horizontal
        ((0, 0), (11, 11)), // diagonal
    ];
    for (a, b) in cases {
        let mut s1 = canvas();
        let mut s2 = canvas();
        s1.draw_line(Point::new(a.0, a.1), Point::new(b.0, b.1), ink());
        s2.draw_line(Point::new(b.0, b.1), Point::new(a.0, a.1), ink());
        assert_eq!(s1.raw_values(), s2.raw_values());
    }
}

#[test]
fn horizontal_line_covers_the_run() {
    let mut s = canvas();
    s.draw_line(Point::new(6, 2), Point::new(2, 2), ink());
    assert_eq!(painted(&s), vec![(2, 2), (3, 2), (4, 2), (5, 2), (6, 2)]);
}

#[test]
fn vertical_line_covers_the_run() {
    let mut s = canvas();
    s.draw_line(Point::new(4, 1), Point::new(4, 5), ink());
    assert_eq!(painted(&s), vec![(4, 1), (4, 2), (4, 3), (4, 4), (4, 5)]);
}

#[test]
fn diagonal_line_steps_once_per_column() {
    let mut s = canvas();
    s.draw_line(Point::new(0, 0), Point::new(4, 4), ink());
    assert_eq!(painted(&s), vec![(0, 0), (1, 1), (2, 2), (3, 3), (4, 4)]);
}

#[test]
fn line_is_clipped_at_the_edges() {
    let mut s = canvas();
    s.draw_line(Point::new(-3, 5), Point::new(2, 5), ink());
    assert_eq!(painted(&s), vec![(0, 5), (1, 5), (2, 5)]);
}

#[test]
fn rectangle_fill_covers_the_box() {
    let mut s = canvas();
    s.draw_rectangle(Point::new(3, 2), Point::new(1, 1), ink(), true);
    assert_eq!(
        painted(&s),
        vec![(1, 1), (2, 1), (3, 1), (1, 2), (2, 2), (3, 2)]
    );
}

#[test]
fn rectangle_outline_covers_the_border_only() {
    let mut s = canvas();
    s.draw_rectangle(Point::new(1, 1), Point::new(4, 4), ink(), false);
    let got = painted(&s);
    for y in 1..=4 {
        for x in 1..=4 {
            let on_border = x == 1 || x == 4 || y == 1 || y == 4;
            assert_eq!(got.contains(&(x, y)), on_border, "cell ({x},{y})");
        }
    }
    assert!(!got.contains(&(0, 0)));
    assert!(!got.contains(&(5, 5)));
}

#[test]
fn filled_circle_covers_rounded_distance_disc() {
    let mut s = canvas();
    s.draw_circle(Point::new(10, 10), 5, ink(), true);
    let got = painted(&s);
    for y in 0..H {
        for x in 0..W {
            let dx = (x - 10) as f64;
            let dy = (y - 10) as f64;
            let inside = (dx * dx + dy * dy).sqrt().round() <= 5.0;
            assert_eq!(got.contains(&(x, y)), inside, "cell ({x},{y})");
        }
    }
}

#[test]
fn circle_outline_is_a_strict_subset_of_the_fill() {
    let mut outline = canvas();
    outline.draw_circle(Point::new(10, 10), 5, ink(), false);
    let mut fill = canvas();
    fill.draw_circle(Point::new(10, 10), 5, ink(), true);
    let o = painted(&outline);
    let f = painted(&fill);
    for p in &o {
        assert!(f.contains(p), "outline cell {p:?} not in fill");
    }
    assert!(f.len() > o.len());
    assert!(!o.contains(&(10, 10)));
}

#[test]
fn zero_radius_circle_marks_the_center() {
    let mut s = canvas();
    s.draw_circle(Point::new(6, 6), 0, ink(), false);
    assert_eq!(painted(&s), vec![(6, 6)]);
    let mut f = canvas();
    f.draw_circle(Point::new(6, 6), 0, ink(), true);
    assert_eq!(painted(&f), vec![(6, 6)]);
}

#[test]
fn filled_right_triangle_covers_exact_lattice() {
    let mut s = canvas();
    s.draw_triangle(Point::new(0, 0), Point::new(4, 0), Point::new(0, 4), ink(), true);
    let got = painted(&s);
    assert_eq!(got.len(), 15);
    for y in 0..H {
        for x in 0..W {
            let inside = x >= 0 && y >= 0 && x + y <= 4;
            assert_eq!(got.contains(&(x, y)), inside, "cell ({x},{y})");
        }
    }
}

#[test]
fn filled_triangle_corner_order_is_irrelevant() {
    let corners = [(2, 1), (9, 4), (4, 8)];
    let orders = [
        (0, 1, 2),
        (0, 2, 1),
        (1, 0, 2),
        (1, 2, 0),
        (2, 0, 1),
        (2, 1, 0),
    ];
    let mut reference: Option<Vec<(i32, i32)>> = None;
    for (i, j, k) in orders {
        let mut s = canvas();
        s.draw_triangle(
            Point::new(corners[i].0, corners[i].1),
            Point::new(corners[j].0, corners[j].1),
            Point::new(corners[k].0, corners[k].1),
            ink(),
            true,
        );
        let got = painted(&s);
        match &reference {
            None => reference = Some(got),
            Some(r) => assert_eq!(&got, r),
        }
    }
}

#[test]
fn degenerate_flat_triangle_fills_its_row() {
    let mut s = canvas();
    s.draw_triangle(Point::new(2, 3), Point::new(6, 3), Point::new(4, 3), ink(), true);
    assert_eq!(painted(&s), vec![(2, 3), (3, 3), (4, 3), (5, 3), (6, 3)]);
}

#[test]
fn triangle_outline_draws_the_three_edges() {
    let mut s = canvas();
    s.draw_triangle(Point::new(0, 0), Point::new(4, 0), Point::new(0, 4), ink(), false);
    let got = painted(&s);
    for x in 0..=4 {
        assert!(got.contains(&(x, 0)));
        assert!(got.contains(&(0, x)));
        assert!(got.contains(&(x, 4 - x)));
    }
    // the interior stays clear
    assert!(!got.contains(&(1, 1)));
    assert!(!got.contains(&(2, 1)));
    assert!(!got.contains(&(1, 2)));
}
