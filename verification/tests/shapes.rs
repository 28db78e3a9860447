//! Polygons, boxes, thick lines and rounded rectangles on concrete
//! values.

use raster2d::canvas::Canvas;
use raster2d::{Color, DrawError, Point};

fn canvas(w: u32, h: u32) -> Canvas {
    Canvas::new(w, h, Color::rgb(0, 0, 0))
}

fn same_canvas(a: &Canvas, b: &Canvas) -> bool {
    if a.width() != b.width() || a.height() != b.height() {
        return false;
    }
    for y in 0..a.height() {
        for x in 0..a.width() {
            if a.pixel_at(x, y) != b.pixel_at(x, y) {
                return false;
            }
        }
    }
    true
}

fn lit_count(c: &Canvas) -> u32 {
    let bg = Color::rgb(0, 0, 0);
    let mut n = 0;
    for y in 0..c.height() {
        for x in 0..c.width() {
            if c.pixel_at(x, y) != bg {
                n += 1;
            }
        }
    }
    n
}

#[test]
fn fill_polygon_square_fills_block() {
    let white = Color::rgb(255, 255, 255);
    let verts = vec![
        Point::new(0, 0),
        Point::new(4, 0),
        Point::new(4, 4),
        Point::new(0, 4),
    ];
    let mut c = canvas(7, 7);
    c.fill_polygon(&verts, white).unwrap();
    for y in 0..=4 {
        for x in 0..=4 {
            assert_eq!(c.pixel_at(x, y), white, "({x},{y})");
        }
    }
    assert_eq!(lit_count(&c), 25);

    let mut b = canvas(7, 7);
    b.filled_box(Point::new(0, 0), Point::new(4, 4), white).unwrap();
    assert!(same_canvas(&c, &b));
}

#[test]
fn fill_polygon_triangle_scanlines() {
    let white = Color::rgb(255, 255, 255);
    let verts = vec![Point::new(0, 0), Point::new(6, 0), Point::new(0, 6)];
    let mut c = canvas(9, 9);
    c.fill_polygon(&verts, white).unwrap();
    // each row y holds the span [0, 6 - y]
    for y in 0..=6u32 {
        for x in 0..9u32 {
            let inside = x <= 6 - y;
            assert_eq!(c.pixel_at(x, y) == white, inside, "({x},{y})");
        }
    }
    assert_eq!(lit_count(&c), 28);
}

#[test]
fn fill_polygon_needs_three_vertices() {
    let mut c = canvas(6, 6);
    let before = canvas(6, 6);
    let verts = vec![Point::new(0, 0), Point::new(4, 4)];
    let r = c.fill_polygon(&verts, Color::rgb(255, 255, 255));
    assert_eq!(r, Err(DrawError::InvalidGeometry));
    assert!(same_canvas(&c, &before));

    let r2 = c.fill_polygon(&Vec::new(), Color::rgb(255, 255, 255));
    assert_eq!(r2, Err(DrawError::InvalidGeometry));
    assert!(same_canvas(&c, &before));
}

#[test]
fn filled_box_corner_order_does_not_matter() {
    let col = Color::rgb(50, 60, 70);
    let mut a = canvas(12, 12);
    let mut b = canvas(12, 12);
    a.filled_box(Point::new(2, 3), Point::new(8, 9), col).unwrap();
    b.filled_box(Point::new(8, 9), Point::new(2, 3), col).unwrap();
    assert!(same_canvas(&a, &b));

    // degenerate vertical box, swapped ends
    let mut va = canvas(12, 12);
    let mut vb = canvas(12, 12);
    va.filled_box(Point::new(4, 1), Point::new(4, 9), col).unwrap();
    vb.filled_box(Point::new(4, 9), Point::new(4, 1), col).unwrap();
    assert!(same_canvas(&va, &vb));
}

#[test]
fn filled_box_fills_inclusive_rectangle() {
    let col = Color::rgb(1, 2, 3);
    let mut c = canvas(10, 10);
    c.filled_box(Point::new(6, 7), Point::new(2, 3), col).unwrap();
    for y in 3..=7 {
        for x in 2..=6 {
            assert_eq!(c.pixel_at(x, y), col);
        }
    }
    assert_eq!(lit_count(&c), 25);
}

#[test]
fn rectangle_draws_border_only() {
    let col = Color::rgb(255, 255, 255);
    let mut c = canvas(7, 7);
    c.rectangle(Point::new(0, 0), Point::new(4, 4), col).unwrap();
    for i in 0..=4 {
        assert_eq!(c.pixel_at(i, 0), col);
        assert_eq!(c.pixel_at(i, 4), col);
        assert_eq!(c.pixel_at(0, i), col);
        assert_eq!(c.pixel_at(4, i), col);
    }
    for y in 1..=3 {
        for x in 1..=3 {
            assert_eq!(c.pixel_at(x, y), Color::rgb(0, 0, 0));
        }
    }
    assert_eq!(lit_count(&c), 16);
}

#[test]
fn thick_line_zero_length_fills_square_block() {
    let col = Color::rgb(255, 255, 255);
    let mut c = canvas(20, 20);
    c.thick_line(Point::new(10, 10), Point::new(10, 10), 4, col).unwrap();
    // a square block from the point minus width/2, of side width + width/2 + 1
    let mut b = canvas(20, 20);
    b.filled_box(Point::new(8, 8), Point::new(14, 14), col).unwrap();
    assert!(same_canvas(&c, &b));
    assert_eq!(lit_count(&c), 49);
}

#[test]
fn thick_line_width_one_is_plain_line() {
    let col = Color::rgb(255, 255, 255);
    let mut a = canvas(12, 12);
    let mut b = canvas(12, 12);
    a.thick_line(Point::new(1, 2), Point::new(9, 7), 1, col).unwrap();
    b.line(Point::new(1, 2), Point::new(9, 7), col).unwrap();
    assert!(same_canvas(&a, &b));
}

#[test]
fn thick_line_rejects_zero_width() {
    let mut c = canvas(8, 8);
    let r = c.thick_line(Point::new(1, 1), Point::new(6, 6), 0, Color::rgb(1, 1, 1));
    assert_eq!(r, Err(DrawError::InvalidParameter));
    assert_eq!(lit_count(&c), 0);
}

#[test]
fn thick_line_covers_band_around_segment() {
    let col = Color::rgb(255, 255, 255);
    let mut c = canvas(30, 30);
    c.thick_line(Point::new(5, 15), Point::new(25, 15), 5, col).unwrap();
    // the horizontal band around the center line is filled
    for x in 7..=23 {
        for dy in 0..=1u32 {
            assert_eq!(c.pixel_at(x, 15 - dy), col, "({x},{dy})");
            assert_eq!(c.pixel_at(x, 15 + dy), col, "({x},{dy})");
        }
    }
    // far away stays empty
    assert_eq!(c.pixel_at(15, 5), Color::rgb(0, 0, 0));
    assert_eq!(c.pixel_at(15, 25), Color::rgb(0, 0, 0));
}

#[test]
fn rounded_box_radius_one_is_plain_box() {
    let col = Color::rgb(9, 9, 9);
    let mut a = canvas(12, 12);
    let mut b = canvas(12, 12);
    a.rounded_box(Point::new(1, 1), Point::new(9, 6), 1, col).unwrap();
    b.filled_box(Point::new(1, 1), Point::new(9, 6), col).unwrap();
    assert!(same_canvas(&a, &b));
}

#[test]
fn rounded_box_rounds_the_corners() {
    let col = Color::rgb(255, 255, 255);
    let mut c = canvas(12, 12);
    c.rounded_box(Point::new(0, 0), Point::new(10, 10), 3, col).unwrap();
    // the extreme corner pixels stay empty, the edge centers are drawn
    assert_eq!(c.pixel_at(0, 0), Color::rgb(0, 0, 0));
    assert_eq!(c.pixel_at(10, 0), Color::rgb(0, 0, 0));
    assert_eq!(c.pixel_at(0, 10), Color::rgb(0, 0, 0));
    assert_eq!(c.pixel_at(10, 10), Color::rgb(0, 0, 0));
    assert_eq!(c.pixel_at(5, 0), col);
    assert_eq!(c.pixel_at(5, 10), col);
}

#[test]
fn rounded_box_negative_radius_rejected() {
    let mut c = canvas(8, 8);
    let r = c.rounded_box(Point::new(0, 0), Point::new(5, 5), -2, Color::rgb(1, 1, 1));
    assert_eq!(r, Err(DrawError::InvalidParameter));
    assert_eq!(lit_count(&c), 0);
}

#[test]
fn rounded_rectangle_radius_one_is_plain_rectangle() {
    let col = Color::rgb(9, 9, 9);
    let mut a = canvas(12, 12);
    let mut b = canvas(12, 12);
    a.rounded_rectangle(Point::new(1, 1), Point::new(9, 6), 1, col).unwrap();
    b.rectangle(Point::new(1, 1), Point::new(9, 6), col).unwrap();
    assert!(same_canvas(&a, &b));
}

#[test]
fn rounded_rectangle_outline_shape() {
    let col = Color::rgb(255, 255, 255);
    let mut c = canvas(12, 12);
    c.rounded_rectangle(Point::new(0, 0), Point::new(10, 10), 3, col).unwrap();
    // straight edge centers drawn, extreme corners and the middle empty
    assert_eq!(c.pixel_at(5, 0), col);
    assert_eq!(c.pixel_at(5, 10), col);
    assert_eq!(c.pixel_at(0, 5), col);
    assert_eq!(c.pixel_at(10, 5), col);
    assert_eq!(c.pixel_at(0, 0), Color::rgb(0, 0, 0));
    assert_eq!(c.pixel_at(10, 10), Color::rgb(0, 0, 0));
    assert_eq!(c.pixel_at(5, 5), Color::rgb(0, 0, 0));
}

#[test]
fn rounded_rectangle_negative_radius_rejected() {
    let mut c = canvas(8, 8);
    let before = canvas(8, 8);
    let r = c.rounded_rectangle(Point::new(0, 0), Point::new(5, 5), -1, Color::rgb(1, 1, 1));
    assert_eq!(r, Err(DrawError::InvalidParameter));
    assert!(same_canvas(&c, &before));
}

#[test]
fn rectangle_two_rows_has_no_side_columns() {
    let col = Color::rgb(255, 255, 255);
    let mut c = canvas(7, 4);
    c.rectangle(Point::new(0, 0), Point::new(4, 1), col).unwrap();
    for x in 0..=4 {
        assert_eq!(c.pixel_at(x, 0), col);
        assert_eq!(c.pixel_at(x, 1), col);
    }
    assert_eq!(lit_count(&c), 10);
}

#[test]
fn fill_polygon_twice_opaque_equals_once() {
    let col = Color::rgb(123, 45, 67);
    let verts = vec![
        Point::new(1, 1),
        Point::new(11, 3),
        Point::new(9, 12),
        Point::new(2, 8),
    ];
    let mut once = canvas(16, 16);
    let mut twice = canvas(16, 16);
    once.fill_polygon(&verts, col).unwrap();
    twice.fill_polygon(&verts, col).unwrap();
    twice.fill_polygon(&verts, col).unwrap();
    assert!(same_canvas(&once, &twice));
}
