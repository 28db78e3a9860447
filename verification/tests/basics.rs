//! Canvas primitives, blending, lines, ellipses and arcs on concrete
//! values.

use raster2d::canvas::Canvas;
use raster2d::{Color, DrawError, Point};

fn canvas(w: u32, h: u32) -> Canvas {
    Canvas::new(w, h, Color::rgb(0, 0, 0))
}

fn same_canvas(a: &Canvas, b: &Canvas) -> bool {
    if a.width() != b.width() || a.height() != b.height() {
        return false;
    }
    for y in 0..a.height() {
        for x in 0..a.width() {
            if a.pixel_at(x, y) != b.pixel_at(x, y) {
                return false;
            }
        }
    }
    true
}

fn lit_count(c: &Canvas) -> u32 {
    let bg = Color::rgb(0, 0, 0);
    let mut n = 0;
    for y in 0..c.height() {
        for x in 0..c.width() {
            if c.pixel_at(x, y) != bg {
                n += 1;
            }
        }
    }
    n
}

#[test]
fn new_canvas_is_background() {
    let c = Canvas::new(4, 3, Color::rgb(9, 8, 7));
    assert_eq!(c.width(), 4);
    assert_eq!(c.height(), 3);
    for y in 0..3 {
        for x in 0..4 {
            assert_eq!(c.pixel_at(x, y), Color::rgb(9, 8, 7));
        }
    }
}

#[test]
fn pixel_colored_writes_one_pixel() {
    let mut c = canvas(5, 5);
    c.pixel_colored(Point::new(2, 3), Color::rgb(255, 255, 255)).unwrap();
    assert_eq!(c.pixel_at(2, 3), Color::rgb(255, 255, 255));
    assert_eq!(lit_count(&c), 1);
}

#[test]
fn out_of_bounds_writes_are_clipped() {
    let mut c = canvas(4, 4);
    let w = Color::rgb(255, 255, 255);
    c.pixel_colored(Point::new(-1, -1), w).unwrap();
    c.pixel_colored(Point::new(4, 2), w).unwrap();
    c.line(Point::new(-3, -3), Point::new(-1, -1), w).unwrap();
    assert_eq!(lit_count(&c), 0);
}

#[test]
fn opaque_draw_overwrites() {
    let mut c = Canvas::new(2, 1, Color::rgb(10, 20, 30));
    c.pixel_colored(Point::new(0, 0), Color::new(200, 100, 50, 255)).unwrap();
    assert_eq!(c.pixel_at(0, 0), Color::new(200, 100, 50, 255));
    assert_eq!(c.pixel_at(1, 0), Color::new(10, 20, 30, 255));
}

#[test]
fn translucent_draw_blends_exactly() {
    let mut c = Canvas::new(1, 1, Color::new(100, 100, 100, 255));
    c.pixel_colored(Point::new(0, 0), Color::new(200, 50, 0, 128)).unwrap();
    // channel = (src * a + dst * (255 - a)) / 255, truncated
    let r = (200 * 128 + 100 * 127) / 255;
    let g = (50 * 128 + 100 * 127) / 255;
    let b = (0 * 128 + 100 * 127) / 255;
    let a = 128 + 255 * (255 - 128) / 255;
    assert_eq!(c.pixel_at(0, 0), Color::new(r as u8, g as u8, b as u8, a as u8));
}

#[test]
fn pixel_weighted_scales_alpha() {
    let mut c = canvas(1, 1);
    // alpha 255 scaled by weight 128 over 256 gives 127, which then
    // blends onto black: channel = 255 * 127 / 255 = 127.
    c.pixel_weighted(Point::new(0, 0), Color::rgb(255, 255, 255), 128).unwrap();
    let px = c.pixel_at(0, 0);
    assert_eq!((px.r, px.g, px.b), (127, 127, 127));
}

#[test]
fn line_draws_diagonal() {
    let mut c = canvas(5, 5);
    c.line(Point::new(0, 0), Point::new(4, 4), Color::rgb(255, 0, 0)).unwrap();
    for i in 0..5 {
        assert_eq!(c.pixel_at(i, i), Color::rgb(255, 0, 0));
    }
    assert_eq!(lit_count(&c), 5);
}

#[test]
fn hline_vline_cover_runs() {
    let mut c = canvas(6, 6);
    c.hline_colored(1, 4, 2, Color::rgb(0, 255, 0)).unwrap();
    c.vline_colored(0, 3, 5, Color::rgb(0, 0, 255)).unwrap();
    for x in 1..=4 {
        assert_eq!(c.pixel_at(x, 2), Color::rgb(0, 255, 0));
    }
    for y in 3..=5 {
        assert_eq!(c.pixel_at(0, y), Color::rgb(0, 0, 255));
    }
    assert_eq!(lit_count(&c), 7);
}

#[test]
fn hline_direction_does_not_matter_for_opaque() {
    let mut a = canvas(8, 3);
    let mut b = canvas(8, 3);
    a.hline_colored(1, 6, 1, Color::rgb(9, 9, 9)).unwrap();
    b.hline_colored(6, 1, 1, Color::rgb(9, 9, 9)).unwrap();
    assert!(same_canvas(&a, &b));
}

#[test]
fn ellipse_zero_radii_draws_center() {
    let mut c = canvas(9, 9);
    c.ellipse(Point::new(4, 4), 0, 0, Color::rgb(255, 255, 255), false).unwrap();
    assert_eq!(c.pixel_at(4, 4), Color::rgb(255, 255, 255));
    assert_eq!(lit_count(&c), 1);
}

#[test]
fn ellipse_one_zero_radius_draws_axis_segment() {
    let mut c = canvas(21, 21);
    c.ellipse(Point::new(10, 10), 3, 0, Color::rgb(255, 255, 255), false).unwrap();
    for x in 7..=13 {
        assert_eq!(c.pixel_at(x, 10), Color::rgb(255, 255, 255));
    }
    assert_eq!(lit_count(&c), 7);

    let mut c2 = canvas(21, 21);
    c2.ellipse(Point::new(10, 10), 0, 4, Color::rgb(255, 255, 255), false).unwrap();
    for y in 6..=14 {
        assert_eq!(c2.pixel_at(10, y), Color::rgb(255, 255, 255));
    }
    assert_eq!(lit_count(&c2), 9);
}

#[test]
fn ellipse_negative_radius_rejected() {
    let mut c = canvas(8, 8);
    let before = canvas(8, 8);
    let r = c.ellipse(Point::new(4, 4), -1, 3, Color::rgb(1, 2, 3), true);
    assert_eq!(r, Err(DrawError::InvalidParameter));
    assert!(same_canvas(&c, &before));
}

#[test]
fn filled_circle_matches_filled_ellipse() {
    for rad in [0i16, 1, 2, 3, 5, 9, 14] {
        let mut a = canvas(40, 40);
        let mut b = canvas(40, 40);
        a.ellipse(Point::new(20, 20), rad, rad, Color::rgb(200, 10, 10), true).unwrap();
        b.filled_circle(Point::new(20, 20), rad, Color::rgb(200, 10, 10)).unwrap();
        assert!(same_canvas(&a, &b), "radius {rad}");
    }
}

#[test]
fn filled_circle_is_symmetric_and_solid() {
    let mut c = canvas(31, 31);
    c.filled_circle(Point::new(15, 15), 7, Color::rgb(255, 255, 255)).unwrap();
    // center and axis extremes lit
    assert_ne!(c.pixel_at(15, 15), Color::rgb(0, 0, 0));
    assert_ne!(c.pixel_at(15, 8), Color::rgb(0, 0, 0));
    assert_ne!(c.pixel_at(15, 22), Color::rgb(0, 0, 0));
    // left-right mirror symmetry
    for y in 0..31 {
        for dx in 0..=15 {
            assert_eq!(c.pixel_at(15 - dx, y), c.pixel_at(15 + dx, y));
        }
    }
    // far corner untouched
    assert_eq!(c.pixel_at(0, 0), Color::rgb(0, 0, 0));
}

#[test]
fn arc_radius_zero_draws_center() {
    let mut c = canvas(5, 5);
    c.arc(Point::new(2, 2), 0, 30, 200, Color::rgb(255, 255, 255)).unwrap();
    assert_eq!(c.pixel_at(2, 2), Color::rgb(255, 255, 255));
    assert_eq!(lit_count(&c), 1);
}

#[test]
fn arc_negative_radius_rejected() {
    let mut c = canvas(5, 5);
    let r = c.arc(Point::new(2, 2), -3, 0, 90, Color::rgb(255, 255, 255));
    assert_eq!(r, Err(DrawError::InvalidParameter));
    assert_eq!(lit_count(&c), 0);
}

#[test]
fn arc_first_quarter_stays_in_quadrant() {
    let mut c = canvas(21, 21);
    c.arc(Point::new(10, 10), 5, 0, 90, Color::rgb(255, 255, 255)).unwrap();
    let mut lit = 0;
    for y in 0..21 {
        for x in 0..21 {
            if c.pixel_at(x, y) != Color::rgb(0, 0, 0) {
                assert!(x >= 10 && y >= 10, "pixel ({x},{y}) outside the quarter");
                lit += 1;
            }
        }
    }
    assert!(lit > 0);
}

#[test]
fn arc_equal_angles_draws_nothing() {
    // start and end in the same octant without wrapping suppress that
    // octant entirely
    let mut c = canvas(21, 21);
    c.arc(Point::new(10, 10), 5, 45, 45, Color::rgb(255, 255, 255)).unwrap();
    assert_eq!(lit_count(&c), 0);
}

#[test]
fn arc_wrapping_same_octant_draws_around() {
    // start > end inside one octant means the arc wraps the whole way
    // around; each reflection pair contributes its first visible octant,
    // so the left and top axis extremes are drawn
    let mut c = canvas(21, 21);
    c.arc(Point::new(10, 10), 5, 40, 20, Color::rgb(255, 255, 255)).unwrap();
    assert_ne!(c.pixel_at(5, 10), Color::rgb(0, 0, 0));
    assert_ne!(c.pixel_at(10, 5), Color::rgb(0, 0, 0));
    let mut lit = 0;
    for y in 0..21 {
        for x in 0..21 {
            if c.pixel_at(x, y) != Color::rgb(0, 0, 0) {
                lit += 1;
            }
        }
    }
    assert!(lit >= 8);
}

#[test]
fn arc_full_turn_normalizes_to_empty() {
    // both angles normalize into [0, 360), so a full turn collapses to a
    // start equal to its end in one octant, which suppresses that octant
    let mut c = canvas(21, 21);
    c.arc(Point::new(10, 10), 5, 0, 360, Color::rgb(255, 255, 255)).unwrap();
    assert_eq!(lit_count(&c), 0);
}

#[test]
fn arc_same_octant_segment_between_stop_offsets() {
    // a 0..30 degree arc of radius 5: the boundary stop offsets are
    // 5*sin(0) = 0 and 5*sin(30) = 2, so exactly the steps at cx = 1 and
    // cx = 2 contribute, both from the transposed reflection
    let mut c = canvas(21, 21);
    c.arc(Point::new(10, 10), 5, 0, 30, Color::rgb(255, 255, 255)).unwrap();
    assert_eq!(c.pixel_at(15, 11), Color::rgb(255, 255, 255));
    assert_eq!(c.pixel_at(15, 12), Color::rgb(255, 255, 255));
    assert_eq!(lit_count(&c), 2);
}

#[test]
fn quadrant_mirror_writes_four_reflections() {
    let mut c = canvas(21, 21);
    c.set_draw_color(Color::rgb(255, 255, 255));
    c.draw_quadrants(Point::new(10, 10), Point::new(2, 3), false).unwrap();
    for (x, y) in [(12, 13), (8, 13), (12, 7), (8, 7)] {
        assert_eq!(c.pixel_at(x, y), Color::rgb(255, 255, 255));
    }
    assert_eq!(lit_count(&c), 4);
}

#[test]
fn draw_twice_opaque_equals_once() {
    let mut once = canvas(30, 30);
    let mut twice = canvas(30, 30);
    let col = Color::rgb(10, 200, 30);
    once.filled_circle(Point::new(14, 14), 8, col).unwrap();
    twice.filled_circle(Point::new(14, 14), 8, col).unwrap();
    twice.filled_circle(Point::new(14, 14), 8, col).unwrap();
    assert!(same_canvas(&once, &twice));

    let mut once2 = canvas(30, 30);
    let mut twice2 = canvas(30, 30);
    once2.thick_line(Point::new(2, 3), Point::new(25, 20), 4, col).unwrap();
    twice2.thick_line(Point::new(2, 3), Point::new(25, 20), 4, col).unwrap();
    twice2.thick_line(Point::new(2, 3), Point::new(25, 20), 4, col).unwrap();
    assert!(same_canvas(&once2, &twice2));
}
