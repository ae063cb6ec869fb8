use tri_raster::color::Color;
use tri_raster::point::Point2f;
use tri_raster::raster::{draw_triangle_solid, scanline_spans, wireframe_edges, wireframe_markers, Span};
use tri_raster::triangle::Triangle2D;

fn p(x: i32, y: i32) -> Point2f {
    Point2f::new(x, y)
}

fn tri(a: (i32, i32), b: (i32, i32), c: (i32, i32)) -> Triangle2D {
    Triangle2D::new(p(a.0, a.1), p(b.0, b.1), p(c.0, c.1))
}

fn span(y: i32, x_begin: i32, x_end: i32) -> Span {
    Span { y, x_begin, x_end }
}

#[test]
fn spans_of_right_triangle() {
    let spans = scanline_spans(&tri((0, 0), (4, 0), (0, 4)), 10, 10);
    assert_eq!(spans, vec![span(0, 0, 4), span(1, 0, 3), span(2, 0, 2), span(3, 0, 1)]);
}

#[test]
fn spans_of_both_halves() {
    let spans = scanline_spans(&tri((2, 0), (0, 2), (4, 4)), 10, 10);
    assert_eq!(spans, vec![span(0, 2, 2), span(1, 1, 2), span(2, 0, 3), span(3, 2, 3)]);
}

#[test]
fn spans_are_cut_to_the_surface() {
    let spans = scanline_spans(&tri((-5, 0), (5, 0), (-5, 2)), 3, 10);
    assert_eq!(spans, vec![span(0, 0, 2), span(1, 0, 0)]);
    let spans = scanline_spans(&tri((0, -3), (4, -3), (0, 9)), 10, 5);
    assert_eq!(spans.first().map(|s| s.y), Some(0));
    assert_eq!(spans.last().map(|s| s.y), Some(3));
}

#[test]
fn spans_skip_rows_off_the_surface() {
    let spans = scanline_spans(&tri((20, 0), (30, 0), (20, 4)), 10, 10);
    assert!(spans.is_empty());
    let spans = scanline_spans(&tri((-20, 0), (-10, 0), (-20, 4)), 10, 10);
    assert!(spans.is_empty());
}

#[test]
fn spans_of_a_row_triangle_are_empty() {
    assert!(scanline_spans(&tri((0, 3), (4, 3), (8, 3)), 10, 10).is_empty());
}

#[test]
fn solid_fill_writes_the_spans() {
    let pitch = 16;
    let mut pixels = vec![0u8; pitch * 5];
    draw_triangle_solid(tri((0, 0), (4, 0), (0, 4)), 0, 0, Color::new(1, 2, 3), &mut pixels, pitch, 1, 5, 5);
    let mut expected = vec![0u8; pitch * 5];
    for (row, len) in [(0usize, 4usize), (1, 3), (2, 2), (3, 1)] {
        for x in 0..len {
            expected[row * pitch + 3 * x] = 1;
            expected[row * pitch + 3 * x + 1] = 2;
            expected[row * pitch + 3 * x + 2] = 3;
        }
    }
    assert_eq!(pixels, expected);
}

#[test]
fn solid_fill_keeps_other_bytes_and_applies_offset() {
    let pitch = 15;
    let mut pixels = vec![9u8; pitch * 5];
    draw_triangle_solid(tri((0, 0), (2, 0), (0, 2)), 1, 2, Color::new(200, 100, 50), &mut pixels, pitch, 1, 5, 5);
    let mut expected = vec![9u8; pitch * 5];
    for (row, x0, x1) in [(2usize, 1usize, 3usize), (3, 1, 2)] {
        for x in x0..x1 {
            expected[row * pitch + 3 * x] = 200;
            expected[row * pitch + 3 * x + 1] = 100;
            expected[row * pitch + 3 * x + 2] = 50;
        }
    }
    assert_eq!(pixels, expected);
}

#[test]
fn solid_fill_with_row_step_writes_only_those_rows() {
    let pitch = 15;
    let mut pixels = vec![0u8; pitch * 5];
    draw_triangle_solid(tri((0, 0), (4, 0), (0, 4)), 0, 0, Color::new(7, 8, 9), &mut pixels, pitch, 2, 5, 5);
    let mut expected = vec![0u8; pitch * 5];
    for (row, len) in [(0usize, 4usize), (2, 2)] {
        for x in 0..len {
            expected[row * pitch + 3 * x] = 7;
            expected[row * pitch + 3 * x + 1] = 8;
            expected[row * pitch + 3 * x + 2] = 9;
        }
    }
    assert_eq!(pixels, expected);
}

#[test]
fn wireframe_edges_follow_sorted_vertices() {
    let edges = wireframe_edges(&tri((3, 9), (1, 2), (5, 2)), 10, 20);
    assert_eq!(edges, vec![(p(11, 22), p(15, 22)), (p(15, 22), p(13, 29)), (p(13, 29), p(11, 22))]);
}

#[test]
fn wireframe_markers_skip_vertices_off_the_surface() {
    let markers = wireframe_markers(&tri((3, 9), (1, 2), (5, 2)), 10, 20, 4, 10);
    assert_eq!(markers, vec![(0, p(11, 22)), (2, p(13, 29))]);
    let markers = wireframe_markers(&tri((0, 0), (4, 10), (-1, 3)), 0, 0, 4, 10);
    assert_eq!(markers, vec![(0, p(0, 0)), (2, p(4, 10))]);
}
