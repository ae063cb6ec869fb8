use tri_raster::color::Color;
use tri_raster::point::Point2f;
use tri_raster::triangle::{edge_x_at, fix_triangle, Triangle2D};

fn p(x: i32, y: i32) -> Point2f {
    Point2f::new(x, y)
}

fn tri(a: (i32, i32), b: (i32, i32), c: (i32, i32)) -> Triangle2D {
    Triangle2D::new(p(a.0, a.1), p(b.0, b.1), p(c.0, c.1))
}

fn twice_area(t: &Triangle2D) -> i64 {
    let (x0, y0) = (t.v0.x as i64, t.v0.y as i64);
    let (x1, y1) = (t.v1.x as i64, t.v1.y as i64);
    let (x2, y2) = (t.v2.x as i64, t.v2.y as i64);
    (x1 - x0) * (y2 - y0) - (x2 - x0) * (y1 - y0)
}

#[test]
fn color_channels() {
    let c = Color::new(70, 120, 80);
    assert_eq!((c.r(), c.g(), c.b()), (70, 120, 80));
}

#[test]
fn point_offset_and_setters() {
    let mut q = p(3, -4).offset(10, 20);
    assert_eq!((q.x(), q.y()), (13, 16));
    q.set_x(-1);
    q.set_y(7);
    assert_eq!(q, p(-1, 7));
}

#[test]
fn standard_and_copy() {
    let s = Triangle2D::standard();
    assert_eq!(s, tri((0, 0), (1, 1), (0, 1)));
    assert_eq!(Triangle2D::copy(&s), s);
    assert_eq!((s.v0(), s.v1(), s.v2()), (p(0, 0), p(1, 1), p(0, 1)));
}

#[test]
fn sort_orders_by_y() {
    let t = tri((0, 9), (1, 2), (5, 4));
    assert_eq!(t.sort(), tri((1, 2), (5, 4), (0, 9)));
    let t = tri((0, 3), (1, 2), (5, 1));
    assert_eq!(t.sort(), tri((5, 1), (1, 2), (0, 3)));
}

#[test]
fn sort_keeps_order_of_equal_y() {
    let t = tri((3, 9), (1, 2), (5, 2));
    assert_eq!(t.sort(), tri((1, 2), (5, 2), (3, 9)));
    let t = tri((7, 2), (1, 2), (5, 2));
    assert_eq!(t.sort(), t);
    let t = tri((7, 5), (1, 0), (5, 5));
    assert_eq!(t.sort(), tri((1, 0), (7, 5), (5, 5)));
}

#[test]
fn sort_is_idempotent() {
    let sorted = tri((4, -3), (0, 1), (9, 1));
    assert_eq!(sorted.sort(), sorted);
    for t in [tri((0, 9), (1, 2), (5, 4)), tri((2, 2), (1, 1), (0, 0)), tri((1, 5), (1, 5), (0, 5))] {
        assert_eq!(t.sort().sort(), t.sort());
    }
}

#[test]
fn get_and_set_vertices() {
    let mut t = Triangle2D::standard();
    t.set_vert(0, 4, 5);
    t.set_vert(1, -6, 7);
    t.set_vert(2, 8, -9);
    assert_eq!(t, tri((4, 5), (-6, 7), (8, -9)));
    assert_eq!(t.get_vert(0), (4, 5));
    assert_eq!(t.get_vert(1), (-6, 7));
    assert_eq!(t.get_vert(2), (8, -9));
    t.set_vert(3, 1, 1);
    assert_eq!(t, tri((4, 5), (-6, 7), (8, -9)));
    assert_eq!(t.get_vert(7), (0, 0));
}

#[test]
fn edge_x_rounds_down() {
    assert_eq!(edge_x_at(p(0, 0), p(10, 10), 5), 5);
    assert_eq!(edge_x_at(p(0, 0), p(-7, 3), 1), -3);
    assert_eq!(edge_x_at(p(0, 0), p(7, 3), 1), 2);
    assert_eq!(edge_x_at(p(2, 4), p(9, 4), 4), 2);
}

#[test]
fn fix_triangle_splits_at_middle_row() {
    let (a, b) = fix_triangle(&tri((0, 0), (10, 10), (-4, 5)));
    assert_eq!(a, tri((0, 0), (-4, 5), (5, 5)));
    assert_eq!(b, tri((-4, 5), (5, 5), (10, 10)));
    let (a, b) = fix_triangle(&tri((0, 0), (-7, 3), (1, 6)));
    assert_eq!(a, tri((0, 0), (-7, 3), (0, 3)));
    assert_eq!(b, tri((-7, 3), (0, 3), (1, 6)));
}

#[test]
fn fix_triangle_of_flat_bottom() {
    let t = tri((0, 0), (-2, 4), (6, 4));
    let (a, b) = fix_triangle(&t);
    assert_eq!(a, t);
    assert_eq!(b, tri((-2, 4), (6, 4), (6, 4)));
    assert_eq!(twice_area(&b), 0);
}

#[test]
fn fix_triangle_of_flat_top() {
    let t = tri((0, 0), (4, 0), (2, 5));
    let (a, b) = fix_triangle(&t);
    assert_eq!(a, tri((0, 0), (4, 0), (0, 0)));
    assert_eq!(twice_area(&a), 0);
    assert_eq!(b, tri((4, 0), (0, 0), (2, 5)));
}

#[test]
fn fix_triangle_of_one_row() {
    let (a, b) = fix_triangle(&tri((5, 3), (1, 3), (9, 3)));
    assert_eq!(a, tri((5, 3), (1, 3), (5, 3)));
    assert_eq!(b, tri((1, 3), (5, 3), (9, 3)));
    assert_eq!(twice_area(&a), 0);
    assert_eq!(twice_area(&b), 0);
}

#[test]
fn triangle_offset() {
    let t = tri((0, 0), (4, 0), (2, 5)).offset(-3, 2);
    assert_eq!(t, tri((-3, 2), (1, 2), (-1, 7)));
}
