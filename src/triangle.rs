use vstd::prelude::*;

use crate::point::Point2f;
use vstd::arithmetic::div_mod::{
    lemma_div_is_ordered, lemma_div_multiples_vanish, lemma_fundamental_div_mod,
    lemma_fundamental_div_mod_converse, lemma_mod_bound,
};

verus! {

/// The `x` of the segment from `a` to `b` at row `y`, rounded down; a
/// segment that does not go down the screen gives `a.x`.
pub open spec fn edge_x(a: Point2f, b: Point2f, y: int) -> int {
    if b.y <= a.y {
        a.x as int
    } else {
        a.x + (y - a.y) * (b.x - a.x) / (b.y - a.y)
    }
}

/// `n / d` rounded down.
fn floor_div(n: i128, d: i128) -> (q: i128)
    requires
        d > 0,
        n > i128::MIN,
    ensures
        q == n / d,
{
    if n >= 0 {
        n / d
    } else {
        let p = -n;
        let q = p / d;
        proof {
            lemma_fundamental_div_mod(p as int, d as int);
            lemma_mod_bound(p as int, d as int);
            assert(q * d <= p) by (nonlinear_arith)
                requires
                    p == d * q + p % d,
                    p % d >= 0,
            ;
        }
        if q * d == p {
            proof {
                assert(n == (-q) * d + 0) by (nonlinear_arith)
                    requires
                        q * d == p,
                        n == -p,
                ;
                lemma_fundamental_div_mod_converse(n as int, d as int, -q, 0);
            }
            -q
        } else {
            proof {
                assert(n == (-q - 1) * d + (d - p % d)) by (nonlinear_arith)
                    requires
                        p == d * q + p % d,
                        n == -p,
                ;
                assert(p % d != 0) by (nonlinear_arith)
                    requires
                        p == d * q + p % d,
                        q * d != p,
                ;
                lemma_fundamental_div_mod_converse(n as int, d as int, -q - 1, d - p % d);
            }
            -q - 1
        }
    }
}

/// Where `y` lies between `a.y` and `b.y`, `edge_x` lies between `a.x` and `b.x`.
proof fn lemma_edge_x_between(a: Point2f, b: Point2f, y: int)
    requires
        a.y <= y <= b.y,
    ensures
        a.x <= edge_x(a, b, y) <= b.x || b.x <= edge_x(a, b, y) <= a.x,
{
    if a.y < b.y {
        let t = y - a.y;
        let dx = b.x - a.x;
        let d = b.y - a.y;
        if dx >= 0 {
            assert(0 <= t * dx <= d * dx) by (nonlinear_arith)
                requires
                    0 <= t <= d,
                    dx >= 0,
            ;
            lemma_div_is_ordered(0, t * dx, d);
            lemma_div_is_ordered(t * dx, d * dx, d);
        } else {
            assert(d * dx <= t * dx <= 0) by (nonlinear_arith)
                requires
                    0 <= t <= d,
                    dx < 0,
            ;
            lemma_div_is_ordered(t * dx, 0, d);
            lemma_div_is_ordered(d * dx, t * dx, d);
        }
        lemma_div_multiples_vanish(dx, d);
    }
}

/// The `x` of the segment from `a` to `b` at row `y`, rounded down.
pub fn edge_x_at(a: Point2f, b: Point2f, y: i32) -> (x: i32)
    requires
        a.y <= y <= b.y,
    ensures
        x == edge_x(a, b, y as int),
        a.x <= x <= b.x || b.x <= x <= a.x,
{
    proof {
        lemma_edge_x_between(a, b, y as int);
    }
    if b.y <= a.y {
        a.x
    } else {
        let t = y as i128 - a.y as i128;
        let dx = b.x as i128 - a.x as i128;
        let d = b.y as i128 - a.y as i128;
        assert(-0x1_0000_0000_0000_0000 <= t * dx <= 0x1_0000_0000_0000_0000) by (nonlinear_arith)
            requires
                0 <= t <= 0x1_0000_0000,
                -0x1_0000_0000 <= dx <= 0x1_0000_0000,
        ;
        let q = floor_div(t * dx, d);
        (a.x as i128 + q) as i32
    }
}

/// A triangle of the screen, in whole pixels.
#[derive(Clone, Copy, Debug, PartialEq, Eq, Structural)]
pub struct Triangle2D {
    pub v0: Point2f,
    pub v1: Point2f,
    pub v2: Point2f,
}

/// The order in which a stable sort by key lists three keys, as the indices
/// of the keys: equal keys stay in the order they had.
pub open spec fn stable_order(k0: int, k1: int, k2: int) -> (int, int, int) {
    if k0 <= k1 && k1 <= k2 {
        (0, 1, 2)
    } else if k0 <= k2 && k2 < k1 {
        (0, 2, 1)
    } else if k1 < k0 && k0 <= k2 {
        (1, 0, 2)
    } else if k1 <= k2 && k2 < k0 {
        (1, 2, 0)
    } else if k2 < k0 && k0 <= k1 {
        (2, 0, 1)
    } else {
        (2, 1, 0)
    }
}

impl Triangle2D {
    /// The vertex with index `i` (0, 1 or 2).
    pub open spec fn vert(self, i: int) -> Point2f {
        if i == 0 {
            self.v0
        } else if i == 1 {
            self.v1
        } else {
            self.v2
        }
    }

    /// The vertices are in non-decreasing order of `y`.
    pub open spec fn is_y_sorted(self) -> bool {
        self.v0.y <= self.v1.y && self.v1.y <= self.v2.y
    }

    /// The triangle with its vertices put in non-decreasing order of `y`,
    /// vertices of equal `y` keeping their order.
    pub open spec fn y_sorted(self) -> Triangle2D {
        let (a, b, c) = stable_order(self.v0.y as int, self.v1.y as int, self.v2.y as int);
        Triangle2D { v0: self.vert(a), v1: self.vert(b), v2: self.vert(c) }
    }

    /// `other` has the same three vertices as `self`, in some order.
    pub open spec fn same_corners(self, other: Triangle2D) -> bool {
        ||| other == self
        ||| other == (Triangle2D { v0: self.v0, v1: self.v2, v2: self.v1 })
        ||| other == (Triangle2D { v0: self.v1, v1: self.v0, v2: self.v2 })
        ||| other == (Triangle2D { v0: self.v1, v1: self.v2, v2: self.v0 })
        ||| other == (Triangle2D { v0: self.v2, v1: self.v0, v2: self.v1 })
        ||| other == (Triangle2D { v0: self.v2, v1: self.v1, v2: self.v0 })
    }

    /// Twice the signed area of the triangle.
    pub open spec fn twice_area(self) -> int {
        (self.v1.x - self.v0.x) * (self.v2.y - self.v0.y) - (self.v2.x - self.v0.x) * (
        self.v1.y - self.v0.y)
    }

    /// Whether moving every vertex by `(dx, dy)` stays within `i32`.
    pub open spec fn can_offset(self, dx: int, dy: int) -> bool {
        self.v0.can_offset(dx, dy) && self.v1.can_offset(dx, dy) && self.v2.can_offset(dx, dy)
    }

    pub open spec fn spec_offset(self, dx: int, dy: int) -> Triangle2D {
        Triangle2D {
            v0: self.v0.spec_offset(dx, dy),
            v1: self.v1.spec_offset(dx, dy),
            v2: self.v2.spec_offset(dx, dy),
        }
    }

    /// The triangle moved by `(dx, dy)`.
    pub fn offset(&self, dx: i32, dy: i32) -> (t: Triangle2D)
        requires
            self.can_offset(dx as int, dy as int),
        ensures
            t == self.spec_offset(dx as int, dy as int),
    {
        Triangle2D { v0: self.v0.offset(dx, dy), v1: self.v1.offset(dx, dy), v2: self.v2.offset(dx, dy) }
    }

    pub fn new(v0: Point2f, v1: Point2f, v2: Point2f) -> (t: Triangle2D)
        ensures
            t == (Triangle2D { v0, v1, v2 }),
    {
        Triangle2D { v0, v1, v2 }
    }

    /// The triangle `(0,0), (1,1), (0,1)`.
    pub fn standard() -> (t: Triangle2D)
        ensures
            t == (Triangle2D {
                v0: Point2f { x: 0, y: 0 },
                v1: Point2f { x: 1, y: 1 },
                v2: Point2f { x: 0, y: 1 },
            }),
    {
        Triangle2D {
            v0: Point2f::new(0, 0),
            v1: Point2f::new(1, 1),
            v2: Point2f::new(0, 1),
        }
    }

    pub fn copy(tri: &Triangle2D) -> (t: Triangle2D)
        ensures
            t == *tri,
    {
        Triangle2D { v0: tri.v0, v1: tri.v1, v2: tri.v2 }
    }

    pub fn v0(&self) -> (p: Point2f)
        ensures
            p == self.v0,
    {
        self.v0
    }

    pub fn v1(&self) -> (p: Point2f)
        ensures
            p == self.v1,
    {
        self.v1
    }

    pub fn v2(&self) -> (p: Point2f)
        ensures
            p == self.v2,
    {
        self.v2
    }

    /// The coordinates of vertex `vert`; `(0, 0)` when there is no such vertex.
    pub fn get_vert(&self, vert: usize) -> (r: (i32, i32))
        ensures
            vert < 3 ==> r == (self.vert(vert as int).x, self.vert(vert as int).y),
            vert >= 3 ==> r == (0i32, 0i32),
    {
        if vert == 0 {
            (self.v0.x, self.v0.y)
        } else if vert == 1 {
            (self.v1.x, self.v1.y)
        } else if vert == 2 {
            (self.v2.x, self.v2.y)
        } else {
            (0, 0)
        }
    }

    /// Moves vertex `vert` to `(x, y)`; an index that names no vertex changes
    /// nothing.
    pub fn set_vert(&mut self, vert: usize, x: i32, y: i32)
        ensures
            vert == 0 ==> *final(self) == (Triangle2D { v0: Point2f { x, y }, ..*old(self) }),
            vert == 1 ==> *final(self) == (Triangle2D { v1: Point2f { x, y }, ..*old(self) }),
            vert == 2 ==> *final(self) == (Triangle2D { v2: Point2f { x, y }, ..*old(self) }),
            vert >= 3 ==> *final(self) == *old(self),
    {
        if vert == 0 {
            self.v0 = Point2f::new(x, y);
        } else if vert == 1 {
            self.v1 = Point2f::new(x, y);
        } else if vert == 2 {
            self.v2 = Point2f::new(x, y);
        }
    }

    /// A copy of the triangle with its vertices in non-decreasing order of
    /// `y`; vertices of equal `y` keep their order.
    pub fn sort(&self) -> (t: Triangle2D)
        ensures
            t == self.y_sorted(),
            t.is_y_sorted(),
            self.same_corners(t),
    {
        let mut a = self.v0;
        let mut b = self.v1;
        let mut c = self.v2;
        if b.y < a.y {
            let s = a;
            a = b;
            b = s;
        }
        if c.y < b.y {
            let s = b;
            b = c;
            c = s;
        }
        if b.y < a.y {
            let s = a;
            a = b;
            b = s;
        }
        Triangle2D { v0: a, v1: b, v2: c }
    }
}

/// The point where the long edge `v0 -> v2` of a `y`-sorted triangle crosses
/// the row of its middle vertex.
pub open spec fn split_point(s: Triangle2D) -> Point2f {
    Point2f { x: edge_x(s.v0, s.v2, s.v1.y as int) as i32, y: s.v1.y }
}

/// The two triangles with a horizontal edge that make up `t`: with `t` sorted
/// by `y` and `n` the split point, `(v0, v1, n)` above and `(v1, n, v2)` below.
pub open spec fn flat_halves(t: Triangle2D) -> (Triangle2D, Triangle2D) {
    let s = t.y_sorted();
    let n = split_point(s);
    (Triangle2D { v0: s.v0, v1: s.v1, v2: n }, Triangle2D { v0: s.v1, v1: n, v2: s.v2 })
}

/// Splits a triangle along the row of its middle vertex into a triangle with
/// a flat bottom and one with a flat top, each sorted by `y`.
pub fn fix_triangle(tri: &Triangle2D) -> (r: (Triangle2D, Triangle2D))
    ensures
        r == flat_halves(*tri),
        r.0.is_y_sorted() && r.0.v1.y == r.0.v2.y,
        r.1.is_y_sorted() && r.1.v0.y == r.1.v1.y,
{
    let s = tri.sort();
    let nx = edge_x_at(s.v0, s.v2, s.v1.y);
    let n = Point2f::new(nx, s.v1.y);
    let mut tri1 = Triangle2D::standard();
    tri1.set_vert(0, s.v0.x, s.v0.y);
    tri1.set_vert(1, s.v1.x, s.v1.y);
    tri1.set_vert(2, n.x, n.y);
    let mut tri2 = Triangle2D::standard();
    tri2.set_vert(0, s.v1.x, s.v1.y);
    tri2.set_vert(1, n.x, n.y);
    tri2.set_vert(2, s.v2.x, s.v2.y);
    (tri1, tri2)
}

/// Splitting a triangle that already has a flat top or a flat bottom gives
/// one triangle of zero area and one with the same corners as the input.
pub proof fn lemma_split_of_flat(t: Triangle2D)
    requires
        t.y_sorted().v0.y == t.y_sorted().v1.y || t.y_sorted().v1.y == t.y_sorted().v2.y,
    ensures
        ({
            let (h1, h2) = flat_halves(t);
            (h1.twice_area() == 0 && t.same_corners(h2)) || (h2.twice_area() == 0
                && t.same_corners(h1))
        }),
{
    let s = t.y_sorted();
    let (h1, h2) = flat_halves(t);
    if s.v0.y == s.v1.y {
        assert(h1.v2 == s.v0);
        assert(h1.twice_area() == 0) by (nonlinear_arith)
            requires
                h1.v2 == h1.v0,
        ;
    } else {
        lemma_div_multiples_vanish(s.v2.x - s.v0.x, s.v2.y - s.v0.y);
        assert(h1.v2 == s.v2);
        assert(h2.twice_area() == 0) by (nonlinear_arith)
            requires
                h2.v1 == h2.v2,
        ;
    }
}

/// Sorting by `y` leaves a triangle that is already sorted as it is, so
/// sorting twice gives what sorting once gave.
pub proof fn lemma_sort_idempotent(t: Triangle2D)
    ensures
        t.is_y_sorted() ==> t.y_sorted() == t,
        t.y_sorted().y_sorted() == t.y_sorted(),
{
}

} // verus!
