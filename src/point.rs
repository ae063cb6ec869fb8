use vstd::prelude::*;

verus! {

/// A point of the screen, in whole pixels.
#[derive(Clone, Copy, Debug, PartialEq, Eq, Structural)]
pub struct Point2f {
    pub x: i32,
    pub y: i32,
}

impl Point2f {
    /// Creates a point from its coordinates.
    pub fn new(x: i32, y: i32) -> (p: Point2f)
        ensures
            p == (Point2f { x, y }),
    {
        Point2f { x, y }
    }

    /// Whether moving by `(dx, dy)` keeps both coordinates within `i32`.
    pub open spec fn can_offset(self, dx: int, dy: int) -> bool {
        i32::MIN <= self.x + dx <= i32::MAX && i32::MIN <= self.y + dy <= i32::MAX
    }

    pub open spec fn spec_offset(self, dx: int, dy: int) -> Point2f {
        Point2f { x: (self.x + dx) as i32, y: (self.y + dy) as i32 }
    }

    /// The point moved by `(dx, dy)`.
    pub fn offset(&self, dx: i32, dy: i32) -> (p: Point2f)
        requires
            self.can_offset(dx as int, dy as int),
        ensures
            p == self.spec_offset(dx as int, dy as int),
            p.x == self.x + dx,
            p.y == self.y + dy,
    {
        Point2f { x: self.x + dx, y: self.y + dy }
    }

    pub fn set_x(&mut self, x: i32)
        ensures
            *final(self) == (Point2f { x, y: old(self).y }),
    {
        self.x = x;
    }

    pub fn set_y(&mut self, y: i32)
        ensures
            *final(self) == (Point2f { x: old(self).x, y }),
    {
        self.y = y;
    }

    pub fn x(&self) -> (v: i32)
        ensures
            v == self.x,
    {
        self.x
    }

    pub fn y(&self) -> (v: i32)
        ensures
            v == self.y,
    {
        self.y
    }
}

} // verus!
