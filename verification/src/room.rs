//! Rectangular rooms, the building block of a level.

use vstd::prelude::*;

verus! {

/// The integer midpoint of `a` and `b`, rounded towards zero.
pub open spec fn midpoint(a: int, b: int) -> int {
    if a + b >= 0 {
        (a + b) / 2
    } else {
        -((-(a + b)) / 2)
    }
}

/// A rectangle given by two opposite corners, `(x1, y1)` and `(x2, y2)`.
///
/// The corners lie on the room's wall ring: the cells strictly between them
/// are its interior.
#[derive(Clone, Copy, Debug, PartialEq, Eq, Structural)]
pub struct RectRoom {
    pub x1: i32,
    pub y1: i32,
    pub x2: i32,
    pub y2: i32,
}

impl RectRoom {
    /// The cell in the middle of the bounding box.
    pub open spec fn center_spec(self) -> (int, int) {
        (midpoint(self.x1 as int, self.x2 as int), midpoint(self.y1 as int, self.y2 as int))
    }

    /// Closed-interval overlap on both axes. Two rooms that merely share a
    /// boundary line overlap too.
    pub open spec fn intersects_spec(self, other: RectRoom) -> bool {
        &&& self.x1 <= other.x2
        &&& self.x2 >= other.x1
        &&& self.y1 <= other.y2
        &&& self.y2 >= other.y1
    }

    /// Whether `(x, y)` lies strictly inside the bounding box.
    pub open spec fn has_inside(self, x: int, y: int) -> bool {
        self.x1 < x < self.x2 && self.y1 < y < self.y2
    }

    /// The room with top-left corner `(x, y)`, `w` cells wide and `h` high.
    pub fn new(x: i32, y: i32, w: i32, h: i32) -> (room: RectRoom)
        requires
            i32::MIN <= x + w <= i32::MAX,
            i32::MIN <= y + h <= i32::MAX,
        ensures
            room == (RectRoom { x1: x, y1: y, x2: (x + w) as i32, y2: (y + h) as i32 }),
    {
        RectRoom { x1: x, y1: y, x2: x + w, y2: y + h }
    }

    /// The midpoint of the bounding box, each coordinate rounded towards zero.
    pub fn center(&self) -> (c: (i32, i32))
        ensures
            (c.0 as int, c.1 as int) == self.center_spec(),
    {
        let sum_x: i64 = self.x1 as i64 + self.x2 as i64;
        let sum_y: i64 = self.y1 as i64 + self.y2 as i64;
        ((sum_x / 2) as i32, (sum_y / 2) as i32)
    }

    /// Whether the two bounding boxes touch or overlap.
    pub fn intersects_with(&self, other: &RectRoom) -> (hit: bool)
        ensures
            hit == self.intersects_spec(*other),
    {
        (self.x1 <= other.x2) && (self.x2 >= other.x1) && (self.y1 <= other.y2) && (self.y2
            >= other.y1)
    }
}

} // verus!
