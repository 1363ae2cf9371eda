//! Integer points on the plane.

use vstd::prelude::*;
use crate::geo::orientation::Orientation;

verus! {

/// A point with integer coordinates. The grid's origin is `(0, 0)`; a point
/// may carry negative or over-bound coordinates until the mission checks it
/// against the grid bounds.
#[derive(Clone, Copy, PartialEq, Eq, Structural, Hash, Debug)]
pub struct Point {
    pub x: i32,
    pub y: i32,
}

impl Point {
    /// Componentwise vector addition.
    pub fn plus(self, other: Point) -> (r: Point)
        requires
            i32::MIN <= self.x + other.x <= i32::MAX,
            i32::MIN <= self.y + other.y <= i32::MAX,
        ensures
            r.x == self.x + other.x,
            r.y == self.y + other.y,
    {
        Point { x: self.x + other.x, y: self.y + other.y }
    }

    /// Translation by an orientation's unit vector.
    pub fn step(self, o: Orientation) -> (r: Point)
        requires
            i32::MIN <= self.x + o.unit_x() <= i32::MAX,
            i32::MIN <= self.y + o.unit_y() <= i32::MAX,
        ensures
            r.x == self.x + o.unit_x(),
            r.y == self.y + o.unit_y(),
    {
        self.plus(o.as_point())
    }
}

} // verus!
