//! Integer points in the plane, used both as grid positions and as sizes.

use vstd::prelude::*;

use crate::display;

verus! {

/// An immutable integer 2-D point; a value with no identity beyond its
/// components.
#[derive(Clone, Copy, PartialEq, Eq, Structural, Debug)]
pub struct Vector {
    pub x: i32,
    pub y: i32,
}

impl Vector {
    pub fn new(x: i32, y: i32) -> (v: Vector)
        ensures
            v == (Vector { x, y }),
    {
        Vector { x, y }
    }

    /// Render as `(x, y)`.
    pub fn to_string(&self) -> (s: String)
        ensures
            s@ == display::spec_point_string(self.x as int, self.y as int),
    {
        display::point_string(self.x, self.y)
    }

    /// Componentwise sum, producing a new point.
    pub fn add(self, other: Vector) -> (v: Vector)
        requires
            i32::MIN <= self.x + other.x <= i32::MAX,
            i32::MIN <= self.y + other.y <= i32::MAX,
        ensures
            v.x == self.x + other.x,
            v.y == self.y + other.y,
    {
        Vector { x: self.x + other.x, y: self.y + other.y }
    }

    /// Componentwise difference, producing a new point.
    pub fn sub(self, other: Vector) -> (v: Vector)
        requires
            i32::MIN <= self.x - other.x <= i32::MAX,
            i32::MIN <= self.y - other.y <= i32::MAX,
        ensures
            v.x == self.x - other.x,
            v.y == self.y - other.y,
    {
        Vector { x: self.x - other.x, y: self.y - other.y }
    }
}

} // verus!
