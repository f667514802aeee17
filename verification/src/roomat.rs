//! Room layout parameters: the constraints a room is asked to satisfy,
//! kept apart from the placed geometry.

use vstd::prelude::*;

verus! {

/// The size constraints of a room to be placed: a smallest acceptable
/// area and a smallest acceptable side length.
#[derive(Clone, Copy, PartialEq, Eq, Structural, Debug)]
pub struct Room {
    min_area: i32,
    min_side_length: i32,
}

impl Room {
    /// The smallest acceptable area.
    pub closed spec fn spec_min_area(self) -> i32 {
        self.min_area
    }

    /// The smallest acceptable side length.
    pub closed spec fn spec_min_side_length(self) -> i32 {
        self.min_side_length
    }

    pub fn new(min_area: i32, min_side_length: i32) -> (r: Room)
        ensures
            r.spec_min_area() == min_area,
            r.spec_min_side_length() == min_side_length,
    {
        Room { min_area, min_side_length }
    }
}

/// A fixed greeting.
pub fn too_strong() -> (s: String)
    ensures
        s@ == "Hi!"@,
{
    String::from_str("Hi!")
}

} // verus!
