//! An unsigned grid coordinate pair.

use vstd::prelude::*;

use crate::display;

verus! {

/// An unsigned point, rendered the same way as a [`crate::vector::Vector`].
#[derive(Clone, Copy, PartialEq, Eq, Structural, Debug)]
pub struct Coord {
    pub x: u32,
    pub y: u32,
}

impl Coord {
    /// Render as `(x, y)`.
    pub fn to_string(self) -> (s: String)
        ensures
            s@ == display::spec_point_string(self.x as int, self.y as int),
    {
        let mut out: Vec<char> = Vec::new();
        out.push('(');
        display::push_decimal(&mut out, self.x);
        out.push(',');
        out.push(' ');
        display::push_decimal(&mut out, self.y);
        out.push(')');
        proof {
            assert(out@ =~= display::spec_point_string(self.x as int, self.y as int));
        }
        display::chars_to_string(&out)
    }
}

} // verus!
