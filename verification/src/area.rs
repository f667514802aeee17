//! Axis-aligned rectangles with inclusive integer bounds.

use vstd::prelude::*;

use crate::display;
use crate::random::{spec_advance, spec_in_range, FixedDraws, RandomSource};
use crate::vector::Vector;

verus! {

/// The coordinate bound inside which all grid geometry lives; keeping
/// coordinates this small lets every derived quantity (dimensions, margins,
/// range ends) fit an `i32` without overflow.
pub const COORD_BOUND: i32 = 0x4000_0000;

/// An axis-aligned rectangle given by its two corners, bounds inclusive.
#[derive(Clone, Copy, PartialEq, Eq, Structural, Debug)]
pub struct Area {
    pub min: Vector,
    pub max: Vector,
}

/// The rendering of an area: `[(x, y) - (x, y)]`.
pub open spec fn spec_area_string(a: Area) -> Seq<char> {
    seq!['['] + display::spec_point_string(a.min.x as int, a.min.y as int) + seq![' ', '-', ' ']
        + display::spec_point_string(a.max.x as int, a.max.y as int) + seq![']']
}

impl Area {
    /// Proper areas: the minimum corner lies at or before the maximum corner
    /// on both axes. Every area used in placement satisfies this.
    pub open spec fn wf(self) -> bool {
        self.min.x <= self.max.x && self.min.y <= self.max.y
    }

    /// All four coordinates lie strictly inside `[-COORD_BOUND, COORD_BOUND]`.
    pub open spec fn bounded(self) -> bool {
        -(COORD_BOUND as int) <= self.min.x <= COORD_BOUND && -(COORD_BOUND as int) <= self.max.x
            <= COORD_BOUND && -(COORD_BOUND as int) <= self.min.y <= COORD_BOUND && -(
        COORD_BOUND as int) <= self.max.y <= COORD_BOUND
    }

    /// Does the point lie inside the rectangle?
    pub open spec fn spec_contains(self, p: Vector) -> bool {
        self.min.x <= p.x <= self.max.x && self.min.y <= p.y <= self.max.y
    }

    /// Does `self` contain all of `other`?
    pub open spec fn spec_contains_area(self, other: Area) -> bool {
        self.min.x <= other.min.x && other.max.x <= self.max.x && self.min.y <= other.min.y
            && other.max.y <= self.max.y
    }

    /// Do the two rectangles share a point?
    pub open spec fn spec_overlaps(self, other: Area) -> bool {
        exists|p: Vector| self.spec_contains(p) && other.spec_contains(p)
    }

    /// What `enlarge` returns: both corners pushed outward by `n`.
    pub open spec fn spec_enlarge(self, n: int) -> Area {
        Area {
            min: Vector { x: (self.min.x - n) as i32, y: (self.min.y - n) as i32 },
            max: Vector { x: (self.max.x + n) as i32, y: (self.max.y + n) as i32 },
        }
    }

    pub fn new(min_x: i32, min_y: i32, max_x: i32, max_y: i32) -> (a: Area)
        ensures
            a == (Area { min: Vector { x: min_x, y: min_y }, max: Vector { x: max_x, y: max_y } }),
    {
        Area { min: Vector { x: min_x, y: min_y }, max: Vector { x: max_x, y: max_y } }
    }

    /// The extent per axis: `max - min + 1` on each.
    pub fn dimensions(&self) -> (v: Vector)
        requires
            self.wf(),
            self.max.x - self.min.x + 1 <= i32::MAX,
            self.max.y - self.min.y + 1 <= i32::MAX,
        ensures
            v.x == self.max.x - self.min.x + 1,
            v.y == self.max.y - self.min.y + 1,
    {
        Vector::new(self.max.x - self.min.x + 1, self.max.y - self.min.y + 1)
    }

    /// Both corners pushed outward by `size` (inward for a negative `size`).
    pub fn enlarge(&self, size: i32) -> (a: Area)
        requires
            i32::MIN <= self.min.x - size <= i32::MAX,
            i32::MIN <= self.min.y - size <= i32::MAX,
            i32::MIN <= self.max.x + size <= i32::MAX,
            i32::MIN <= self.max.y + size <= i32::MAX,
        ensures
            a.min.x == self.min.x - size,
            a.min.y == self.min.y - size,
            a.max.x == self.max.x + size,
            a.max.y == self.max.y + size,
    {
        Area::new(self.min.x - size, self.min.y - size, self.max.x + size, self.max.y + size)
    }

    /// The intersection of the two rectangles (improper if they are
    /// disjoint).
    pub fn crop(&self, other: &Area) -> (a: Area)
        ensures
            a.min.x == vstd::math::max(self.min.x as int, other.min.x as int),
            a.min.y == vstd::math::max(self.min.y as int, other.min.y as int),
            a.max.x == vstd::math::min(self.max.x as int, other.max.x as int),
            a.max.y == vstd::math::min(self.max.y as int, other.max.y as int),
            forall|p: Vector| a.spec_contains(p) == (self.spec_contains(p)
                && other.spec_contains(p)),
    {
        let min_x = if self.min.x >= other.min.x {
            self.min.x
        } else {
            other.min.x
        };
        let min_y = if self.min.y >= other.min.y {
            self.min.y
        } else {
            other.min.y
        };
        let max_x = if self.max.x <= other.max.x {
            self.max.x
        } else {
            other.max.x
        };
        let max_y = if self.max.y <= other.max.y {
            self.max.y
        } else {
            other.max.y
        };
        Area::new(min_x, min_y, max_x, max_y)
    }

    pub fn contains(&self, pos: &Vector) -> (r: bool)
        ensures
            r == self.spec_contains(*pos),
    {
        pos.x >= self.min.x && pos.x <= self.max.x && pos.y >= self.min.y && pos.y <= self.max.y
    }

    /// A uniformly random sub-rectangle whose width and height lie within
    /// `[min_size, max_size]`, clamped to stay inside `self`.
    ///
    /// Four range draws are consumed, in the order min x, min y, max x,
    /// max y; under a fixed source the result is exactly
    /// [`spec_subarea`] of the replayed state.
    pub fn random_subarea(&self, src: &mut RandomSource, min_size: &Vector, max_size: &Vector) -> (a:
        Area)
        requires
            self.wf(),
            self.bounded(),
            1 <= min_size.x <= max_size.x,
            1 <= min_size.y <= max_size.y,
            min_size.x <= self.max.x - self.min.x + 1,
            min_size.y <= self.max.y - self.min.y + 1,
            max_size.x <= COORD_BOUND,
            max_size.y <= COORD_BOUND,
        ensures
            a.wf(),
            self.spec_contains_area(a),
            min_size.x <= a.max.x - a.min.x + 1 <= max_size.x,
            min_size.y <= a.max.y - a.min.y + 1 <= max_size.y,
            old(src).is_fixed() ==> {
                &&& a == spec_subarea(old(src).fixed(), *self, *min_size, *max_size)
                &&& final(src).is_fixed()
                &&& final(src).fixed() == spec_advance(
                    spec_advance(spec_advance(spec_advance(old(src).fixed()))),
                )
            },
            !old(src).is_fixed() ==> !final(src).is_fixed(),
    {
        let min_x = src.next_in_range(self.min.x, self.max.x - min_size.x + 2);
        let min_y = src.next_in_range(self.min.y, self.max.y - min_size.y + 2);
        let hi_x = if self.max.x <= min_x + (max_size.x - 1) {
            self.max.x
        } else {
            min_x + (max_size.x - 1)
        };
        let max_x = src.next_in_range(min_x + min_size.x - 1, hi_x + 1);
        let hi_y = if self.max.y <= min_y + (max_size.y - 1) {
            self.max.y
        } else {
            min_y + (max_size.y - 1)
        };
        let max_y = src.next_in_range(min_y + min_size.y - 1, hi_y + 1);
        Area { min: Vector { x: min_x, y: min_y }, max: Vector { x: max_x, y: max_y } }
    }

    /// Render as `[(x, y) - (x, y)]`.
    pub fn to_string(&self) -> (s: String)
        ensures
            s@ == spec_area_string(*self),
    {
        let mut out: Vec<char> = Vec::new();
        out.push('[');
        out.push('(');
        display::push_decimal_signed(&mut out, self.min.x);
        out.push(',');
        out.push(' ');
        display::push_decimal_signed(&mut out, self.min.y);
        out.push(')');
        out.push(' ');
        out.push('-');
        out.push(' ');
        out.push('(');
        display::push_decimal_signed(&mut out, self.max.x);
        out.push(',');
        out.push(' ');
        display::push_decimal_signed(&mut out, self.max.y);
        out.push(')');
        out.push(']');
        proof {
            assert(out@ =~= spec_area_string(*self));
        }
        display::chars_to_string(&out)
    }
}

/// The sub-rectangle `random_subarea` yields under a fixed source in state
/// `d`: four chained range draws, for min x, min y, max x and max y.
pub open spec fn spec_subarea(d: FixedDraws, area: Area, min_size: Vector, max_size: Vector) -> Area {
    let d0 = d;
    let min_x = spec_in_range(d0, area.min.x as int, area.max.x - min_size.x + 2);
    let d1 = spec_advance(d0);
    let min_y = spec_in_range(d1, area.min.y as int, area.max.y - min_size.y + 2);
    let d2 = spec_advance(d1);
    let hi_x = vstd::math::min(area.max.x as int, min_x + (max_size.x - 1));
    let max_x = spec_in_range(d2, min_x + min_size.x - 1, hi_x + 1);
    let d3 = spec_advance(d2);
    let hi_y = vstd::math::min(area.max.y as int, min_y + (max_size.y - 1));
    let max_y = spec_in_range(d3, min_y + min_size.y - 1, hi_y + 1);
    Area {
        min: Vector { x: min_x as i32, y: min_y as i32 },
        max: Vector { x: max_x as i32, y: max_y as i32 },
    }
}

} // verus!
