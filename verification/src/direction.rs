//! The 4-way direction encoding shared by the tunnel carver and the
//! renderer: cardinal directions with their inverses and unit offsets, and a
//! bitmask over them recording which neighbors a corridor cell connects to.

use vstd::prelude::*;

use crate::vector::Vector;

verus! {

/// One of the four cardinal directions, or the sentinel `Stay`, which stands
/// for "no direction".
///
/// The x axis grows to the right, the y axis grows downward.
#[derive(Clone, Copy, PartialEq, Eq, Structural, Debug)]
pub enum Direction {
    Left,
    Right,
    Up,
    Down,
    Stay,
}

impl Direction {
    /// The opposite cardinal direction; the sentinel is its own opposite.
    pub open spec fn spec_inverse(self) -> Direction {
        match self {
            Direction::Left => Direction::Right,
            Direction::Right => Direction::Left,
            Direction::Up => Direction::Down,
            Direction::Down => Direction::Up,
            Direction::Stay => Direction::Stay,
        }
    }

    pub fn inverse(self) -> (d: Direction)
        ensures
            d == self.spec_inverse(),
    {
        match self {
            Direction::Left => Direction::Right,
            Direction::Right => Direction::Left,
            Direction::Up => Direction::Down,
            Direction::Down => Direction::Up,
            Direction::Stay => Direction::Stay,
        }
    }

    /// The offset of one step in this direction; the sentinel does not move.
    pub open spec fn spec_unit_vector(self) -> Vector {
        match self {
            Direction::Left => Vector { x: -1i32, y: 0 },
            Direction::Right => Vector { x: 1, y: 0 },
            Direction::Up => Vector { x: 0, y: -1i32 },
            Direction::Down => Vector { x: 0, y: 1 },
            Direction::Stay => Vector { x: 0, y: 0 },
        }
    }

    pub fn to_unit_vector(self) -> (v: Vector)
        ensures
            v == self.spec_unit_vector(),
    {
        match self {
            Direction::Left => Vector { x: -1i32, y: 0 },
            Direction::Right => Vector { x: 1, y: 0 },
            Direction::Up => Vector { x: 0, y: -1i32 },
            Direction::Down => Vector { x: 0, y: 1 },
            Direction::Stay => Vector { x: 0, y: 0 },
        }
    }
}

/// Which bit of a [`DirectionSet`] stands for direction `d`: left is 1,
/// right is 2, up is 4, down is 8. The sentinel has no bit.
pub open spec fn dir_bit(d: Direction) -> u32 {
    match d {
        Direction::Left => 1u32,
        Direction::Right => 2u32,
        Direction::Up => 4u32,
        Direction::Down => 8u32,
        Direction::Stay => 0u32,
    }
}

/// A set of cardinal directions, packed as a bitmask over the four low bits.
///
/// A corridor cell carries one of these to record which of its neighbors it
/// connects to; the value, read as a number between 0 and 15, also selects
/// the box-drawing glyph the renderer shows for the cell.
#[derive(Clone, Copy, PartialEq, Eq, Structural, Debug)]
pub struct DirectionSet(pub u32);

impl DirectionSet {
    /// Membership: is direction `d` in the set? The sentinel never is.
    pub open spec fn spec_has(self, d: Direction) -> bool {
        self.0 & dir_bit(d) != 0
    }

    /// The set with direction `d` added (insertion is idempotent).
    pub open spec fn spec_with(self, d: Direction) -> DirectionSet {
        DirectionSet(self.0 | dir_bit(d))
    }

    /// All four bitmasks stay below 16.
    pub open spec fn spec_in_range(self) -> bool {
        self.0 < 16
    }

    /// The empty set.
    pub fn new() -> (s: DirectionSet)
        ensures
            s.0 == 0,
            forall|d: Direction| !s.spec_has(d),
            s.spec_in_range(),
    {
        proof {
            assert(0u32 & 1 == 0 && 0u32 & 2 == 0 && 0u32 & 4 == 0 && 0u32 & 8 == 0 && 0u32 & 0
                == 0) by (bit_vector);
        }
        DirectionSet(0)
    }

    /// Add direction `d` to the set; every other membership is unchanged.
    pub fn set_dir(self, d: Direction) -> (s: DirectionSet)
        ensures
            s == self.spec_with(d),
            d != Direction::Stay ==> s.spec_has(d),
            forall|d2: Direction|
                s.spec_has(d2) == (self.spec_has(d2) || (d2 == d && d != Direction::Stay)),
            self.spec_in_range() ==> s.spec_in_range(),
    {
        proof {
            lemma_with_has(self, d);
        }
        DirectionSet(self.0 | dir_bit_exec(d))
    }

    /// Membership test for direction `d`.
    pub fn has_dir(self, d: Direction) -> (r: bool)
        ensures
            r == self.spec_has(d),
    {
        let b = dir_bit_exec(d);
        self.0 & b != 0
    }

    /// Add the left direction.
    pub fn set_left(self) -> (s: DirectionSet)
        ensures
            s == self.spec_with(Direction::Left),
    {
        self.set_dir(Direction::Left)
    }

    /// Is the left direction in the set?
    pub fn left(self) -> (r: bool)
        ensures
            r == self.spec_has(Direction::Left),
    {
        self.has_dir(Direction::Left)
    }

    /// Add the right direction.
    pub fn set_right(self) -> (s: DirectionSet)
        ensures
            s == self.spec_with(Direction::Right),
    {
        self.set_dir(Direction::Right)
    }

    /// Is the right direction in the set?
    pub fn right(self) -> (r: bool)
        ensures
            r == self.spec_has(Direction::Right),
    {
        self.has_dir(Direction::Right)
    }

    /// Add the upward direction.
    pub fn set_up(self) -> (s: DirectionSet)
        ensures
            s == self.spec_with(Direction::Up),
    {
        self.set_dir(Direction::Up)
    }

    /// Is the upward direction in the set?
    pub fn up(self) -> (r: bool)
        ensures
            r == self.spec_has(Direction::Up),
    {
        self.has_dir(Direction::Up)
    }

    /// Add the downward direction.
    pub fn set_down(self) -> (s: DirectionSet)
        ensures
            s == self.spec_with(Direction::Down),
    {
        self.set_dir(Direction::Down)
    }

    /// Is the downward direction in the set?
    pub fn down(self) -> (r: bool)
        ensures
            r == self.spec_has(Direction::Down),
    {
        self.has_dir(Direction::Down)
    }

    /// The directions of the set, enumerated in the fixed order left, right,
    /// up, down.
    pub fn directions(self) -> (v: Vec<Direction>)
        ensures
            v@ == self.spec_directions(),
    {
        let mut v: Vec<Direction> = Vec::new();
        if self.left() {
            v.push(Direction::Left);
        }
        if self.right() {
            v.push(Direction::Right);
        }
        if self.up() {
            v.push(Direction::Up);
        }
        if self.down() {
            v.push(Direction::Down);
        }
        proof {
            assert(v@ =~= self.spec_directions());
        }
        v
    }

    /// The enumeration `directions` returns: the set's members in the order
    /// left, right, up, down.
    pub open spec fn spec_directions(self) -> Seq<Direction> {
        let l = if self.spec_has(Direction::Left) {
            seq![Direction::Left]
        } else {
            Seq::empty()
        };
        let r = if self.spec_has(Direction::Right) {
            seq![Direction::Right]
        } else {
            Seq::empty()
        };
        let u = if self.spec_has(Direction::Up) {
            seq![Direction::Up]
        } else {
            Seq::empty()
        };
        let d = if self.spec_has(Direction::Down) {
            seq![Direction::Down]
        } else {
            Seq::empty()
        };
        l + r + u + d
    }

    /// The glyph the renderer shows for this set, selected by the bitmask
    /// read as a number: a box-drawing character for each way the cell can
    /// connect, an arrow for a dead end, a blank for the empty set.
    pub open spec fn spec_glyph(self) -> char {
        if self.0 == 0 {
            ' '
        } else if self.0 == 1 {
            '←'
        } else if self.0 == 2 {
            '→'
        } else if self.0 == 3 {
            '─'
        } else if self.0 == 4 {
            '↑'
        } else if self.0 == 5 {
            '┘'
        } else if self.0 == 6 {
            '└'
        } else if self.0 == 7 {
            '┴'
        } else if self.0 == 8 {
            '↓'
        } else if self.0 == 9 {
            '┐'
        } else if self.0 == 10 {
            '┌'
        } else if self.0 == 11 {
            '┬'
        } else if self.0 == 12 {
            '│'
        } else if self.0 == 13 {
            '┤'
        } else if self.0 == 14 {
            '├'
        } else if self.0 == 15 {
            '┼'
        } else {
            '?'
        }
    }

    pub fn to_char(self) -> (c: char)
        ensures
            c == self.spec_glyph(),
    {
        match self.0 {
            0 => ' ',
            1 => '←',
            2 => '→',
            3 => '─',
            4 => '↑',
            5 => '┘',
            6 => '└',
            7 => '┴',
            8 => '↓',
            9 => '┐',
            10 => '┌',
            11 => '┬',
            12 => '│',
            13 => '┤',
            14 => '├',
            15 => '┼',
            _ => '?',
        }
    }
}

/// The executable counterpart of [`dir_bit`].
fn dir_bit_exec(d: Direction) -> (b: u32)
    ensures
        b == dir_bit(d),
{
    match d {
        Direction::Left => 1,
        Direction::Right => 2,
        Direction::Up => 4,
        Direction::Down => 8,
        Direction::Stay => 0,
    }
}

/// Adding direction `d` to a set adds exactly `d`'s bit: `d` itself becomes
/// a member (unless it is the sentinel), every other membership is
/// unchanged, and the mask stays below 16.
pub proof fn lemma_with_has(s: DirectionSet, d: Direction)
    ensures
        d != Direction::Stay ==> s.spec_with(d).spec_has(d),
        forall|d2: Direction|
            s.spec_with(d).spec_has(d2) == (s.spec_has(d2) || (d2 == d && d != Direction::Stay)),
        s.spec_in_range() ==> s.spec_with(d).spec_in_range(),
{
    let x = s.0;
    assert(((x | 1) & 1 != 0) && ((x | 1) & 2 != 0 == (x & 2 != 0)) && ((x | 1) & 4 != 0 == (x & 4
        != 0)) && ((x | 1) & 8 != 0 == (x & 8 != 0)) && ((x | 1) & 0 != 0 == (x & 0 != 0)) && (x
        < 16 ==> (x | 1) < 16)) by (bit_vector);
    assert(((x | 2) & 2 != 0) && ((x | 2) & 1 != 0 == (x & 1 != 0)) && ((x | 2) & 4 != 0 == (x & 4
        != 0)) && ((x | 2) & 8 != 0 == (x & 8 != 0)) && ((x | 2) & 0 != 0 == (x & 0 != 0)) && (x
        < 16 ==> (x | 2) < 16)) by (bit_vector);
    assert(((x | 4) & 4 != 0) && ((x | 4) & 1 != 0 == (x & 1 != 0)) && ((x | 4) & 2 != 0 == (x & 2
        != 0)) && ((x | 4) & 8 != 0 == (x & 8 != 0)) && ((x | 4) & 0 != 0 == (x & 0 != 0)) && (x
        < 16 ==> (x | 4) < 16)) by (bit_vector);
    assert(((x | 8) & 8 != 0) && ((x | 8) & 1 != 0 == (x & 1 != 0)) && ((x | 8) & 2 != 0 == (x & 2
        != 0)) && ((x | 8) & 4 != 0 == (x & 4 != 0)) && ((x | 8) & 0 != 0 == (x & 0 != 0)) && (x
        < 16 ==> (x | 8) < 16)) by (bit_vector);
    assert(((x | 0) & 1 != 0 == (x & 1 != 0)) && ((x | 0) & 2 != 0 == (x & 2 != 0)) && ((x | 0) & 4
        != 0 == (x & 4 != 0)) && ((x | 0) & 8 != 0 == (x & 8 != 0)) && ((x | 0) & 0 != 0 == (x & 0
        != 0)) && (x < 16 ==> (x | 0) < 16)) by (bit_vector);
}

} // verus!
