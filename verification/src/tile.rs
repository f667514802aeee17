//! The per-cell state of the grid.

use vstd::prelude::*;

use crate::direction::DirectionSet;

verus! {

/// What one grid cell holds.
///
/// A cell's tile never silently loses information: carving never overwrites
/// a `Room` cell, and carving into an `Unassigned` or `Tunnel` cell only
/// adds direction bits, never removes them.
#[derive(Clone, Copy, PartialEq, Eq, Structural, Debug)]
pub enum Tile {
    /// Empty, not yet part of any structure.
    Unassigned,
    /// Part of the room with this id; ids are assigned in placement order
    /// starting at 0.
    Room(usize),
    /// A corridor cell; the set records which of the four cardinal neighbors
    /// it connects to.
    Tunnel(DirectionSet),
}

impl Tile {
    /// The display character for a room id: its digit for ids up to 9, `X`
    /// beyond.
    pub open spec fn spec_room_char(id: int) -> char {
        if id == 0 {
            '0'
        } else if id == 1 {
            '1'
        } else if id == 2 {
            '2'
        } else if id == 3 {
            '3'
        } else if id == 4 {
            '4'
        } else if id == 5 {
            '5'
        } else if id == 6 {
            '6'
        } else if id == 7 {
            '7'
        } else if id == 8 {
            '8'
        } else if id == 9 {
            '9'
        } else {
            'X'
        }
    }

    /// The display character for this tile: `?` for an unassigned cell, the
    /// room id's digit (or `X`) for a room cell, the direction set's glyph
    /// for a corridor cell.
    pub open spec fn spec_to_char(self) -> char {
        match self {
            Tile::Unassigned => '?',
            Tile::Room(id) => Tile::spec_room_char(id as int),
            Tile::Tunnel(dirs) => dirs.spec_glyph(),
        }
    }

    pub fn to_char(self) -> (c: char)
        ensures
            c == self.spec_to_char(),
    {
        match self {
            Tile::Unassigned => '?',
            Tile::Room(id) => match id {
                0 => '0',
                1 => '1',
                2 => '2',
                3 => '3',
                4 => '4',
                5 => '5',
                6 => '6',
                7 => '7',
                8 => '8',
                9 => '9',
                _ => 'X',
            },
            Tile::Tunnel(dirs) => dirs.to_char(),
        }
    }
}

} // verus!
