//! A procedural dungeon generator: non-overlapping rectangular rooms are
//! placed on a fixed-size grid, and a connected network of corridors is
//! then carved through the unassigned cells, linking the rooms together.
//!
//! The pipeline is `Labyrinth::new` (a fully unassigned grid), then
//! `place_rooms`, then `carve_tunnels`; [`generate`] runs all three from a
//! [`Config`]. The finished grid and the per-room connectivity flags are
//! read-only afterwards; rendering maps each tile to one display character.

pub mod area;
pub mod carver;
pub mod coord;
pub mod direction;
pub mod display;
pub mod labyrinth;
pub mod random;
pub mod roomat;
pub mod tile;
pub mod vector;
pub mod world;

use vstd::prelude::*;

use crate::area::{Area, COORD_BOUND};
use crate::carver::{closed_from, rooms_ok, spec_symmetric};
use crate::direction::Direction;
use crate::labyrinth::{spec_place_rooms, GenError, Labyrinth};
use crate::random::RandomSource;
use crate::tile::Tile;
use crate::vector::Vector;

verus! {

/// The immutable configuration of one generation run: every tunable of the
/// pipeline is a runtime input, not a compile-time constant.
#[derive(Clone, Copy, PartialEq, Eq, Structural, Debug)]
pub struct Config {
    /// Grid width, a positive number of cells.
    pub width: usize,
    /// Grid height, a positive number of cells.
    pub height: usize,
    /// How many room placements are attempted; fewer rooms may be placed.
    pub room_count: usize,
    /// Smallest allowed room extent per axis.
    pub min_size: Vector,
    /// Largest allowed room extent per axis.
    pub max_size: Vector,
    /// Where carving begins: a cell at the edge of the grid.
    pub start: Vector,
    /// The direction in which the start cell is entered from outside.
    pub start_dir: Direction,
}

impl Config {
    /// Grid dimensions that are positive and small enough for every
    /// derived coordinate and the cell buffer size to fit their types.
    pub open spec fn dims_ok(self) -> bool {
        &&& 1 <= (self.width as int) <= COORD_BOUND
        &&& 1 <= (self.height as int) <= COORD_BOUND
        &&& self.width * self.height <= usize::MAX
    }

    /// Sane room size bounds: positive minima, minima at most the maxima,
    /// maxima at most the grid's dimensions.
    pub open spec fn sizes_ok(self) -> bool {
        &&& 1 <= self.min_size.x && self.min_size.x <= self.max_size.x && self.max_size.x as int
            <= self.width as int
        &&& 1 <= self.min_size.y && self.min_size.y <= self.max_size.y && self.max_size.y as int
            <= self.height as int
    }

    /// A start cell inside the grid and a real entry direction.
    pub open spec fn start_ok(self) -> bool {
        &&& 0 <= self.start.x < self.width
        &&& 0 <= self.start.y < self.height
        &&& self.start_dir != Direction::Stay
    }
}

/// Run the whole generation pipeline: create the grid, place up to
/// `room_count` rooms, and carve the corridor network from the start cell.
///
/// A malformed configuration is rejected with `InvalidConfiguration`
/// before any random draw. On success the grid, the room rectangles
/// (indexed by room id) and the per-room connectivity flags are returned.
/// When a placed room happens to swallow the start cell, no corridor can
/// begin there: the grid is returned with its rooms and no carving.
pub fn generate(config: &Config, src: &mut RandomSource) -> (result: Result<
    (Labyrinth, Vec<Area>, Vec<bool>),
    GenError,
>)
    ensures
        match result {
            Result::Err(e) => {
                &&& e == GenError::InvalidConfiguration
                &&& !(config.dims_ok() && config.sizes_ok() && config.start_ok())
            },
            Result::Ok(out) => {
                let (lab, rooms, connected) = out;
                &&& config.dims_ok() && config.sizes_ok() && config.start_ok()
                &&& lab.wf()
                &&& lab.width == config.width
                &&& lab.height == config.height
                &&& rooms@.len() <= config.room_count
                &&& connected@.len() == rooms@.len()
                &&& lab.rooms_wf(rooms@, config.min_size, config.max_size)
                &&& rooms_ok(lab, connected@)
                &&& spec_symmetric(lab)
                &&& lab.in_bounds(config.start)
                &&& ((lab.spec_tile(config.start) matches Tile::Tunnel(_)) || ((lab.spec_tile(
                    config.start,
                ) matches Tile::Room(_)) && lab.no_tunnels() && forall|i: int|
                    0 <= i < connected@.len() ==> !connected@[i]))
                &&& ((lab.spec_tile(config.start) matches Tile::Tunnel(_)) ==> closed_from(
                    lab,
                    connected@,
                    config.start,
                    config.start_dir,
                ))
                &&& (!old(src).is_fixed() ==> !final(src).is_fixed())
                &&& (old(src).is_fixed() ==> rooms@ == spec_place_rooms(
                    Seq::new((config.width * config.height) as nat, |i: int| Tile::Unassigned),
                    Seq::<Area>::empty(),
                    config.width as int,
                    config.height as int,
                    old(src).fixed(),
                    config.room_count as int,
                    config.min_size,
                    config.max_size,
                ).1)
            },
        },
{
    // Reject a malformed configuration before any draw is attempted.
    if !(config.width >= 1 && config.width <= (COORD_BOUND as usize) && config.height >= 1
        && config.height <= (COORD_BOUND as usize)) {
        return Result::Err(GenError::InvalidConfiguration);
    }
    if config.height > usize::MAX / config.width {
        proof {
            assert(config.width * config.height > usize::MAX) by (nonlinear_arith)
                requires
                    config.width >= 1,
                    config.height > usize::MAX as int / config.width as int,
            ;
        }
        return Result::Err(GenError::InvalidConfiguration);
    }
    proof {
        assert(config.width * config.height <= usize::MAX) by (nonlinear_arith)
            requires
                config.width >= 1,
                config.height <= usize::MAX as int / config.width as int,
        ;
    }
    if !(config.start.x >= 0 && (config.start.x as i64) < (config.width as i64) && config.start.y
        >= 0 && (config.start.y as i64) < (config.height as i64)) {
        return Result::Err(GenError::InvalidConfiguration);
    }
    let stay = match config.start_dir {
        Direction::Stay => true,
        _ => false,
    };
    if stay {
        return Result::Err(GenError::InvalidConfiguration);
    }
    let mut lab = Labyrinth::new(config.width, config.height);
    proof {
        assert forall|i: int| 0 <= i < lab.cells@.len() implies lab.cells@[i]
            == Tile::Unassigned by {
            lab.lemma_cell_of(i);
            assert(lab.spec_tile(crate::labyrinth::spec_cell_of(i, lab.width as int))
                == Tile::Unassigned);
        }
        assert(lab.cells@ =~= Seq::new(
            (config.width * config.height) as nat,
            |i: int| Tile::Unassigned,
        ));
    }
    let rooms = match lab.place_rooms(src, config.room_count, &config.min_size, &config.max_size) {
        Result::Ok(r) => r,
        Result::Err(e) => {
            return Result::Err(e);
        },
    };
    let mut connected: Vec<bool> = vec![false; rooms.len()];
    proof {
        assert(rooms_ok(lab, connected@));
    }
    let ghost mid = lab;
    let t = lab.get(config.start);
    let carve = match t {
        Tile::Unassigned => true,
        _ => false,
    };
    if carve {
        let _log = lab.carve_tunnels(src, &mut connected, config.start, config.start_dir);
        proof {
            // carving leaves every room cell exactly as placement made it,
            // so the placement guarantees still hold of the final grid
            assert forall|i: int, p: Vector|
                #![auto]
                0 <= i < rooms@.len() && rooms@[i].spec_contains(p) implies lab.in_bounds(p)
                && lab.spec_tile(p) == Tile::Room(i as usize) by {
                assert(mid.spec_tile(p) == Tile::Room(i as usize));
            }
            assert forall|p: Vector| lab.in_bounds(p) implies match lab.spec_tile(p) {
                Tile::Room(id) => id < rooms@.len() && rooms@[id as int].spec_contains(p),
                _ => true,
            } by {
                if lab.spec_tile(p) matches Tile::Room(_) {
                    assert(lab.spec_tile(p) == mid.spec_tile(p)) by {
                        match mid.spec_tile(p) {
                            Tile::Room(_) => {},
                            Tile::Unassigned => {},
                            Tile::Tunnel(_) => {},
                        }
                    }
                }
            }
            assert(lab.rooms_wf(rooms@, config.min_size, config.max_size));
        }
        Result::Ok((lab, rooms, connected))
    } else {
        proof {
            assert(lab.spec_tile(config.start) matches Tile::Room(_));
            assert forall|p2: Vector, d2: Direction|
                lab.in_bounds(p2) && #[trigger] crate::carver::tunnel_has(lab, p2, d2)
                    && lab.in_bounds(crate::carver::spec_step(p2, d2)) implies match lab.spec_tile(
                crate::carver::spec_step(p2, d2),
            ) {
                Tile::Tunnel(ds2) => ds2.spec_has(d2.spec_inverse()),
                Tile::Room(_) => true,
                Tile::Unassigned => false,
            } by {
                assert(!(lab.spec_tile(p2) matches Tile::Tunnel(_)));
            }
        }
        Result::Ok((lab, rooms, connected))
    }
}

} // verus!
