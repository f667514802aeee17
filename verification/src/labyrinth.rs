//! The grid: a fixed-size field of tiles, with room placement on top of it.

use vstd::prelude::*;

use crate::area::{spec_subarea, Area, COORD_BOUND};
use crate::display;
use crate::random::{spec_advance, FixedDraws, RandomSource};
use crate::tile::Tile;
use crate::vector::Vector;

verus! {

/// The cell a row-major buffer offset names, for a grid `w` cells wide.
pub open spec fn spec_cell_of(i: int, w: int) -> Vector {
    Vector { x: (i % w) as i32, y: (i / w) as i32 }
}

/// Is every cell of `area` unassigned in the buffer?
pub open spec fn spec_area_clear(cells: Seq<Tile>, w: int, area: Area) -> bool {
    forall|p: Vector| area.spec_contains(p) ==> cells[p.y * w + p.x] == Tile::Unassigned
}

/// The buffer after filling `area` with the room tagged `id`.
pub open spec fn spec_fill_room(cells: Seq<Tile>, w: int, area: Area, id: int) -> Seq<Tile> {
    Seq::new(
        cells.len(),
        |i: int|
            if area.spec_contains(spec_cell_of(i, w)) {
                Tile::Room(id as usize)
            } else {
                cells[i]
            },
    )
}

/// A candidate room's margin, clipped to the grid: the candidate enlarged
/// by one cell, cropped to the grid's bounds.
pub open spec fn spec_clipped_margin(cand: Area, grid: Area) -> Area {
    Area {
        min: Vector {
            x: vstd::math::max(cand.min.x - 1, grid.min.x as int) as i32,
            y: vstd::math::max(cand.min.y - 1, grid.min.y as int) as i32,
        },
        max: Vector {
            x: vstd::math::min(cand.max.x + 1, grid.max.x as int) as i32,
            y: vstd::math::min(cand.max.y + 1, grid.max.y as int) as i32,
        },
    }
}

/// One placement attempt under a fixed draw state: the candidate is drawn
/// (four draws), its clipped margin is tested for being clear, and it is
/// kept or silently discarded.
pub open spec fn spec_place_attempt(
    cells: Seq<Tile>,
    rooms: Seq<Area>,
    w: int,
    h: int,
    d: FixedDraws,
    min_size: Vector,
    max_size: Vector,
) -> (Seq<Tile>, Seq<Area>, FixedDraws) {
    let grid = Area {
        min: Vector { x: 0, y: 0 },
        max: Vector { x: (w - 1) as i32, y: (h - 1) as i32 },
    };
    let cand = spec_subarea(d, grid, min_size, max_size);
    let d4 = spec_advance(spec_advance(spec_advance(spec_advance(d))));
    if spec_area_clear(cells, w, spec_clipped_margin(cand, grid)) {
        (spec_fill_room(cells, w, cand, rooms.len() as int), rooms.push(cand), d4)
    } else {
        (cells, rooms, d4)
    }
}

/// The grid buffer, room list and draw state after `n` placement attempts
/// under a fixed draw state: room placement is a function of the draw
/// sequence alone.
pub open spec fn spec_place_rooms(
    cells: Seq<Tile>,
    rooms: Seq<Area>,
    w: int,
    h: int,
    d: FixedDraws,
    n: int,
    min_size: Vector,
    max_size: Vector,
) -> (Seq<Tile>, Seq<Area>, FixedDraws)
    decreases n,
{
    if n <= 0 {
        (cells, rooms, d)
    } else {
        let s = spec_place_attempt(cells, rooms, w, h, d, min_size, max_size);
        spec_place_rooms(s.0, s.1, w, h, s.2, n - 1, min_size, max_size)
    }
}

/// More than one cell of space lies between the two rectangles on some
/// axis: the mandatory 1-cell margin around each placed room.
pub open spec fn separated(a: Area, b: Area) -> bool {
    a.max.x + 1 < b.min.x || b.max.x + 1 < a.min.x || a.max.y + 1 < b.min.y || b.max.y + 1
        < a.min.y
}

/// Pairwise margin between all rooms of the list.
pub open spec fn rooms_separated(rooms: Seq<Area>) -> bool {
    forall|i: int, j: int|
        0 <= i < rooms.len() && 0 <= j < rooms.len() && i != j ==> separated(
            #[trigger] rooms[i],
            #[trigger] rooms[j],
        )
}

/// The margin law: for any two rooms of a separated list, the 1-cell
/// enlargement of either room shares no point with the other room, in
/// either order — every placed room keeps at least one cell of space to
/// every other.
pub proof fn lemma_room_margins(rooms: Seq<Area>, i: int, j: int)
    requires
        rooms_separated(rooms),
        0 <= i < rooms.len(),
        0 <= j < rooms.len(),
        i != j,
        rooms[i].bounded(),
        rooms[j].bounded(),
    ensures
        !rooms[i].spec_enlarge(1).spec_overlaps(rooms[j]),
        !rooms[j].spec_enlarge(1).spec_overlaps(rooms[i]),
{
    let a = rooms[i];
    let b = rooms[j];
    assert(separated(a, b));
    if a.spec_enlarge(1).spec_overlaps(b) {
        let p = choose|p: Vector| a.spec_enlarge(1).spec_contains(p) && b.spec_contains(p);
        assert(a.min.x - 1 <= p.x <= a.max.x + 1 && a.min.y - 1 <= p.y <= a.max.y + 1);
        assert(false);
    }
    if b.spec_enlarge(1).spec_overlaps(a) {
        let p = choose|p: Vector| b.spec_enlarge(1).spec_contains(p) && a.spec_contains(p);
        assert(b.min.x - 1 <= p.x <= b.max.x + 1 && b.min.y - 1 <= p.y <= b.max.y + 1);
        assert(false);
    }
}

/// The error a generation call surfaces: the configuration was rejected
/// before any random draw was attempted, and no partial grid is returned.
#[derive(Clone, Copy, PartialEq, Eq, Structural, Debug)]
pub enum GenError {
    /// Malformed size bounds: a minimum size that is not positive, a
    /// minimum that exceeds the maximum, or a maximum that exceeds the
    /// grid's own dimensions.
    InvalidConfiguration,
}

/// A fixed `width x height` field of tiles, stored as one dense row-major
/// buffer; created fully unassigned, mutated by room placement and tunnel
/// carving, and read-only afterwards.
pub struct Labyrinth {
    pub width: usize,
    pub height: usize,
    pub cells: Vec<Tile>,
}

impl Labyrinth {
    /// Well-formed grids: positive dimensions small enough for all derived
    /// coordinates to fit an `i32`, and a cell buffer of exactly
    /// `width * height` tiles.
    pub open spec fn wf(self) -> bool {
        &&& 1 <= (self.width as int) <= COORD_BOUND
        &&& 1 <= (self.height as int) <= COORD_BOUND
        &&& self.cells.len() == self.width * self.height
    }

    /// Does the point name a cell of the grid?
    pub open spec fn in_bounds(self, p: Vector) -> bool {
        0 <= p.x < self.width && 0 <= p.y < self.height
    }

    /// The buffer offset of a cell: row-major order.
    pub open spec fn spec_index(self, p: Vector) -> int {
        p.y * self.width + p.x
    }

    /// The tile at a cell.
    pub open spec fn spec_tile(self, p: Vector) -> Tile {
        self.cells[self.spec_index(p)]
    }

    /// No cell of the grid is assigned yet.
    pub open spec fn all_unassigned(self) -> bool {
        forall|p: Vector| self.in_bounds(p) ==> self.spec_tile(p) == Tile::Unassigned
    }

    /// The grid's bounding rectangle.
    pub open spec fn spec_area(self) -> Area {
        Area {
            min: Vector { x: 0, y: 0 },
            max: Vector { x: (self.width - 1) as i32, y: (self.height - 1) as i32 },
        }
    }

    /// A cell's buffer offset lies inside the buffer.
    pub proof fn lemma_index_in_range(self, p: Vector)
        requires
            self.wf(),
            self.in_bounds(p),
        ensures
            0 <= self.spec_index(p) < self.cells.len(),
    {
        assert(0 <= p.y * self.width + p.x < self.width * self.height) by (nonlinear_arith)
            requires
                0 <= p.x < self.width,
                0 <= p.y < self.height,
        ;
    }

    /// Distinct cells have distinct buffer offsets.
    pub proof fn lemma_index_injective(self, p: Vector, q: Vector)
        requires
            self.wf(),
            self.in_bounds(p),
            self.in_bounds(q),
            self.spec_index(p) == self.spec_index(q),
        ensures
            p == q,
    {
        assert(p.x == q.x && p.y == q.y) by (nonlinear_arith)
            requires
                0 <= p.x < self.width,
                0 <= p.y < self.height,
                0 <= q.x < self.width,
                0 <= q.y < self.height,
                p.y * self.width + p.x == q.y * self.width + q.x,
        ;
    }

    /// Buffer offsets and cells are inverse to one another.
    pub proof fn lemma_cell_of(self, i: int)
        requires
            self.wf(),
            0 <= i < self.cells@.len(),
        ensures
            self.in_bounds(spec_cell_of(i, self.width as int)),
            self.spec_index(spec_cell_of(i, self.width as int)) == i,
    {
        let w = self.width as int;
        let h = self.height as int;
        assert(0 <= i % w < w && 0 <= i / w < h && (i / w) * w + (i % w) == i) by (nonlinear_arith)
            requires
                w >= 1,
                h >= 1,
                0 <= i < w * h,
        ;
    }

    /// No corridor has been carved yet: every cell is unassigned or part of
    /// a room.
    pub open spec fn no_tunnels(self) -> bool {
        forall|p: Vector|
            self.in_bounds(p) ==> !(#[trigger] self.spec_tile(p) matches Tile::Tunnel(_))
    }

    /// Sane size bounds for room placement: positive minima, minima at most
    /// the maxima, maxima at most the grid's own dimensions.
    pub open spec fn valid_room_config(self, min_size: Vector, max_size: Vector) -> bool {
        &&& 1 <= min_size.x && min_size.x <= max_size.x && max_size.x as int <= self.width as int
        &&& 1 <= min_size.y && min_size.y <= max_size.y && max_size.y as int <= self.height as int
    }

    /// Each room rectangle is proper, lies inside the grid, and has its
    /// dimensions within the configured bounds.
    pub open spec fn rooms_geometry(self, rooms: Seq<Area>, min_size: Vector, max_size: Vector) -> bool {
        forall|i: int|
            #![auto]
            0 <= i < rooms.len() ==> rooms[i].wf() && self.spec_area().spec_contains_area(rooms[i])
                && min_size.x <= rooms[i].max.x - rooms[i].min.x + 1 <= max_size.x && min_size.y
                <= rooms[i].max.y - rooms[i].min.y + 1 <= max_size.y
    }

    /// Every cell of room `i` is tagged `Room(i)` on the grid.
    pub open spec fn room_cells_tagged(self, rooms: Seq<Area>) -> bool {
        forall|i: int, p: Vector|
            #![auto]
            0 <= i < rooms.len() && rooms[i].spec_contains(p) ==> self.in_bounds(p)
                && self.spec_tile(p) == Tile::Room(i as usize)
    }

    /// Every room tag on the grid points back into the room list: the tag
    /// is a valid id and the cell lies in that room's rectangle.
    pub open spec fn tags_are_rooms(self, rooms: Seq<Area>) -> bool {
        forall|p: Vector|
            self.in_bounds(p) ==> match #[trigger] self.spec_tile(p) {
                Tile::Room(id) => id < rooms.len() && rooms[id as int].spec_contains(p),
                _ => true,
            }
    }

    /// Everything room placement guarantees of the grid and its room list:
    /// sound geometry, cells and ids matching both ways (ids are exactly
    /// the list positions 0, 1, ... with no gaps or duplicates), and a
    /// margin between any two rooms.
    pub open spec fn rooms_wf(self, rooms: Seq<Area>, min_size: Vector, max_size: Vector) -> bool {
        &&& self.rooms_geometry(rooms, min_size, max_size)
        &&& self.room_cells_tagged(rooms)
        &&& self.tags_are_rooms(rooms)
        &&& rooms_separated(rooms)
    }

    /// A fresh grid, fully unassigned.
    pub fn new(width: usize, height: usize) -> (lab: Labyrinth)
        requires
            1 <= width as int <= COORD_BOUND,
            1 <= height as int <= COORD_BOUND,
            width * height <= usize::MAX,
        ensures
            lab.wf(),
            lab.width == width,
            lab.height == height,
            lab.all_unassigned(),
    {
        let cells = vec![Tile::Unassigned; width * height];
        let lab = Labyrinth { width, height, cells };
        proof {
            assert forall|p: Vector| lab.in_bounds(p) implies lab.spec_tile(p)
                == Tile::Unassigned by {
                lab.lemma_index_in_range(p);
            }
        }
        lab
    }

    /// The tile at cell `p`.
    pub fn get(&self, p: Vector) -> (t: Tile)
        requires
            self.wf(),
            self.in_bounds(p),
        ensures
            t == self.spec_tile(p),
    {
        proof {
            self.lemma_index_in_range(p);
        }
        let idx = (p.y as usize) * self.width + (p.x as usize);
        self.cells[idx]
    }

    /// Replace the tile at cell `p`, leaving every other cell as it was.
    pub fn set(&mut self, p: Vector, t: Tile)
        requires
            old(self).wf(),
            old(self).in_bounds(p),
        ensures
            final(self).wf(),
            final(self).width == old(self).width,
            final(self).height == old(self).height,
            final(self).spec_tile(p) == t,
            forall|q: Vector|
                old(self).in_bounds(q) && q != p ==> final(self).spec_tile(q) == old(self).spec_tile(
                    q,
                ),
            final(self).cells@ == old(self).cells@.update(old(self).spec_index(p), t),
    {
        let ghost pre = *self;
        proof {
            self.lemma_index_in_range(p);
        }
        let idx = (p.y as usize) * self.width + (p.x as usize);
        self.cells[idx] = t;
        proof {
            assert forall|q: Vector| pre.in_bounds(q) && q != p implies final(self).spec_tile(q)
                == pre.spec_tile(q) by {
                if pre.spec_index(q) == pre.spec_index(p) {
                    pre.lemma_index_injective(p, q);
                } else {
                    pre.lemma_index_in_range(q);
                }
            }
        }
    }

    /// Does the point name a cell of the grid?
    pub fn contains_cell(&self, p: Vector) -> (r: bool)
        requires
            self.wf(),
        ensures
            r == self.in_bounds(p),
    {
        p.x >= 0 && (p.x as i64) < (self.width as i64) && p.y >= 0 && (p.y as i64) < (
        self.height as i64)
    }

    /// The grid's bounding rectangle, from `(0, 0)` to
    /// `(width - 1, height - 1)`.
    pub fn area(&self) -> (a: Area)
        requires
            self.wf(),
        ensures
            a == self.spec_area(),
            a.wf(),
            a.bounded(),
    {
        Area::new(0, 0, (self.width - 1) as i32, (self.height - 1) as i32)
    }

    /// Is every cell of `area` (which must lie inside the grid) still
    /// unassigned?
    pub fn area_unassigned(&self, area: &Area) -> (r: bool)
        requires
            self.wf(),
            area.wf(),
            self.spec_area().spec_contains_area(*area),
        ensures
            r == forall|p: Vector| area.spec_contains(p) ==> self.spec_tile(p) == Tile::Unassigned,
    {
        let mut y = area.min.y;
        while y <= area.max.y
            invariant
                self.wf(),
                area.wf(),
                self.spec_area().spec_contains_area(*area),
                area.min.y <= y <= area.max.y + 1,
                forall|p: Vector|
                    area.spec_contains(p) && p.y < y ==> self.spec_tile(p) == Tile::Unassigned,
            decreases area.max.y + 1 - y,
        {
            let mut x = area.min.x;
            while x <= area.max.x
                invariant
                    self.wf(),
                    area.wf(),
                    self.spec_area().spec_contains_area(*area),
                    area.min.y <= y <= area.max.y,
                    area.min.x <= x <= area.max.x + 1,
                    forall|p: Vector|
                        area.spec_contains(p) && p.y < y ==> self.spec_tile(p) == Tile::Unassigned,
                    forall|p: Vector|
                        area.spec_contains(p) && p.y == y && p.x < x ==> self.spec_tile(p)
                            == Tile::Unassigned,
                decreases area.max.x + 1 - x,
            {
                let p = Vector { x, y };
                match self.get(p) {
                    Tile::Unassigned => {},
                    _ => {
                        return false;
                    },
                }
                x = x + 1;
            }
            y = y + 1;
        }
        true
    }

    /// Fill every cell of `area` (which must lie inside the grid) with
    /// `tile`, leaving the rest of the grid as it was.
    pub fn place(&mut self, tile: Tile, area: &Area)
        requires
            old(self).wf(),
            area.wf(),
            old(self).spec_area().spec_contains_area(*area),
        ensures
            final(self).wf(),
            final(self).width == old(self).width,
            final(self).height == old(self).height,
            forall|p: Vector| area.spec_contains(p) ==> final(self).spec_tile(p) == tile,
            forall|p: Vector|
                old(self).in_bounds(p) && !area.spec_contains(p) ==> final(self).spec_tile(p) == old(
                    self,
                ).spec_tile(p),
    {
        let ghost pre = *self;
        let mut y = area.min.y;
        while y <= area.max.y
            invariant
                self.wf(),
                self.width == pre.width,
                self.height == pre.height,
                area.wf(),
                pre.spec_area().spec_contains_area(*area),
                area.min.y <= y <= area.max.y + 1,
                forall|p: Vector|
                    area.spec_contains(p) && p.y < y ==> self.spec_tile(p) == tile,
                forall|p: Vector|
                    pre.in_bounds(p) && !(area.spec_contains(p) && p.y < y) ==> self.spec_tile(p)
                        == pre.spec_tile(p),
            decreases area.max.y + 1 - y,
        {
            let mut x = area.min.x;
            while x <= area.max.x
                invariant
                    self.wf(),
                    self.width == pre.width,
                    self.height == pre.height,
                    area.wf(),
                    pre.spec_area().spec_contains_area(*area),
                    area.min.y <= y <= area.max.y,
                    area.min.x <= x <= area.max.x + 1,
                    forall|p: Vector|
                        area.spec_contains(p) && p.y < y ==> self.spec_tile(p) == tile,
                    forall|p: Vector|
                        area.spec_contains(p) && p.y == y && p.x < x ==> self.spec_tile(p) == tile,
                    forall|p: Vector|
                        pre.in_bounds(p) && !(area.spec_contains(p) && (p.y < y || (p.y == y && p.x
                            < x))) ==> self.spec_tile(p) == pre.spec_tile(p),
                decreases area.max.x + 1 - x,
            {
                self.set(Vector { x, y }, tile);
                x = x + 1;
            }
            y = y + 1;
        }
    }

    /// Attempt to place up to `n` rectangular rooms, each drawn uniformly
    /// at random with its width and height within `[min_size, max_size]`.
    ///
    /// A candidate is kept only if, enlarged by a 1-cell margin and cropped
    /// to the grid, it covers unassigned cells alone; a colliding draw is
    /// discarded silently, so fewer than `n` rooms may be placed. Kept
    /// rooms receive the sequential ids 0, 1, ... in placement order, and
    /// the returned list holds their rectangles, indexed by id.
    ///
    /// Malformed size bounds are rejected, before any draw, with
    /// `InvalidConfiguration`, and the grid is left untouched.
    pub fn place_rooms(
        &mut self,
        src: &mut RandomSource,
        n: usize,
        min_size: &Vector,
        max_size: &Vector,
    ) -> (result: Result<Vec<Area>, GenError>)
        requires
            old(self).wf(),
            old(self).all_unassigned(),
        ensures
            match result {
                Result::Err(e) => {
                    &&& e == GenError::InvalidConfiguration
                    &&& !old(self).valid_room_config(*min_size, *max_size)
                    &&& *final(self) == *old(self)
                    &&& *final(src) == *old(src)
                },
                Result::Ok(rooms) => {
                    &&& old(self).valid_room_config(*min_size, *max_size)
                    &&& final(self).wf()
                    &&& final(self).width == old(self).width
                    &&& final(self).height == old(self).height
                    &&& rooms@.len() <= n
                    &&& final(self).rooms_wf(rooms@, *min_size, *max_size)
                    &&& final(self).no_tunnels()
                    &&& (!old(src).is_fixed() ==> !final(src).is_fixed())
                    &&& (old(src).is_fixed() ==> {
                        let r = spec_place_rooms(
                            old(self).cells@,
                            Seq::<Area>::empty(),
                            old(self).width as int,
                            old(self).height as int,
                            old(src).fixed(),
                            n as int,
                            *min_size,
                            *max_size,
                        );
                        &&& final(self).cells@ == r.0
                        &&& rooms@ == r.1
                        &&& final(src).is_fixed()
                        &&& final(src).fixed() == r.2
                    })
                },
            },
    {
        if !(min_size.x >= 1 && min_size.y >= 1 && min_size.x <= max_size.x && min_size.y
            <= max_size.y && (max_size.x as i64) <= (self.width as i64) && (max_size.y as i64) <= (
        self.height as i64)) {
            return Result::Err(GenError::InvalidConfiguration);
        }
        let ghost lab0 = *self;
        let ghost src0 = *src;
        let grid_area = self.area();
        let mut rooms: Vec<Area> = Vec::new();
        let mut attempt: usize = 0;
        while attempt < n
            invariant
                self.wf(),
                self.width == lab0.width,
                self.height == lab0.height,
                lab0.valid_room_config(*min_size, *max_size),
                grid_area == self.spec_area(),
                grid_area.wf(),
                grid_area.bounded(),
                attempt <= n,
                rooms@.len() <= attempt,
                self.rooms_wf(rooms@, *min_size, *max_size),
                self.no_tunnels(),
                !src0.is_fixed() ==> !src.is_fixed(),
                src0.is_fixed() ==> src.is_fixed() && spec_place_rooms(
                    lab0.cells@,
                    Seq::<Area>::empty(),
                    lab0.width as int,
                    lab0.height as int,
                    src0.fixed(),
                    n as int,
                    *min_size,
                    *max_size,
                ) == spec_place_rooms(
                    self.cells@,
                    rooms@,
                    lab0.width as int,
                    lab0.height as int,
                    src.fixed(),
                    n - attempt,
                    *min_size,
                    *max_size,
                ),
            decreases n - attempt,
        {
            let ghost pre_iter = *self;
            let ghost rooms_pre = rooms@;
            let ghost src_pre = *src;
            let candidate = grid_area.random_subarea(src, min_size, max_size);
            let margin = candidate.enlarge(1);
            let clipped = margin.crop(&grid_area);
            let clear = self.area_unassigned(&clipped);
            if clear {
                let ghost pre = *self;
                let id = rooms.len();
                self.place(Tile::Room(id), &candidate);
                rooms.push(candidate);
                proof {
                    let r = rooms@;
                    let c = candidate;
                    // Every cell of the candidate, and of its margin, was
                    // still unassigned before this placement.
                    assert forall|p: Vector|
                        clipped.spec_contains(p) implies pre.spec_tile(p) == Tile::Unassigned by {}
                    assert forall|p: Vector| c.spec_contains(p) implies clipped.spec_contains(
                        p,
                    ) by {}
                    // The new room keeps a margin to every earlier room: a
                    // shared or adjacent cell would have been a room cell
                    // inside the cropped margin, which was all unassigned.
                    assert forall|i: int| 0 <= i < id implies separated(r[i], c) && separated(
                        c,
                        r[i],
                    ) by {
                        let a = r[i];
                        if !(separated(a, c) && separated(c, a)) {
                            let px: int = if a.min.x >= c.min.x - 1 {
                                a.min.x as int
                            } else {
                                c.min.x - 1
                            };
                            let py: int = if a.min.y >= c.min.y - 1 {
                                a.min.y as int
                            } else {
                                c.min.y - 1
                            };
                            let p = Vector { x: px as i32, y: py as i32 };
                            assert(a.spec_contains(p));
                            assert(margin.spec_contains(p));
                            assert(clipped.spec_contains(p));
                            assert(pre.spec_tile(p) == Tile::Room(i as usize));
                            assert(false);
                        }
                    }
                    // Earlier rooms' cells are untouched: none of them lies
                    // in the candidate.
                    assert forall|i: int, p: Vector|
                        0 <= i < r.len() && r[i].spec_contains(p) implies self.in_bounds(p)
                        && self.spec_tile(p) == Tile::Room(i as usize) by {
                        if i < id {
                            if c.spec_contains(p) {
                                assert(pre.spec_tile(p) == Tile::Room(i as usize));
                                assert(pre.spec_tile(p) == Tile::Unassigned);
                            }
                        }
                    }
                    assert(self.room_cells_tagged(r));
                    assert forall|p: Vector| self.in_bounds(p) implies match self.spec_tile(p) {
                        Tile::Room(tid) => tid < r.len() && r[tid as int].spec_contains(p),
                        _ => true,
                    } by {
                        if !c.spec_contains(p) {
                            assert(self.spec_tile(p) == pre.spec_tile(p));
                        }
                    }
                    assert(self.tags_are_rooms(r));
                    assert forall|p: Vector| self.in_bounds(p) implies !(#[trigger] self.spec_tile(
                        p,
                    ) matches Tile::Tunnel(_)) by {
                        if !c.spec_contains(p) {
                            assert(self.spec_tile(p) == pre.spec_tile(p));
                        }
                    }
                    // the new buffer is exactly the old one with the
                    // candidate's cells retagged
                    let w = lab0.width as int;
                    assert forall|i: int|
                        0 <= i < self.cells@.len() implies self.cells@[i] == spec_fill_room(
                        pre.cells@,
                        w,
                        c,
                        id as int,
                    )[i] by {
                        pre.lemma_cell_of(i);
                        let p = spec_cell_of(i, w);
                        if c.spec_contains(p) {
                            assert(self.spec_tile(p) == Tile::Room(id));
                        } else {
                            assert(self.spec_tile(p) == pre.spec_tile(p));
                        }
                    }
                    assert(self.cells@ =~= spec_fill_room(pre.cells@, w, c, id as int));
                }
            }
            proof {
                if src0.is_fixed() {
                    let w = lab0.width as int;
                    let h = lab0.height as int;
                    let grid_spec = Area {
                        min: Vector { x: 0, y: 0 },
                        max: Vector { x: (w - 1) as i32, y: (h - 1) as i32 },
                    };
                    assert(grid_spec == grid_area);
                    assert(candidate == spec_subarea(
                        src_pre.fixed(),
                        grid_area,
                        *min_size,
                        *max_size,
                    ));
                    assert(clipped == spec_clipped_margin(candidate, grid_area));
                    // the executable margin test and its model agree
                    if clear {
                        assert forall|p: Vector|
                            clipped.spec_contains(p) implies pre_iter.cells@[p.y * w + p.x]
                            == Tile::Unassigned by {
                            assert(pre_iter.spec_tile(p) == Tile::Unassigned);
                        }
                        assert(spec_area_clear(pre_iter.cells@, w, clipped));
                    } else {
                        let p = choose|p: Vector|
                            clipped.spec_contains(p) && pre_iter.spec_tile(p) != Tile::Unassigned;
                        assert(pre_iter.cells@[p.y * w + p.x] != Tile::Unassigned);
                        assert(!spec_area_clear(pre_iter.cells@, w, clipped));
                    }
                    let stepv = spec_place_attempt(
                        pre_iter.cells@,
                        rooms_pre,
                        w,
                        h,
                        src_pre.fixed(),
                        *min_size,
                        *max_size,
                    );
                    assert(stepv.0 == self.cells@);
                    assert(stepv.1 == rooms@);
                    assert(stepv.2 == src.fixed());
                    assert(spec_place_rooms(
                        pre_iter.cells@,
                        rooms_pre,
                        w,
                        h,
                        src_pre.fixed(),
                        n - attempt,
                        *min_size,
                        *max_size,
                    ) == spec_place_rooms(
                        self.cells@,
                        rooms@,
                        w,
                        h,
                        src.fixed(),
                        n - attempt - 1,
                        *min_size,
                        *max_size,
                    ));
                }
            }
            attempt = attempt + 1;
        }
        Result::Ok(rooms)
    }

    /// One rendered row of the grid: the display character of each cell,
    /// ended by a newline.
    pub open spec fn spec_row(self, y: int) -> Seq<char> {
        Seq::new(
            self.width as nat,
            |x: int| self.spec_tile(Vector { x: x as i32, y: y as i32 }).spec_to_char(),
        ).push('\n')
    }

    /// The first `rows` rendered rows of the grid, concatenated.
    pub open spec fn spec_render(self, rows: int) -> Seq<char>
        decreases rows,
    {
        if rows <= 0 {
            Seq::empty()
        } else {
            self.spec_render(rows - 1) + self.spec_row(rows - 1)
        }
    }

    /// Render the whole grid: one line per row, top to bottom, each cell
    /// shown as its display character.
    pub fn to_string(&self) -> (s: String)
        requires
            self.wf(),
        ensures
            s@ == self.spec_render(self.height as int),
    {
        let mut out: Vec<char> = Vec::new();
        let mut y: usize = 0;
        while y < self.height
            invariant
                self.wf(),
                y <= self.height,
                out@ == self.spec_render(y as int),
            decreases self.height - y,
        {
            let mut x: usize = 0;
            proof {
                assert(out@ =~= self.spec_render(y as int) + Seq::new(
                    0,
                    |i: int| self.spec_tile(Vector { x: i as i32, y: y as i32 }).spec_to_char(),
                ));
            }
            while x < self.width
                invariant
                    self.wf(),
                    y < self.height,
                    x <= self.width,
                    out@ == self.spec_render(y as int) + Seq::new(
                        x as nat,
                        |i: int| self.spec_tile(Vector { x: i as i32, y: y as i32 }).spec_to_char(),
                    ),
                decreases self.width - x,
            {
                let t = self.get(Vector { x: x as i32, y: y as i32 });
                out.push(t.to_char());
                proof {
                    assert(out@ =~= self.spec_render(y as int) + Seq::new(
                        (x + 1) as nat,
                        |i: int| self.spec_tile(Vector { x: i as i32, y: y as i32 }).spec_to_char(),
                    ));
                }
                x = x + 1;
            }
            out.push('\n');
            proof {
                assert(out@ =~= self.spec_render((y + 1) as int));
            }
            y = y + 1;
        }
        display::chars_to_string(&out)
    }
}

} // verus!
