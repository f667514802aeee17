//! The tunnel carver: starting from a cell at the edge of the grid, it
//! grows a randomized connective network of corridors through the
//! unassigned cells, joining every room it reaches exactly once and never
//! re-entering a cell it has already carved.
//!
//! The growth works like a randomized Prim's algorithm: a frontier holds
//! (position, direction) candidates, each tagged with a random priority
//! drawn when it is inserted, and the candidate with the minimum priority
//! is popped next — a cheap stand-in for drawing uniformly among all open
//! candidates, with no need to shuffle the collection as it changes.

use vstd::prelude::*;

use crate::area::COORD_BOUND;
use crate::direction::{Direction, DirectionSet};
use crate::labyrinth::Labyrinth;
use crate::random::RandomSource;
use crate::tile::Tile;
use crate::vector::Vector;

verus! {

/// A frontier candidate: an unexplored direction reachable from a carved
/// cell. Transient carving state, never persisted in the grid.
#[derive(Clone, Copy, PartialEq, Eq, Structural, Debug)]
pub struct BasedDir {
    pub base: Vector,
    pub dir: Direction,
}

/// The cell one step from `p` in direction `d`.
pub open spec fn spec_step(p: Vector, d: Direction) -> Vector {
    Vector {
        x: (p.x + d.spec_unit_vector().x) as i32,
        y: (p.y + d.spec_unit_vector().y) as i32,
    }
}

/// The executable counterpart of [`spec_step`].
pub fn step(p: Vector, d: Direction) -> (q: Vector)
    requires
        -(COORD_BOUND as int) <= p.x <= COORD_BOUND,
        -(COORD_BOUND as int) <= p.y <= COORD_BOUND,
    ensures
        q == spec_step(p, d),
{
    p.add(d.to_unit_vector())
}

/// Every room tag on the grid is a valid index into the connectivity
/// flags.
pub open spec fn rooms_ok(lab: Labyrinth, connected: Seq<bool>) -> bool {
    forall|p: Vector|
        lab.in_bounds(p) ==> match #[trigger] lab.spec_tile(p) {
            Tile::Room(id) => id < connected.len(),
            _ => true,
        }
}

/// Can the carver dig from `p` in direction `d`: the destination lies in
/// the grid and is either unassigned or a room not yet connected. A
/// destination that is already a corridor, or a room already connected, is
/// not carveable — this is what prevents cycles and duplicate room
/// connections.
pub open spec fn spec_carveable(lab: Labyrinth, connected: Seq<bool>, p: Vector, d: Direction) -> bool {
    let q = spec_step(p, d);
    lab.in_bounds(q) && match lab.spec_tile(q) {
        Tile::Unassigned => true,
        Tile::Room(id) => id < connected.len() && !connected[id as int],
        Tile::Tunnel(_) => false,
    }
}

/// The executable counterpart of [`spec_carveable`].
pub fn carveable(lab: &Labyrinth, connected: &Vec<bool>, p: Vector, d: Direction) -> (r: bool)
    requires
        lab.wf(),
        lab.in_bounds(p),
        rooms_ok(*lab, connected@),
    ensures
        r == spec_carveable(*lab, connected@, p, d),
{
    let q = step(p, d);
    if !lab.contains_cell(q) {
        return false;
    }
    match lab.get(q) {
        Tile::Unassigned => true,
        Tile::Room(id) => !connected[id],
        Tile::Tunnel(_) => false,
    }
}

/// Does the corridor cell at `p` point in direction `d`?
pub open spec fn tunnel_has(lab: Labyrinth, p: Vector, d: Direction) -> bool {
    match lab.spec_tile(p) {
        Tile::Tunnel(ds) => ds.spec_has(d),
        _ => false,
    }
}

/// The symmetry invariant of carved corridors: a corridor cell pointing at
/// an in-grid neighbor points either at a room or at a corridor cell that
/// points back with the inverse direction; never at an unassigned cell.
pub open spec fn spec_symmetric(lab: Labyrinth) -> bool {
    forall|p: Vector, d: Direction|
        lab.in_bounds(p) && #[trigger] tunnel_has(lab, p, d) && lab.in_bounds(spec_step(p, d))
            ==> match lab.spec_tile(spec_step(p, d)) {
            Tile::Tunnel(ds2) => ds2.spec_has(d.spec_inverse()),
            Tile::Room(_) => true,
            Tile::Unassigned => false,
        }
}

/// Does the frontier hold a candidate for `(p, d)`?
pub open spec fn frontier_has(frontier: Seq<(u64, BasedDir)>, p: Vector, d: Direction) -> bool {
    exists|k: int|
        0 <= k < frontier.len() && (#[trigger] frontier[k]).1 == (BasedDir { base: p, dir: d })
}

/// Every frontier candidate is rooted at an in-grid corridor cell and
/// carries a real direction.
pub open spec fn frontier_ok(lab: Labyrinth, frontier: Seq<(u64, BasedDir)>) -> bool {
    forall|k: int|
        0 <= k < frontier.len() ==> {
            let b = (#[trigger] frontier[k]).1;
            &&& lab.in_bounds(b.base)
            &&& lab.spec_tile(b.base) matches Tile::Tunnel(_)
            &&& b.dir != Direction::Stay
        }
}

/// Coverage with one pair exempt: every still-carveable direction out of a
/// carved cell other than the start has a frontier candidate, except
/// possibly `(ep, ed)`, which the carver is working on right now.
pub open spec fn covers_except(
    lab: Labyrinth,
    connected: Seq<bool>,
    frontier: Seq<(u64, BasedDir)>,
    start: Vector,
    ep: Vector,
    ed: Direction,
) -> bool {
    forall|p: Vector, d: Direction|
        lab.in_bounds(p) && p != start && (lab.spec_tile(p) matches Tile::Tunnel(_))
            && #[trigger] spec_carveable(lab, connected, p, d) && !(p == ep && d == ed)
            ==> frontier_has(frontier, p, d)
}

/// Full coverage: every still-carveable direction out of a carved cell
/// other than the start has a frontier candidate.
pub open spec fn frontier_covers(
    lab: Labyrinth,
    connected: Seq<bool>,
    frontier: Seq<(u64, BasedDir)>,
    start: Vector,
) -> bool {
    forall|p: Vector, d: Direction|
        lab.in_bounds(p) && p != start && (lab.spec_tile(p) matches Tile::Tunnel(_))
            && #[trigger] spec_carveable(lab, connected, p, d) ==> frontier_has(frontier, p, d)
}

/// The start candidate is either still on the frontier or already spent.
pub open spec fn start_settled(
    lab: Labyrinth,
    connected: Seq<bool>,
    frontier: Seq<(u64, BasedDir)>,
    start: Vector,
    dir: Direction,
) -> bool {
    frontier_has(frontier, start, dir) || !spec_carveable(lab, connected, start, dir)
}

/// After carving, the network is closed: no corridor cell other than the
/// start can still be dug from, and the start's initial direction is
/// spent.
pub open spec fn closed_from(
    lab: Labyrinth,
    connected: Seq<bool>,
    start: Vector,
    dir: Direction,
) -> bool {
    &&& forall|p: Vector, d: Direction|
        lab.in_bounds(p) && p != start && (lab.spec_tile(p) matches Tile::Tunnel(_)) ==> !(
        #[trigger] spec_carveable(lab, connected, p, d))
    &&& !spec_carveable(lab, connected, start, dir)
}

/// Every cell of the carve log lies in the grid and is, by now, either a
/// corridor cell or a connected room cell.
pub open spec fn log_ok(lab: Labyrinth, connected: Seq<bool>, log: Seq<Vector>) -> bool {
    forall|i: int|
        0 <= i < log.len() ==> lab.in_bounds(#[trigger] log[i]) && match lab.spec_tile(log[i]) {
            Tile::Tunnel(_) => true,
            Tile::Room(id) => id < connected.len() && connected[id as int],
            Tile::Unassigned => false,
        }
}

/// Every corridor cell appears in the carve log.
pub open spec fn log_covers(lab: Labyrinth, log: Seq<Vector>) -> bool {
    forall|p: Vector|
        lab.in_bounds(p) && (#[trigger] lab.spec_tile(p) matches Tile::Tunnel(_)) ==> log.contains(
            p,
        )
}

/// Some earlier cell of the log lies one step from the log's cell `i`.
pub open spec fn has_earlier_neighbor(log: Seq<Vector>, i: int) -> bool {
    exists|j: int| 0 <= j < i && spec_adjacent(#[trigger] log[j], log[i])
}

/// The carve log records a connected growth: every cell after the first
/// was entered from a cardinally adjacent, earlier-carved cell. Together
/// with the log being duplicate-free, this is the tree shape of the
/// carved structure: each cell is entered exactly once, from one parent.
pub open spec fn log_connected(log: Seq<Vector>) -> bool {
    forall|i: int| 1 <= i < log.len() ==> #[trigger] has_earlier_neighbor(log, i)
}

/// Extending a duplicate-free log by a fresh cell keeps it duplicate-free.
proof fn lemma_log_push_no_dup(log: Seq<Vector>, q: Vector)
    requires
        log.no_duplicates(),
        !log.contains(q),
    ensures
        log.push(q).no_duplicates(),
{
    let log2 = log.push(q);
    assert forall|i: int, j: int|
        0 <= i < log2.len() && 0 <= j < log2.len() && i != j implies log2[i] != log2[j] by {
        if i < log.len() && j < log.len() {
            assert(log[i] == log2[i] && log[j] == log2[j]);
        }
    }
}

/// Extending a connected-growth log by a cell one step from a logged cell
/// keeps it a connected growth.
proof fn lemma_log_push_connected(log: Seq<Vector>, pos: Vector, q: Vector, d: Direction)
    requires
        log_connected(log),
        log.contains(pos),
        d != Direction::Stay,
        q == spec_step(pos, d),
    ensures
        log_connected(log.push(q)),
{
    let log2 = log.push(q);
    assert forall|i: int| 1 <= i < log2.len() implies has_earlier_neighbor(log2, i) by {
        if i < log.len() {
            assert(log2[i] == log[i]);
            assert(has_earlier_neighbor(log, i));
            let j = choose|j: int| 0 <= j < i && spec_adjacent(#[trigger] log[j], log[i]);
            assert(log2[j] == log[j]);
            assert(0 <= j < i && spec_adjacent(log2[j], log2[i]));
        } else {
            let w = choose|w: int| 0 <= w < log.len() && log[w] == pos;
            assert(log2[w] == pos);
            assert(log2[i] == q);
            assert(q == spec_step(pos, d));
            assert(spec_adjacent(pos, q));
            assert(0 <= w < i && spec_adjacent(log2[w], log2[i]));
        }
    }
    assert(log_connected(log2));
}

/// Room `id` is adjacent to the carved corridor network.
pub open spec fn room_touched(lab: Labyrinth, id: int) -> bool {
    exists|p: Vector, d: Direction|
        #![auto]
        lab.in_bounds(p) && (lab.spec_tile(p) matches Tile::Tunnel(_)) && lab.in_bounds(
            spec_step(p, d),
        ) && lab.spec_tile(spec_step(p, d)) == Tile::Room(id as usize)
}

/// Everything the carver maintains between steps, relative to the grid
/// `lab0` and flags `conn0` it started from.
pub open spec fn carve_state_ok(
    lab0: Labyrinth,
    conn0: Seq<bool>,
    lab: Labyrinth,
    conn: Seq<bool>,
    log: Seq<Vector>,
    start: Vector,
) -> bool {
    &&& lab0.wf()
    &&& lab0.no_tunnels()
    &&& rooms_ok(lab0, conn0)
    &&& lab0.in_bounds(start)
    &&& lab.wf()
    &&& lab.width == lab0.width
    &&& lab.height == lab0.height
    &&& conn.len() == conn0.len()
    &&& (forall|i: int| 0 <= i < conn.len() && conn0[i] ==> conn[i])
    &&& (forall|p: Vector|
        lab0.in_bounds(p) ==> match #[trigger] lab0.spec_tile(p) {
            Tile::Room(_) => lab.spec_tile(p) == lab0.spec_tile(p),
            Tile::Unassigned => (lab.spec_tile(p) matches Tile::Unassigned) || (lab.spec_tile(p)
                matches Tile::Tunnel(_)),
            Tile::Tunnel(_) => true,
        })
    &&& rooms_ok(lab, conn)
    &&& spec_symmetric(lab)
    &&& (lab.spec_tile(start) matches Tile::Tunnel(_))
    &&& log.no_duplicates()
    &&& log.len() > 0
    &&& log[0] == start
    &&& log_ok(lab, conn, log)
    &&& log_covers(lab, log)
    &&& log_connected(log)
    &&& (forall|id: int|
        0 <= id < conn.len() && conn[id] && !conn0[id] ==> room_touched(lab, id))
}

/// How much diggable material is left: unassigned cells plus unconnected
/// rooms. Every dig consumes one unit, which bounds the carver's work.
pub open spec fn count_unassigned(cells: Seq<Tile>) -> int
    decreases cells.len(),
{
    if cells.len() == 0 {
        0
    } else {
        count_unassigned(cells.drop_last()) + if cells.last() == Tile::Unassigned {
            1int
        } else {
            0int
        }
    }
}

/// The number of `false` entries of the connectivity flags.
pub open spec fn count_unconnected(conn: Seq<bool>) -> int
    decreases conn.len(),
{
    if conn.len() == 0 {
        0
    } else {
        count_unconnected(conn.drop_last()) + if !conn.last() {
            1int
        } else {
            0int
        }
    }
}

/// The carver's termination measure.
pub open spec fn spec_measure(lab: Labyrinth, conn: Seq<bool>) -> int {
    count_unassigned(lab.cells@) + count_unconnected(conn)
}

proof fn lemma_count_unassigned_bounds(cells: Seq<Tile>)
    ensures
        0 <= count_unassigned(cells) <= cells.len(),
    decreases cells.len(),
{
    if cells.len() > 0 {
        lemma_count_unassigned_bounds(cells.drop_last());
    }
}

proof fn lemma_count_unconnected_bounds(conn: Seq<bool>)
    ensures
        0 <= count_unconnected(conn) <= conn.len(),
    decreases conn.len(),
{
    if conn.len() > 0 {
        lemma_count_unconnected_bounds(conn.drop_last());
    }
}

proof fn lemma_count_unassigned_update(cells: Seq<Tile>, i: int, t: Tile)
    requires
        0 <= i < cells.len(),
    ensures
        count_unassigned(cells.update(i, t)) == count_unassigned(cells) - (if cells[i]
            == Tile::Unassigned {
            1int
        } else {
            0int
        }) + (if t == Tile::Unassigned {
            1int
        } else {
            0int
        }),
    decreases cells.len(),
{
    let n = cells.len() - 1;
    if i == n {
        assert(cells.update(i, t).drop_last() =~= cells.drop_last());
        assert(cells.update(i, t).last() == t);
    } else {
        assert(cells.update(i, t).drop_last() =~= cells.drop_last().update(i, t));
        assert(cells.update(i, t).last() == cells.last());
        lemma_count_unassigned_update(cells.drop_last(), i, t);
    }
}

proof fn lemma_count_unconnected_update(conn: Seq<bool>, i: int, b: bool)
    requires
        0 <= i < conn.len(),
    ensures
        count_unconnected(conn.update(i, b)) == count_unconnected(conn) - (if !conn[i] {
            1int
        } else {
            0int
        }) + (if !b {
            1int
        } else {
            0int
        }),
    decreases conn.len(),
{
    let n = conn.len() - 1;
    if i == n {
        assert(conn.update(i, b).drop_last() =~= conn.drop_last());
        assert(conn.update(i, b).last() == b);
    } else {
        assert(conn.update(i, b).drop_last() =~= conn.drop_last().update(i, b));
        assert(conn.update(i, b).last() == conn.last());
        lemma_count_unconnected_update(conn.drop_last(), i, b);
    }
}

/// Stepping forward and then backward returns to the same cell.
proof fn lemma_step_back(p: Vector, d: Direction)
    requires
        -(COORD_BOUND as int) <= p.x <= COORD_BOUND,
        -(COORD_BOUND as int) <= p.y <= COORD_BOUND,
    ensures
        spec_step(spec_step(p, d), d.spec_inverse()) == p,
        d != Direction::Stay ==> spec_step(p, d) != p,
{
}

/// Once a direction stops being carveable it stays so: cells only become
/// "more carved" (unassigned cells turn into corridors, rooms keep their
/// tiles) and connectivity flags only turn true.
proof fn lemma_carveable_monotone(
    pre: Labyrinth,
    preconn: Seq<bool>,
    post: Labyrinth,
    postconn: Seq<bool>,
    p: Vector,
    d: Direction,
)
    requires
        pre.width == post.width,
        pre.height == post.height,
        preconn.len() == postconn.len(),
        forall|i: int| 0 <= i < preconn.len() && preconn[i] ==> postconn[i],
        forall|r: Vector|
            post.in_bounds(r) && #[trigger] post.spec_tile(r) == Tile::Unassigned
                ==> pre.spec_tile(r) == Tile::Unassigned,
        forall|r: Vector|
            post.in_bounds(r) && (#[trigger] post.spec_tile(r) matches Tile::Room(_))
                ==> pre.spec_tile(r) == post.spec_tile(r),
        spec_carveable(post, postconn, p, d),
    ensures
        spec_carveable(pre, preconn, p, d),
{
    let q = spec_step(p, d);
    assert(post.in_bounds(q));
    match post.spec_tile(q) {
        Tile::Unassigned => {},
        Tile::Room(id) => {},
        Tile::Tunnel(_) => {},
    }
}

/// Cardinal adjacency: `q` lies one step from `p`.
pub open spec fn spec_adjacent(p: Vector, q: Vector) -> bool {
    exists|d: Direction| d != Direction::Stay && q == #[trigger] spec_step(p, d)
}

/// Pushing onto a sequence adds exactly the pushed element to its
/// membership.
proof fn lemma_push_contains<A>(s: Seq<A>, v: A, x: A)
    ensures
        s.push(v).contains(x) == (s.contains(x) || x == v),
{
    if s.contains(x) {
        let w = choose|w: int| 0 <= w < s.len() && s[w] == x;
        assert(s.push(v)[w] == x);
    }
    if x == v {
        assert(s.push(v)[s.len() as int] == x);
    }
    if s.push(v).contains(x) {
        let w = choose|w: int| 0 <= w < s.push(v).len() && s.push(v)[w] == x;
        if w < s.len() {
            assert(s[w] == x);
        }
    }
}

/// The still-carveable directions out of `q`, in the fixed order left,
/// right, up, down.
fn carveable_dirs(lab: &Labyrinth, connected: &Vec<bool>, q: Vector) -> (dirs: Vec<Direction>)
    requires
        lab.wf(),
        lab.in_bounds(q),
        rooms_ok(*lab, connected@),
    ensures
        dirs@.len() <= 4,
        forall|j: int|
            0 <= j < dirs@.len() ==> spec_carveable(*lab, connected@, q, #[trigger] dirs@[j])
                && dirs@[j] != Direction::Stay,
        forall|d2: Direction|
            spec_carveable(*lab, connected@, q, d2) && d2 != Direction::Stay ==> dirs@.contains(
                d2,
            ),
{
    let cl = carveable(lab, connected, q, Direction::Left);
    let cr = carveable(lab, connected, q, Direction::Right);
    let cu = carveable(lab, connected, q, Direction::Up);
    let cd = carveable(lab, connected, q, Direction::Down);
    let mut dirs: Vec<Direction> = Vec::new();
    if cl {
        dirs.push(Direction::Left);
    }
    let ghost s1 = dirs@;
    if cr {
        dirs.push(Direction::Right);
    }
    let ghost s2 = dirs@;
    if cu {
        dirs.push(Direction::Up);
    }
    let ghost s3 = dirs@;
    if cd {
        dirs.push(Direction::Down);
    }
    proof {
        assert forall|d2: Direction|
            spec_carveable(*lab, connected@, q, d2) && d2 != Direction::Stay implies dirs@.contains(
            d2,
        ) by {
            lemma_push_contains(s1, Direction::Right, d2);
            lemma_push_contains(s2, Direction::Up, d2);
            lemma_push_contains(s3, Direction::Down, d2);
            match d2 {
                Direction::Left => {
                    assert(s1.contains(d2)) by {
                        assert(s1[0] == Direction::Left);
                    }
                    if cr {
                        assert(s2.contains(d2));
                    }
                    if cu {
                        assert(s3.contains(d2));
                    }
                },
                Direction::Right => {
                    assert(s2.contains(d2)) by {
                        assert(s2[s2.len() - 1] == Direction::Right);
                    }
                    if cu {
                        assert(s3.contains(d2));
                    }
                },
                Direction::Up => {
                    assert(s3.contains(d2)) by {
                        assert(s3[s3.len() - 1] == Direction::Up);
                    }
                },
                Direction::Down => {
                    assert(dirs@[dirs@.len() - 1] == Direction::Down);
                },
                Direction::Stay => {},
            }
        }
    }
    dirs
}

/// Remove and return a candidate with the minimum priority. Which of
/// several equal minima leaves is unspecified beyond "one of them"; every
/// other candidate stays.
fn pop_min(frontier: &mut Vec<(u64, BasedDir)>) -> (r: (u64, BasedDir))
    requires
        old(frontier)@.len() > 0,
    ensures
        old(frontier)@.contains(r),
        final(frontier)@.len() == old(frontier)@.len() - 1,
        forall|x: (u64, BasedDir)|
            old(frontier)@.contains(x) && x != r ==> final(frontier)@.contains(x),
        forall|x: (u64, BasedDir)| final(frontier)@.contains(x) ==> old(frontier)@.contains(x),
        forall|k: int| 0 <= k < old(frontier)@.len() ==> r.0 <= (#[trigger] old(frontier)@[k]).0,
{
    let ghost f0 = frontier@;
    let mut best: usize = 0;
    let mut i: usize = 1;
    while i < frontier.len()
        invariant
            frontier@ == f0,
            f0.len() > 0,
            best < i <= frontier.len(),
            forall|k: int| 0 <= k < i ==> f0[best as int].0 <= (#[trigger] f0[k]).0,
        decreases frontier.len() - i,
    {
        if frontier[i].0 < frontier[best].0 {
            best = i;
        }
        i = i + 1;
    }
    let r = frontier.swap_remove(best);
    proof {
        let f1 = frontier@;
        let b = best as int;
        assert(f0.contains(r)) by {
            assert(f0[b] == r);
        }
        assert forall|x: (u64, BasedDir)| f0.contains(x) && x != r implies f1.contains(x) by {
            let k = choose|k: int| 0 <= k < f0.len() && f0[k] == x;
            if k < f0.len() - 1 {
                if k == b {
                    assert(f0[k] == r);
                } else {
                    assert(f1[k] == x);
                }
            } else {
                // x was the last element; after the swap it sits at `best`
                // (unless `best` was the last slot itself).
                if b < f0.len() - 1 {
                    assert(f1[b] == x);
                } else {
                    assert(f0[b] == r);
                }
            }
        }
        assert forall|x: (u64, BasedDir)| f1.contains(x) implies f0.contains(x) by {
            let k = choose|k: int| 0 <= k < f1.len() && f1[k] == x;
            if k == b {
                assert(f0[f0.len() - 1] == x);
            } else {
                assert(f0[k] == x);
            }
        }
    }
    r
}

impl Labyrinth {
    /// Walk a straight corridor from `pos` in direction `d`: dig the
    /// current cell and the next one, recording the direction bit on both
    /// (the neighbor gets the inverse bit) — except that digging into a
    /// room marks the room connected instead of tagging its cell. At each
    /// new cell the still-carveable directions are computed: none ends the
    /// walk, one continues it straight, several continue in a randomly
    /// chosen one and defer the rest onto the frontier, each under a fresh
    /// random priority.
    #[verifier::rlimit(100)]
    fn tunnel_in_direction(
        &mut self,
        src: &mut RandomSource,
        connected: &mut Vec<bool>,
        frontier: &mut Vec<(u64, BasedDir)>,
        pos: Vector,
        d: Direction,
        Ghost(lab0): Ghost<Labyrinth>,
        Ghost(conn0): Ghost<Seq<bool>>,
        Ghost(start): Ghost<Vector>,
        Ghost(sdir): Ghost<Direction>,
        Ghost(log): Ghost<Seq<Vector>>,
    ) -> (logr: Ghost<Seq<Vector>>)
        requires
            carve_state_ok(lab0, conn0, *old(self), old(connected)@, log, start),
            frontier_ok(*old(self), old(frontier)@),
            covers_except(*old(self), old(connected)@, old(frontier)@, start, pos, d),
            start_settled(*old(self), old(connected)@, old(frontier)@, start, sdir) || (pos == start
                && d == sdir),
            spec_carveable(*old(self), old(connected)@, pos, d),
            old(self).in_bounds(pos),
            old(self).spec_tile(pos) matches Tile::Tunnel(_),
            d != Direction::Stay,
        ensures
            carve_state_ok(lab0, conn0, *final(self), final(connected)@, logr@, start),
            frontier_ok(*final(self), final(frontier)@),
            frontier_covers(*final(self), final(connected)@, final(frontier)@, start),
            start_settled(*final(self), final(connected)@, final(frontier)@, start, sdir),
            log.is_prefix_of(logr@),
            spec_measure(*final(self), final(connected)@) < spec_measure(
                *old(self),
                old(connected)@,
            ),
            !old(src).is_fixed() ==> !final(src).is_fixed(),
        decreases spec_measure(*old(self), old(connected)@),
    {
        let ghost pre = *self;
        let ghost preconn = connected@;
        let ghost pref = frontier@;
        let ghost presrc = *src;
        proof {
            lemma_count_unassigned_bounds(pre.cells@);
            lemma_count_unconnected_bounds(preconn);
        }
        // Dig out of the current cell: record the direction bit on it. The
        // cell is a corridor cell already, so no information is lost.
        let t = self.get(pos);
        let ds = match t {
            Tile::Tunnel(ds) => ds,
            _ => DirectionSet::new(),
        };
        self.set(pos, Tile::Tunnel(ds.set_dir(d)));
        let q = step(pos, d);
        proof {
            lemma_step_back(pos, d);
            assert(q != pos);
            pre.lemma_index_in_range(pos);
            lemma_count_unassigned_update(
                pre.cells@,
                pre.spec_index(pos),
                Tile::Tunnel(ds.spec_with(d)),
            );
            assert(spec_measure(*self, connected@) == spec_measure(pre, preconn));
            assert(self.spec_tile(q) == pre.spec_tile(q));
        }
        let ghost mid = *self;
        let t2 = self.get(q);
        match t2 {
            Tile::Room(id) => {
                // Digging into a room marks it connected and ends the walk;
                // the room cell keeps its tile, and the room is never
                // entered again because a connected room is not carveable.
                proof {
                    assert(id < connected@.len());
                    assert(!connected@[id as int]);
                }
                connected[id] = true;
                let ghost log2 = log.push(q);
                proof {
                    let lab = *self;
                    let conn = connected@;
                    lemma_count_unconnected_update(preconn, id as int, true);
                    assert(spec_measure(lab, conn) < spec_measure(pre, preconn));
                    // tiles at pre-existing corridors and rooms are
                    // untouched; only `pos` gained a direction bit
                    assert forall|r: Vector|
                        pre.in_bounds(r) && r != pos implies lab.spec_tile(r) == pre.spec_tile(
                        r,
                    ) by {}
                    // the carve log stays duplicate-free: `q` was an
                    // unconnected room cell, and every logged cell is a
                    // corridor or a connected room
                    assert(!log.contains(q));
                    lemma_log_push_no_dup(log, q);
                    assert(log.contains(pos));
                    lemma_log_push_connected(log, pos, q, d);
                    assert(log.is_prefix_of(log2));
                    assert(log_ok(lab, conn, log2));
                    assert forall|p2: Vector|
                        lab.in_bounds(p2) && (#[trigger] lab.spec_tile(p2) matches Tile::Tunnel(
                            _,
                        )) implies log2.contains(p2) by {
                        assert(pre.spec_tile(p2) matches Tile::Tunnel(_));
                        assert(log.contains(p2));
                        let w = choose|w: int| 0 <= w < log.len() && log[w] == p2;
                        assert(log2[w] == p2);
                    }
                    // symmetry: the one new bit on `pos` points at the room
                    assert forall|p2: Vector, d2: Direction|
                        lab.in_bounds(p2) && #[trigger] tunnel_has(lab, p2, d2) && lab.in_bounds(
                            spec_step(p2, d2),
                        ) implies match lab.spec_tile(spec_step(p2, d2)) {
                        Tile::Tunnel(ds2) => ds2.spec_has(d2.spec_inverse()),
                        Tile::Room(_) => true,
                        Tile::Unassigned => false,
                    } by {
                        if p2 == pos {
                            if d2 == d {
                                assert(lab.spec_tile(spec_step(p2, d2)) matches Tile::Room(_));
                            } else {
                                assert(tunnel_has(pre, p2, d2));
                            }
                        } else {
                            assert(tunnel_has(pre, p2, d2));
                            if spec_step(p2, d2) == pos {
                                assert(ds.spec_with(d).spec_has(d2.spec_inverse()));
                            }
                        }
                    }
                    assert(spec_symmetric(lab));
                    // the room is touched by the corridor at `pos`
                    assert(lab.spec_tile(spec_step(pos, d)) == Tile::Room(id));
                    assert(room_touched(lab, id as int));
                    assert forall|id2: int|
                        0 <= id2 < conn.len() && conn[id2] && !conn0[id2] implies room_touched(
                        lab,
                        id2,
                    ) by {
                        if id2 != id as int {
                            assert(preconn[id2]);
                            let (wp, wd) = choose|wp: Vector, wd: Direction|
                                #![auto]
                                pre.in_bounds(wp) && (pre.spec_tile(wp) matches Tile::Tunnel(_))
                                    && pre.in_bounds(spec_step(wp, wd)) && pre.spec_tile(
                                    spec_step(wp, wd),
                                ) == Tile::Room(id2 as usize);
                            assert(lab.spec_tile(spec_step(wp, wd)) == Tile::Room(id2 as usize));
                            assert(lab.spec_tile(wp) matches Tile::Tunnel(_));
                        }
                    }
                    assert(carve_state_ok(lab0, conn0, lab, conn, log2, start));
                    // the walked direction is spent, every other carveable
                    // pair was carveable before and keeps its candidate
                    assert(!spec_carveable(lab, conn, pos, d));
                    assert forall|p2: Vector, d2: Direction|
                        lab.in_bounds(p2) && p2 != start && (lab.spec_tile(p2)
                            matches Tile::Tunnel(_)) && #[trigger] spec_carveable(
                            lab,
                            conn,
                            p2,
                            d2,
                        ) implies frontier_has(frontier@, p2, d2) by {
                        lemma_carveable_monotone(pre, preconn, lab, conn, p2, d2);
                        assert((pre.spec_tile(p2) matches Tile::Tunnel(_)));
                        assert(!(p2 == pos && d2 == d));
                    }
                    assert(frontier_covers(lab, conn, frontier@, start));
                    if !(pos == start && d == sdir) {
                        if !frontier_has(pref, start, sdir) {
                            if spec_carveable(lab, conn, start, sdir) {
                                lemma_carveable_monotone(pre, preconn, lab, conn, start, sdir);
                            }
                        }
                    }
                    assert(start_settled(lab, conn, frontier@, start, sdir));
                }
                Ghost(log2)
            },
            _ => {
                // The destination was carveable and is not a room, so it is
                // an unassigned cell: carve it, giving it the inverse bit.
                proof {
                    assert(mid.spec_tile(q) == Tile::Unassigned);
                }
                self.set(q, Tile::Tunnel(DirectionSet::new().set_dir(d.inverse())));
                let ghost log2 = log.push(q);
                proof {
                    let lab = *self;
                    let conn = connected@;
                    mid.lemma_index_in_range(q);
                    lemma_count_unassigned_update(
                        mid.cells@,
                        mid.spec_index(q),
                        Tile::Tunnel(DirectionSet(0).spec_with(d.spec_inverse())),
                    );
                    assert(spec_measure(lab, conn) < spec_measure(pre, preconn));
                    assert forall|r: Vector|
                        pre.in_bounds(r) && r != pos && r != q implies lab.spec_tile(r)
                        == pre.spec_tile(r) by {}
                    assert(!log.contains(q));
                    lemma_log_push_no_dup(log, q);
                    assert(log.contains(pos));
                    lemma_log_push_connected(log, pos, q, d);
                    assert(log.is_prefix_of(log2));
                    assert(start != q);
                    assert(log_ok(lab, conn, log2));
                    assert forall|p2: Vector|
                        lab.in_bounds(p2) && (#[trigger] lab.spec_tile(p2) matches Tile::Tunnel(
                            _,
                        )) implies log2.contains(p2) by {
                        if p2 == q {
                            assert(log2[log.len() as int] == q);
                        } else {
                            assert(pre.spec_tile(p2) matches Tile::Tunnel(_));
                            assert(log.contains(p2));
                            let w = choose|w: int| 0 <= w < log.len() && log[w] == p2;
                            assert(log2[w] == p2);
                        }
                    }
                    // symmetry: the new bit on `pos` and the inverse bit on
                    // `q` pair up; `q`'s only bit points back at `pos`
                    assert forall|p2: Vector, d2: Direction|
                        lab.in_bounds(p2) && #[trigger] tunnel_has(lab, p2, d2) && lab.in_bounds(
                            spec_step(p2, d2),
                        ) implies match lab.spec_tile(spec_step(p2, d2)) {
                        Tile::Tunnel(ds2) => ds2.spec_has(d2.spec_inverse()),
                        Tile::Room(_) => true,
                        Tile::Unassigned => false,
                    } by {
                        lemma_step_back(pos, d);
                        lemma_step_back(q, d2);
                        lemma_step_back(p2, d2);
                        if p2 == q {
                            assert(d2 == d.spec_inverse());
                            assert(spec_step(q, d2) == pos);
                            assert(ds.spec_with(d).spec_has(d2.spec_inverse()));
                        } else if p2 == pos {
                            if d2 == d {
                                assert(lab.spec_tile(q) matches Tile::Tunnel(_));
                                assert(DirectionSet(0).spec_with(d.spec_inverse()).spec_has(
                                    d.spec_inverse(),
                                ));
                            } else {
                                assert(tunnel_has(pre, p2, d2));
                                assert(spec_step(p2, d2) != q) by {
                                    if spec_step(p2, d2) == q {
                                        assert(pre.spec_tile(q) == Tile::Unassigned);
                                    }
                                }
                            }
                        } else {
                            assert(tunnel_has(pre, p2, d2));
                            assert(spec_step(p2, d2) != q) by {
                                if spec_step(p2, d2) == q {
                                    assert(pre.spec_tile(q) == Tile::Unassigned);
                                }
                            }
                            if spec_step(p2, d2) == pos {
                                assert(ds.spec_with(d).spec_has(d2.spec_inverse()));
                            }
                        }
                    }
                    assert(spec_symmetric(lab));
                    assert forall|id2: int|
                        0 <= id2 < conn.len() && conn[id2] && !conn0[id2] implies room_touched(
                        lab,
                        id2,
                    ) by {
                        let (wp, wd) = choose|wp: Vector, wd: Direction|
                            #![auto]
                            pre.in_bounds(wp) && (pre.spec_tile(wp) matches Tile::Tunnel(_))
                                && pre.in_bounds(spec_step(wp, wd)) && pre.spec_tile(
                                spec_step(wp, wd),
                            ) == Tile::Room(id2 as usize);
                        assert(lab.spec_tile(spec_step(wp, wd)) == Tile::Room(id2 as usize));
                        assert(lab.spec_tile(wp) matches Tile::Tunnel(_));
                    }
                    assert(carve_state_ok(lab0, conn0, lab, conn, log2, start));
                }
                let ghost lab_q = *self;
                // Which directions can the walk still take from here?
                let dirs = carveable_dirs(self, connected, q);
                proof {
                    assert(spec_step(q, Direction::Stay) == q);
                    assert forall|d2: Direction|
                        spec_carveable(lab_q, connected@, q, d2) implies dirs@.contains(d2) by {
                        assert(d2 != Direction::Stay);
                    }
                }
                // The pair just walked is spent: `q` is a corridor now.
                proof {
                    assert(!spec_carveable(*self, connected@, pos, d));
                    assert forall|p2: Vector, d2: Direction|
                        lab_q.in_bounds(p2) && p2 != start && (lab_q.spec_tile(p2)
                            matches Tile::Tunnel(_)) && #[trigger] spec_carveable(
                            lab_q,
                            connected@,
                            p2,
                            d2,
                        ) && p2 != q implies frontier_has(frontier@, p2, d2) by {
                        lemma_carveable_monotone(pre, preconn, lab_q, connected@, p2, d2);
                        assert((pre.spec_tile(p2) matches Tile::Tunnel(_)));
                        assert(!(p2 == pos && d2 == d));
                    }
                }
                if dirs.len() == 0 {
                    // Dead end: the corridor ends, and the new cell adds no
                    // obligations because nothing is carveable from it.
                    proof {
                        let lab = *self;
                        let conn = connected@;
                        assert forall|p2: Vector, d2: Direction|
                            lab.in_bounds(p2) && p2 != start && (lab.spec_tile(p2)
                                matches Tile::Tunnel(_)) && #[trigger] spec_carveable(
                                lab,
                                conn,
                                p2,
                                d2,
                            ) implies frontier_has(frontier@, p2, d2) by {
                            if p2 == q {
                                assert(dirs@.contains(d2));
                            }
                        }
                        if !(pos == start && d == sdir) {
                            if !frontier_has(pref, start, sdir) {
                                if spec_carveable(lab, conn, start, sdir) {
                                    lemma_carveable_monotone(pre, preconn, lab, conn, start, sdir);
                                }
                            }
                        }
                        assert(start_settled(lab, conn, frontier@, start, sdir));
                    }
                    Ghost(log2)
                } else {
                    // Continue the walk in one direction — drawn at random
                    // when there is a real choice — and defer the others
                    // onto the frontier under fresh priorities.
                    let k: usize = if dirs.len() == 1 {
                        0
                    } else {
                        src.next_in_range(0, dirs.len() as i32) as usize
                    };
                    let chosen = dirs[k];
                    let ghost f_mid = frontier@;
                    let mut i: usize = 0;
                    while i < dirs.len()
                        invariant
                            i <= dirs@.len(),
                            k < dirs@.len(),
                            self.wf(),
                            self.in_bounds(q),
                            self.spec_tile(q) matches Tile::Tunnel(_),
                            forall|j: int|
                                0 <= j < dirs@.len() ==> #[trigger] dirs@[j] != Direction::Stay,
                            forall|p2: Vector, d2: Direction|
                                frontier_has(f_mid, p2, d2) ==> frontier_has(frontier@, p2, d2),
                            forall|j: int|
                                0 <= j < i && j != k ==> frontier_has(frontier@, q, #[trigger] dirs@[j]),
                            frontier_ok(*self, frontier@),
                            !presrc.is_fixed() ==> !src.is_fixed(),
                        decreases dirs@.len() - i,
                    {
                        if i != k {
                            let pri = src.next_u64();
                            let ghost fb = frontier@;
                            frontier.push((pri, BasedDir { base: q, dir: dirs[i] }));
                            proof {
                                assert forall|p2: Vector, d2: Direction|
                                    frontier_has(fb, p2, d2) implies frontier_has(
                                    frontier@,
                                    p2,
                                    d2,
                                ) by {
                                    let w = choose|w: int|
                                        0 <= w < fb.len() && (#[trigger] fb[w]).1 == (BasedDir {
                                            base: p2,
                                            dir: d2,
                                        });
                                    assert(frontier@[w] == fb[w]);
                                }
                                assert(frontier@[fb.len() as int].1 == (BasedDir {
                                    base: q,
                                    dir: dirs@[i as int],
                                }));
                                assert(frontier_has(frontier@, q, dirs@[i as int]));
                            }
                        }
                        i = i + 1;
                    }
                    proof {
                        let lab = *self;
                        let conn = connected@;
                        // every carveable pair except the chosen
                        // continuation now has a candidate
                        assert forall|p2: Vector, d2: Direction|
                            lab.in_bounds(p2) && p2 != start && (lab.spec_tile(p2)
                                matches Tile::Tunnel(_)) && #[trigger] spec_carveable(
                                lab,
                                conn,
                                p2,
                                d2,
                            ) && !(p2 == q && d2 == chosen) implies frontier_has(
                            frontier@,
                            p2,
                            d2,
                        ) by {
                            if p2 == q {
                                assert(dirs@.contains(d2));
                                let j = choose|j: int| 0 <= j < dirs@.len() && dirs@[j] == d2;
                                assert(dirs@[k as int] == chosen);
                                assert(j != k);
                                assert(frontier_has(frontier@, q, dirs@[j]));
                            } else {
                                assert(frontier_has(f_mid, p2, d2));
                            }
                        }
                        if !(pos == start && d == sdir) {
                            if !frontier_has(pref, start, sdir) {
                                if spec_carveable(lab, conn, start, sdir) {
                                    lemma_carveable_monotone(pre, preconn, lab, conn, start, sdir);
                                }
                            } else {
                                assert(frontier_has(f_mid, start, sdir));
                            }
                        } else {
                            assert(!spec_carveable(lab, conn, start, sdir));
                        }
                        // the recursion's measure shrank by the dig
                        assert(spec_measure(lab, conn) < spec_measure(pre, preconn));
                        lemma_count_unassigned_bounds(lab.cells@);
                        lemma_count_unconnected_bounds(conn);
                    }
                    let logr = self.tunnel_in_direction(
                        src,
                        connected,
                        frontier,
                        q,
                        chosen,
                        Ghost(lab0),
                        Ghost(conn0),
                        Ghost(start),
                        Ghost(sdir),
                        Ghost(log2),
                    );
                    proof {
                        assert(log.is_prefix_of(log2));
                        assert(log2.is_prefix_of(logr@));
                        assert(log.is_prefix_of(logr@));
                    }
                    logr
                }
            },
        }
    }

    /// Carve a connected network of corridors, starting from `start`, a
    /// cell at the edge of the grid that is entered from outside in
    /// direction `dir`.
    ///
    /// The start cell is marked carved (recording the entry direction when
    /// the cell behind it lies outside the grid), the initial candidate is
    /// pushed onto the frontier, and then candidates are popped by minimum
    /// priority and walked until the frontier is exhausted; a candidate
    /// that is no longer carveable is skipped silently. Digging into a
    /// room marks that room's flag in `connected` instead of retagging its
    /// cell, and a connected room is never entered again.
    ///
    /// The returned ghost log lists every cell the carver entered, the
    /// start first, each exactly once: no cell is ever carved into twice.
    pub fn carve_tunnels(
        &mut self,
        src: &mut RandomSource,
        connected: &mut Vec<bool>,
        start: Vector,
        dir: Direction,
    ) -> (log: Ghost<Seq<Vector>>)
        requires
            old(self).wf(),
            old(self).no_tunnels(),
            rooms_ok(*old(self), old(connected)@),
            old(self).in_bounds(start),
            old(self).spec_tile(start) == Tile::Unassigned,
            dir != Direction::Stay,
        ensures
            carve_state_ok(
                *old(self),
                old(connected)@,
                *final(self),
                final(connected)@,
                log@,
                start,
            ),
            closed_from(*final(self), final(connected)@, start, dir),
            !old(src).is_fixed() ==> !final(src).is_fixed(),
    {
        let ghost lab0 = *self;
        let ghost conn0 = connected@;
        let ghost src0 = *src;
        // Mark the start cell's entry direction (from outside the grid) as
        // carved; when the cell behind the entry happens to lie inside the
        // grid, the start is carved with no bits instead, so that no bit
        // ever points at an uncarved in-grid cell.
        let behind = step(start, dir.inverse());
        let entry = if !self.contains_cell(behind) {
            DirectionSet::new().set_dir(dir.inverse())
        } else {
            DirectionSet::new()
        };
        self.set(start, Tile::Tunnel(entry));
        let ghost mut log: Seq<Vector> = seq![start];
        proof {
            let lab = *self;
            assert forall|p2: Vector|
                lab.in_bounds(p2) && (#[trigger] lab.spec_tile(p2) matches Tile::Tunnel(
                    _,
                )) implies p2 == start by {}
            assert forall|p2: Vector, d2: Direction|
                lab.in_bounds(p2) && #[trigger] tunnel_has(lab, p2, d2) && lab.in_bounds(
                    spec_step(p2, d2),
                ) implies match lab.spec_tile(spec_step(p2, d2)) {
                Tile::Tunnel(ds2) => ds2.spec_has(d2.spec_inverse()),
                Tile::Room(_) => true,
                Tile::Unassigned => false,
            } by {
                assert(p2 == start);
                assert(entry.spec_has(d2));
                assert(d2 == dir.spec_inverse());
                assert(!lab.in_bounds(spec_step(p2, d2)));
            }
            assert(spec_symmetric(lab));
            assert(log[0] == start);
            assert forall|p2: Vector|
                lab.in_bounds(p2) && (#[trigger] lab.spec_tile(p2) matches Tile::Tunnel(
                    _,
                )) implies log.contains(p2) by {
                assert(log[0] == p2);
            }
            assert(carve_state_ok(lab0, conn0, lab, connected@, log, start));
        }
        let mut frontier: Vec<(u64, BasedDir)> = Vec::new();
        let pri = src.next_u64();
        frontier.push((pri, BasedDir { base: start, dir }));
        proof {
            assert(frontier@[0].1 == (BasedDir { base: start, dir }));
            assert(frontier_has(frontier@, start, dir));
            assert(frontier_ok(*self, frontier@));
            assert forall|p2: Vector, d2: Direction|
                self.in_bounds(p2) && p2 != start && (self.spec_tile(p2) matches Tile::Tunnel(_))
                    && #[trigger] spec_carveable(*self, connected@, p2, d2) implies frontier_has(
                frontier@,
                p2,
                d2,
            ) by {
                assert(p2 == start);
            }
        }
        while frontier.len() > 0
            invariant
                carve_state_ok(lab0, conn0, *self, connected@, log, start),
                frontier_ok(*self, frontier@),
                frontier_covers(*self, connected@, frontier@, start),
                start_settled(*self, connected@, frontier@, start, dir),
                !src0.is_fixed() ==> !src.is_fixed(),
                dir != Direction::Stay,
            decreases spec_measure(*self, connected@), frontier@.len(),
        {
            let ghost fpre = frontier@;
            let cand = pop_min(&mut frontier);
            let bd = cand.1;
            proof {
                lemma_count_unassigned_bounds(self.cells@);
                lemma_count_unconnected_bounds(connected@);
                let w = choose|w: int| 0 <= w < fpre.len() && fpre[w] == cand;
                assert(self.in_bounds(bd.base) && (self.spec_tile(bd.base) matches Tile::Tunnel(
                    _,
                )) && bd.dir != Direction::Stay);
                // every other candidate is still there
                assert forall|p2: Vector, d2: Direction|
                    frontier_has(fpre, p2, d2) && !(p2 == bd.base && d2 == bd.dir)
                        implies frontier_has(frontier@, p2, d2) by {
                    let k = choose|k: int|
                        0 <= k < fpre.len() && (#[trigger] fpre[k]).1 == (BasedDir {
                            base: p2,
                            dir: d2,
                        });
                    assert(fpre[k] != cand);
                    assert(fpre.contains(fpre[k]));
                    assert(frontier@.contains(fpre[k]));
                    let k2 = choose|k2: int| 0 <= k2 < frontier@.len() && frontier@[k2] == fpre[k];
                    assert(frontier@[k2].1 == (BasedDir { base: p2, dir: d2 }));
                }
                assert forall|k: int| 0 <= k < frontier@.len() implies {
                    let b = (#[trigger] frontier@[k]).1;
                    &&& self.in_bounds(b.base)
                    &&& self.spec_tile(b.base) matches Tile::Tunnel(_)
                    &&& b.dir != Direction::Stay
                } by {
                    assert(frontier@.contains(frontier@[k]));
                    assert(fpre.contains(frontier@[k]));
                    let w2 = choose|w2: int| 0 <= w2 < fpre.len() && fpre[w2] == frontier@[k];
                    assert(fpre[w2].1 == frontier@[k].1);
                }
                assert(frontier_ok(*self, frontier@));
            }
            if carveable(self, connected, bd.base, bd.dir) {
                proof {
                    assert(covers_except(
                        *self,
                        connected@,
                        frontier@,
                        start,
                        bd.base,
                        bd.dir,
                    ));
                    if !(bd.base == start && bd.dir == dir) {
                        if frontier_has(fpre, start, dir) {
                            let k = choose|k: int|
                                0 <= k < fpre.len() && (#[trigger] fpre[k]).1 == (BasedDir {
                                    base: start,
                                    dir,
                                });
                            assert(fpre[k] != cand);
                            assert(frontier_has(frontier@, start, dir));
                        }
                    }
                }
                let logr = self.tunnel_in_direction(
                    src,
                    connected,
                    &mut frontier,
                    bd.base,
                    bd.dir,
                    Ghost(lab0),
                    Ghost(conn0),
                    Ghost(start),
                    Ghost(dir),
                    Ghost(log),
                );
                proof {
                    log = logr@;
                    lemma_count_unassigned_bounds(self.cells@);
                    lemma_count_unconnected_bounds(connected@);
                }
            } else {
                proof {
                    assert forall|p2: Vector, d2: Direction|
                        self.in_bounds(p2) && p2 != start && (self.spec_tile(p2)
                            matches Tile::Tunnel(_)) && #[trigger] spec_carveable(
                            *self,
                            connected@,
                            p2,
                            d2,
                        ) implies frontier_has(frontier@, p2, d2) by {
                        assert(!(p2 == bd.base && d2 == bd.dir));
                        assert(frontier_has(fpre, p2, d2));
                    }
                    if frontier_has(fpre, start, dir) && !frontier_has(frontier@, start, dir) {
                        let k = choose|k: int|
                            0 <= k < fpre.len() && (#[trigger] fpre[k]).1 == (BasedDir {
                                base: start,
                                dir,
                            });
                        if fpre[k] != cand {
                            assert(fpre.contains(fpre[k]));
                            assert(frontier@.contains(fpre[k]));
                            let k2 = choose|k2: int|
                                0 <= k2 < frontier@.len() && frontier@[k2] == fpre[k];
                            assert(frontier@[k2].1 == (BasedDir { base: start, dir }));
                            assert(frontier_has(frontier@, start, dir));
                        } else {
                            assert(bd.base == start && bd.dir == dir);
                            assert(!spec_carveable(*self, connected@, start, dir));
                        }
                    }
                }
            }
        }
        proof {
            assert forall|p2: Vector, d2: Direction|
                self.in_bounds(p2) && p2 != start && (self.spec_tile(p2) matches Tile::Tunnel(_))
                    implies !(#[trigger] spec_carveable(*self, connected@, p2, d2)) by {
                if spec_carveable(*self, connected@, p2, d2) {
                    assert(frontier_has(frontier@, p2, d2));
                }
            }
            assert(!frontier_has(frontier@, start, dir));
            assert(!spec_carveable(*self, connected@, start, dir));
        }
        Ghost(log)
    }
}

/// The inductive core of the reachability law, generalized to a path whose
/// head is any carved corridor cell that the start does not reappear on.
proof fn lemma_path_connected(
    lab: Labyrinth,
    conn: Seq<bool>,
    start: Vector,
    dir: Direction,
    path: Seq<Vector>,
    id: usize,
)
    requires
        lab.wf(),
        rooms_ok(lab, conn),
        closed_from(lab, conn, start, dir),
        path.len() >= 2,
        lab.spec_tile(path[0]) matches Tile::Tunnel(_),
        path[0] == start ==> path[1] == spec_step(start, dir),
        !path.drop_first().contains(start),
        forall|i: int| 0 <= i < path.len() - 1 ==> spec_adjacent(#[trigger] path[i], path[i + 1]),
        forall|i: int| 0 <= i < path.len() ==> lab.in_bounds(#[trigger] path[i]),
        forall|i: int|
            0 <= i < path.len() - 1 ==> !(#[trigger] lab.spec_tile(path[i]) matches Tile::Room(_)),
        lab.spec_tile(path.last()) == Tile::Room(id),
    ensures
        id < conn.len() && conn[id as int],
    decreases path.len(),
{
    let p0 = path[0];
    let p1 = path[1];
    assert(spec_adjacent(p0, p1));
    let d = choose|d: Direction| d != Direction::Stay && p1 == spec_step(p0, d);
    // nothing is carveable out of `p0` any more
    if p0 == start {
        if p1 == spec_step(start, dir) {
            assert(!spec_carveable(lab, conn, start, dir));
        }
        assert(!spec_carveable(lab, conn, p0, d) || spec_step(p0, d) != p1 || p1 == spec_step(
            start,
            dir,
        ));
    } else {
        assert(!spec_carveable(lab, conn, p0, d));
    }
    // so `p1`, in bounds as it is, is a corridor or a connected room
    assert(lab.in_bounds(p1));
    if path.len() == 2 {
        assert(lab.spec_tile(p1) == Tile::Room(id));
        assert(id < conn.len());
        assert(conn[id as int]);
    } else {
        assert(!(lab.spec_tile(p1) matches Tile::Room(_)));
        assert(!(lab.spec_tile(p1) matches Tile::Unassigned));
        assert(lab.spec_tile(p1) matches Tile::Tunnel(_));
        let rest = path.drop_first();
        assert(rest[0] == p1);
        assert(p1 != start) by {
            assert(rest.contains(rest[0]));
        }
        assert(!rest.drop_first().contains(start)) by {
            if rest.drop_first().contains(start) {
                let w = choose|w: int|
                    0 <= w < rest.drop_first().len() && rest.drop_first()[w] == start;
                assert(rest[w + 1] == start);
            }
        }
        assert(forall|i: int|
            0 <= i < rest.len() - 1 ==> spec_adjacent(#[trigger] rest[i], rest[i + 1]));
        assert(forall|i: int| 0 <= i < rest.len() ==> lab.in_bounds(#[trigger] rest[i]));
        assert(forall|i: int|
            0 <= i < rest.len() - 1 ==> !(#[trigger] lab.spec_tile(rest[i])
                matches Tile::Room(_)));
        assert(lab.spec_tile(rest.last()) == Tile::Room(id));
        lemma_path_connected(lab, conn, start, dir, rest, id);
    }
}

/// The reachability law: after carving, every room that can be reached
/// from the start cell — along a duplicate-free path of cardinally
/// adjacent in-grid non-room cells that leaves the start in the carve's
/// initial direction — has its connectivity flag set.
///
/// The hypotheses are exactly what `carve_tunnels` ensures of its final
/// grid and flags, so the law applies to every carved labyrinth.
pub proof fn lemma_reachable_room_connected(
    lab: Labyrinth,
    conn: Seq<bool>,
    start: Vector,
    dir: Direction,
    path: Seq<Vector>,
    id: usize,
)
    requires
        lab.wf(),
        rooms_ok(lab, conn),
        closed_from(lab, conn, start, dir),
        lab.spec_tile(start) matches Tile::Tunnel(_),
        path.len() >= 2,
        path[0] == start,
        path[1] == spec_step(start, dir),
        path.no_duplicates(),
        forall|i: int| 0 <= i < path.len() - 1 ==> spec_adjacent(#[trigger] path[i], path[i + 1]),
        forall|i: int| 0 <= i < path.len() ==> lab.in_bounds(#[trigger] path[i]),
        forall|i: int|
            0 <= i < path.len() - 1 ==> !(#[trigger] lab.spec_tile(path[i]) matches Tile::Room(_)),
        lab.spec_tile(path.last()) == Tile::Room(id),
    ensures
        id < conn.len() && conn[id as int],
{
    assert(!path.drop_first().contains(start)) by {
        if path.drop_first().contains(start) {
            let w = choose|w: int| 0 <= w < path.drop_first().len() && path.drop_first()[w] == start;
            assert(path[w + 1] == start);
            assert(path[0] == start);
        }
    }
    lemma_path_connected(lab, conn, start, dir, path, id);
}

/// From any position of a connected-growth log, a path of logged cells,
/// adjacent step by step, leads from the log's first cell to it.
proof fn lemma_log_path(log: Seq<Vector>, i: int) -> (path: Seq<Vector>)
    requires
        log_connected(log),
        0 <= i < log.len(),
    ensures
        path.len() >= 1,
        path[0] == log[0],
        path.last() == log[i],
        forall|k: int| 0 <= k < path.len() ==> log.contains(#[trigger] path[k]),
        forall|k: int| 0 <= k < path.len() - 1 ==> spec_adjacent(#[trigger] path[k], path[k + 1]),
    decreases i,
{
    if i == 0 {
        let path = seq![log[0]];
        assert(log.contains(path[0]));
        path
    } else {
        assert(has_earlier_neighbor(log, i));
        let j = choose|j: int| 0 <= j < i && spec_adjacent(#[trigger] log[j], log[i]);
        let prefix = lemma_log_path(log, j);
        let path = prefix.push(log[i]);
        assert(log.contains(log[i]));
        assert forall|k: int| 0 <= k < path.len() implies log.contains(#[trigger] path[k]) by {
            if k < prefix.len() {
                assert(path[k] == prefix[k]);
            } else {
                assert(path[k] == log[i]);
            }
        }
        assert forall|k: int| 0 <= k < path.len() - 1 implies spec_adjacent(
            #[trigger] path[k],
            path[k + 1],
        ) by {
            if k < prefix.len() - 1 {
                assert(path[k] == prefix[k] && path[k + 1] == prefix[k + 1]);
            } else {
                assert(path[k] == prefix.last() && path[k + 1] == log[i]);
                assert(spec_adjacent(log[j], log[i]));
            }
        }
        path
    }
}

/// A path witnessing that room `id` was reached: it leaves the start,
/// proceeds through cardinally adjacent in-grid cells that are carved —
/// corridors or connected-room cells, all of them unassigned or room
/// cells before carving — and ends inside the room.
pub open spec fn reaches_room(
    lab: Labyrinth,
    conn: Seq<bool>,
    path: Seq<Vector>,
    start: Vector,
    id: usize,
) -> bool {
    &&& path.len() >= 2
    &&& path[0] == start
    &&& lab.spec_tile(path.last()) == Tile::Room(id)
    &&& (forall|k: int| 0 <= k < path.len() ==> lab.in_bounds(#[trigger] path[k]))
    &&& (forall|k: int| 0 <= k < path.len() - 1 ==> spec_adjacent(#[trigger] path[k], path[k + 1]))
    &&& (forall|k: int|
        0 <= k < path.len() - 1 ==> match lab.spec_tile(#[trigger] path[k]) {
            Tile::Tunnel(_) => true,
            Tile::Room(rid) => rid < conn.len() && conn[rid as int],
            Tile::Unassigned => false,
        })
}

/// The other half of the reachability law: every room whose flag the
/// carver set is genuinely reachable — some path of carved cells links the
/// start to it. The hypotheses are what `carve_tunnels` ensures of its
/// final state and ghost log.
pub proof fn lemma_connected_room_reachable(
    lab0: Labyrinth,
    conn0: Seq<bool>,
    lab: Labyrinth,
    conn: Seq<bool>,
    log: Seq<Vector>,
    start: Vector,
    id: usize,
)
    requires
        carve_state_ok(lab0, conn0, lab, conn, log, start),
        id < conn.len(),
        conn[id as int],
        !conn0[id as int],
    ensures
        exists|path: Seq<Vector>| #[trigger] reaches_room(lab, conn, path, start, id),
{
    assert(room_touched(lab, id as int));
    let (p, d) = choose|p: Vector, d: Direction|
        #![auto]
        lab.in_bounds(p) && (lab.spec_tile(p) matches Tile::Tunnel(_)) && lab.in_bounds(
            spec_step(p, d),
        ) && lab.spec_tile(spec_step(p, d)) == Tile::Room(id);
    assert(log.contains(p));
    let i = choose|i: int| 0 <= i < log.len() && log[i] == p;
    let base = lemma_log_path(log, i);
    let r = spec_step(p, d);
    let path = base.push(r);
    assert(d != Direction::Stay) by {
        if d == Direction::Stay {
            assert(spec_step(p, Direction::Stay) == p);
        }
    }
    assert(path[0] == base[0] && base[0] == log[0] && log[0] == start);
    assert(path.last() == r);
    assert forall|k: int| 0 <= k < path.len() implies lab.in_bounds(#[trigger] path[k]) by {
        if k < base.len() {
            assert(path[k] == base[k]);
            assert(log.contains(base[k]));
            let w = choose|w: int| 0 <= w < log.len() && log[w] == base[k];
            assert(lab.in_bounds(log[w]));
        } else {
            assert(path[k] == r);
        }
    }
    assert forall|k: int| 0 <= k < path.len() - 1 implies spec_adjacent(
        #[trigger] path[k],
        path[k + 1],
    ) by {
        if k < base.len() - 1 {
            assert(path[k] == base[k] && path[k + 1] == base[k + 1]);
        } else {
            assert(path[k] == base.last() && base.last() == p && path[k + 1] == r);
            assert(r == spec_step(p, d));
            assert(spec_adjacent(p, r));
        }
    }
    assert forall|k: int| 0 <= k < path.len() - 1 implies match lab.spec_tile(
        #[trigger] path[k],
    ) {
        Tile::Tunnel(_) => true,
        Tile::Room(rid) => rid < conn.len() && conn[rid as int],
        Tile::Unassigned => false,
    } by {
        assert(path[k] == base[k]);
        assert(log.contains(base[k]));
        let w = choose|w: int| 0 <= w < log.len() && log[w] == base[k];
        assert(lab.in_bounds(log[w]));
    }
    assert(lab.spec_tile(start) matches Tile::Tunnel(_));
    assert(path.len() >= 2);
    assert(reaches_room(lab, conn, path, start, id));
}

} // verus!
