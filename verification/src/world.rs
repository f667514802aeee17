//! A toy game world around the grid: players joining a session and a
//! small rendered view of the map. A thin consumer of the generator, kept
//! apart from it.

use vstd::prelude::*;

use crate::display;

verus! {

/// The world map's fixed extent per axis.
pub const WORLD_SIDE: usize = 40;

/// How many cells per axis the player view shows.
pub const VIEW_SIDE: usize = 10;

/// A cell of the world map.
#[derive(Clone, Copy, PartialEq, Eq, Structural, Debug)]
pub enum Tile {
    Wall,
    Floor,
}

impl Tile {
    /// The display character of the cell.
    pub open spec fn spec_render(self) -> char {
        match self {
            Tile::Wall => '▓',
            Tile::Floor => ' ',
        }
    }

    pub fn render(&self) -> (c: char)
        ensures
            c == self.spec_render(),
    {
        match self {
            Tile::Wall => '▓',
            Tile::Floor => ' ',
        }
    }
}

/// A player of a session, known by its id.
#[derive(Clone, Copy, PartialEq, Eq, Structural, Debug)]
pub struct Player {
    id: u32,
}

impl Player {
    pub closed spec fn spec_id(self) -> u32 {
        self.id
    }

    pub fn new(id: u32) -> (p: Player)
        ensures
            p.spec_id() == id,
    {
        Player { id }
    }

    pub fn get_id(&self) -> (id: u32)
        ensures
            id == self.spec_id(),
    {
        self.id
    }
}

/// One game session: its players and its map, a `WORLD_SIDE` by
/// `WORLD_SIDE` field of walls with a single floor cell near the corner.
pub struct World {
    players: Vec<Player>,
    last_player_id: u32,
    map: Vec<Tile>,
}

impl World {
    pub closed spec fn spec_map(self) -> Seq<Tile> {
        self.map@
    }

    pub closed spec fn spec_players(self) -> Seq<Player> {
        self.players@
    }

    pub closed spec fn spec_last_id(self) -> u32 {
        self.last_player_id
    }

    /// The map holds exactly one row-major buffer of the fixed extent.
    pub open spec fn wf(self) -> bool {
        self.spec_map().len() == WORLD_SIDE * WORLD_SIDE
    }

    /// A fresh world: no players, all walls but one floor cell at (1, 1).
    pub fn new() -> (w: World)
        ensures
            w.wf(),
            w.spec_players().len() == 0,
            w.spec_last_id() == 0,
            forall|i: int|
                0 <= i < w.spec_map().len() ==> w.spec_map()[i] == (if i == WORLD_SIDE + 1 {
                    Tile::Floor
                } else {
                    Tile::Wall
                }),
    {
        let mut map = vec![Tile::Wall; WORLD_SIDE * WORLD_SIDE];
        map[WORLD_SIDE + 1] = Tile::Floor;
        World { players: Vec::new(), last_player_id: 0, map }
    }

    /// Add a player under the next id and return it.
    pub fn new_player(&mut self) -> (p: &Player)
        requires
            old(self).spec_last_id() < u32::MAX,
        ensures
            p.spec_id() == old(self).spec_last_id() + 1,
            final(self).spec_last_id() == old(self).spec_last_id() + 1,
            final(self).spec_players() == old(self).spec_players().push(*p),
            final(self).spec_map() == old(self).spec_map(),
    {
        self.last_player_id = self.last_player_id + 1;
        let player = Player::new(self.last_player_id);
        self.players.push(player);
        let idx = self.players.len() - 1;
        &self.players[idx]
    }

    /// One rendered row of the view: the cells `map[x][0]` through
    /// `map[x][VIEW_SIDE - 1]`, ended by a newline.
    pub open spec fn spec_view_row(self, x: int) -> Seq<char> {
        Seq::new(VIEW_SIDE as nat, |y: int| self.spec_map()[x * WORLD_SIDE + y].spec_render()).push(
            '\n',
        )
    }

    /// The first `rows` rendered rows of the view, concatenated.
    pub open spec fn spec_view(self, rows: int) -> Seq<char>
        decreases rows,
    {
        if rows <= 0 {
            Seq::empty()
        } else {
            self.spec_view(rows - 1) + self.spec_view_row(rows - 1)
        }
    }

    /// Render the `VIEW_SIDE` by `VIEW_SIDE` corner of the map that a
    /// player is shown.
    pub fn render_for_player(&self) -> (s: String)
        requires
            self.wf(),
        ensures
            s@ == self.spec_view(VIEW_SIDE as int),
    {
        let mut out: Vec<char> = Vec::new();
        let mut x: usize = 0;
        while x < VIEW_SIDE
            invariant
                self.wf(),
                x <= VIEW_SIDE,
                out@ == self.spec_view(x as int),
            decreases VIEW_SIDE - x,
        {
            let mut y: usize = 0;
            proof {
                assert(out@ =~= self.spec_view(x as int) + Seq::new(
                    0,
                    |i: int| self.spec_map()[x * WORLD_SIDE + i].spec_render(),
                ));
            }
            while y < VIEW_SIDE
                invariant
                    self.wf(),
                    x < VIEW_SIDE,
                    y <= VIEW_SIDE,
                    out@ == self.spec_view(x as int) + Seq::new(
                        y as nat,
                        |i: int| self.spec_map()[x * WORLD_SIDE + i].spec_render(),
                    ),
                decreases VIEW_SIDE - y,
            {
                let t = self.map[x * WORLD_SIDE + y];
                out.push(t.render());
                proof {
                    assert(out@ =~= self.spec_view(x as int) + Seq::new(
                        (y + 1) as nat,
                        |i: int| self.spec_map()[x * WORLD_SIDE + i].spec_render(),
                    ));
                }
                y = y + 1;
            }
            out.push('\n');
            proof {
                assert(out@ =~= self.spec_view((x + 1) as int));
            }
            x = x + 1;
        }
        display::chars_to_string(&out)
    }
}

} // verus!
