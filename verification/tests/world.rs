use labyrinth::roomat::{too_strong, Room};
use labyrinth::world::{Player, Tile, World};

#[test]
fn world_tile_render() {
    assert_eq!(Tile::Wall.render(), '▓');
    assert_eq!(Tile::Floor.render(), ' ');
}

#[test]
fn player_keeps_its_id() {
    let p = Player::new(7);
    assert_eq!(p.get_id(), 7);
}

#[test]
fn new_players_get_sequential_ids() {
    let mut w = World::new();
    let first = w.new_player().get_id();
    assert_eq!(first, 1);
    let second = w.new_player().get_id();
    assert_eq!(second, 2);
    let third = w.new_player().get_id();
    assert_eq!(third, 3);
}

#[test]
fn rendered_view_shows_the_single_floor_cell() {
    let w = World::new();
    let view = w.render_for_player();
    let mut expected = String::new();
    for x in 0..10 {
        for y in 0..10 {
            if x == 1 && y == 1 {
                expected.push(' ');
            } else {
                expected.push('▓');
            }
        }
        expected.push('\n');
    }
    assert_eq!(view, expected);
}

#[test]
fn room_constraints_are_kept() {
    // the constructor stores both constraints; nothing observable beyond
    // construction succeeding and the value being copyable
    let r = Room::new(9, 3);
    let copy = r;
    assert_eq!(r, copy);
}

#[test]
fn too_strong_greets() {
    assert_eq!(too_strong(), "Hi!");
}
