use labyrinth::area::Area;
use labyrinth::coord::Coord;
use labyrinth::direction::{Direction, DirectionSet};
use labyrinth::tile::Tile;
use labyrinth::vector::Vector;

#[test]
fn vector_new_and_arithmetic() {
    let a = Vector::new(3, -4);
    let b = Vector::new(10, 7);
    assert_eq!(a.x, 3);
    assert_eq!(a.y, -4);
    let s = a.add(b);
    assert_eq!(s, Vector::new(13, 3));
    let d = b.sub(a);
    assert_eq!(d, Vector::new(7, 11));
}

#[test]
fn vector_to_string_renders_signed_components() {
    assert_eq!(Vector::new(3, -12).to_string(), "(3, -12)");
    assert_eq!(Vector::new(0, 2147483647).to_string(), "(0, 2147483647)");
    assert_eq!(Vector::new(-2147483648, 10).to_string(), "(-2147483648, 10)");
}

#[test]
fn coord_to_string_renders_unsigned_components() {
    assert_eq!(Coord { x: 0, y: 9 }.to_string(), "(0, 9)");
    assert_eq!(Coord { x: 4294967295, y: 100 }.to_string(), "(4294967295, 100)");
}

#[test]
fn area_dimensions_enlarge_crop_contains() {
    let a = Area::new(2, 3, 5, 9);
    let dims = a.dimensions();
    assert_eq!(dims, Vector::new(4, 7));
    let big = a.enlarge(1);
    assert_eq!(big, Area::new(1, 2, 6, 10));
    let grid = Area::new(0, 0, 4, 4);
    let clipped = big.crop(&grid);
    assert_eq!(clipped, Area::new(1, 2, 4, 4));
    assert!(a.contains(&Vector::new(2, 3)));
    assert!(a.contains(&Vector::new(5, 9)));
    assert!(!a.contains(&Vector::new(6, 9)));
    assert!(!a.contains(&Vector::new(2, 2)));
}

#[test]
fn area_to_string_renders_both_corners() {
    let a = Area::new(0, 0, 2, 5);
    assert_eq!(a.to_string(), "[(0, 0) - (2, 5)]");
    let b = Area::new(-1, -2, 3, 4);
    assert_eq!(b.to_string(), "[(-1, -2) - (3, 4)]");
}

#[test]
fn direction_inverse_and_unit_vectors() {
    assert_eq!(Direction::Left.inverse(), Direction::Right);
    assert_eq!(Direction::Right.inverse(), Direction::Left);
    assert_eq!(Direction::Up.inverse(), Direction::Down);
    assert_eq!(Direction::Down.inverse(), Direction::Up);
    assert_eq!(Direction::Stay.inverse(), Direction::Stay);
    assert_eq!(Direction::Left.to_unit_vector(), Vector::new(-1, 0));
    assert_eq!(Direction::Right.to_unit_vector(), Vector::new(1, 0));
    assert_eq!(Direction::Up.to_unit_vector(), Vector::new(0, -1));
    assert_eq!(Direction::Down.to_unit_vector(), Vector::new(0, 1));
    assert_eq!(Direction::Stay.to_unit_vector(), Vector::new(0, 0));
}

#[test]
fn direction_set_membership() {
    let s = DirectionSet::new();
    assert!(!s.left());
    assert!(!s.right());
    assert!(!s.up());
    assert!(!s.down());
    let s = s.set_left();
    assert!(s.left());
    assert!(!s.right());
    let s = s.set_down();
    assert!(s.left());
    assert!(s.down());
    assert!(!s.up());
    // insertion is idempotent
    let t = s.set_left();
    assert_eq!(t, s);
    assert!(s.has_dir(Direction::Left));
    assert!(!s.has_dir(Direction::Up));
    assert!(!s.has_dir(Direction::Stay));
}

#[test]
fn direction_set_enumeration() {
    let s = DirectionSet::new().set_down().set_left();
    let dirs = s.directions();
    assert_eq!(dirs, vec![Direction::Left, Direction::Down]);
    let all = DirectionSet::new().set_left().set_right().set_up().set_down();
    assert_eq!(
        all.directions(),
        vec![Direction::Left, Direction::Right, Direction::Up, Direction::Down]
    );
    assert_eq!(DirectionSet::new().directions(), Vec::<Direction>::new());
}

#[test]
fn direction_set_glyph_table() {
    let glyphs = [
        ' ', '←', '→', '─', '↑', '┘', '└', '┴', '↓', '┐', '┌', '┬', '│', '┤', '├', '┼',
    ];
    for (bits, glyph) in glyphs.iter().enumerate() {
        assert_eq!(DirectionSet(bits as u32).to_char(), *glyph);
    }
    assert_eq!(DirectionSet(16).to_char(), '?');
}

#[test]
fn direction_set_combined_glyph() {
    // up, down and right combine into the left-open tee
    let h = DirectionSet::new().set_up().set_down().set_right();
    assert_eq!(h.to_char(), '├');
}

#[test]
fn tile_to_char_shows_ids_and_glyphs() {
    assert_eq!(Tile::Unassigned.to_char(), '?');
    assert_eq!(Tile::Room(0).to_char(), '0');
    assert_eq!(Tile::Room(9).to_char(), '9');
    assert_eq!(Tile::Room(10).to_char(), 'X');
    assert_eq!(Tile::Room(123456).to_char(), 'X');
    assert_eq!(Tile::Tunnel(DirectionSet::new().set_left().set_right()).to_char(), '─');
    assert_eq!(Tile::Tunnel(DirectionSet::new()).to_char(), ' ');
}
