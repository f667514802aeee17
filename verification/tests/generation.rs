use labyrinth::area::Area;
use labyrinth::direction::Direction;
use labyrinth::labyrinth::{GenError, Labyrinth};
use labyrinth::random::RandomSource;
use labyrinth::tile::Tile;
use labyrinth::vector::Vector;
use labyrinth::{generate, Config};

fn at(lab: &Labyrinth, x: i32, y: i32) -> Tile {
    lab.get(Vector::new(x, y))
}

/// Every set direction bit of a corridor cell whose neighbor lies in the
/// grid must point at a room or at a corridor cell holding the inverse
/// bit.
fn assert_symmetric(lab: &Labyrinth) {
    let dirs = [Direction::Left, Direction::Right, Direction::Up, Direction::Down];
    for x in 0..lab.width as i32 {
        for y in 0..lab.height as i32 {
            if let Tile::Tunnel(ds) = at(lab, x, y) {
                for d in dirs.iter() {
                    if ds.has_dir(*d) {
                        let u = d.to_unit_vector();
                        let (nx, ny) = (x + u.x, y + u.y);
                        if nx >= 0 && ny >= 0 && nx < lab.width as i32 && ny < lab.height as i32 {
                            match at(lab, nx, ny) {
                                Tile::Tunnel(ds2) => assert!(ds2.has_dir(d.inverse())),
                                Tile::Room(_) => {}
                                Tile::Unassigned => {
                                    panic!("bit points at an unassigned cell")
                                }
                            }
                        }
                    }
                }
            }
        }
    }
}

#[test]
fn fixed_example_places_two_rooms_and_connects_both() {
    // the draws put one 3x3 room near the top-left corner and another near
    // the bottom-right one
    let src_draws: Vec<u64> = vec![1, 1, 0, 0, 6, 6, 0, 0];
    let mut src = RandomSource::from_draws(src_draws);
    let config = Config {
        width: 10,
        height: 10,
        room_count: 2,
        min_size: Vector::new(3, 3),
        max_size: Vector::new(5, 5),
        start: Vector::new(0, 0),
        start_dir: Direction::Down,
    };
    let (lab, rooms, connected) = generate(&config, &mut src).unwrap();
    assert_eq!(rooms.len(), 2);
    assert_eq!(rooms[0], Area::new(1, 1, 3, 3));
    assert_eq!(rooms[1], Area::new(6, 6, 8, 8));
    // both rooms are between 3x3 and 5x5
    for room in rooms.iter() {
        let dims = room.dimensions();
        assert!(3 <= dims.x && dims.x <= 5);
        assert!(3 <= dims.y && dims.y <= 5);
    }
    // room ids are the contiguous sequence 0, 1: each room's cells carry
    // exactly its list position, and no other id occurs on the grid
    for (id, room) in rooms.iter().enumerate() {
        for x in room.min.x..=room.max.x {
            for y in room.min.y..=room.max.y {
                assert_eq!(at(&lab, x, y), Tile::Room(id));
            }
        }
    }
    for x in 0..10 {
        for y in 0..10 {
            if let Tile::Room(id) = at(&lab, x, y) {
                assert!(id < rooms.len());
                assert!(rooms[id].contains(&Vector::new(x, y)));
            }
        }
    }
    // the enlarged bounding area of either room misses the other room
    for i in 0..rooms.len() {
        for j in 0..rooms.len() {
            if i != j {
                let margin = rooms[i].enlarge(1);
                for x in rooms[j].min.x..=rooms[j].max.x {
                    for y in rooms[j].min.y..=rooms[j].max.y {
                        assert!(!margin.contains(&Vector::new(x, y)));
                    }
                }
            }
        }
    }
    // the carved network is symmetric and reaches both rooms
    assert_symmetric(&lab);
    assert_eq!(connected, vec![true, true]);
}

#[test]
fn unreachable_room_stays_unconnected() {
    // the first room spans the full second row and seals the rows below it
    // from the start at the top-left corner; the second room sits below
    let draws: Vec<u64> = vec![0, 1, 4, 0, 0, 3, 1, 1];
    let mut src = RandomSource::from_draws(draws);
    let config = Config {
        width: 5,
        height: 5,
        room_count: 2,
        min_size: Vector::new(1, 1),
        max_size: Vector::new(5, 5),
        start: Vector::new(0, 0),
        start_dir: Direction::Right,
    };
    let (lab, rooms, connected) = generate(&config, &mut src).unwrap();
    assert_eq!(rooms.len(), 2);
    assert_eq!(rooms[0], Area::new(0, 1, 4, 1));
    assert_eq!(rooms[1], Area::new(0, 3, 1, 4));
    // the top row is carved up to the wall, the sealed room stays cut off
    assert_eq!(connected, vec![true, false]);
    assert_symmetric(&lab);
    let expected = "────┐\n00000\n?????\n11???\n11???\n";
    assert_eq!(lab.to_string(), expected);
}

#[test]
fn carved_corridors_form_a_tree() {
    // carving an empty grid produces a spanning tree of the whole grid:
    // the number of corridor-to-corridor links is one less than the number
    // of corridor cells
    let mut src = RandomSource::from_draws(vec![7, 3, 5, 1, 2, 9, 4, 8]);
    let config = Config {
        width: 4,
        height: 4,
        room_count: 0,
        min_size: Vector::new(1, 1),
        max_size: Vector::new(1, 1),
        start: Vector::new(0, 0),
        start_dir: Direction::Down,
    };
    let (lab, rooms, _connected) = generate(&config, &mut src).unwrap();
    assert!(rooms.is_empty());
    assert_symmetric(&lab);
    let dirs = [Direction::Left, Direction::Right, Direction::Up, Direction::Down];
    let mut cells = 0;
    let mut half_links = 0;
    for x in 0..4 {
        for y in 0..4 {
            if let Tile::Tunnel(ds) = at(&lab, x, y) {
                cells += 1;
                for d in dirs.iter() {
                    if ds.has_dir(*d) {
                        let u = d.to_unit_vector();
                        let (nx, ny) = (x + u.x, y + u.y);
                        if nx >= 0 && ny >= 0 && nx < 4 && ny < 4 {
                            if let Tile::Tunnel(_) = at(&lab, nx, ny) {
                                half_links += 1;
                            }
                        }
                    }
                }
            }
        }
    }
    // an exhausted frontier leaves no unassigned cell next to a corridor,
    // so the whole empty grid is carved
    assert_eq!(cells, 16);
    assert_eq!(half_links % 2, 0);
    assert_eq!(half_links / 2, cells - 1);
}

#[test]
fn one_by_one_grid_has_no_rooms_and_carving_ends_at_once() {
    let mut src = RandomSource::from_draws(vec![]);
    let config = Config {
        width: 1,
        height: 1,
        room_count: 0,
        min_size: Vector::new(1, 1),
        max_size: Vector::new(1, 1),
        start: Vector::new(0, 0),
        start_dir: Direction::Down,
    };
    let (lab, rooms, connected) = generate(&config, &mut src).unwrap();
    assert!(rooms.is_empty());
    assert!(connected.is_empty());
    // the single cell records only the entry direction, pointing back out
    assert_eq!(lab.to_string(), "↑\n");
}

#[test]
fn zero_room_count_places_no_rooms() {
    let mut src = RandomSource::from_draws(vec![1, 2, 3, 4]);
    let config = Config {
        width: 10,
        height: 10,
        room_count: 0,
        min_size: Vector::new(3, 3),
        max_size: Vector::new(5, 5),
        start: Vector::new(0, 0),
        start_dir: Direction::Down,
    };
    let (lab, rooms, connected) = generate(&config, &mut src).unwrap();
    assert!(rooms.is_empty());
    assert!(connected.is_empty());
    for x in 0..10 {
        for y in 0..10 {
            match at(&lab, x, y) {
                Tile::Room(_) => panic!("no room may be placed"),
                _ => {}
            }
        }
    }
}

#[test]
fn min_size_above_max_size_is_rejected() {
    let mut src = RandomSource::from_draws(vec![]);
    let config = Config {
        width: 10,
        height: 10,
        room_count: 1,
        min_size: Vector::new(4, 3),
        max_size: Vector::new(3, 5),
        start: Vector::new(0, 0),
        start_dir: Direction::Down,
    };
    assert!(matches!(generate(&config, &mut src), Err(GenError::InvalidConfiguration)));
}

#[test]
fn max_size_beyond_grid_is_rejected() {
    let mut src = RandomSource::from_draws(vec![]);
    let config = Config {
        width: 10,
        height: 4,
        room_count: 1,
        min_size: Vector::new(3, 3),
        max_size: Vector::new(5, 5),
        start: Vector::new(0, 0),
        start_dir: Direction::Down,
    };
    assert!(matches!(generate(&config, &mut src), Err(GenError::InvalidConfiguration)));
}

#[test]
fn start_outside_the_grid_is_rejected() {
    let mut src = RandomSource::from_draws(vec![]);
    let config = Config {
        width: 10,
        height: 10,
        room_count: 1,
        min_size: Vector::new(3, 3),
        max_size: Vector::new(5, 5),
        start: Vector::new(10, 0),
        start_dir: Direction::Down,
    };
    assert!(matches!(generate(&config, &mut src), Err(GenError::InvalidConfiguration)));
}

#[test]
fn start_without_a_direction_is_rejected() {
    let mut src = RandomSource::from_draws(vec![]);
    let config = Config {
        width: 10,
        height: 10,
        room_count: 1,
        min_size: Vector::new(3, 3),
        max_size: Vector::new(5, 5),
        start: Vector::new(0, 0),
        start_dir: Direction::Stay,
    };
    assert!(matches!(generate(&config, &mut src), Err(GenError::InvalidConfiguration)));
}

#[test]
fn zero_width_grid_is_rejected() {
    let mut src = RandomSource::from_draws(vec![]);
    let config = Config {
        width: 0,
        height: 10,
        room_count: 0,
        min_size: Vector::new(1, 1),
        max_size: Vector::new(1, 1),
        start: Vector::new(0, 0),
        start_dir: Direction::Down,
    };
    assert!(matches!(generate(&config, &mut src), Err(GenError::InvalidConfiguration)));
}

#[test]
fn colliding_draws_place_fewer_rooms() {
    // four attempts with identical draws: only the first can be kept
    let draws: Vec<u64> = vec![1, 1, 0, 0, 1, 1, 0, 0, 1, 1, 0, 0, 1, 1, 0, 0];
    let mut src = RandomSource::from_draws(draws);
    let mut lab = Labyrinth::new(10, 10);
    let rooms = lab
        .place_rooms(&mut src, 4, &Vector::new(3, 3), &Vector::new(5, 5))
        .unwrap();
    assert_eq!(rooms.len(), 1);
    assert_eq!(rooms[0], Area::new(1, 1, 3, 3));
}

#[test]
fn fresh_grid_is_fully_unassigned() {
    let lab = Labyrinth::new(6, 3);
    assert_eq!(lab.to_string(), "??????\n??????\n??????\n");
}
