use bomberman::map::box_removed;
use bomberman::direction::Direction;
use bomberman::map::{GameMap, MapElement, MapSettings, MapType, SpawnPoint};

fn small_map(rows: &[&str]) -> GameMap {
    let text = rows.join("\n");
    GameMap::from_level_text(&text).unwrap().map
}

#[test]
fn corners_map_layout() {
    let map = GameMap::new(MapSettings::corners()).unwrap();
    assert_eq!(map.width, 17);
    assert_eq!(map.height, 17);
    // The wall surrounds the map.
    for i in 0..17 {
        assert_eq!(map.get_elem(i, 0), MapElement::Unbreakable);
        assert_eq!(map.get_elem(0, i), MapElement::Unbreakable);
        assert_eq!(map.get_elem(i, 16), MapElement::Unbreakable);
        assert_eq!(map.get_elem(16, i), MapElement::Unbreakable);
    }
    // Pillars where both inner coordinates are odd.
    assert_eq!(map.get_elem(2, 2), MapElement::Unbreakable);
    assert_eq!(map.get_elem(4, 6), MapElement::Unbreakable);
    // The corners are cleared for the players.
    assert_eq!(map.get_elem(1, 1), MapElement::Empty);
    assert_eq!(map.get_elem(2, 1), MapElement::Empty);
    assert_eq!(map.get_elem(1, 2), MapElement::Empty);
    assert_eq!(map.get_elem(15, 15), MapElement::Empty);
    let spawns: Vec<(i32, i32)> = map.spawns.iter().map(|s| (s.x, s.y)).collect();
    assert_eq!(spawns, vec![(1, 1), (15, 1), (1, 15), (15, 15)]);
    assert_eq!(map.spawns[0].direction, Direction::Right);
    assert_eq!(map.spawns[1].direction, Direction::Left);
}

#[test]
fn arena_map_has_ten_spawns() {
    let map = GameMap::new(MapSettings::arena()).unwrap();
    assert_eq!(map.spawns.len(), 10);
    for s in map.spawns.iter() {
        assert_eq!(map.get_elem(s.x as usize, s.y as usize), MapElement::Empty);
    }
}

#[test]
fn teams_map_has_eight_spawns() {
    let settings = MapSettings::teams();
    let map = GameMap::new(settings).unwrap();
    assert_eq!(map.spawns.len(), 8);
    assert_eq!(map.width, settings.width as usize + 2);
    assert_eq!(map.height, settings.height as usize + 2);
    // The corners hold boxes between the teams.
    assert_eq!(map.get_elem(1, 1), MapElement::Breakable);
}

#[test]
fn random_map_without_attempts_fails() {
    let mut settings = MapSettings::default_cheese();
    settings.map_type = MapType::Random;
    settings.attempts = 0;
    assert!(MapSettings::new_map(settings).is_none());
}

#[test]
fn default_map_settings_are_corners() {
    let d = MapSettings::default();
    assert_eq!(d, MapSettings::corners());
    assert_eq!(d.width, 15);
    assert_eq!(d.map_type, MapType::Corners);
    assert!(d.walls);
}

#[test]
fn get_and_set_elem() {
    let mut map = small_map(&["XXXX", "X  X", "XXXX"]);
    assert_eq!(map.get_elem(1, 1), MapElement::Empty);
    assert_eq!(map.get_elem(10, 1), MapElement::Empty);
    assert_eq!(map.get_elem_pos(-1, 1), MapElement::Empty);
    assert_eq!(map.set_elem(2, 1, MapElement::Breakable), Ok(()));
    assert_eq!(map.get_elem(2, 1), MapElement::Breakable);
    assert_eq!(map.set_elem(4, 1, MapElement::Breakable), Err(()));
    assert_eq!(map.set_elem_pos(-3, 0, MapElement::Empty), Err(()));
    assert_eq!(map.set_elem_pos(1, 1, MapElement::Exit), Ok(()));
    assert_eq!(map.get_elem_pos(1, 1), MapElement::Exit);
    assert!(map.is_walkable_tile(1, 1));
    assert!(!map.is_walkable_tile(2, 1));
    assert!(!map.is_walkable_tile(-1, 1));
}

#[test]
fn level_text_is_read() {
    let level = GameMap::from_level_text("XXXXX\nXP EX\nX#O X\nXXXXX").unwrap();
    assert_eq!(level.map.width, 5);
    assert_eq!(level.map.height, 4);
    assert_eq!(level.player_spawn, (1, 1));
    assert_eq!(level.enemy_spawns, vec![(3, 1)]);
    assert_eq!(level.exit_pos, (2, 2));
    // The exit hides under a box.
    assert_eq!(level.map.get_elem(2, 2), MapElement::Breakable);
    assert_eq!(level.map.get_elem(1, 2), MapElement::Breakable);
    assert_eq!(level.map.get_elem(0, 0), MapElement::Unbreakable);
    assert_eq!(level.map.get_elem(1, 1), MapElement::Empty);
    assert_eq!(level.map.spawns.len(), 1);
    assert_eq!((level.map.spawns[0].x, level.map.spawns[0].y), (1, 1));
}

#[test]
fn short_lines_are_padded_with_empty_tiles() {
    let level = GameMap::from_level_text("XXX\nX\nXXX").unwrap();
    assert_eq!(level.map.width, 3);
    assert_eq!(level.map.get_elem(1, 1), MapElement::Empty);
    assert_eq!(level.map.get_elem(2, 1), MapElement::Empty);
    // Without a player mark the player starts at the origin.
    assert_eq!(level.player_spawn, (0, 0));
}

#[test]
fn empty_level_text_is_refused() {
    assert!(GameMap::from_level_text("").is_none());
}

#[test]
fn debug_display_reads_back() {
    let map = GameMap::new(MapSettings::corners()).unwrap();
    let text = map.to_str();
    assert_eq!(text.lines().count(), 17);
    assert!(text.starts_with("XXXXXXXXXXXXXXXXX\nX  "));
    let back = GameMap::from_level_text(&text).unwrap().map;
    assert_eq!(back.width, map.width);
    assert_eq!(back.height, map.height);
    for y in 0..map.height {
        for x in 0..map.width {
            assert_eq!(back.get_elem(x, y), map.get_elem(x, y));
        }
    }
}

#[test]
fn element_characters() {
    assert_eq!(MapElement::Empty.value(), ' ');
    assert_eq!(MapElement::Breakable.value(), '#');
    assert_eq!(MapElement::Unbreakable.value(), 'X');
    assert_eq!(MapElement::Exit.value(), 'O');
}

#[test]
fn neighbours_in_direction_order() {
    let map = small_map(&["XXXXX", "X   X", "X # X", "XXXXX"]);
    assert_eq!(map.get_neighbours(2, 1), vec![(1, 1), (3, 1)]);
    assert_eq!(map.get_neighbours(1, 1), vec![(1, 2), (2, 1)]);
    // Tiles outside the map count as empty.
    assert_eq!(map.get_neighbours(0, 0), vec![(0, -1), (-1, 0)]);
}

#[test]
fn spawn_point_position() {
    let s = SpawnPoint::init(3, 4);
    assert_eq!((s.x, s.y), (3, 4));
    assert_eq!(s.position(), (3500, 4500));
}

#[test]
fn random_empty_tile_keeps_away() {
    let map = small_map(&["XXXXX", "X   X", "X   X", "X   X", "XXXXX"]);
    let avoid = vec![(1, 1)];
    assert_eq!(map.find_random_empty(&avoid, 2, 0), None);
    for _ in 0..20 {
        if let Some((x, y)) = map.find_random_empty(&avoid, 2, 200) {
            assert_eq!(map.get_elem(x, y), MapElement::Empty);
            let dx = x as i64 - 1;
            let dy = y as i64 - 1;
            assert!(dx * dx + dy * dy >= 4);
        }
    }
    // No empty tile lies two tiles from both.
    let far = vec![(1, 1), (2, 2)];
    assert_eq!(map.find_random_empty(&far, 2, 500), None);
}

#[test]
fn random_layout_spreads_its_spawns() {
    let mut settings = MapSettings::default_cheese();
    settings.map_type = MapType::Random;
    settings.width = 21;
    settings.height = 21;
    settings.spawns = 4;
    settings.safe_range = 3;
    settings.spawn_size = 1;
    settings.attempts = 200;
    settings.walls = true;
    let mut made = 0;
    for _ in 0..10 {
        let Some(map) = MapSettings::new_map(settings) else { continue };
        made += 1;
        assert_eq!(map.width, 23);
        assert_eq!(map.spawns.len(), 4);
        for (i, s) in map.spawns.iter().enumerate() {
            assert!(s.x >= 1 && s.x <= 21 && s.y >= 1 && s.y <= 21);
            assert_ne!(s.x % 2, s.y % 2);
            for o in map.spawns.iter().skip(i + 1) {
                assert!((s.x - o.x).abs() > 3 || (s.y - o.y).abs() > 3);
            }
            for y in s.y - 1..=s.y + 1 {
                for x in s.x - 1..=s.x + 1 {
                    assert_ne!(map.get_elem_pos(x as i64, y as i64), MapElement::Breakable);
                }
            }
        }
    }
    assert!(made > 0);
}

#[test]
fn random_empty_tile_owed_when_every_tile_suits() {
    let map = small_map(&["   ", "   ", "   "]);
    for _ in 0..20 {
        let t = map.find_random_empty(&Vec::new(), 2, 1).unwrap();
        assert!(t.0 < 3 && t.1 < 3);
    }
}

#[test]
fn random_layout_with_one_spawn_always_succeeds() {
    let mut settings = MapSettings::default_cheese();
    settings.spawns = 1;
    settings.attempts = 1;
    for _ in 0..20 {
        let map = MapSettings::new_map(settings).unwrap();
        assert_eq!(map.spawns.len(), 1);
    }
    settings.spawns = 0;
    assert_eq!(MapSettings::new_map(settings).unwrap().spawns.len(), 0);
}

#[test]
fn a_long_line_runs_on_into_the_next_row() {
    let level = GameMap::from_level_text("XXX\nXXXXX\nX").unwrap();
    assert_eq!(level.map.width, 3);
    assert_eq!(level.map.height, 3);
    assert_eq!(level.map.get_elem(2, 1), MapElement::Unbreakable);
    assert_eq!(level.map.get_elem(0, 2), MapElement::Unbreakable);
    assert_eq!(level.map.get_elem(1, 2), MapElement::Unbreakable);
    assert_eq!(level.map.get_elem(2, 2), MapElement::Empty);
    // Marks keep the place of their character in its line.
    let level = GameMap::from_level_text("   \n    E\n   ").unwrap();
    assert_eq!(level.enemy_spawns, vec![(4, 1)]);
    assert_eq!(level.map.get_elem(1, 2), MapElement::Empty);
}

#[test]
fn box_removal_rolls() {
    assert!(box_removed(1, 5));
    assert!(box_removed(5, 5));
    assert!(!box_removed(6, 5));
    assert!(!box_removed(1, 0));
    assert!(box_removed(100, 200));
}

#[test]
fn non_ascii_levels_are_read() {
    // The grid is as wide as the first line is long in bytes: "Xé" takes three.
    let level = GameMap::from_level_text("Xé\nXX").unwrap();
    assert_eq!(level.map.width, 3);
    assert_eq!(level.map.height, 2);
    assert_eq!(level.map.get_elem(0, 0), MapElement::Unbreakable);
    assert_eq!(level.map.get_elem(1, 0), MapElement::Empty);
    assert_eq!(level.map.get_elem(2, 0), MapElement::Empty);
    assert_eq!(level.map.get_elem(1, 1), MapElement::Unbreakable);
    // Characters are placed by their rank in the line.
    let level = GameMap::from_level_text("éP\nXXX").unwrap();
    assert_eq!(level.player_spawn, (1, 0));
    assert_eq!(level.map.width, 3);
}
