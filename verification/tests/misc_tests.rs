use bomberman::settings::{settings_file_path, Platform};
use bomberman::collision::{bound, collide_map, does_map_collide, is_colliding_with, resolve_collision_with};
use bomberman::direction::{direction_from_roll, Direction};
use bomberman::game_settings::GameSettings;
use bomberman::map::{GameMap, MapSettings};
use bomberman::settings::{GameDifficulty, Resolution, SaveState};

fn small_map(rows: &[&str]) -> GameMap {
    GameMap::from_level_text(&rows.join("\n")).unwrap().map
}

#[test]
fn directions_in_order() {
    assert_eq!(Direction::iterator(), vec![Direction::Up, Direction::Down, Direction::Left, Direction::Right]);
    assert_eq!(Direction::Up.to_offset(), (0, -1));
    assert_eq!(Direction::Down.to_offset(), (0, 1));
    assert_eq!(Direction::Left.to_offset(), (-1, 0));
    assert_eq!(Direction::Right.to_offset(), (1, 0));
}

#[test]
fn direction_towards_a_goal() {
    assert_eq!(Direction::get_direction((0, 0), (5, 9)), Direction::Right);
    assert_eq!(Direction::get_direction((0, 0), (-5, 9)), Direction::Left);
    assert_eq!(Direction::get_direction((3, 0), (3, 9)), Direction::Down);
    assert_eq!(Direction::get_direction((3, 9), (3, 0)), Direction::Up);
    assert_eq!(Direction::get_direction((3, 3), (3, 3)), Direction::Up);
}

#[test]
fn direction_rolls() {
    assert_eq!(direction_from_roll(0), Direction::Up);
    assert_eq!(direction_from_roll(1), Direction::Down);
    assert_eq!(direction_from_roll(2), Direction::Left);
    assert_eq!(direction_from_roll(3), Direction::Right);
    assert_eq!(direction_from_roll(17), Direction::Right);
}

#[test]
fn boxes_collide() {
    assert!(is_colliding_with((1000, 1000), 400, (1700, 1000), 400));
    assert!(!is_colliding_with((1000, 1000), 400, (1800, 1000), 400));
    assert!(!is_colliding_with((1000, 1000), 400, (1000, 2000), 400));
}

#[test]
fn collisions_push_back() {
    assert_eq!(resolve_collision_with((1000, 1000), 400, (1000, 2000), 400, Direction::Down), None);
    // Moving down into a box below: pushed above it, with the push-back gap.
    assert_eq!(resolve_collision_with((1000, 1300), 400, (1000, 2000), 400, Direction::Down), Some((1000, 1190)));
    assert_eq!(resolve_collision_with((1300, 1000), 400, (2000, 1000), 400, Direction::Right), Some((1190, 1000)));
    assert_eq!(resolve_collision_with((2700, 1000), 400, (2000, 1000), 400, Direction::Left), Some((2810, 1000)));
}

#[test]
fn objects_stay_in_the_map() {
    let map = small_map(&["    ", "    ", "    "]);
    assert_eq!(bound((-50, 1500), 400, &map), (400, 1500));
    assert_eq!(bound((9000, 9000), 400, &map), (3600, 2600));
    assert_eq!(bound((2000, 1000), 400, &map), (2000, 1000));
}

#[test]
fn map_collisions() {
    let map = small_map(&["XXX", "X X", "XXX"]);
    assert!(does_map_collide(&map, 500, 500));
    assert!(!does_map_collide(&map, 1500, 1500));
    assert!(does_map_collide(&map, -1, 1500));
    assert!(does_map_collide(&map, 3500, 1500));
    // A player in the middle tile does not move.
    let (p, hit) = collide_map((1500, 1500), 400, &map, Direction::Up);
    assert_eq!(p, (1500, 1500));
    assert!(!hit);
    // Walking up into the wall pushes it back down.
    let (p, hit) = collide_map((1500, 1300), 400, &map, Direction::Up);
    assert!(hit);
    assert!(p.1 > 1300);
}

#[test]
fn difficulty_labels() {
    assert_eq!(GameDifficulty::Easy.label(), "Easy");
    assert_eq!(GameDifficulty::Normal.label(), "Normal");
    assert_eq!(GameDifficulty::Hard.label(), "Hard");
    assert_eq!(GameDifficulty::default(), GameDifficulty::Normal);
}

#[test]
fn new_save_state() {
    let s = SaveState::default();
    assert_eq!(s, SaveState { level: 1, lives: 3, score: 0, difficulty: GameDifficulty::Normal });
}

#[test]
fn rendering_resolution() {
    assert_eq!(Resolution::Full.resolution([1920, 1080]), [1920, 1080]);
    assert_eq!(Resolution::Custom(800, 600).resolution([1920, 1080]), [800, 600]);
}

#[test]
fn default_game_settings() {
    let s = GameSettings::default();
    assert_eq!(s.nb_humans, 1);
    assert_eq!(s.nb_bots, 0);
    assert_eq!(s.map_settings, MapSettings::corners());
}

#[test]
fn settings_file_paths() {

    assert_eq!(settings_file_path(Platform::Linux, Some("/x"), Some("/home/a"), None), "/x/bomberman.save");
    assert_eq!(settings_file_path(Platform::Linux, None, Some("/home/a"), None), "/home/a/.local/share/bomberman.save");
    assert_eq!(
        settings_file_path(Platform::MacOs, None, Some("/Users/a"), None),
        "/Users/a/Library/Application Support/bomberman.save"
    );
    assert_eq!(settings_file_path(Platform::MacOs, None, None, None), "./bomberman.save");
    assert_eq!(settings_file_path(Platform::Windows, None, None, Some("C:\\A")), "C:\\A\\Bomberman\\bomberman.save");
    assert_eq!(settings_file_path(Platform::Windows, Some("/x"), None, None), ".\\Bomberman\\bomberman.save");
}
