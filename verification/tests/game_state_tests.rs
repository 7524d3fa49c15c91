use bomberman::assets::SoundEffect;
use bomberman::bomb::{Bomb, BombEvents};
use bomberman::direction::Direction;
use bomberman::enemy::EnemyBehavior;
use bomberman::game_settings::GameSettings;
use bomberman::game_state::{
    saturating_mul, CampaignProgress, DifficultyPreset, GameError, GameMode, GameState, GameTickResult, ScoreRules,
    TickEvents, Transition,
};
use bomberman::input::{Input, InputName, InputState};
use bomberman::map::{GameMap, MapElement, MapSettings, MapType, SpawnPoint};
use bomberman::settings::GameDifficulty;

fn two_player_arena() -> GameState {
    let mut map = GameMap::from_level_text("XXXXXXX\nX     X\nX X X X\nX     X\nXXXXXXX").unwrap().map;
    map.spawns = vec![
        SpawnPoint { direction: Direction::Right, x: 1, y: 1 },
        SpawnPoint { direction: Direction::Left, x: 5, y: 3 },
    ];
    let settings = GameSettings { nb_humans: 1, nb_bots: 1, map_settings: MapSettings::corners() };
    GameState::new_multiplayer_from_map(settings, map)
}

#[test]
fn campaign_time_bonus() {
    let r = ScoreRules::campaign();
    assert_eq!(r.enemy_kill, 100);
    assert_eq!(r.breakable_destroyed, 10);
    assert_eq!(r.powerup_pickup, 25);
    assert_eq!(r.level_clear, 300);
    assert_eq!(r.time_bonus(0), 240);
    assert_eq!(r.time_bonus(30_000), 180);
    assert_eq!(r.time_bonus(119_999), 2);
    assert_eq!(r.time_bonus(120_000), 0);
    assert_eq!(r.time_bonus(u64::MAX), 0);
    let none = ScoreRules { time_bonus_per_second: 0, ..r };
    assert_eq!(none.time_bonus(0), 0);
}

#[test]
fn saturating_counts() {
    assert_eq!(saturating_mul(3, 100), 300);
    assert_eq!(saturating_mul(u32::MAX, 2), u32::MAX);
    let mut ev = TickEvents::default();
    ev.add_bomb_events(BombEvents { breakables_destroyed: 3, enemies_killed: 1, players_killed: 2 });
    assert_eq!(ev, TickEvents { breakables_destroyed: 3, enemies_killed: 1, powerups_picked: 0 });
    ev.add_bomb_events(BombEvents { breakables_destroyed: u32::MAX, enemies_killed: 0, players_killed: 0 });
    assert_eq!(ev.breakables_destroyed, u32::MAX);
    assert_eq!(ev.enemies_killed, 1);
}

#[test]
fn difficulty_presets() {
    let p = DifficultyPreset::for_level(1, GameDifficulty::Normal);
    assert_eq!(
        p,
        DifficultyPreset { enemy_speed_multiplier: 1000, decision_interval: 650, aggressive_pct: 30, coward_pct: 20, extra_enemies: 0 }
    );
    assert_eq!(DifficultyPreset::for_level(0, GameDifficulty::Normal), p);
    let hard = DifficultyPreset::for_level(5, GameDifficulty::Hard);
    assert_eq!(
        hard,
        DifficultyPreset { enemy_speed_multiplier: 1518, decision_interval: 416, aggressive_pct: 60, coward_pct: 20, extra_enemies: 5 }
    );
    let easy = DifficultyPreset::for_level(10, GameDifficulty::Easy);
    assert_eq!(
        easy,
        DifficultyPreset { enemy_speed_multiplier: 1360, decision_interval: 360, aggressive_pct: 50, coward_pct: 20, extra_enemies: 3 }
    );
    let late_hard = DifficultyPreset::for_level(40, GameDifficulty::Hard);
    assert_eq!(late_hard.enemy_speed_multiplier, 1840);
    assert_eq!(late_hard.decision_interval, 255);
    assert_eq!(late_hard.aggressive_pct, 70);
    assert_eq!(late_hard.extra_enemies, 5);
}

#[test]
fn behaviors_from_rolls() {
    let p = DifficultyPreset::for_level(1, GameDifficulty::Normal);
    assert_eq!(p.behavior_from_roll(0), EnemyBehavior::Aggressive);
    assert_eq!(p.behavior_from_roll(29), EnemyBehavior::Aggressive);
    assert_eq!(p.behavior_from_roll(30), EnemyBehavior::Coward);
    assert_eq!(p.behavior_from_roll(49), EnemyBehavior::Coward);
    assert_eq!(p.behavior_from_roll(50), EnemyBehavior::Wander);
    assert_eq!(p.behavior_from_roll(99), EnemyBehavior::Wander);
    let all_aggressive = DifficultyPreset { aggressive_pct: 150, ..p };
    assert_eq!(all_aggressive.behavior_from_roll(99), EnemyBehavior::Aggressive);
    for _ in 0..20 {
        let b = p.pick_behavior();
        assert!(matches!(b, EnemyBehavior::Aggressive | EnemyBehavior::Coward | EnemyBehavior::Wander));
    }
}

#[test]
fn players_on_the_spawn_points() {
    let map = GameMap::new(MapSettings::corners()).unwrap();
    let players = GameState::create_players(&map, 2, 1);
    assert_eq!(players.len(), 3);
    assert_eq!(players[0].position, (1500, 1500));
    assert_eq!(players[1].position, (15500, 1500));
    assert_eq!(players[2].position, (1500, 15500));
    assert!(players[0].is_human && players[1].is_human && !players[2].is_human);
    assert_eq!(players[1].id, 1);
    assert_eq!(players[1].direction, Direction::Left);
    // More players than spawn points: one per spawn point.
    assert_eq!(GameState::create_players(&map, 3, 5).len(), 4);
}

#[test]
fn new_match() {
    let settings = GameSettings { nb_humans: 2, nb_bots: 1, map_settings: MapSettings::corners() };
    let g = GameState::new_multiplayer(settings).unwrap();
    assert_eq!(g.mode, GameMode::Multiplayer);
    assert!(g.campaign_progress.is_none());
    assert_eq!(g.players.len(), 3);
    assert_eq!(g.alive_players, vec![0, 1, 2]);
    assert_eq!(g.game_inputs.len(), 3);
    assert_eq!(g.nb_humans, 2);
    assert!(g.bombs.is_empty() && g.power_ups.is_empty() && g.enemies.is_empty());
    assert_eq!(g.get_map().width, 17);
    assert_eq!(g.get_player(2).unwrap().position, (1500, 15500));
    assert!(g.get_player(3).is_none());
}

#[test]
fn failed_map_generation() {
    let mut map_settings = MapSettings::default_cheese();
    map_settings.map_type = MapType::Random;
    map_settings.attempts = 0;
    let settings = GameSettings { nb_humans: 2, nb_bots: 0, map_settings };
    assert_eq!(GameState::new_multiplayer(settings).err(), Some(GameError::MapCreation));
}

#[test]
fn back_pauses_the_game() {
    let mut g = two_player_arena();
    let mut input = Input::default();
    input.update_input_component(true, InputName::Back);
    let mut sounds = Vec::new();
    let (t, n) = g.tick(16, &vec![input], &mut sounds);
    assert!(matches!(t, Some(Transition::Pause)));
    assert_eq!(n, 0);
    assert!(sounds.is_empty());
}

#[test]
fn planting_in_a_match() {
    let mut g = two_player_arena();
    let mut input = Input::default();
    input.update_input_component(true, InputName::Bomb);
    let mut sounds = Vec::new();
    let (t, n) = g.tick(16, &vec![input, Input::default()], &mut sounds);
    assert!(t.is_none());
    assert_eq!(n, 0);
    assert_eq!(g.bombs.len(), 1);
    assert_eq!(g.bombs[0].position, (1500, 1500));
    assert_eq!(g.players[0].bombs_remaining, 0);
    assert_eq!(sounds, vec![SoundEffect::PutBomb]);
    assert_eq!(g.game_inputs[0].bomb(), InputState::Pressed);
}

#[test]
fn last_player_standing_wins() {
    let mut g = two_player_arena();
    // A bomb of the second player, about to go off below the first one.
    let mut b = Bomb::new(1, 1, 3, 2);
    b.timer = 50;
    b.collision_enabled = true;
    g.bombs.push(b);
    g.players[1].bombs_remaining = 0;
    let idle = vec![Input::default(), Input::default()];
    let mut sounds = Vec::new();
    let (t, n) = g.tick(100, &idle, &mut sounds);
    assert!(t.is_none());
    assert_eq!(n, 0);
    assert_eq!(sounds, vec![SoundEffect::BombExplosion]);
    let (t, n) = g.tick(100, &idle, &mut sounds);
    assert!(!g.players[0].alive);
    assert!(g.players[1].alive);
    match t {
        Some(Transition::MultiplayerEnd(winners)) => assert_eq!(winners, vec![1]),
        _ => panic!("the match should be over"),
    }
    assert_eq!(n, 1);
}

#[test]
fn draw_keeps_the_last_living_players() {
    let mut g = two_player_arena();
    g.players[0].kill();
    g.players[1].kill();
    assert_eq!(g.create_mp_ret(), Some(vec![0, 1]));
    let mut h = two_player_arena();
    assert_eq!(h.create_mp_ret(), None);
    h.players[1].kill();
    assert_eq!(h.create_mp_ret(), Some(vec![0]));
}

fn level(text: &str) -> bomberman::map::LevelData {
    GameMap::from_level_text(text).unwrap()
}

#[test]
fn new_campaign_level() {
    let data = level("XXXXXXX\nXP   EX\nX X X X\nXE  O X\nXXXXXXX");
    let g = GameState::new_campaign(1, 3, 120, GameDifficulty::Normal, data);
    assert_eq!(g.mode, GameMode::Campaign);
    assert_eq!(
        g.campaign_progress,
        Some(CampaignProgress { level: 1, lives: 3, score: 120, level_time: 0, difficulty: GameDifficulty::Normal })
    );
    assert_eq!(g.players.len(), 1);
    assert_eq!(g.players[0].position, (1500, 1500));
    assert_eq!(g.enemies.len(), 2);
    assert_eq!(g.enemies[0].position, (5500, 1500));
    assert_eq!(g.enemies[1].position, (1500, 3500));
    assert_eq!(g.enemies[1].id, 1);
    assert_eq!(g.enemies[0].speed_multiplier, 1000);
    assert_eq!(g.enemies[0].decision_interval, 650);
    assert_eq!(g.exit_pos, (4500, 3500));
    assert!(!g.exit_revealed);
    assert_eq!(g.alive_players, vec![0]);
    assert_eq!(g.game_inputs.len(), 1);
    assert_eq!(g.get_map().get_elem(4, 3), MapElement::Breakable);
}

#[test]
fn harder_levels_add_enemies_away_from_the_others() {
    let data = level("XXXXXXXXX\nXP      X\nX       X\nX       X\nX       X\nX      EX\nXXXXXXXXX");
    let g = GameState::new_campaign(5, 3, 0, GameDifficulty::Hard, data);
    assert!(g.enemies.len() >= 1 && g.enemies.len() <= 6);
    let mut tiles: Vec<(i64, i64)> = vec![(1, 1)];
    for (i, e) in g.enemies.iter().enumerate() {
        assert_eq!(e.id as usize, i);
        let t = (e.position.0 / 1000, e.position.1 / 1000);
        assert_eq!((e.position.0 % 1000, e.position.1 % 1000), (500, 500));
        if i > 0 {
            for o in tiles.iter() {
                let (dx, dy) = (t.0 - o.0, t.1 - o.1);
                assert!(dx * dx + dy * dy >= 4);
            }
        }
        tiles.push(t);
        assert_eq!(e.speed_multiplier, 1518);
        assert_eq!(e.decision_interval, 416);
    }
}

#[test]
fn clearing_a_level() {
    let data = level("XXXXX\nXPO X\nXXXXX");
    let mut g = GameState::new_campaign(2, 3, 100, GameDifficulty::Easy, data);
    let mut sounds = Vec::new();
    let (t, n) = g.tick(16, &vec![Input::default()], &mut sounds);
    assert!(g.exit_revealed);
    assert_eq!(g.get_map().get_elem(2, 1), MapElement::Exit);
    match t {
        Some(Transition::StageClear { level, lives, score, difficulty }) => {
            assert_eq!((level, lives, score, difficulty), (2, 3, 100 + 300 + 240, GameDifficulty::Easy));
        },
        _ => panic!("the level should be cleared"),
    }
    assert_eq!(n, 1);
}

#[test]
fn a_lost_life_brings_the_player_back() {
    let data = level("XXXXXXX\nXP    X\nX     X\nX    OX\nXXXXXXX");
    let mut g = GameState::new_campaign(1, 2, 0, GameDifficulty::Normal, data);
    g.players[0].position = (3500, 2500);
    g.players[0].kill();
    let mut sounds = Vec::new();
    let r = g.campaign_tick(16, &mut sounds);
    assert_eq!(r, GameTickResult::Ongoing);
    assert!(g.players[0].alive);
    assert_eq!(g.players[0].position, (1500, 1500));
    assert_eq!(g.campaign_progress.unwrap().lives, 1);
    assert_eq!(g.campaign_progress.unwrap().level_time, 16);
}

#[test]
fn no_life_left_ends_the_campaign() {
    let data = level("XXXXXXX\nXP    X\nX    OX\nXXXXXXX");
    let mut g = GameState::new_campaign(3, 0, 750, GameDifficulty::Hard, data);
    g.players[0].kill();
    let mut sounds = Vec::new();
    let (t, n) = g.tick(16, &vec![Input::default()], &mut sounds);
    match t {
        Some(Transition::GameOver { score, difficulty }) => {
            assert_eq!(score, 750);
            assert_eq!(difficulty, GameDifficulty::Hard);
        },
        _ => panic!("the campaign should be over"),
    }
    assert_eq!(n, 1);
}

#[test]
fn enemies_kill_the_player() {
    let data = level("XXXXXXX\nXPE   X\nX    OX\nXXXXXXX");
    let mut g = GameState::new_campaign(1, 1, 0, GameDifficulty::Normal, data);
    g.enemies[0].position = (1900, 1500);
    let mut sounds = Vec::new();
    let r = g.campaign_tick(16, &mut sounds);
    assert_eq!(r, GameTickResult::Ongoing);
    assert!(!g.players[0].alive);
    assert!(sounds.contains(&SoundEffect::PlayerDeath));
    // Next tick the player comes back, for the last life.
    let r = g.campaign_tick(16, &mut sounds);
    assert_eq!(g.campaign_progress.unwrap().lives, 0);
    assert!(matches!(r, GameTickResult::Ongoing));
}

#[test]
fn settings_preview_has_no_one_on_the_map() {
    let settings = GameSettings { nb_humans: 2, nb_bots: 2, map_settings: MapSettings::arena() };
    let g = GameState::new_settings_preview(settings).unwrap();
    assert!(g.players.is_empty());
    assert!(g.enemies.is_empty());
    assert_eq!(g.mode, GameMode::Multiplayer);
    assert_eq!(g.get_map().spawns.len(), 10);
    assert_eq!(g.alive_players, vec![0, 1, 2, 3]);
}

#[test]
fn readiness_for_a_tick() {
    let mut g = two_player_arena();
    assert!(g.get_map().fits_game());
    assert!(g.is_ready(16));
    // A player far outside the map.
    g.players[1].position = (-900_000, 1500);
    assert!(!g.is_ready(16));
    let mut h = two_player_arena();
    h.players[0].bombs_remaining = u32::MAX;
    assert!(h.is_ready(16));
    h.bombs.push(Bomb::new(1, 5, 1, 1));
    assert!(!h.is_ready(16));
    let data = level("XXXXX\nXPO X\nXXXXX");
    let mut c = GameState::new_campaign(2, 3, 100, GameDifficulty::Easy, data);
    assert!(c.is_ready(16));
    if let Some(p) = c.campaign_progress.as_mut() {
        p.level_time = u64::MAX - 3;
    }
    assert!(!c.is_ready(16));
    assert!(c.is_ready(3));
    let mut ragged = level("XXXXX\nXPO X\nXXXXX").map;
    ragged.content[1].pop();
    assert!(!ragged.fits_game());
}

#[test]
fn random_draws_vary() {
    let mut directions = Vec::new();
    let mut behaviors = Vec::new();
    let p = DifficultyPreset::for_level(1, GameDifficulty::Normal);
    for _ in 0..300 {
        let d = SpawnPoint::init(1, 1).direction;
        if !directions.contains(&d) {
            directions.push(d);
        }
        let b = p.pick_behavior();
        if !behaviors.contains(&b) {
            behaviors.push(b);
        }
    }
    assert!(directions.len() >= 2);
    assert!(behaviors.len() >= 2);
}

#[test]
fn a_dead_player_stays_dead() {
    let mut g = two_player_arena();
    g.players[0].kill();
    g.players[1].kill();
    g.players[1].alive = true;
    let idle = vec![Input::default(), Input::default()];
    let mut sounds = Vec::new();
    for _ in 0..50 {
        g.tick(100, &idle, &mut sounds);
        assert!(!g.players[0].alive);
        assert_eq!(g.players.len(), 2);
    }
}

#[test]
fn campaign_score_never_drops() {
    let data = level("XXXXXXXXX\nXP  #   X\nX X X X X\nX   E  OX\nXXXXXXXXX");
    let mut g = GameState::new_campaign(1, 3, 50, GameDifficulty::Normal, data);
    let mut input = Input::default();
    input.update_input_component(true, InputName::Bomb);
    let mut sounds = Vec::new();
    let mut last = g.campaign_progress.unwrap();
    for t in 0..400 {
        if !g.is_ready(16) {
            break;
        }
        let inputs = if t % 50 == 0 { vec![input] } else { vec![Input::default()] };
        let (tr, _) = g.tick(16, &inputs, &mut sounds);
        let now = g.campaign_progress.unwrap();
        assert!(now.score >= last.score);
        assert!(now.lives <= last.lives);
        assert_eq!(now.level, last.level);
        assert_eq!(now.difficulty, last.difficulty);
        last = now;
        if tr.is_some() {
            break;
        }
    }
}

#[test]
fn explosions_only_clear_boxes() {
    let settings = GameSettings { nb_humans: 2, nb_bots: 2, map_settings: MapSettings::corners() };
    let mut g = GameState::new_multiplayer(settings).unwrap();
    let before = g.get_map().to_str();
    // Every player plants a bomb, then the bombs go off.
    let mut bomb = Input::default();
    bomb.update_input_component(true, InputName::Bomb);
    let mut sounds = Vec::new();
    g.tick(16, &vec![bomb; 4], &mut sounds);
    assert_eq!(g.bombs.len(), 4);
    for _ in 0..60 {
        if !g.is_ready(100) {
            break;
        }
        let (t, _) = g.tick(100, &vec![Input::default(); 4], &mut sounds);
        if t.is_some() {
            break;
        }
    }
    let after = g.get_map().to_str();
    let mut cleared = 0;
    for (b, a) in before.chars().zip(after.chars()) {
        if b == '#' {
            assert!(a == '#' || a == ' ');
            if a == ' ' {
                cleared += 1;
            }
        } else {
            assert_eq!(a, b);
        }
    }
    assert!(cleared > 0 || !before.contains('#'));
}

#[test]
fn dead_enemies_keep_their_place() {
    let data = level("XXXXXXXXX\nXP     EX\nX X X X X\nXE     OX\nXXXXXXXXX");
    let mut g = GameState::new_campaign(1, 3, 0, GameDifficulty::Normal, data);
    assert_eq!(g.enemies.len(), 2);
    g.enemies[0].kill();
    assert!(g.any_enemy_alive());
    let mut sounds = Vec::new();
    g.campaign_tick(16, &mut sounds);
    assert_eq!(g.enemies.len(), 2);
    assert_eq!(g.enemies[0].id, 0);
    assert_eq!(g.enemies[1].id, 1);
    assert!(!g.enemies[0].alive);
    assert!(!g.exit_revealed);
    g.enemies[1].kill();
    assert!(!g.any_enemy_alive());
    g.campaign_tick(16, &mut sounds);
    assert_eq!(g.enemies.len(), 2);
    assert!(g.exit_revealed);
    assert_eq!(g.get_map().get_elem(7, 3), MapElement::Exit);
}

#[test]
fn back_pauses_whatever_the_game() {
    let mut g = two_player_arena();
    g.players[0].position = (-90_000_000, 0);
    assert!(!g.is_ready(16));
    let mut back = Input::default();
    back.update_input_component(true, InputName::Back);
    let mut sounds = Vec::new();
    let (t, n) = g.tick(16, &vec![back], &mut sounds);
    assert!(matches!(t, Some(Transition::Pause)));
    assert_eq!(n, 0);
}
