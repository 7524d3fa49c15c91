use bomberman::bomb::power_up_drops;
use bomberman::assets::SoundEffect;
use bomberman::bomb::{Bomb, BombEvents, BombState, Explosion, BOMB_TIMER_DEFAULT};
use bomberman::direction::Direction;
use bomberman::enemy::{Enemy, EnemyBehavior};
use bomberman::input::{Input, InputName};
use bomberman::map::{GameMap, MapElement};
use bomberman::player::Player;
use bomberman::powerup::{PowerUp, PowerUpType};

fn level_map(rows: &[&str]) -> GameMap {
    GameMap::from_level_text(&rows.join("\n")).unwrap().map
}

#[test]
fn new_bomb_in_the_middle_of_its_tile() {
    let b = Bomb::new(3, 2, 5, 4);
    assert_eq!(b.position, (2500, 5500));
    assert_eq!(b.timer, BOMB_TIMER_DEFAULT);
    assert_eq!(b.power, 4);
    assert_eq!(b.owner_id, 3);
    assert_eq!(b.state, BombState::Planted);
    assert!(!b.collision_enabled);
    assert_eq!(b.explosion, Explosion::default());
    assert!(!b.despawn);
    assert_eq!(b.get_size(), 500);
}

#[test]
fn explosion_stops_on_boxes_and_walls() {
    let mut map = level_map(&["XXXXXX", "X  # X", "X XXXX", "X    X", "XXXXXX"]);
    let mut bomb = Bomb::new(0, 1, 1, 2);
    let mut players = vec![Player::new(0, (4500, 3500), Direction::Down, true)];
    let mut enemies: Vec<Enemy> = Vec::new();
    let mut power_ups: Vec<PowerUp> = Vec::new();
    let mut sounds = Vec::new();
    // Not yet: the timer runs down.
    let ev = bomb.tick(1000, &mut players, &mut enemies, &mut map, &mut power_ups, &mut sounds, &Vec::new());
    assert_eq!(ev, BombEvents::default());
    assert_eq!(bomb.timer, 2000);
    assert_eq!(bomb.state, BombState::Planted);
    // It goes off.
    let ev = bomb.tick(2500, &mut players, &mut enemies, &mut map, &mut power_ups, &mut sounds, &Vec::new());
    assert_eq!(bomb.state, BombState::Exploding);
    assert_eq!(bomb.timer, 0);
    assert_eq!(bomb.explosion, Explosion { up: 0, down: 2, left: 0, right: 1 });
    assert_eq!(ev.breakables_destroyed, 1);
    assert_eq!(map.get_elem(3, 1), MapElement::Empty);
    assert_eq!(sounds, vec![SoundEffect::BombExplosion]);
    assert!(power_ups.len() <= 1);
    for u in power_ups.iter() {
        assert_eq!(u.pos, (3, 1));
    }
    assert!(players[0].alive);
}

#[test]
fn explosion_kills_and_gives_the_bomb_back() {
    let mut map = level_map(&["XXXXXX", "X    X", "X XXXX", "X    X", "XXXXXX"]);
    let mut bomb = Bomb::new(0, 1, 1, 2);
    bomb.timer = 0;
    let mut players = vec![
        Player::new(0, (4500, 3500), Direction::Down, true),
        Player::new(1, (1500, 3500), Direction::Down, false),
    ];
    players[0].bombs_remaining = 0;
    let mut enemies = vec![Enemy::new(0, (3500, 1500), EnemyBehavior::Wander, 1000, 650)];
    let mut power_ups: Vec<PowerUp> = Vec::new();
    let mut sounds = Vec::new();
    bomb.tick(10, &mut players, &mut enemies, &mut map, &mut power_ups, &mut sounds, &Vec::new());
    assert_eq!(bomb.state, BombState::Exploding);
    assert_eq!(bomb.explosion, Explosion { up: 0, down: 2, left: 0, right: 2 });
    sounds.clear();
    let ev = bomb.tick(100, &mut players, &mut enemies, &mut map, &mut power_ups, &mut sounds, &Vec::new());
    assert_eq!(ev, BombEvents { breakables_destroyed: 0, enemies_killed: 1, players_killed: 1 });
    assert!(players[0].alive);
    assert!(!players[1].alive);
    assert!(!enemies[0].alive);
    assert_eq!(sounds, vec![SoundEffect::PlayerDeath, SoundEffect::EnemyDeath]);
    assert_eq!(bomb.timer, 100);
    assert!(!bomb.despawn);
    // Once burnt out, the owner gets its bomb back and the bomb leaves.
    bomb.tick(2000, &mut players, &mut enemies, &mut map, &mut power_ups, &mut sounds, &Vec::new());
    assert!(!bomb.despawn);
    bomb.tick(10, &mut players, &mut enemies, &mut map, &mut power_ups, &mut sounds, &Vec::new());
    assert!(bomb.despawn);
    assert_eq!(players[0].bombs_remaining, 1);
}

#[test]
fn chain_reaction_sets_off_covered_bombs() {
    let mut map = level_map(&["XXXXXXX", "X     X", "XXXXXXX"]);
    let mut bomb = Bomb::new(0, 1, 1, 3);
    bomb.timer = 0;
    let mut players = vec![Player::new(0, (5500, 1500), Direction::Down, true)];
    let mut enemies: Vec<Enemy> = Vec::new();
    let mut power_ups: Vec<PowerUp> = Vec::new();
    let mut sounds = Vec::new();
    bomb.tick(10, &mut players, &mut enemies, &mut map, &mut power_ups, &mut sounds, &Vec::new());
    assert_eq!(bomb.explosion.right, 3);
    let near = Bomb::new(0, 3, 1, 1);
    let far = Bomb::new(0, 5, 1, 1);
    let mut others = vec![near, far];
    assert!(bomb.explosion_fits());
    bomb.chain_react(&mut others);
    assert_eq!(others[0].timer, 0);
    assert_eq!(others[0].state, BombState::Planted);
    assert_eq!(others[1].timer, BOMB_TIMER_DEFAULT);
}

#[test]
fn player_basics() {
    let mut p = Player::new(2, (1500, 2500), Direction::Left, false);
    assert!(p.alive);
    assert_eq!(p.power_level, 2);
    assert_eq!(p.speed_level, 0);
    assert_eq!(p.bombs_remaining, 1);
    assert!(!p.can_kick_bomb);
    assert_eq!(p.get_size(), 400);
    p.kill();
    assert!(!p.alive);
    p.make_op();
    assert!(p.alive);
    assert_eq!((p.power_level, p.speed_level, p.bombs_remaining, p.can_kick_bomb), (10, 4, 100, true));
    p.respawn((500, 500));
    assert_eq!(p.position, (500, 500));
    assert_eq!((p.power_level, p.speed_level, p.bombs_remaining, p.can_kick_bomb), (2, 0, 1, false));
    assert_eq!(p.id, 2);
    assert_eq!(p.direction, Direction::Left);
}

#[test]
fn planting_bombs() {
    let mut p = Player::new(0, (1700, 2300), Direction::Down, true);
    let b = p.create_bomb(&Vec::new(), &Vec::new()).unwrap();
    assert_eq!(b.position, (1500, 2500));
    assert_eq!(b.owner_id, 0);
    assert_eq!(b.power, 2);
    assert_eq!(p.bombs_remaining, 0);
    // No bomb left.
    assert!(p.create_bomb(&Vec::new(), &Vec::new()).is_none());
    // A bomb already lies on the tile.
    let mut q = Player::new(1, (1500, 2500), Direction::Down, true);
    assert!(q.create_bomb(&vec![b], &Vec::new()).is_none());
    assert_eq!(q.bombs_remaining, 1);
    // Another player stands on the tile.
    let mut r = Player::new(2, (4500, 2500), Direction::Down, true);
    assert!(r.create_bomb(&Vec::new(), &vec![(5, (4600, 2500))]).is_none());
    assert!(r.create_bomb(&Vec::new(), &vec![(2, (4600, 2500))]).is_some());
}

#[test]
fn power_up_bonuses() {
    assert_eq!(PowerUpType::from_roll(0), PowerUpType::Speed);
    assert_eq!(PowerUpType::from_roll(1), PowerUpType::Power);
    assert_eq!(PowerUpType::from_roll(2), PowerUpType::Bomb);
    assert_eq!(PowerUpType::from_roll(3), PowerUpType::Slide);
    let mut p = Player::new(0, (500, 500), Direction::Down, true);
    PowerUpType::Speed.apply(&mut p);
    PowerUpType::Power.apply(&mut p);
    PowerUpType::Bomb.apply(&mut p);
    PowerUpType::Slide.apply(&mut p);
    assert_eq!((p.speed_level, p.power_level, p.bombs_remaining, p.can_kick_bomb), (1, 3, 2, true));
}

#[test]
fn power_up_pick_up() {
    let u = PowerUp::new(4, 2);
    assert_eq!(u.pos, (2, 4));
    assert!(!u.despawn);
    assert_eq!(u.get_size(), 400);
    let mut u = PowerUp { power_up_type: PowerUpType::Bomb, pos: (2, 4), despawn: false };
    let mut players = vec![
        Player::new(0, (2600, 4400), Direction::Down, true),
        Player::new(1, (6500, 4500), Direction::Down, true),
    ];
    let mut sounds = Vec::new();
    assert!(u.tick(&mut players, &mut sounds));
    assert!(u.despawn);
    assert_eq!(players[0].bombs_remaining, 2);
    assert_eq!(players[1].bombs_remaining, 1);
    assert_eq!(sounds, vec![SoundEffect::BonusPickup]);
}

#[test]
fn enemy_settings_are_clamped() {
    let e = Enemy::new(4, (1500, 1500), EnemyBehavior::Coward, 100, 5000);
    assert_eq!(e.speed_multiplier, 500);
    assert_eq!(e.decision_interval, 2000);
    assert_eq!(e.decision_timer, 0);
    assert_eq!(e.direction, Direction::Down);
    assert!(e.alive);
    assert_eq!(e.get_size(), 400);
    let e = Enemy::new(4, (1500, 1500), EnemyBehavior::Coward, 1200, 700);
    assert_eq!((e.speed_multiplier, e.decision_interval), (1200, 700));
}

#[test]
fn aggressive_enemy_heads_for_the_player() {
    let map = level_map(&["XXXXXXX", "X     X", "XXXXXXX"]);
    let mut e = Enemy::new(0, (1500, 1500), EnemyBehavior::Aggressive, 1000, 650);
    e.tick(100, &map, Some((5500, 1500)), &Vec::new(), &Vec::new());
    assert_eq!(e.direction, Direction::Right);
    assert_eq!(e.position, (1650, 1500));
    assert_eq!(e.decision_timer, 650);
    // Before its next decision it keeps going.
    e.tick(100, &map, Some((5500, 1500)), &Vec::new(), &Vec::new());
    assert_eq!(e.position, (1800, 1500));
    assert_eq!(e.decision_timer, 550);
}

#[test]
fn coward_enemy_runs_away() {
    let map = level_map(&["XXXXXXX", "X     X", "XXXXXXX"]);
    let mut e = Enemy::new(0, (3500, 1500), EnemyBehavior::Coward, 1000, 650);
    e.tick(100, &map, Some((4500, 1500)), &Vec::new(), &Vec::new());
    assert_eq!(e.direction, Direction::Left);
    assert_eq!(e.position, (3350, 1500));
}

#[test]
fn dead_enemies_do_not_move() {
    let map = level_map(&["XXXXXXX", "X     X", "XXXXXXX"]);
    let mut e = Enemy::new(0, (1500, 1500), EnemyBehavior::Aggressive, 1000, 650);
    e.kill();
    assert!(!e.alive);
    e.tick(100, &map, Some((5500, 1500)), &Vec::new(), &Vec::new());
    assert_eq!(e.position, (1500, 1500));
}

#[test]
fn players_walk_along_their_inputs() {
    let map = level_map(&["XXXXXXX", "X     X", "XXXXXXX"]);
    let mut p = Player::new(0, (1500, 1500), Direction::Down, true);
    let mut input = Input::default();
    input.update_input_component(true, InputName::Right);
    let mut bombs = Vec::new();
    p.player_move(input, 100, &map, &mut bombs);
    assert_eq!(p.position, (1700, 1500));
    assert_eq!(p.direction, Direction::Right);
    // Walls stop the player.
    // The Up input walks towards growing y, here into the wall.
    let mut q = Player::new(1, (1500, 1500), Direction::Up, true);
    let mut up = Input::default();
    up.update_input_component(true, InputName::Up);
    q.player_move(up, 1000, &map, &mut bombs);
    assert_eq!(q.direction, Direction::Down);
    assert_eq!(q.position, (1500, 1590));
}

#[test]
fn power_up_drop_rolls() {
    assert!(power_up_drops(1));
    assert!(power_up_drops(15));
    assert!(!power_up_drops(16));
    assert!(!power_up_drops(100));
}
