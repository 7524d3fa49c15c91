use vstd::prelude::*;

use crate::assets::SoundEffect;
use crate::bomb::{
    bomb_ok, bomb_tick_rel, bomb_tile, breaks_box, covers, destroyed_tile, explosion_fits, fresh_bomb, goes_off, moved,
    stop_tile, triggered, Bomb, BombEvents, BombState,
};
use crate::direction::Direction;
use crate::collision::{is_colliding_with, map_fits, near_map, overlapping, sane, Pos, COORD_LIMIT, UNIT};
use crate::enemy::{centre_of, clamped, enemy_tick_rel, pt, roomy, Enemy, EnemyBehavior, ENEMY_RADIUS};
use crate::input::{axis, menu_state, GetOrDefault, Input, InputState, MenuInput};
use crate::game_settings::GameSettings;
use crate::map::{far_from, GameMap, LevelData, MapElement, MapSettings, MapType, generated_by, random_layout_owed, SpawnPoint};
use crate::player::{
    assisted, bomb_spot, fresh_player, kept, loose, may_plant, player_speed, walked, Player, PLAYER_RADIUS,
};
use crate::powerup::{can_take, centre_pos, pickers, picks, taken, PowerUp, PowerUpType, POWERUP_SIZE};
use crate::rng::random_in_range;
use crate::settings::GameDifficulty;

verus! {

/// Whether a game is a multiplayer match or a campaign level.
#[derive(Clone, Copy, Debug, PartialEq, Eq, Structural)]
pub enum GameMode {
    Multiplayer,
    Campaign,
}

/// The outcome of a campaign tick.
#[derive(Clone, Copy, Debug, PartialEq, Eq, Structural)]
pub enum GameTickResult {
    /// The level goes on.
    Ongoing,
    /// The player died with no life left.
    GameOver,
    /// The player reached the exit once every enemy was dead.
    LevelComplete,
}

/// The points a campaign awards.
#[derive(Clone, Copy, Debug, PartialEq, Eq, Structural)]
pub struct ScoreRules {
    pub enemy_kill: u32,
    pub breakable_destroyed: u32,
    pub powerup_pickup: u32,
    pub level_clear: u32,
    /// For how many seconds a level cleared early earns a bonus.
    pub time_bonus_seconds: u32,
    /// The bonus for each second left of that time.
    pub time_bonus_per_second: u32,
    /// The largest time bonus.
    pub time_bonus_cap: u32,
}

/// The bonus the rules `r` award for clearing a level in `elapsed_ms`
/// milliseconds: the whole seconds left of the bonus time, times the
/// bonus per second, at most the cap.
pub open spec fn time_bonus_of(r: ScoreRules, elapsed_ms: int) -> int {
    let secs = elapsed_ms / 1000;
    if r.time_bonus_per_second == 0 || r.time_bonus_seconds == 0 || secs >= r.time_bonus_seconds {
        0
    } else {
        let b = (r.time_bonus_seconds - secs) * r.time_bonus_per_second;
        if b < r.time_bonus_cap {
            b
        } else {
            r.time_bonus_cap as int
        }
    }
}

impl ScoreRules {
    /// The campaign's rules, as a value.
    pub open spec fn spec_campaign() -> ScoreRules {
        ScoreRules {
            enemy_kill: 100,
            breakable_destroyed: 10,
            powerup_pickup: 25,
            level_clear: 300,
            time_bonus_seconds: 120,
            time_bonus_per_second: 2,
            time_bonus_cap: 240,
        }
    }

    /// The campaign's rules: 100 points an enemy, 10 a box, 25 a power-up,
    /// 300 a level, and 2 points a second left of the first 120, at most 240.
    pub fn campaign() -> (r: ScoreRules)
        ensures
            r == (ScoreRules {
                enemy_kill: 100,
                breakable_destroyed: 10,
                powerup_pickup: 25,
                level_clear: 300,
                time_bonus_seconds: 120,
                time_bonus_per_second: 2,
                time_bonus_cap: 240,
            }),
    {
        ScoreRules {
            enemy_kill: 100,
            breakable_destroyed: 10,
            powerup_pickup: 25,
            level_clear: 300,
            time_bonus_seconds: 120,
            time_bonus_per_second: 2,
            time_bonus_cap: 240,
        }
    }

    /// The bonus for clearing a level in `elapsed_ms` milliseconds.
    pub fn time_bonus(&self, elapsed_ms: u64) -> (r: u32)
        requires
            self.time_bonus_seconds * self.time_bonus_per_second <= u32::MAX,
        ensures
            r == time_bonus_of(*self, elapsed_ms as int),
    {
        if self.time_bonus_per_second == 0 || self.time_bonus_seconds == 0 {
            return 0;
        }
        let elapsed_seconds = elapsed_ms / 1000;
        if elapsed_seconds >= self.time_bonus_seconds as u64 {
            return 0;
        }
        let remaining = self.time_bonus_seconds - elapsed_seconds as u32;
        assert(remaining * self.time_bonus_per_second <= self.time_bonus_seconds * self.time_bonus_per_second)
            by (nonlinear_arith)
            requires
                remaining <= self.time_bonus_seconds,
        ;
        let b = remaining * self.time_bonus_per_second;
        if b < self.time_bonus_cap {
            b
        } else {
            self.time_bonus_cap
        }
    }
}

/// `a + b`, or `u32::MAX` when that overflows.
pub open spec fn sat_add(a: int, b: int) -> int {
    if a + b > u32::MAX {
        u32::MAX as int
    } else {
        a + b
    }
}

/// `a * b`, or `u32::MAX` when that overflows.
pub open spec fn sat_mul(a: int, b: int) -> int {
    if a * b > u32::MAX {
        u32::MAX as int
    } else {
        a * b
    }
}

/// `a * b`, or `u32::MAX` when that overflows.
pub fn saturating_mul(a: u32, b: u32) -> (r: u32)
    ensures
        r == sat_mul(a as int, b as int),
{
    assert((a as int) * (b as int) <= 0xffff_fffe_0000_0001) by (nonlinear_arith)
        requires
            a <= 0xffff_ffff,
            b <= 0xffff_ffff,
    ;
    let p = (a as u64) * (b as u64);
    if p > 0xffff_ffff {
        0xffff_ffff
    } else {
        p as u32
    }
}

/// What happened during a game tick, for scoring.
#[derive(Clone, Copy, Debug, PartialEq, Eq, Structural)]
pub struct TickEvents {
    pub breakables_destroyed: u32,
    pub enemies_killed: u32,
    pub powerups_picked: u32,
}

impl Default for TickEvents {
    fn default() -> (r: TickEvents)
        ensures
            r == (TickEvents { breakables_destroyed: 0, enemies_killed: 0, powerups_picked: 0 }),
    {
        TickEvents { breakables_destroyed: 0, enemies_killed: 0, powerups_picked: 0 }
    }
}

impl TickEvents {
    /// Adds the boxes and enemies a bomb destroyed, the counts stopping at
    /// their largest value.
    pub fn add_bomb_events(&mut self, events: BombEvents)
        ensures
            *final(self) == (TickEvents {
                breakables_destroyed: sat_add(
                    old(self).breakables_destroyed as int,
                    events.breakables_destroyed as int,
                ) as u32,
                enemies_killed: sat_add(old(self).enemies_killed as int, events.enemies_killed as int) as u32,
                powerups_picked: old(self).powerups_picked,
            }),
    {
        self.breakables_destroyed = self.breakables_destroyed.saturating_add(events.breakables_destroyed);
        self.enemies_killed = self.enemies_killed.saturating_add(events.enemies_killed);
    }
}

/// How hard a campaign level is: how fast and how often its enemies decide,
/// how many are aggressive or cowards, and how many extra ones appear.
#[derive(Clone, Copy, Debug, PartialEq, Eq, Structural)]
pub struct DifficultyPreset {
    /// Multiplies the enemies' speed, in thousandths.
    pub enemy_speed_multiplier: u32,
    /// Milliseconds between two decisions of an enemy.
    pub decision_interval: u32,
    /// The chance, in percent, that an enemy is aggressive.
    pub aggressive_pct: u32,
    /// The chance, in percent, that an enemy is a coward.
    pub coward_pct: u32,
    /// How many enemies are added to the level's own.
    pub extra_enemies: u32,
}

/// `v` brought within `lo..=hi`.
pub open spec fn clamp_int(v: int, lo: int, hi: int) -> int {
    if v < lo {
        lo
    } else if v > hi {
        hi
    } else {
        v
    }
}

/// The smaller of two numbers.
pub open spec fn min_int(a: int, b: int) -> int {
    if a < b {
        a
    } else {
        b
    }
}

/// The larger of two numbers.
pub open spec fn max_int(a: int, b: int) -> int {
    if a > b {
        a
    } else {
        b
    }
}

/// The preset of the campaign level `level` at `difficulty`: from level to
/// level enemies get faster (8% a level, up to 60%), decide more often
/// (40 ms less a level, down to 300 ms), are more often aggressive (5% a
/// level, up to 60%) and more numerous (one more a level, up to 4); an easy
/// game slows them by 15%, gives them 20% more time, 10% less aggression and
/// one enemy less; a hard game speeds them by 15%, gives them 15% less time,
/// 10% more aggression (up to 80%) and one enemy more (up to 6). Speeds stay
/// within 0.6..=2.0 and intervals within 250..=900 ms.
pub open spec fn preset_for(level: int, difficulty: GameDifficulty) -> DifficultyPreset {
    let li = if level >= 1 { level - 1 } else { 0 };
    let speed = min_int(1000 + li * 80, 1600);
    let interval = max_int(650 - li * 40, 300);
    let aggressive = min_int(30 + li * 5, 60);
    let extra = min_int(li, 4);
    let (s, i, a, e) = match difficulty {
        GameDifficulty::Easy => (
            speed * 85 / 100,
            interval * 120 / 100,
            if aggressive >= 10 { aggressive - 10 } else { 0 },
            if extra >= 1 { extra - 1 } else { 0 },
        ),
        GameDifficulty::Normal => (speed, interval, aggressive, extra),
        GameDifficulty::Hard => (
            speed * 115 / 100,
            interval * 85 / 100,
            min_int(aggressive + 10, 80),
            min_int(extra + 1, 6),
        ),
    };
    DifficultyPreset {
        enemy_speed_multiplier: clamp_int(s, 600, 2000) as u32,
        decision_interval: clamp_int(i, 250, 900) as u32,
        aggressive_pct: a as u32,
        coward_pct: 20,
        extra_enemies: e as u32,
    }
}

/// The behavior a draw `roll` in `0..=99` gives an enemy under the preset
/// `p`: aggressive below the aggressive share, coward within the next
/// (what is left of a hundred bounding it), wanderer otherwise.
pub open spec fn behavior_for(p: DifficultyPreset, roll: int) -> EnemyBehavior {
    let aggressive = min_int(p.aggressive_pct as int, 100);
    let coward = min_int(p.coward_pct as int, 100 - aggressive);
    if roll < aggressive {
        EnemyBehavior::Aggressive
    } else if roll < aggressive + coward {
        EnemyBehavior::Coward
    } else {
        EnemyBehavior::Wander
    }
}

impl DifficultyPreset {
    /// The preset of the campaign level `level` (counted from 1) at `difficulty`.
    pub fn for_level(level: u32, difficulty: GameDifficulty) -> (p: DifficultyPreset)
        ensures
            p == preset_for(level as int, difficulty),
    {
        let level_index: u32 = if level >= 1 { level - 1 } else { 0 };
        let li = level_index as u64;
        let speed: u64 = if li >= 8 { 1600 } else { 1000 + li * 80 };
        let interval: u64 = if li >= 9 { 300 } else { 650 - li * 40 };
        let aggressive: u64 = if li >= 6 { 60 } else { 30 + li * 5 };
        let extra: u64 = if li >= 4 { 4 } else { li };
        let (s, i, a, e) = match difficulty {
            GameDifficulty::Easy => (
                speed * 85 / 100,
                interval * 120 / 100,
                if aggressive >= 10 { aggressive - 10 } else { 0 },
                if extra >= 1 { extra - 1 } else { 0 },
            ),
            GameDifficulty::Normal => (speed, interval, aggressive, extra),
            GameDifficulty::Hard => (
                speed * 115 / 100,
                interval * 85 / 100,
                if aggressive + 10 < 80 { aggressive + 10 } else { 80 },
                if extra + 1 < 6 { extra + 1 } else { 6 },
            ),
        };
        let s = if s < 600 { 600 } else if s > 2000 { 2000 } else { s };
        let i = if i < 250 { 250 } else if i > 900 { 900 } else { i };
        DifficultyPreset {
            enemy_speed_multiplier: s as u32,
            decision_interval: i as u32,
            aggressive_pct: a as u32,
            coward_pct: 20,
            extra_enemies: e as u32,
        }
    }

    /// The behavior the draw `roll` in `0..=99` gives an enemy.
    pub fn behavior_from_roll(&self, roll: u64) -> (b: EnemyBehavior)
        ensures
            b == behavior_for(*self, roll as int),
    {
        let aggressive: u64 = if self.aggressive_pct < 100 { self.aggressive_pct as u64 } else { 100 };
        let coward: u64 = if (self.coward_pct as u64) < 100 - aggressive {
            self.coward_pct as u64
        } else {
            100 - aggressive
        };
        if roll < aggressive {
            EnemyBehavior::Aggressive
        } else if roll < aggressive + coward {
            EnemyBehavior::Coward
        } else {
            EnemyBehavior::Wander
        }
    }

    /// A behavior drawn at random with the preset's shares.
    pub fn pick_behavior(&self) -> (b: EnemyBehavior)
        ensures
            exists|roll: int| 0 <= roll <= 99 && b == behavior_for(*self, roll),
    {
        let roll = random_in_range(0, 99);
        self.behavior_from_roll(roll)
    }
}

/// The state of an ongoing campaign.
#[derive(Clone, Copy, Debug, PartialEq, Eq, Structural)]
pub struct CampaignProgress {
    pub level: u32,
    pub lives: u32,
    /// The score of the ongoing campaign.
    pub score: u32,
    /// Milliseconds spent on the current level.
    pub level_time: u64,
    pub difficulty: GameDifficulty,
}

} // verus!

verus! {

/// Why a game could not be set up.
#[derive(Clone, Copy, Debug, PartialEq, Eq, Structural)]
pub enum GameError {
    /// The random map layout could not place its spawns.
    MapCreation,
}

/// Where the application goes after a game tick.
#[derive(Debug)]
pub enum Transition {
    /// The pause menu opens over the game.
    Pause,
    /// A multiplayer match ended with these winners.
    MultiplayerEnd(Vec<u32>),
    /// A campaign level was cleared.
    StageClear { level: u32, lives: u32, score: u32, difficulty: GameDifficulty },
    /// The campaign is over.
    GameOver { score: u32, difficulty: GameDifficulty },
}

/// The whole state of a match or of a campaign level.
pub struct GameState {
    pub mode: GameMode,
    /// The campaign's progress; none in multiplayer.
    pub campaign_progress: Option<CampaignProgress>,
    /// The players, each at the index of its id.
    pub players: Vec<Player>,
    /// The enemies of a campaign level.
    pub enemies: Vec<Enemy>,
    /// The middle of the exit's tile (the origin in multiplayer).
    pub exit_pos: Pos,
    /// Whether the exit was revealed, once every enemy died.
    pub exit_revealed: bool,
    /// The inputs of each player for the tick.
    pub game_inputs: Vec<Input>,
    pub nb_humans: u32,
    pub bombs: Vec<Bomb>,
    pub power_ups: Vec<PowerUp>,
    pub map: GameMap,
    /// The ids of the players alive at the end of the last tick some were alive.
    pub alive_players: Vec<u32>,
}

/// The middle of the tile of a spawn point.
pub open spec fn spawn_centre(s: SpawnPoint) -> Pos {
    ((s.x * UNIT + UNIT / 2) as i64, (s.y * UNIT + UNIT / 2) as i64)
}

/// The players of a match on a map with the spawn points `spawns`: one on
/// each of the first `humans + bots` spawn points, the humans first.
pub open spec fn players_for(spawns: Seq<SpawnPoint>, humans: int, bots: int) -> Seq<Player> {
    let n = if spawns.len() < humans + bots { spawns.len() as int } else { humans + bots };
    Seq::new(
        n as nat,
        |i: int| fresh_player(i as u32, spawn_centre(spawns[i]), spawns[i].direction, i < humans),
    )
}

/// The ids of the living players among the first `k`, in order.
pub open spec fn alive_ids(ps: Seq<Player>, k: int) -> Seq<u32>
    decreases k,
{
    if k <= 0 {
        Seq::empty()
    } else if ps[k - 1].alive {
        alive_ids(ps, k - 1).push(ps[k - 1].id)
    } else {
        alive_ids(ps, k - 1)
    }
}

/// The winners a match ends with, if it ends: when every player died, the
/// players alive at the previous check; when one player is left, that one.
pub open spec fn match_winners(ps: Seq<Player>, previous: Seq<u32>) -> Option<Seq<u32>> {
    let alive = alive_ids(ps, ps.len() as int);
    if alive.len() == 0 {
        Some(previous)
    } else if alive.len() == 1 {
        Some(alive)
    } else {
        None
    }
}

impl GameState {
    /// The players of a match on `map`: one on each of its first
    /// `nb_humans + nb_bots` spawn points, the humans first.
    pub fn create_players(map: &GameMap, nb_humans: u32, nb_bots: u32) -> (r: Vec<Player>)
        requires
            nb_humans + nb_bots <= u32::MAX,
        ensures
            r@ == players_for(map.spawns@, nb_humans as int, nb_bots as int),
    {
        let mut players: Vec<Player> = Vec::new();
        let total: u32 = nb_humans + nb_bots;
        let mut id: u32 = 0;
        let mut i: usize = 0;
        while i < map.spawns.len() && i < total as usize
            invariant
                i <= map.spawns@.len(),
                id == i,
                i <= total,
                total == nb_humans + nb_bots,
                players@.len() == i,
                forall|k: int|
                    0 <= k < i ==> #[trigger] players@[k] == fresh_player(
                        k as u32,
                        spawn_centre(map.spawns@[k]),
                        map.spawns@[k].direction,
                        k < nb_humans,
                    ),
            decreases map.spawns@.len() - i,
        {
            let spawn = map.spawns[i];
            let pos = (spawn.x as i64 * UNIT + UNIT / 2, spawn.y as i64 * UNIT + UNIT / 2);
            players.push(Player::new(id, pos, spawn.direction, id < nb_humans));
            id = id + 1;
            i = i + 1;
        }
        assert(players@ =~= players_for(map.spawns@, nb_humans as int, nb_bots as int));
        players
    }

    /// Ends the match when at most one player is left alive: with the
    /// winners then, else `None`, remembering who is still alive.
    pub fn create_mp_ret(&mut self) -> (r: Option<Vec<u32>>)
        ensures
            r matches Some(w) ==> Some(w@) == match_winners(old(self).players@, old(self).alive_players@),
            r is None <==> match_winners(old(self).players@, old(self).alive_players@) is None,
            r is None ==> final(self).alive_players@ == alive_ids(
                old(self).players@,
                old(self).players@.len() as int,
            ),
            r is Some ==> final(self).alive_players@ == old(self).alive_players@,
            *final(self) == (GameState { alive_players: final(self).alive_players, ..*old(self) }),
    {
        let mut alive: Vec<u32> = Vec::new();
        let mut i: usize = 0;
        while i < self.players.len()
            invariant
                i <= self.players@.len(),
                alive@ == alive_ids(self.players@, i as int),
            decreases self.players@.len() - i,
        {
            if self.players[i].alive {
                alive.push(self.players[i].id);
            }
            i = i + 1;
        }
        if alive.len() == 0 {
            return Some(copy_ids(&self.alive_players));
        }
        if alive.len() == 1 {
            return Some(alive);
        }
        self.alive_players = alive;
        None
    }

    /// Copies the players' inputs for the tick, as far as there are players.
    pub fn inputs_to_game_inputs(&mut self, inputs: &Vec<Input>)
        ensures
            final(self).game_inputs@.len() == old(self).game_inputs@.len(),
            forall|i: int|
                0 <= i < old(self).game_inputs@.len() ==> #[trigger] final(self).game_inputs@[i] == if i
                    < inputs@.len() {
                    inputs@[i]
                } else {
                    old(self).game_inputs@[i]
                },
            *final(self) == (GameState { game_inputs: final(self).game_inputs, ..*old(self) }),
    {
        let mut i: usize = 0;
        while i < inputs.len()
            invariant
                self.game_inputs@.len() == old(self).game_inputs@.len(),
                *self == (GameState { game_inputs: self.game_inputs, ..*old(self) }),
                forall|k: int|
                    0 <= k < old(self).game_inputs@.len() ==> #[trigger] self.game_inputs@[k] == if k < i
                        && k < inputs@.len() {
                        inputs@[k]
                    } else {
                        old(self).game_inputs@[k]
                    },
            decreases inputs@.len() - i,
        {
            if i < self.game_inputs.len() {
                self.game_inputs.set(i, inputs[i]);
            }
            i = i + 1;
        }
    }

    /// The player of id `id`, if any.
    pub fn get_player(&self, id: u32) -> (r: Option<&Player>)
        ensures
            r matches Some(p) ==> id < self.players@.len() && *p == self.players@[id as int],
            r is None <==> id >= self.players@.len(),
    {
        if (id as usize) < self.players.len() {
            Some(&self.players[id as usize])
        } else {
            None
        }
    }

    /// The map the game takes place on.
    pub fn get_map(&self) -> (r: &GameMap)
        ensures
            *r == self.map,
    {
        &self.map
    }
}

/// A copy of a list of ids.
fn copy_ids(ids: &Vec<u32>) -> (r: Vec<u32>)
    ensures
        r@ == ids@,
{
    let mut r: Vec<u32> = Vec::new();
    let mut i: usize = 0;
    while i < ids.len()
        invariant
            i <= ids@.len(),
            r@ == ids@.subrange(0, i as int),
        decreases ids@.len() - i,
    {
        r.push(ids[i]);
        i = i + 1;
    }
    assert(r@ =~= ids@);
    r
}

} // verus!

verus! {

/// The events `e` once the boxes and enemies of the bomb events `b` are
/// added, the counts stopping at their largest value.
pub open spec fn with_bomb(e: TickEvents, b: BombEvents) -> TickEvents {
    TickEvents {
        breakables_destroyed: sat_add(e.breakables_destroyed as int, b.breakables_destroyed as int) as u32,
        enemies_killed: sat_add(e.enemies_killed as int, b.enemies_killed as int) as u32,
        powerups_picked: e.powerups_picked,
    }
}

/// The positions of the bombs `bs` other than the `i`-th, in order.
pub open spec fn others_pos(bs: Seq<Bomb>, i: int) -> Seq<Pos> {
    bs.remove(i).map_values(|b: Bomb| b.position)
}

/// Whether the `i`-th bomb's tick of `delta` milliseconds takes the game
/// `g0`, with the sounds `s0`, to `g1` and `s1`, with the events `ev`.
#[verifier::opaque]
pub open spec fn bomb_step(
    g0: GameState,
    s0: Seq<SoundEffect>,
    g1: GameState,
    s1: Seq<SoundEffect>,
    i: int,
    delta: int,
    ev: BombEvents,
) -> bool {
    &&& 0 <= i < g0.bombs@.len()
    &&& g1.bombs@ == g0.bombs@.update(i, g1.bombs@[i])
    &&& bomb_tick_rel(
        g0.bombs@[i],
        g1.bombs@[i],
        delta,
        g0.players@,
        g1.players@,
        g0.enemies@,
        g1.enemies@,
        g0.map,
        g1.map,
        g0.power_ups@,
        g1.power_ups@,
        s0,
        s1,
        others_pos(g0.bombs@, i),
        ev,
    )
    &&& g1 == (GameState {
        bombs: g1.bombs,
        players: g1.players,
        enemies: g1.enemies,
        map: g1.map,
        power_ups: g1.power_ups,
        ..g0
    })
}

/// Whether ticking the first `k` bombs one after the other, each seeing
/// where the others stand at its turn, takes the game `g0`, the sounds
/// `s0` and the events `e0` to `g1`, `s1` and `e1`.
pub open spec fn bombs_ticked(
    g0: GameState,
    s0: Seq<SoundEffect>,
    e0: TickEvents,
    g1: GameState,
    s1: Seq<SoundEffect>,
    e1: TickEvents,
    delta: int,
    k: nat,
) -> bool
    decreases k, 0nat,
{
    if k == 0 {
        g1 == g0 && s1 == s0 && e1 == e0
    } else {
        bombs_ticked_then(g0, s0, e0, g1, s1, e1, delta, (k - 1) as nat)
    }
}

/// Whether ticking the first `k` bombs, then the `k`-th one, takes `g0`,
/// `s0` and `e0` to `g1`, `s1` and `e1`.
pub open spec fn bombs_ticked_then(
    g0: GameState,
    s0: Seq<SoundEffect>,
    e0: TickEvents,
    g1: GameState,
    s1: Seq<SoundEffect>,
    e1: TickEvents,
    delta: int,
    k: nat,
) -> bool
    decreases k, 1nat,
{
    exists|gm: GameState, sm: Seq<SoundEffect>, em: TickEvents, ev: BombEvents|
        #![trigger bomb_step(gm, sm, g1, s1, k as int, delta, ev), with_bomb(em, ev)]
        bombs_ticked(g0, s0, e0, gm, sm, em, delta, k) && bomb_step(gm, sm, g1, s1, k as int, delta, ev) && e1
            == with_bomb(em, ev)
}

/// Whether the entities of `g` stand where the game keeps them, and the map
/// suits the game.
pub open spec fn placed(g: GameState) -> bool {
    &&& map_fits(g.map)
    &&& 1 <= g.map.width
    &&& 1 <= g.map.height
    &&& g.map.width * g.map.height <= usize::MAX
    &&& g.players@.len() <= u32::MAX
    &&& g.enemies@.len() <= u32::MAX
    &&& forall|i: int|
        0 <= i < g.players@.len() ==> near_map(
            g.map,
            (#[trigger] g.players@[i].position.0 as int, g.players@[i].position.1 as int),
            30 * UNIT,
        )
    &&& forall|i: int| 0 <= i < g.enemies@.len() ==> sane(#[trigger] g.enemies@[i].position)
    &&& forall|i: int| 0 <= i < g.bombs@.len() ==> bomb_ok(g.map, #[trigger] g.bombs@[i])
    &&& forall|i: int|
        0 <= i < g.power_ups@.len() ==> (#[trigger] g.power_ups@[i]).pos.0 < g.map.width && g.power_ups@[i].pos.1
            < g.map.height
}

impl GameState {
    /// Ticks every bomb in turn, each seeing where the others stand at its
    /// turn, and adds up what they destroyed.
    pub fn tick_bombs(&mut self, delta: u32, sounds: &mut Vec<SoundEffect>, events: &mut TickEvents)
        requires
            placed(*old(self)),
            forall|j: int|
                0 <= j < old(self).players@.len() ==> (#[trigger] old(self).players@[j]).bombs_remaining
                    + old(self).bombs@.len() <= u32::MAX,
        ensures
            bombs_ticked(
                *old(self),
                old(sounds)@,
                *old(events),
                *final(self),
                final(sounds)@,
                *final(events),
                delta as int,
                old(self).bombs@.len(),
            ),
            placed(*final(self)),
            final(self).players@.len() == old(self).players@.len(),
            forall|j: int|
                0 <= j < old(self).players@.len() ==> (#[trigger] final(self).players@[j]).bombs_remaining
                    <= old(self).players@[j].bombs_remaining + old(self).bombs@.len(),
            final(self).map.width == old(self).map.width,
            final(self).map.height == old(self).map.height,
            *final(self) == (GameState {
                bombs: final(self).bombs,
                players: final(self).players,
                enemies: final(self).enemies,
                map: final(self).map,
                power_ups: final(self).power_ups,
                ..*old(self)
            }),
    {
        let n = self.bombs.len();
        let mut i: usize = 0;
        while i < n
            invariant
                i <= n,
                n == old(self).bombs@.len(),
                self.bombs@.len() == n,
                placed(*self),
                self.map.width == old(self).map.width,
                self.map.height == old(self).map.height,
                *self == (GameState {
                    bombs: self.bombs,
                    players: self.players,
                    enemies: self.enemies,
                    map: self.map,
                    power_ups: self.power_ups,
                    ..*old(self)
                }),
                self.players@.len() == old(self).players@.len(),
                forall|j: int|
                    0 <= j < old(self).players@.len() ==> (#[trigger] old(self).players@[j]).bombs_remaining
                        + old(self).bombs@.len() <= u32::MAX,
                forall|j: int|
                    0 <= j < self.players@.len() ==> (#[trigger] self.players@[j]).bombs_remaining
                        <= old(self).players@[j].bombs_remaining + i,
                bombs_ticked(
                    *old(self),
                    old(sounds)@,
                    *old(events),
                    *self,
                    sounds@,
                    *events,
                    delta as int,
                    i as nat,
                ),
            decreases n - i,
        {
            let ghost g0 = *self;
            let ghost s0 = sounds@;
            let ghost e0 = *events;
            let bombs_pos = positions_except(&self.bombs, i);
            let mut b = self.bombs[i];
            proof {
                assert forall|k: int| 0 <= k < bombs_pos@.len() implies sane(#[trigger] bombs_pos@[k]) by {
                    let j = if k < i { k } else { k + 1 };
                    assert(bombs_pos@[k] == self.bombs@[j].position);
                    assert(bomb_ok(self.map, self.bombs@[j]));
                }
                assert forall|k: int| 0 <= k < self.players@.len() implies sane(#[trigger] self.players@[k].position) by {
                    assert(near_map(self.map, (self.players@[k].position.0 as int, self.players@[k].position.1 as int), 30 * UNIT));
                }
            }
            let ghost pu0 = self.power_ups@;
            let ghost m0 = self.map;
            let ev = b.tick(
                delta,
                &mut self.players,
                &mut self.enemies,
                &mut self.map,
                &mut self.power_ups,
                sounds,
                &bombs_pos,
            );
            self.bombs.set(i, b);
            events.add_bomb_events(ev);
            proof {
                assert forall|k: int| 0 <= k < self.power_ups@.len() implies (#[trigger] self.power_ups@[k]).pos.0
                    < self.map.width && self.power_ups@[k].pos.1 < self.map.height by {
                    if k < pu0.len() {
                        assert(self.power_ups@.subrange(0, pu0.len() as int)[k] == pu0[k]);
                    } else {
                        let bm = moved(g0.bombs@[i as int], m0, g0.players@, bombs_pos@, delta as int);
                        lemma_destroyed_in_map(m0, bm, self.power_ups@[k].pos.0 as int, self.power_ups@[k].pos.1 as int);
                    }
                }
                assert forall|k: int| 0 <= k < self.bombs@.len() implies bomb_ok(self.map, #[trigger] self.bombs@[k]) by {
                    if k != i {
                        assert(self.bombs@[k] == g0.bombs@[k]);
                    }
                }
                reveal(bomb_step);
                assert(bomb_step(g0, s0, *self, sounds@, i as int, delta as int, ev));
                lemma_bombs_ticked_step(
                    *old(self),
                    old(sounds)@,
                    *old(events),
                    g0,
                    s0,
                    e0,
                    *self,
                    sounds@,
                    *events,
                    ev,
                    delta as int,
                    i as nat,
                );
            }
            i = i + 1;
        }
    }
}

/// A box destroyed by an explosion lies on the map.
proof fn lemma_destroyed_in_map(m: GameMap, b: Bomb, x: int, y: int)
    requires
        destroyed_tile(m, bomb_tile(b).0, bomb_tile(b).1, b.power as int, x, y),
    ensures
        m.in_map(x, y),
{
    let d = choose|d: Direction|
        breaks_box(m, bomb_tile(b).0, bomb_tile(b).1, d, b.power as int) && #[trigger] stop_tile(
            m,
            bomb_tile(b).0,
            bomb_tile(b).1,
            d,
            b.power as int,
        ) == (x, y);
}

/// One more bomb tick extends a run of bomb ticks.
proof fn lemma_bombs_ticked_step(
    g0: GameState,
    s0: Seq<SoundEffect>,
    e0: TickEvents,
    gm: GameState,
    sm: Seq<SoundEffect>,
    em: TickEvents,
    g1: GameState,
    s1: Seq<SoundEffect>,
    e1: TickEvents,
    ev: BombEvents,
    delta: int,
    k: nat,
)
    requires
        bombs_ticked(g0, s0, e0, gm, sm, em, delta, k),
        bomb_step(gm, sm, g1, s1, k as int, delta, ev),
        e1 == with_bomb(em, ev),
    ensures
        bombs_ticked(g0, s0, e0, g1, s1, e1, delta, k + 1),
{
    assert(bombs_ticked_then(g0, s0, e0, g1, s1, e1, delta, k));
}

/// The positions of the bombs other than the `i`-th, in order.
fn positions_except(bombs: &Vec<Bomb>, i: usize) -> (r: Vec<Pos>)
    requires
        i < bombs@.len(),
    ensures
        r@ == others_pos(bombs@, i as int),
{
    let mut r: Vec<Pos> = Vec::new();
    let mut k: usize = 0;
    while k < bombs.len()
        invariant
            k <= bombs@.len(),
            i < bombs@.len(),
            r@ == bombs@.remove(i as int).map_values(|b: Bomb| b.position).subrange(
                0,
                if k <= i { k as int } else { k - 1 },
            ),
        decreases bombs@.len() - k,
    {
        if k != i {
            r.push(bombs[k].position);
        }
        k = k + 1;
    }
    r
}

} // verus!

verus! {

/// The bombs `bs` after the `i`-th, if exploding with arms that fit the
/// map's origin, sets off the live bombs on the tiles it covers.
pub open spec fn chain_step(bs: Seq<Bomb>, i: int) -> Seq<Bomb> {
    let src = bs[i];
    if src.state is Exploding && explosion_fits(src) {
        Seq::new(bs.len(), |j: int| if covers(src, bs[j]) { triggered(bs[j]) } else { bs[j] })
    } else {
        bs
    }
}

/// The bombs `bs` after the first `k` of them, in turn, set off the bombs
/// their explosions cover.
pub open spec fn chained(bs: Seq<Bomb>, k: int) -> Seq<Bomb>
    decreases k,
{
    if k <= 0 {
        bs
    } else {
        chain_step(chained(bs, k - 1), k - 1)
    }
}

/// Whether every element of `a` is one of `b`.
pub open spec fn all_among<T>(a: Seq<T>, b: Seq<T>) -> bool {
    forall|k: int| 0 <= k < a.len() ==> b.contains(#[trigger] a[k])
}

/// The bombs of `bs` still in the game.
pub open spec fn remaining_bombs(bs: Seq<Bomb>) -> Seq<Bomb> {
    bs.filter(|b: Bomb| !b.despawn)
}

/// The power-ups of `us` still lying on the map.
pub open spec fn remaining_power_ups(us: Seq<PowerUp>) -> Seq<PowerUp> {
    us.filter(|u: PowerUp| !u.despawn)
}

impl GameState {
    /// Every exploding bomb, in turn, sets off the live bombs its arms
    /// cover; an explosion whose arms pass the map's origin sets off none.
    pub fn chain_reactions(&mut self)
        requires
            forall|i: int| 0 <= i < old(self).bombs@.len() ==> sane(#[trigger] old(self).bombs@[i].position),
        ensures
            final(self).bombs@ == chained(old(self).bombs@, old(self).bombs@.len() as int),
            *final(self) == (GameState { bombs: final(self).bombs, ..*old(self) }),
            final(self).bombs@.len() == old(self).bombs@.len(),
            forall|k: int|
                0 <= k < final(self).bombs@.len() ==> (#[trigger] final(self).bombs@[k]).position == old(
                    self,
                ).bombs@[k].position,
    {
        let n = self.bombs.len();
        let mut i: usize = 0;
        while i < n
            invariant
                i <= n,
                n == old(self).bombs@.len(),
                self.bombs@.len() == n,
                self.bombs@ == chained(old(self).bombs@, i as int),
                *self == (GameState { bombs: self.bombs, ..*old(self) }),
                forall|k: int| 0 <= k < self.bombs@.len() ==> sane(#[trigger] self.bombs@[k].position),
                forall|k: int| 0 <= k < self.bombs@.len() ==> (#[trigger] self.bombs@[k]).position == old(self).bombs@[k].position,
            decreases n - i,
        {
            let ghost bs0 = self.bombs@;
            let src = self.bombs[i];
            if src.state == BombState::Exploding && src.explosion_fits() {
                src.chain_react(&mut self.bombs);
                assert(self.bombs@ =~= chain_step(bs0, i as int));
            }
            proof {
                assert forall|k: int| 0 <= k < self.bombs@.len() implies sane(#[trigger] self.bombs@[k].position)
                    && self.bombs@[k].position == old(self).bombs@[k].position by {
                    assert(self.bombs@[k].position == bs0[k].position);
                }
            }
            i = i + 1;
        }
    }

    /// Removes the bombs whose explosion is over.
    pub fn clear_bombs(&mut self)
        ensures
            final(self).bombs@ == remaining_bombs(old(self).bombs@),
            *final(self) == (GameState { bombs: final(self).bombs, ..*old(self) }),
            all_among(final(self).bombs@, old(self).bombs@),
    {
        let mut kept: Vec<Bomb> = Vec::new();
        let ghost mut src: Seq<int> = Seq::empty();
        let mut i: usize = 0;
        while i < self.bombs.len()
            invariant
                i <= self.bombs@.len(),
                *self == *old(self),
                kept@ == remaining_bombs(self.bombs@.subrange(0, i as int)),
                src.len() == kept@.len(),
                forall|k: int| 0 <= k < kept@.len() ==> 0 <= #[trigger] src[k] < i && kept@[k] == self.bombs@[src[k]],
            decreases self.bombs@.len() - i,
        {
            proof {
                reveal(Seq::filter);
                assert(self.bombs@.subrange(0, i + 1).drop_last() =~= self.bombs@.subrange(0, i as int));
            }
            if !self.bombs[i].despawn {
                kept.push(self.bombs[i]);
                proof {
                    src = src.push(i as int);
                }
            }
            i = i + 1;
        }
        assert(self.bombs@.subrange(0, self.bombs@.len() as int) =~= self.bombs@);
        let ghost olds = self.bombs@;
        self.bombs = kept;
        assert forall|k: int| 0 <= k < self.bombs@.len() implies olds.contains(#[trigger] self.bombs@[k]) by {
            assert(self.bombs@[k] == olds[src[k]]);
        }
    }

    /// Removes the power-ups picked up.
    pub fn clear_power_ups(&mut self)
        ensures
            final(self).power_ups@ == remaining_power_ups(old(self).power_ups@),
            *final(self) == (GameState { power_ups: final(self).power_ups, ..*old(self) }),
    {
        let mut kept: Vec<PowerUp> = Vec::new();
        let mut i: usize = 0;
        while i < self.power_ups.len()
            invariant
                i <= self.power_ups@.len(),
                *self == *old(self),
                kept@ == remaining_power_ups(self.power_ups@.subrange(0, i as int)),
            decreases self.power_ups@.len() - i,
        {
            proof {
                reveal(Seq::filter);
                assert(self.power_ups@.subrange(0, i + 1).drop_last() =~= self.power_ups@.subrange(0, i as int));
            }
            if !self.power_ups[i].despawn {
                kept.push(self.power_ups[i]);
            }
            i = i + 1;
        }
        assert(self.power_ups@.subrange(0, self.power_ups@.len() as int) =~= self.power_ups@);
        self.power_ups = kept;
    }
}

} // verus!

verus! {

/// Whether every player standing on the power-up `u` can take its bonus.
pub open spec fn takeable(ps: Seq<Player>, u: PowerUp) -> bool {
    forall|i: int| 0 <= i < ps.len() && picks(#[trigger] ps[i], u) ==> can_take(ps[i], u.power_up_type)
}

/// Whether some player stands on the power-up `u`.
pub open spec fn picked_by_any(ps: Seq<Player>, u: PowerUp) -> bool {
    exists|i: int| 0 <= i < ps.len() && picks(#[trigger] ps[i], u)
}

/// The players, the power-ups, the count of power-ups picked up (from
/// `c0`, stopping at its largest value) and the sounds played once the
/// first `k` power-ups gave their bonus to the players standing on them;
/// a power-up whose bonus would overflow a counter of such a player stays
/// where it is.
pub open spec fn power_ups_done(ps: Seq<Player>, us: Seq<PowerUp>, c0: int, k: int) -> (Seq<Player>, Seq<PowerUp>, int, Seq<SoundEffect>)
    decreases k,
{
    if k <= 0 {
        (ps, us, c0, Seq::empty())
    } else {
        let (ps1, us1, c1, s1) = power_ups_done(ps, us, c0, k - 1);
        let u = us1[k - 1];
        if takeable(ps1, u) {
            let hit = picked_by_any(ps1, u);
            (
                Seq::new(ps1.len(), |i: int| if picks(ps1[i], u) { taken(ps1[i], u.power_up_type) } else { ps1[i] }),
                us1.update(k - 1, PowerUp { despawn: u.despawn || hit, ..u }),
                if hit { sat_add(c1, 1) } else { c1 },
                s1 + Seq::new(pickers(ps1, u, ps1.len() as int) as nat, |_i: int| SoundEffect::BonusPickup),
            )
        } else {
            (ps1, us1, c1, s1)
        }
    }
}

/// The ids and positions of the living players, in order.
pub open spec fn alive_poses(ps: Seq<Player>, k: int) -> Seq<(u32, Pos)>
    decreases k,
{
    if k <= 0 {
        Seq::empty()
    } else if ps[k - 1].alive {
        alive_poses(ps, k - 1).push((ps[k - 1].id, ps[k - 1].position))
    } else {
        alive_poses(ps, k - 1)
    }
}

/// The state of the input `index` of player `i` among `inputs`: released
/// when the player has no input.
pub open spec fn input_of(inputs: Seq<Input>, i: int, index: int) -> InputState {
    if 0 <= i < inputs.len() {
        inputs[i]@[index]
    } else {
        InputState::Released
    }
}

/// The players, the bombs and the sounds played once the first `k`
/// players planted a bomb if alive, pressing the bomb input, and allowed to,
/// `poses` being the living players' positions at the start.
pub open spec fn planted(ps: Seq<Player>, bs: Seq<Bomb>, inputs: Seq<Input>, poses: Seq<(u32, Pos)>, k: int) -> (Seq<Player>, Seq<Bomb>, Seq<SoundEffect>)
    decreases k,
{
    if k <= 0 {
        (ps, bs, Seq::empty())
    } else {
        let (ps1, bs1, s1) = planted(ps, bs, inputs, poses, k - 1);
        let p = ps1[k - 1];
        if p.alive && input_of(inputs, k - 1, 4) == InputState::Pressed && may_plant(p, bs1, poses) {
            (
                ps1.update(k - 1, Player { bombs_remaining: (p.bombs_remaining - 1) as u32, ..p }),
                bs1.push(fresh_bomb(p.id, bomb_spot(p.position).0, bomb_spot(p.position).1, p.power_level)),
                s1.push(SoundEffect::PutBomb),
            )
        } else {
            (ps1, bs1, s1)
        }
    }
}

/// The players and the bombs once the first `k` living players moved for
/// `delta` milliseconds along their inputs.
pub open spec fn players_moved(ps: Seq<Player>, bs: Seq<Bomb>, inputs: Seq<Input>, m: GameMap, delta: int, k: int) -> (Seq<Player>, Seq<Bomb>)
    decreases k,
{
    if k <= 0 {
        (ps, bs)
    } else {
        let (ps1, bs1) = players_moved(ps, bs, inputs, m, delta, k - 1);
        let p = ps1[k - 1];
        if p.alive {
            let a = assisted(
                p.position,
                axis(input_of(inputs, k - 1, 2), input_of(inputs, k - 1, 3)),
                axis(input_of(inputs, k - 1, 1), input_of(inputs, k - 1, 0)),
                m,
            );
            let base = player_speed(p.speed_level as int) * delta / 1000;
            let (p2, bs2) = walked(p, m, bs1, a.0 * base, a.1 * base);
            (ps1.update(k - 1, p2), bs2)
        } else {
            (ps1, bs1)
        }
    }
}

} // verus!

verus! {

/// Whether the player `p` can take the bonus `t` without a counter overflowing.
fn can_take_exec(p: &Player, t: PowerUpType) -> (r: bool)
    ensures
        r == can_take(*p, t),
{
    match t {
        PowerUpType::Speed => p.speed_level < 255,
        PowerUpType::Power => p.power_level < 255,
        PowerUpType::Bomb => p.bombs_remaining < 0xffff_ffff,
        PowerUpType::Slide => true,
    }
}

/// Whether every player standing on the power-up `u` can take its bonus.
fn takeable_exec(players: &Vec<Player>, u: &PowerUp) -> (r: bool)
    requires
        u.pos.0 <= 1_000_000,
        u.pos.1 <= 1_000_000,
        forall|i: int| 0 <= i < players@.len() ==> sane(#[trigger] players@[i].position),
    ensures
        r == takeable(players@, *u),
{
    let centre = ((u.pos.0 as i64) * UNIT + UNIT / 2, (u.pos.1 as i64) * UNIT + UNIT / 2);
    assert(centre == centre_pos(u.pos));
    let mut i: usize = 0;
    while i < players.len()
        invariant
            i <= players@.len(),
            centre == centre_pos(u.pos),
            sane(centre),
            forall|k: int| 0 <= k < players@.len() ==> sane(#[trigger] players@[k].position),
            forall|k: int| 0 <= k < i && picks(#[trigger] players@[k], *u) ==> can_take(players@[k], u.power_up_type),
        decreases players@.len() - i,
    {
        let p = players[i];
        if is_colliding_with(p.position, PLAYER_RADIUS, centre, POWERUP_SIZE) && !can_take_exec(&p, u.power_up_type) {
            assert(picks(players@[i as int], *u));
            return false;
        }
        i = i + 1;
    }
    true
}

impl GameState {
    /// Every power-up, in turn, gives its bonus to the players standing on
    /// it and is picked up; the count of power-ups picked up grows,
    /// stopping at its largest value. A power-up whose bonus would overflow
    /// a counter of a player standing on it stays where it is.
    pub fn tick_power_ups(&mut self, sounds: &mut Vec<SoundEffect>, events: &mut TickEvents)
        requires
            forall|i: int| 0 <= i < old(self).players@.len() ==> sane(#[trigger] old(self).players@[i].position),
            forall|i: int|
                0 <= i < old(self).power_ups@.len() ==> (#[trigger] old(self).power_ups@[i]).pos.0 <= 1_000_000
                    && old(self).power_ups@[i].pos.1 <= 1_000_000,
        ensures
            ({
                let f = power_ups_done(
                    old(self).players@,
                    old(self).power_ups@,
                    old(events).powerups_picked as int,
                    old(self).power_ups@.len() as int,
                );
                &&& final(self).players@ == f.0
                &&& final(self).power_ups@ == f.1
                &&& *final(events) == (TickEvents { powerups_picked: f.2 as u32, ..*old(events) })
                &&& final(sounds)@ == old(sounds)@ + f.3
            }),
            *final(self) == (GameState { players: final(self).players, power_ups: final(self).power_ups, ..*old(self) }),
            final(self).players@.len() == old(self).players@.len(),
            forall|i: int|
                0 <= i < final(self).players@.len() ==> (#[trigger] final(self).players@[i]).position == old(
                    self,
                ).players@[i].position,
    {
        let n = self.power_ups.len();
        let mut k: usize = 0;
        while k < n
            invariant
                k <= n,
                n == old(self).power_ups@.len(),
                ({
                    let f = power_ups_done(
                        old(self).players@,
                        old(self).power_ups@,
                        old(events).powerups_picked as int,
                        k as int,
                    );
                    &&& self.players@ == f.0
                    &&& self.power_ups@ == f.1
                    &&& *events == (TickEvents { powerups_picked: f.2 as u32, ..*old(events) })
                    &&& 0 <= f.2 <= u32::MAX
                    &&& sounds@ == old(sounds)@ + f.3
                }),
                self.power_ups@.len() == n,
                self.players@.len() == old(self).players@.len(),
                forall|i: int| 0 <= i < self.players@.len() ==> sane(#[trigger] self.players@[i].position),
                forall|i: int| 0 <= i < self.players@.len() ==> (#[trigger] self.players@[i]).position == old(self).players@[i].position,
                forall|i: int|
                    0 <= i < self.power_ups@.len() ==> (#[trigger] self.power_ups@[i]).pos == old(self).power_ups@[i].pos,
                forall|i: int|
                    0 <= i < old(self).power_ups@.len() ==> (#[trigger] old(self).power_ups@[i]).pos.0 <= 1_000_000
                        && old(self).power_ups@[i].pos.1 <= 1_000_000,
                *self == (GameState { players: self.players, power_ups: self.power_ups, ..*old(self) }),
            decreases n - k,
        {
            let ghost ps1 = self.players@;
            let ghost us1 = self.power_ups@;
            let ghost s1 = sounds@;
            let mut u = self.power_ups[k];
            assert(u.pos == old(self).power_ups@[k as int].pos);
            if takeable_exec(&self.players, &u) {
                let picked = u.tick(&mut self.players, sounds);
                if picked {
                    events.powerups_picked = events.powerups_picked.saturating_add(1);
                }
                self.power_ups.set(k, u);
                proof {
                    assert(self.players@ =~= Seq::new(
                        ps1.len(),
                        |i: int| if picks(ps1[i], us1[k as int]) { taken(ps1[i], us1[k as int].power_up_type) } else { ps1[i] },
                    ));
                    assert(sounds@ =~= old(sounds)@ + (power_ups_done(
                        old(self).players@,
                        old(self).power_ups@,
                        old(events).powerups_picked as int,
                        k as int,
                    ).3 + Seq::new(pickers(ps1, us1[k as int], ps1.len() as int) as nat, |_i: int| SoundEffect::BonusPickup)));
                    assert forall|i: int| 0 <= i < self.players@.len() implies (#[trigger] self.players@[i]).position == old(self).players@[i].position by {
                        assert(self.players@[i].position == ps1[i].position);
                    }
                }
            }
            k = k + 1;
        }
    }

    /// The ids and positions of the living players.
    fn alive_player_poses(&self) -> (r: Vec<(u32, Pos)>)
        ensures
            r@ == alive_poses(self.players@, self.players@.len() as int),
    {
        let mut r: Vec<(u32, Pos)> = Vec::new();
        let mut i: usize = 0;
        while i < self.players.len()
            invariant
                i <= self.players@.len(),
                r@ == alive_poses(self.players@, i as int),
            decreases self.players@.len() - i,
        {
            if self.players[i].alive {
                r.push((self.players[i].id, self.players[i].position));
            }
            i = i + 1;
        }
        r
    }

    /// Every living player pressing its bomb input plants a bomb, in turn,
    /// when allowed to.
    pub fn plant_bombs(&mut self, sounds: &mut Vec<SoundEffect>)
        requires
            forall|i: int|
                0 <= i < old(self).players@.len() ==> loose(#[trigger] old(self).players@[i].position),
            forall|i: int| 0 <= i < old(self).bombs@.len() ==> sane(#[trigger] old(self).bombs@[i].position),
        ensures
            ({
                let poses = alive_poses(old(self).players@, old(self).players@.len() as int);
                let f = planted(
                    old(self).players@,
                    old(self).bombs@,
                    old(self).game_inputs@,
                    poses,
                    old(self).players@.len() as int,
                );
                &&& final(self).players@ == f.0
                &&& final(self).bombs@ == f.1
                &&& final(sounds)@ == old(sounds)@ + f.2
            }),
            *final(self) == (GameState { players: final(self).players, bombs: final(self).bombs, ..*old(self) }),
            final(self).players@.len() == old(self).players@.len(),
            forall|k: int|
                0 <= k < final(self).players@.len() ==> (#[trigger] final(self).players@[k]).position == old(
                    self,
                ).players@[k].position,
            old(self).bombs@.len() <= final(self).bombs@.len(),
            forall|k: int| 0 <= k < old(self).bombs@.len() ==> #[trigger] final(self).bombs@[k] == old(self).bombs@[k],
            forall|i: int|
                0 <= i < old(self).players@.len() && input_of(old(self).game_inputs@, i, 4) != InputState::Pressed
                    ==> #[trigger] final(self).players@[i] == old(self).players@[i],
            forall|k: int|
                old(self).bombs@.len() <= k < final(self).bombs@.len() ==> exists|i: int|
                    0 <= i < old(self).players@.len() && input_of(old(self).game_inputs@, i, 4) == InputState::Pressed
                        && (#[trigger] final(self).bombs@[k]).owner_id == old(self).players@[i].id,
            forall|k: int|
                old(self).bombs@.len() <= k < final(self).bombs@.len() ==> exists|i: int|
                    0 <= i < old(self).players@.len() && (#[trigger] final(self).bombs@[k]).position == spot_centre(
                        old(self).players@[i].position,
                    ),
    {
        let poses = self.alive_player_poses();
        let ghost gposes = poses@;
        proof {
            lemma_alive_poses_kept(self.players@, self.players@.len() as int);
        }
        let n = self.players.len();
        let mut i: usize = 0;
        while i < n
            invariant
                i <= n,
                n == old(self).players@.len(),
                self.players@.len() == n,
                poses@ == gposes,
                gposes == alive_poses(old(self).players@, old(self).players@.len() as int),
                forall|k: int| 0 <= k < gposes.len() ==> sane(#[trigger] gposes[k].1),
                ({
                    let f = planted(old(self).players@, old(self).bombs@, old(self).game_inputs@, gposes, i as int);
                    &&& self.players@ == f.0
                    &&& self.bombs@ == f.1
                    &&& sounds@ == old(sounds)@ + f.2
                }),
                forall|k: int| 0 <= k < n ==> (#[trigger] self.players@[k]).position == old(self).players@[k].position,
                forall|k: int| 0 <= k < n ==> loose(#[trigger] old(self).players@[k].position),
                forall|k: int| 0 <= k < self.bombs@.len() ==> sane(#[trigger] self.bombs@[k].position),
                *self == (GameState { players: self.players, bombs: self.bombs, ..*old(self) }),
                old(self).bombs@.len() <= self.bombs@.len(),
                forall|k: int| 0 <= k < old(self).bombs@.len() ==> #[trigger] self.bombs@[k] == old(self).bombs@[k],
                forall|k: int|
                    old(self).bombs@.len() <= k < self.bombs@.len() ==> exists|j: int|
                        0 <= j < old(self).players@.len() && (#[trigger] self.bombs@[k]).position == spot_centre(
                            old(self).players@[j].position,
                        ),
            decreases n - i,
        {
            let ghost s1 = sounds@;
            let mut p = self.players[i];
            assert(p.position == old(self).players@[i as int].position);
            let input = self.game_inputs.get_or_default(i);
            if p.alive && input.bomb() == InputState::Pressed {
                if let Some(b) = p.create_bomb(&self.bombs, &poses) {
                    proof {
                        lemma_spot_sane(p.position);
                    }
                    self.players.set(i, p);
                    sounds.push(SoundEffect::PutBomb);
                    self.bombs.push(b);
                    assert(self.bombs@[self.bombs@.len() - 1].position == spot_centre(old(self).players@[i as int].position));
                    assert(sounds@ =~= old(sounds)@ + planted(
                        old(self).players@,
                        old(self).bombs@,
                        old(self).game_inputs@,
                        gposes,
                        i as int + 1,
                    ).2);
                }
            }
            i = i + 1;
        }
        proof {
            lemma_plant_only_on_press(
                old(self).players@,
                old(self).bombs@,
                old(self).game_inputs@,
                gposes,
                old(self).players@.len() as int,
            );
        }
    }

    /// Moves every living player, in turn, for `delta` milliseconds along its inputs.
    pub fn move_players(&mut self, delta: u32)
        requires
            map_fits(old(self).map),
            1 <= old(self).map.width,
            1 <= old(self).map.height,
            forall|i: int| 0 <= i < old(self).players@.len() ==> loose(#[trigger] old(self).players@[i].position),
            forall|i: int| 0 <= i < old(self).bombs@.len() ==> kept(#[trigger] old(self).bombs@[i].position),
        ensures
            ({
                let f = players_moved(
                    old(self).players@,
                    old(self).bombs@,
                    old(self).game_inputs@,
                    old(self).map,
                    delta as int,
                    old(self).players@.len() as int,
                );
                &&& final(self).players@ == f.0
                &&& final(self).bombs@ == f.1
            }),
            *final(self) == (GameState { players: final(self).players, bombs: final(self).bombs, ..*old(self) }),
            forall|i: int| 0 <= i < final(self).players@.len() ==> loose(#[trigger] final(self).players@[i].position),
            final(self).players@.len() == old(self).players@.len(),
            final(self).bombs@.len() == old(self).bombs@.len(),
            forall|i: int|
                0 <= i < final(self).bombs@.len() ==> (#[trigger] final(self).bombs@[i]).position == old(
                    self,
                ).bombs@[i].position,
    {
        let n = self.players.len();
        let mut i: usize = 0;
        while i < n
            invariant
                i <= n,
                n == old(self).players@.len(),
                self.players@.len() == n,
                map_fits(self.map),
                1 <= self.map.width,
                1 <= self.map.height,
                ({
                    let f = players_moved(
                        old(self).players@,
                        old(self).bombs@,
                        old(self).game_inputs@,
                        old(self).map,
                        delta as int,
                        i as int,
                    );
                    &&& self.players@ == f.0
                    &&& self.bombs@ == f.1
                }),
                forall|k: int| 0 <= k < n ==> loose(#[trigger] self.players@[k].position),
                self.bombs@.len() == old(self).bombs@.len(),
                forall|k: int|
                    0 <= k < self.bombs@.len() ==> (#[trigger] self.bombs@[k]).position == old(self).bombs@[k].position,
                forall|k: int| 0 <= k < old(self).bombs@.len() ==> kept(#[trigger] old(self).bombs@[k].position),
                *self == (GameState { players: self.players, bombs: self.bombs, ..*old(self) }),
            decreases n - i,
        {
            let mut p = self.players[i];
            let input = self.game_inputs.get_or_default(i);
            proof {
                assert forall|k: int| 0 <= k < self.bombs@.len() implies kept(#[trigger] self.bombs@[k].position) by {
                    assert(self.bombs@[k].position == old(self).bombs@[k].position);
                }
            }
            p.player_move(input, delta, &self.map, &mut self.bombs);
            self.players.set(i, p);
            i = i + 1;
        }
    }
}

/// The living players' positions are among the players' positions.
proof fn lemma_alive_poses_kept(ps: Seq<Player>, k: int)
    requires
        0 <= k <= ps.len(),
        forall|i: int| 0 <= i < ps.len() ==> loose(#[trigger] ps[i].position),
    ensures
        forall|j: int| 0 <= j < alive_poses(ps, k).len() ==> sane(#[trigger] alive_poses(ps, k)[j].1),
    decreases k,
{
    if k > 0 {
        lemma_alive_poses_kept(ps, k - 1);
        assert(loose(ps[k - 1].position));
        let prev = alive_poses(ps, k - 1);
        assert forall|j: int| 0 <= j < alive_poses(ps, k).len() implies sane(#[trigger] alive_poses(ps, k)[j].1) by {
            if j < prev.len() {
                assert(alive_poses(ps, k)[j] == prev[j]);
            }
        }
    }
}

/// The middle of the tile where a player at `p` plants a bomb.
pub open spec fn spot_centre(p: Pos) -> Pos {
    fresh_bomb(0, bomb_spot(p).0, bomb_spot(p).1, 0).position
}

/// The middle of the tile of a position near a map is kept.
proof fn lemma_spot_near(m: GameMap, p: Pos)
    requires
        map_fits(m),
        near_map(m, (p.0 as int, p.1 as int), 30 * UNIT),
    ensures
        kept(spot_centre(p)),
{
    let x = p.0 as int;
    let y = p.1 as int;
    if x >= 0 {
        assert(0 <= (x / 1000) * 1000 + 500 <= x + 500) by (nonlinear_arith)
            requires
                x >= 0,
        ;
    }
    if y >= 0 {
        assert(0 <= (y / 1000) * 1000 + 500 <= y + 500) by (nonlinear_arith)
            requires
                y >= 0,
        ;
    }
}

/// The middle of the tile of a loose position is sane.
proof fn lemma_spot_sane(p: Pos)
    requires
        loose(p),
    ensures
        sane(fresh_bomb(0, bomb_spot(p).0, bomb_spot(p).1, 0).position),
{
    let x = p.0 as int;
    let y = p.1 as int;
    if x >= 0 {
        assert(0 <= (x / 1000) * 1000 + 500 <= 200_000_000_000) by (nonlinear_arith)
            requires
                0 <= x <= 100_030_000_000,
        ;
    }
    if y >= 0 {
        assert(0 <= (y / 1000) * 1000 + 500 <= 200_000_000_000) by (nonlinear_arith)
            requires
                0 <= y <= 100_030_000_000,
        ;
    }
}

} // verus!

verus! {

/// What a multiplayer tick reports: the winners when the match ended, and
/// what happened.
#[derive(Debug)]
pub struct MpTickResult {
    pub winners: Option<Vec<u32>>,
    pub events: TickEvents,
}

/// Whether the part of a tick after the bombs' own ticks takes the game
/// `g1`, the sounds `s1` and the events `e1` to `g`, `s` and `ev`, with the
/// match ending with `winners`: explosions set off the bombs they cover,
/// bombs whose explosion is over leave, power-ups give their bonus and the
/// picked ones leave, players plant bombs, then move, and the match ends when
/// at most one player is left.
pub open spec fn after_bombs(
    g1: GameState,
    s1: Seq<SoundEffect>,
    e1: TickEvents,
    g: GameState,
    s: Seq<SoundEffect>,
    ev: TickEvents,
    delta: int,
    winners: Option<Seq<u32>>,
) -> bool {
    let bs2 = remaining_bombs(chained(g1.bombs@, g1.bombs@.len() as int));
    let pu = power_ups_done(g1.players@, g1.power_ups@, e1.powerups_picked as int, g1.power_ups@.len() as int);
    let ps3 = pu.0;
    let us3 = remaining_power_ups(pu.1);
    let poses = alive_poses(ps3, ps3.len() as int);
    let pl = planted(ps3, bs2, g1.game_inputs@, poses, ps3.len() as int);
    let mv = players_moved(pl.0, pl.1, g1.game_inputs@, g1.map, delta, pl.0.len() as int);
    &&& g.players@ == mv.0
    &&& g.bombs@ == mv.1
    &&& g.power_ups@ == us3
    &&& s == s1 + pu.3 + pl.2
    &&& ev == (TickEvents { powerups_picked: pu.2 as u32, ..e1 })
    &&& winners == match_winners(mv.0, g1.alive_players@)
    &&& g.alive_players@ == if winners is None {
        alive_ids(mv.0, mv.0.len() as int)
    } else {
        g1.alive_players@
    }
    &&& g == (GameState {
        players: g.players,
        bombs: g.bombs,
        power_ups: g.power_ups,
        alive_players: g.alive_players,
        ..g1
    })
}

/// Whether a multiplayer tick of `delta` milliseconds takes the game `g0`
/// and the sounds `s0` to `g` and `s`, with the events `ev` and the match
/// ending with `winners`: every bomb ticks in turn, then the rest follows.
pub open spec fn mp_ticked(
    g0: GameState,
    s0: Seq<SoundEffect>,
    g: GameState,
    s: Seq<SoundEffect>,
    delta: int,
    winners: Option<Seq<u32>>,
    ev: TickEvents,
) -> bool {
    exists|g1: GameState, s1: Seq<SoundEffect>, e1: TickEvents|
        #![trigger bombs_ticked(g0, s0, TickEvents { breakables_destroyed: 0, enemies_killed: 0, powerups_picked: 0 }, g1, s1, e1, delta, g0.bombs@.len())]
        bombs_ticked(
            g0,
            s0,
            TickEvents { breakables_destroyed: 0, enemies_killed: 0, powerups_picked: 0 },
            g1,
            s1,
            e1,
            delta,
            g0.bombs@.len(),
        ) && after_bombs(g1, s1, e1, g, s, ev, delta, winners)
}

/// Whether every player of `g` leaves room in its counters for every bonus
/// a tick of `g` could give it: its own bombs coming back and a power-up
/// per bomb and per power-up.
pub open spec fn room_for_bonuses(g: GameState) -> bool {
    forall|j: int|
        0 <= j < g.players@.len() ==> (#[trigger] g.players@[j]).bombs_remaining + g.bombs@.len() <= u32::MAX
}

impl GameState {
    /// The multiplayer tick of `delta` milliseconds: every bomb ticks in
    /// turn, explosions set off the bombs they cover, spent bombs leave,
    /// power-ups give their bonus, players plant bombs and move; the match
    /// ends when at most one player is left.
    pub fn mp_game_tick(&mut self, delta: u32, sounds: &mut Vec<SoundEffect>) -> (r: MpTickResult)
        requires
            placed(*old(self)),
            room_for_bonuses(*old(self)),
        ensures
            mp_ticked(
                *old(self),
                old(sounds)@,
                *final(self),
                final(sounds)@,
                delta as int,
                match r.winners {
                    Some(w) => Some(w@),
                    None => None,
                },
                r.events,
            ),
            final(self).players@.len() == old(self).players@.len(),
            forall|i: int| 0 <= i < final(self).players@.len() ==> loose(#[trigger] final(self).players@[i].position),
            map_fits(final(self).map),
            final(self).exit_pos == old(self).exit_pos,
            dead_kept(old(self).players@, final(self).players@),
            walls_kept(old(self).map, final(self).map),
            r.winners is Some <==> alive_ids(final(self).players@, final(self).players@.len() as int).len() <= 1,
            r.winners matches Some(w) ==> (alive_ids(final(self).players@, final(self).players@.len() as int).len()
                == 1 ==> w@ == alive_ids(final(self).players@, final(self).players@.len() as int)),
            r.winners matches Some(w) ==> (alive_ids(final(self).players@, final(self).players@.len() as int).len()
                == 0 ==> w@ == old(self).alive_players@),
            r.winners is None ==> final(self).alive_players@ == alive_ids(
                final(self).players@,
                final(self).players@.len() as int,
            ),
            r.winners is Some ==> final(self).alive_players@ == old(self).alive_players@,
    {
        let mut events = TickEvents::default();
        self.tick_bombs(delta, sounds, &mut events);
        let ghost g1 = *self;
        let ghost s1 = sounds@;
        let ghost e1 = events;
        proof {
            assert forall|i: int| 0 <= i < self.bombs@.len() implies sane(#[trigger] self.bombs@[i].position) by {
                assert(bomb_ok(self.map, self.bombs@[i]));
            }
        }
        self.chain_reactions();
        let ghost g_chain = *self;
        self.clear_bombs();
        let ghost g_clear = *self;
        proof {
            assert forall|i: int| 0 <= i < self.players@.len() implies sane(#[trigger] self.players@[i].position) by {
                assert(near_map(g1.map, (g1.players@[i].position.0 as int, g1.players@[i].position.1 as int), 30 * UNIT));
            }
            assert forall|i: int| 0 <= i < self.power_ups@.len() implies (#[trigger] self.power_ups@[i]).pos.0 <= 1_000_000
                && self.power_ups@[i].pos.1 <= 1_000_000 by {
                assert(self.power_ups@[i].pos.0 < g1.map.width && self.power_ups@[i].pos.1 < g1.map.height);
            }
        }
        self.tick_power_ups(sounds, &mut events);
        let ghost s2 = sounds@;
        self.clear_power_ups();
        proof {
            assert forall|i: int| 0 <= i < self.players@.len() implies loose(#[trigger] self.players@[i].position) by {
                assert(self.players@[i].position == g1.players@[i].position);
                assert(near_map(g1.map, (g1.players@[i].position.0 as int, g1.players@[i].position.1 as int), 30 * UNIT));
            }
            assert forall|i: int| 0 <= i < self.bombs@.len() implies sane(#[trigger] self.bombs@[i].position) by {
                assert(g_chain.bombs@.contains(g_clear.bombs@[i]));
                let j = choose|j: int| 0 <= j < g_chain.bombs@.len() && g_chain.bombs@[j] == g_clear.bombs@[i];
                assert(g_chain.bombs@[j].position == g1.bombs@[j].position);
                assert(bomb_ok(g1.map, g1.bombs@[j]));
            }
        }
        let ghost g_pu = *self;
        self.plant_bombs(sounds);
        let ghost s3 = sounds@;
        proof {
            assert forall|i: int| 0 <= i < self.bombs@.len() implies kept(#[trigger] self.bombs@[i].position) by {
                if i < g_pu.bombs@.len() {
                    assert(self.bombs@[i] == g_pu.bombs@[i]);
                    assert(g_chain.bombs@.contains(g_clear.bombs@[i]));
                let j = choose|j: int| 0 <= j < g_chain.bombs@.len() && g_chain.bombs@[j] == g_clear.bombs@[i];
                    assert(g_chain.bombs@[j].position == g1.bombs@[j].position);
                    assert(bomb_ok(g1.map, g1.bombs@[j]));
                } else {
                    let j = choose|j: int|
                        0 <= j < g_pu.players@.len() && (#[trigger] self.bombs@[i]).position == spot_centre(
                            g_pu.players@[j].position,
                        );
                    assert(g_pu.players@[j].position == g1.players@[j].position);
                    assert(near_map(g1.map, (g1.players@[j].position.0 as int, g1.players@[j].position.1 as int), 30 * UNIT));
                    lemma_spot_near(g1.map, g1.players@[j].position);
                }
            }
            assert forall|i: int| 0 <= i < self.players@.len() implies loose(#[trigger] self.players@[i].position) by {
                assert(self.players@[i].position == g1.players@[i].position);
                assert(near_map(g1.map, (g1.players@[i].position.0 as int, g1.players@[i].position.1 as int), 30 * UNIT));
            }
        }
        self.move_players(delta);
        let winners = self.create_mp_ret();
        proof {
            assert(sounds@ =~= s1 + (s2.subrange(s1.len() as int, s2.len() as int)) + s3.subrange(s2.len() as int, s3.len() as int));
            let w = match &winners {
                Some(v) => Some(v@),
                None => None,
            };
            assert(mp_ticked(*old(self), old(sounds)@, *self, sounds@, delta as int, w, events));
            lemma_dead_stay_dead(*old(self), old(sounds)@, *self, sounds@, delta as int, w, events);
            lemma_match_keeps_walls(*old(self), old(sounds)@, *self, sounds@, delta as int, w, events);
        }
        MpTickResult { winners, events }
    }
}

} // verus!

verus! {

/// Whether the `i`-th enemy's tick of `delta` milliseconds takes the game
/// `g0`, with the sounds `s0`, to `g1` and `s1`, the player being at
/// `player_pos` if alive: the enemy moves, then kills the living player if
/// both are alive and touch.
#[verifier::opaque]
pub open spec fn enemy_step(
    g0: GameState,
    s0: Seq<SoundEffect>,
    g1: GameState,
    s1: Seq<SoundEffect>,
    i: int,
    delta: int,
    player_pos: Option<Pos>,
) -> bool {
    let e1 = g1.enemies@[i];
    let p0 = g0.players@[0];
    let kill = p0.alive && e1.alive && overlapping(p0.position, PLAYER_RADIUS as int, e1.position, ENEMY_RADIUS as int);
    &&& 0 <= i < g0.enemies@.len()
    &&& g1.enemies@ == g0.enemies@.update(i, e1)
    &&& enemy_tick_rel(g0.enemies@[i], e1, g0.map, player_pos, g0.bombs@, g0.enemies@.remove(i), delta)
    &&& g1.players@ == if kill {
        g0.players@.update(0, Player { alive: false, ..p0 })
    } else {
        g0.players@
    }
    &&& s1 == if kill {
        s0.push(SoundEffect::PlayerDeath)
    } else {
        s0
    }
    &&& g1 == (GameState { enemies: g1.enemies, players: g1.players, ..g0 })
}

/// Whether ticking the first `k` enemies one after the other takes the game
/// `g0` and the sounds `s0` to `g1` and `s1`.
pub open spec fn enemies_ticked(
    g0: GameState,
    s0: Seq<SoundEffect>,
    g1: GameState,
    s1: Seq<SoundEffect>,
    delta: int,
    player_pos: Option<Pos>,
    k: nat,
) -> bool
    decreases k, 0nat,
{
    if k == 0 {
        g1 == g0 && s1 == s0
    } else {
        enemies_ticked_then(g0, s0, g1, s1, delta, player_pos, (k - 1) as nat)
    }
}

/// Whether ticking the first `k` enemies, then the `k`-th one, takes `g0`
/// and `s0` to `g1` and `s1`.
pub open spec fn enemies_ticked_then(
    g0: GameState,
    s0: Seq<SoundEffect>,
    g1: GameState,
    s1: Seq<SoundEffect>,
    delta: int,
    player_pos: Option<Pos>,
    k: nat,
) -> bool
    decreases k, 1nat,
{
    exists|gm: GameState, sm: Seq<SoundEffect>|
        #![trigger enemy_step(gm, sm, g1, s1, k as int, delta, player_pos)]
        enemies_ticked(g0, s0, gm, sm, delta, player_pos, k) && enemy_step(gm, sm, g1, s1, k as int, delta, player_pos)
}

/// One more enemy tick extends a run of enemy ticks.
proof fn lemma_enemies_ticked_step(
    g0: GameState,
    s0: Seq<SoundEffect>,
    gm: GameState,
    sm: Seq<SoundEffect>,
    g1: GameState,
    s1: Seq<SoundEffect>,
    delta: int,
    player_pos: Option<Pos>,
    k: nat,
)
    requires
        enemies_ticked(g0, s0, gm, sm, delta, player_pos, k),
        enemy_step(gm, sm, g1, s1, k as int, delta, player_pos),
    ensures
        enemies_ticked(g0, s0, g1, s1, delta, player_pos, k + 1),
{
    assert(enemies_ticked_then(g0, s0, g1, s1, delta, player_pos, k));
}

/// Whether the enemies of `g` may take a tick: within the room enemies keep,
/// at a speed and with a decision time the game gives them.
pub open spec fn enemies_ready(g: GameState) -> bool {
    forall|i: int|
        0 <= i < g.enemies@.len() ==> roomy((#[trigger] g.enemies@[i]).position) && g.enemies@[i].speed_multiplier
            <= 2500 && g.enemies@[i].decision_timer >= i64::MIN + u32::MAX
}

/// Whether every enemy of `es` is dead (or there is none).
pub open spec fn all_enemies_dead(es: Seq<Enemy>) -> bool {
    forall|i: int| 0 <= i < es.len() ==> !(#[trigger] es[i]).alive
}

/// `es1` holds as many enemies as `es0`, each with the id it had.
pub open spec fn ids_kept(es0: Seq<Enemy>, es1: Seq<Enemy>) -> bool {
    &&& es1.len() == es0.len()
    &&& forall|i: int| 0 <= i < es0.len() ==> (#[trigger] es1[i]).id == es0[i].id
}

/// The score `s` plus what the events `ev` earn under the rules `r`, every
/// sum and product stopping at the largest value.
pub open spec fn scored(r: ScoreRules, s: int, ev: TickEvents) -> int {
    let a1 = sat_add(0, sat_mul(ev.enemies_killed as int, r.enemy_kill as int));
    let a2 = sat_add(a1, sat_mul(ev.breakables_destroyed as int, r.breakable_destroyed as int));
    let a3 = sat_add(a2, sat_mul(ev.powerups_picked as int, r.powerup_pickup as int));
    sat_add(s, a3)
}

impl GameState {
    /// Ticks every enemy in turn; an enemy touching the living player kills it.
    pub fn tick_enemies(&mut self, delta: u32, player_pos: Option<Pos>, sounds: &mut Vec<SoundEffect>)
        requires
            placed(*old(self)),
            enemies_ready(*old(self)),
            old(self).players@.len() >= 1,
            player_pos matches Some(t) ==> sane(t),
        ensures
            enemies_ticked(*old(self), old(sounds)@, *final(self), final(sounds)@, delta as int, player_pos, old(self).enemies@.len()),
            final(self).enemies@.len() == old(self).enemies@.len(),
            final(self).players@.len() == old(self).players@.len(),
            forall|i: int| 0 <= i < final(self).players@.len() ==> (#[trigger] final(self).players@[i]).position == old(self).players@[i].position
                && final(self).players@[i].bombs_remaining == old(self).players@[i].bombs_remaining,
            forall|i: int| 0 <= i < final(self).enemies@.len() ==> sane(#[trigger] final(self).enemies@[i].position),
            *final(self) == (GameState { enemies: final(self).enemies, players: final(self).players, ..*old(self) }),
    {
        let n = self.enemies.len();
        let mut i: usize = 0;
        while i < n
            invariant
                i <= n,
                n == old(self).enemies@.len(),
                self.enemies@.len() == n,
                self.players@.len() == old(self).players@.len(),
                self.players@.len() >= 1,
                placed(*old(self)),
                enemies_ready(*old(self)),
                player_pos matches Some(t) ==> sane(t),
                forall|k: int| i <= k < n ==> #[trigger] self.enemies@[k] == old(self).enemies@[k],
                forall|k: int| 0 <= k < n ==> sane(#[trigger] self.enemies@[k].position),
                forall|k: int| 0 <= k < self.players@.len() ==> (#[trigger] self.players@[k]).position == old(self).players@[k].position
                    && self.players@[k].bombs_remaining == old(self).players@[k].bombs_remaining,
                *self == (GameState { enemies: self.enemies, players: self.players, ..*old(self) }),
                enemies_ticked(*old(self), old(sounds)@, *self, sounds@, delta as int, player_pos, i as nat),
            decreases n - i,
        {
            let ghost g0 = *self;
            let ghost s0 = sounds@;
            let others = enemies_except(&self.enemies, i);
            let mut e = self.enemies[i];
            assert(e == old(self).enemies@[i as int]);
            proof {
                assert forall|k: int| 0 <= k < self.bombs@.len() implies sane(#[trigger] self.bombs@[k].position) by {
                    assert(bomb_ok(self.map, self.bombs@[k]));
                }
                assert forall|k: int| 0 <= k < others@.len() implies sane(#[trigger] others@[k].position) by {
                    let j = if k < i { k } else { k + 1 };
                    assert(others@[k] == self.enemies@[j]);
                }
            }
            e.tick(delta, &self.map, player_pos, &self.bombs, &others);
            self.enemies.set(i, e);
            let p0 = self.players[0];
            if p0.alive && e.alive && is_colliding_with(p0.position, PLAYER_RADIUS, e.position, ENEMY_RADIUS) {
                let mut p = p0;
                p.kill();
                self.players.set(0, p);
                sounds.push(SoundEffect::PlayerDeath);
            }
            proof {
                assert(self.players@[0].position == g0.players@[0].position);
                assert(self.players@[0].bombs_remaining == g0.players@[0].bombs_remaining);
                reveal(enemy_step);
                assert(enemy_step(g0, s0, *self, sounds@, i as int, delta as int, player_pos));
                lemma_enemies_ticked_step(*old(self), old(sounds)@, g0, s0, *self, sounds@, delta as int, player_pos, i as nat);
            }
            i = i + 1;
        }
    }

    /// Whether an enemy of the level is still alive; dead enemies stay in
    /// the list, so that an enemy's id stays its index.
    pub fn any_enemy_alive(&self) -> (r: bool)
        ensures
            r == !all_enemies_dead(self.enemies@),
    {
        let mut i: usize = 0;
        while i < self.enemies.len()
            invariant
                i <= self.enemies@.len(),
                forall|k: int| 0 <= k < i ==> !(#[trigger] self.enemies@[k]).alive,
            decreases self.enemies@.len() - i,
        {
            if self.enemies[i].alive {
                return true;
            }
            i = i + 1;
        }
        false
    }
}

/// The enemies other than the `i`-th, in order.
fn enemies_except(enemies: &Vec<Enemy>, i: usize) -> (r: Vec<Enemy>)
    requires
        i < enemies@.len(),
    ensures
        r@ == enemies@.remove(i as int),
{
    let mut r: Vec<Enemy> = Vec::new();
    let mut k: usize = 0;
    while k < enemies.len()
        invariant
            k <= enemies@.len(),
            i < enemies@.len(),
            r@ == enemies@.remove(i as int).subrange(0, if k <= i { k as int } else { k - 1 }),
        decreases enemies@.len() - k,
    {
        if k != i {
            r.push(enemies[k]);
        }
        k = k + 1;
    }
    r
}

} // verus!

verus! {

/// Whether the campaign is lost: the player is dead with no life left.
pub open spec fn game_over_now(g: GameState) -> bool {
    !g.players@[0].alive && match g.campaign_progress {
        Some(p) => p.lives == 0,
        None => false,
    }
}

/// The game `g` once a dead player with lives left comes back on the
/// first spawn point, for a life.
pub open spec fn revived(g: GameState) -> (GameState, bool) {
    match g.campaign_progress {
        Some(p) => if !g.players@[0].alive && p.lives > 0 {
            (
                GameState {
                    campaign_progress: Some(CampaignProgress { lives: (p.lives - 1) as u32, ..p }),
                    ..g
                },
                true,
            )
        } else {
            (g, false)
        },
        None => (g, false),
    }
}

/// The player `p` brought back at `pos` with the bonuses of a new player.
pub open spec fn respawned(p: Player, pos: Pos) -> Player {
    Player {
        alive: true,
        position: pos,
        power_level: 2,
        speed_level: 0,
        bombs_remaining: 1,
        can_kick_bomb: false,
        ..p
    }
}

/// Where the living player stands, if alive.
pub open spec fn alive_pos(ps: Seq<Player>) -> Option<Pos> {
    if ps[0].alive {
        Some(ps[0].position)
    } else {
        None
    }
}

/// Whether `m1` is `m0` with the exit placed on the tile of `p`, when that
/// tile lies on the map.
pub open spec fn exit_placed(m0: GameMap, m1: GameMap, p: Pos) -> bool {
    let x = p.0 as int / UNIT as int;
    let y = p.1 as int / UNIT as int;
    &&& m1.wf()
    &&& m1.width == m0.width
    &&& m1.height == m0.height
    &&& m1.spawns == m0.spawns
    &&& m1.cells() == if p.0 >= 0 && p.1 >= 0 && m0.in_map(x, y) {
        m0.cells().update(y, m0.cells()[y].update(x, MapElement::Exit))
    } else {
        m0.cells()
    }
}

/// Whether the rest of a campaign tick, once the enemies and the shared
/// multiplayer part ticked, takes the game `g1` to `g` with the outcome
/// `result`: the events earn points, the exit is revealed once no enemy
/// is alive (dead ones stay, keeping their ids), and the level is complete when the
/// player touches the revealed exit, earning the level's points and the
/// time bonus.
pub open spec fn campaign_end(g1: GameState, ev: TickEvents, g: GameState, result: GameTickResult) -> bool {
    let r = ScoreRules::spec_campaign();
    let pr1 = match g1.campaign_progress {
        Some(p) => Some(CampaignProgress { score: scored(r, p.score as int, ev) as u32, ..p }),
        None => None,
    };
    let reveal = all_enemies_dead(g1.enemies@) && !g1.exit_revealed;
    let revealed = g1.exit_revealed || reveal;
    let complete = revealed && overlapping(g1.players@[0].position, PLAYER_RADIUS as int, g1.exit_pos, 800);
    &&& g.exit_revealed == revealed
    &&& (reveal ==> exit_placed(g1.map, g.map, g1.exit_pos))
    &&& (!reveal ==> g.map == g1.map)
    &&& g.campaign_progress == if complete {
        match pr1 {
            Some(p) => Some(CampaignProgress {
                score: sat_add(
                    p.score as int,
                    sat_add(r.level_clear as int, time_bonus_of(r, p.level_time as int)),
                ) as u32,
                ..p
            }),
            None => None,
        }
    } else {
        pr1
    }
    &&& result == if complete {
        GameTickResult::LevelComplete
    } else {
        GameTickResult::Ongoing
    }
    &&& g == (GameState {
        exit_revealed: g.exit_revealed,
        map: g.map,
        campaign_progress: g.campaign_progress,
        ..g1
    })
}

/// The players of `g` once a dead player with lives left came back.
pub open spec fn revived_players(g: GameState) -> Seq<Player> {
    if revived(g).1 {
        g.players@.update(0, respawned(g.players@[0], spawn_centre(g.map.spawns@[0])))
    } else {
        g.players@
    }
}

/// Whether the intermediate games `ga` (once the dead player came back and
/// the clock ran), `gc` and `sc` (once the enemies ticked), `gd` and `sd`
/// (once the shared multiplayer part ticked, with the winners `w` and the
/// events `ev`) lead a campaign tick from `g0` and `s0` to `g` and `s` with
/// the outcome `result`.
pub open spec fn campaign_steps(
    g0: GameState,
    s0: Seq<SoundEffect>,
    g: GameState,
    s: Seq<SoundEffect>,
    delta: int,
    result: GameTickResult,
    ga: GameState,
    gc: GameState,
    sc: Seq<SoundEffect>,
    gd: GameState,
    sd: Seq<SoundEffect>,
    w: Option<Seq<u32>>,
    ev: TickEvents,
) -> bool {
    let ga0 = revived(g0).0;
    &&& ga.players@ == revived_players(g0)
    &&& ga == (GameState {
        players: ga.players,
        campaign_progress: match ga0.campaign_progress {
            Some(p) => Some(CampaignProgress { level_time: (p.level_time + delta) as u64, ..p }),
            None => None,
        },
        ..ga0
    })
    &&& enemies_ticked(ga, s0, gc, sc, delta, alive_pos(revived_players(g0)), ga.enemies@.len())
    &&& mp_ticked(gc, sc, gd, sd, delta, w, ev)
    &&& campaign_end(gd, ev, g, result)
    &&& s == sd
}

/// Whether a campaign tick of `delta` milliseconds takes the game `g0` and
/// the sounds `s0` to `g` and `s` with the outcome `result`: a dead player
/// with no life left ends the campaign; one with lives left comes back for
/// a life; the level's clock runs; the enemies tick in turn, killing the
/// player they touch; the shared multiplayer part ticks; then the rest of
/// the campaign rules apply.
pub open spec fn campaign_ticked(
    g0: GameState,
    s0: Seq<SoundEffect>,
    g: GameState,
    s: Seq<SoundEffect>,
    delta: int,
    result: GameTickResult,
) -> bool {
    if game_over_now(g0) {
        result == GameTickResult::GameOver && g == g0 && s == s0
    } else {
        exists|ga: GameState, gc: GameState, sc: Seq<SoundEffect>, gd: GameState, sd: Seq<SoundEffect>, w: Option<Seq<u32>>, ev: TickEvents|
            #[trigger] campaign_steps(g0, s0, g, s, delta, result, ga, gc, sc, gd, sd, w, ev)
    }
}

} // verus!

verus! {

impl GameState {
    /// The campaign tick of `delta` milliseconds: a dead player with no
    /// life left ends the campaign, one with lives left comes back for a
    /// life; the level's clock runs; the enemies tick, killing the player
    /// they touch; the shared multiplayer part ticks; the events earn
    /// points; the exit is revealed once no enemy is alive; touching it
    /// completes the level, with its points and the time bonus. Dead
    /// enemies stay in the list: every enemy keeps its index and its id.
    pub fn campaign_tick(&mut self, delta: u32, sounds: &mut Vec<SoundEffect>) -> (r: GameTickResult)
        requires
            placed(*old(self)),
            enemies_ready(*old(self)),
            room_for_bonuses(*old(self)),
            old(self).bombs@.len() < u32::MAX,
            old(self).players@.len() >= 1,
            sane(old(self).exit_pos),
            old(self).campaign_progress matches Some(p) ==> p.level_time + delta <= u64::MAX,
            old(self).campaign_progress matches Some(p) ==> (!old(self).players@[0].alive && p.lives > 0 ==> {
                &&& old(self).map.spawns@.len() >= 1
                &&& spawn_near_map(old(self).map.spawns@[0], old(self).map)
            }),
        ensures
            campaign_ticked(*old(self), old(sounds)@, *final(self), final(sounds)@, delta as int, r),
            ids_kept(old(self).enemies@, final(self).enemies@),
    {
        let ghost g0 = *self;
        if !self.players[0].alive {
            match self.campaign_progress {
                Some(p) => {
                    if p.lives > 0 {
                        self.campaign_progress = Some(CampaignProgress { lives: p.lives - 1, ..p });
                        let pos = self.map.spawns[0].position();
                        let mut p0 = self.players[0];
                        p0.respawn(pos);
                        self.players.set(0, p0);
                    } else {
                        return GameTickResult::GameOver;
                    }
                },
                None => {},
            }
        }
        match self.campaign_progress {
            Some(p) => {
                self.campaign_progress = Some(CampaignProgress { level_time: p.level_time + delta as u64, ..p });
            },
            None => {},
        }
        let ghost ga = *self;
        let player_pos = if self.players[0].alive { Some(self.players[0].position) } else { None };
        proof {
            assert forall|i: int| 0 <= i < self.players@.len() implies near_map(
                self.map,
                (#[trigger] self.players@[i].position.0 as int, self.players@[i].position.1 as int),
                30 * UNIT,
            ) by {
                if i != 0 {
                    assert(self.players@[i] == g0.players@[i]);
                }
            }
            assert(room_for_bonuses(*self)) by {
                assert forall|j: int| 0 <= j < self.players@.len() implies (#[trigger] self.players@[j]).bombs_remaining
                    + self.bombs@.len() <= u32::MAX by {
                    if j != 0 {
                        assert(self.players@[j] == g0.players@[j]);
                    }
                }
            }
        }
        self.tick_enemies(delta, player_pos, sounds);
        let ghost gc = *self;
        let ghost sc = sounds@;
        let mp = self.mp_game_tick(delta, sounds);
        let ghost gd = *self;
        let ghost sd = sounds@;
        let ghost w = match mp.winners {
            Some(v) => Some(v@),
            None => None,
        };
        let events = mp.events;
        match self.campaign_progress {
            Some(p) => {
                let rules = ScoreRules::campaign();
                let mut added: u32 = 0;
                added = added.saturating_add(saturating_mul(events.enemies_killed, rules.enemy_kill));
                added = added.saturating_add(saturating_mul(events.breakables_destroyed, rules.breakable_destroyed));
                added = added.saturating_add(saturating_mul(events.powerups_picked, rules.powerup_pickup));
                self.campaign_progress = Some(CampaignProgress { score: p.score.saturating_add(added), ..p });
            },
            None => {},
        }
        let ghost g_scored = *self;
        if !self.any_enemy_alive() && !self.exit_revealed {
            self.exit_revealed = true;
            if self.exit_pos.0 >= 0 && self.exit_pos.1 >= 0 {
                let _ = self.map.set_elem_pos(self.exit_pos.0 / UNIT, self.exit_pos.1 / UNIT, MapElement::Exit);
            }
        }
        if self.exit_revealed && is_colliding_with(self.players[0].position, PLAYER_RADIUS, self.exit_pos, 800) {
            match self.campaign_progress {
                Some(p) => {
                    let rules = ScoreRules::campaign();
                    let bonus = rules.time_bonus(p.level_time);
                    let added = rules.level_clear.saturating_add(bonus);
                    self.campaign_progress = Some(CampaignProgress { score: p.score.saturating_add(added), ..p });
                },
                None => {},
            }
            proof {
                assert(campaign_end(gd, events, *self, GameTickResult::LevelComplete));
                assert(campaign_steps(*old(self), old(sounds)@, *self, sounds@, delta as int, GameTickResult::LevelComplete, ga, gc, sc, gd, sd, w, events));
                lemma_campaign_keeps_enemy_ids(*old(self), old(sounds)@, *self, sounds@, delta as int, GameTickResult::LevelComplete);
            }
            return GameTickResult::LevelComplete;
        }
        proof {
            assert(campaign_end(gd, events, *self, GameTickResult::Ongoing));
            assert(campaign_steps(*old(self), old(sounds)@, *self, sounds@, delta as int, GameTickResult::Ongoing, ga, gc, sc, gd, sd, w, events));
            lemma_campaign_keeps_enemy_ids(*old(self), old(sounds)@, *self, sounds@, delta as int, GameTickResult::Ongoing);
        }
        GameTickResult::Ongoing
    }
}

} // verus!

verus! {

/// Whether a player brought back on the spawn point `s` stands within
/// thirty tiles of the map `m`, as every player of a game does.
pub open spec fn spawn_near_map(s: SpawnPoint, m: GameMap) -> bool {
    -30 <= s.x <= m.width + 29 && -30 <= s.y <= m.height + 29
}

/// Whether the game `g` may take a tick: everything stands where the game
/// keeps it, counters have room for the tick's bonuses, and, in a
/// campaign, the player and the enemies are there to tick.
pub open spec fn ready(g: GameState, delta: int) -> bool {
    &&& placed(g)
    &&& room_for_bonuses(g)
    &&& g.mode == GameMode::Campaign ==> {
        &&& enemies_ready(g)
        &&& g.bombs@.len() < u32::MAX
        &&& g.players@.len() >= 1
        &&& sane(g.exit_pos)
        &&& g.campaign_progress matches Some(p) ==> p.level_time + delta <= u64::MAX
        &&& g.campaign_progress matches Some(p) ==> (!g.players@[0].alive && p.lives > 0 ==> {
            &&& g.map.spawns@.len() >= 1
            &&& spawn_near_map(g.map.spawns@[0], g.map)
        })
    }
}

/// The game `g` with the players' inputs taken from `inputs`, as far as
/// there are players.
pub open spec fn with_inputs(g: GameState, inputs: Seq<Input>, gi: Seq<Input>) -> bool {
    &&& gi.len() == g.game_inputs@.len()
    &&& forall|i: int|
        0 <= i < gi.len() ==> #[trigger] gi[i] == if i < inputs.len() {
            inputs[i]
        } else {
            g.game_inputs@[i]
        }
}

impl GameState {
    /// A game tick of `delta` milliseconds with the players' `inputs`: the
    /// back input pauses the game; otherwise the inputs are taken, the
    /// match or the campaign level ticks, and the application moves on when
    /// the match ends (to its winners, closing the game), the level is
    /// cleared or the campaign lost. The number is how many screens close.
    pub fn tick(&mut self, delta: u32, inputs: &Vec<Input>, sounds: &mut Vec<SoundEffect>) -> (r: (Option<Transition>, u8))
        requires
            menu_state(inputs@, 5) != InputState::Pressed ==> ready(*old(self), delta as int),
        ensures
            old(self).mode == GameMode::Campaign ==> ids_kept(old(self).enemies@, final(self).enemies@),
            old(self).mode == GameMode::Multiplayer ==> dead_kept(old(self).players@, final(self).players@)
                && walls_kept(old(self).map, final(self).map),
            menu_state(inputs@, 5) == InputState::Pressed ==> {
                &&& r.0 matches Some(Transition::Pause)
                &&& r.1 == 0
                &&& *final(self) == *old(self)
                &&& final(sounds)@ == old(sounds)@
            },
            menu_state(inputs@, 5) != InputState::Pressed ==> exists|g1: GameState|
                {
                    &&& with_inputs(*old(self), inputs@, g1.game_inputs@)
                    &&& g1 == (GameState { game_inputs: g1.game_inputs, ..*old(self) })
                    &&& (old(self).mode == GameMode::Multiplayer ==> exists|w: Option<Seq<u32>>, ev: TickEvents|
                        {
                            &&& #[trigger] mp_ticked(g1, old(sounds)@, *final(self), final(sounds)@, delta as int, w, ev)
                            &&& match w {
                                Some(ws) => r.0 matches Some(Transition::MultiplayerEnd(v)) && v@ == ws && r.1 == 1,
                                None => r.0 is None && r.1 == 0,
                            }
                        })
                    &&& (old(self).mode == GameMode::Campaign ==> exists|res: GameTickResult|
                        {
                            &&& #[trigger] campaign_ticked(g1, old(sounds)@, *final(self), final(sounds)@, delta as int, res)
                            &&& match res {
                                GameTickResult::LevelComplete => match final(self).campaign_progress {
                                    Some(p) => r.0 matches Some(Transition::StageClear { level, lives, score, difficulty })
                                        && level == p.level && lives == p.lives && score == p.score && difficulty
                                        == p.difficulty && r.1 == 1,
                                    None => r.0 is None && r.1 == 0,
                                },
                                GameTickResult::GameOver => r.0 matches Some(Transition::GameOver { score, difficulty })
                                    && score == match final(self).campaign_progress {
                                    Some(p) => p.score,
                                    None => 0,
                                } && difficulty == match final(self).campaign_progress {
                                    Some(p) => p.difficulty,
                                    None => GameDifficulty::Normal,
                                } && r.1 == 1,
                                GameTickResult::Ongoing => r.0 is None && r.1 == 0,
                            }
                        })
                },
    {
        if inputs.menu_back() == InputState::Pressed {
            return (Some(Transition::Pause), 0);
        }
        self.inputs_to_game_inputs(inputs);
        let ghost g1 = *self;
        let result = match self.mode {
            GameMode::Multiplayer => {
                let mp = self.mp_game_tick(delta, sounds);
                let ghost w = match &mp.winners {
                    Some(v) => Some(v@),
                    None => None,
                };
                match mp.winners {
                    Some(winners) => {
                        assert(mp_ticked(g1, old(sounds)@, *self, sounds@, delta as int, w, mp.events));
                        return (Some(Transition::MultiplayerEnd(winners)), 1);
                    },
                    None => {
                        assert(mp_ticked(g1, old(sounds)@, *self, sounds@, delta as int, w, mp.events));
                    },
                }
                return (None, 0);
            },
            GameMode::Campaign => self.campaign_tick(delta, sounds),
        };
        assert(campaign_ticked(g1, old(sounds)@, *self, sounds@, delta as int, result));
        match result {
            GameTickResult::LevelComplete => {
                match self.campaign_progress {
                    Some(p) => (
                        Some(
                            Transition::StageClear {
                                level: p.level,
                                lives: p.lives,
                                score: p.score,
                                difficulty: p.difficulty,
                            },
                        ),
                        1,
                    ),
                    None => (None, 0),
                }
            },
            GameTickResult::GameOver => {
                let (score, difficulty) = match self.campaign_progress {
                    Some(p) => (p.score, p.difficulty),
                    None => (0, GameDifficulty::Normal),
                };
                (Some(Transition::GameOver { score, difficulty }), 1)
            },
            GameTickResult::Ongoing => (None, 0),
        }
    }
}

} // verus!

verus! {

/// `inputs` are the inputs of `n` players, none of them pressed.
pub open spec fn idle_inputs(inputs: Seq<Input>, n: int) -> bool {
    &&& inputs.len() == n
    &&& forall|i: int| 0 <= i < n ==> (#[trigger] inputs[i])@ == Seq::new(6, |k: int| InputState::Released)
}

/// `g` is a match that starts on `map` with the players of `settings`: no
/// enemy, bomb or power-up yet, every player alive and idle.
pub open spec fn fresh_match(g: GameState, settings: GameSettings, map: GameMap) -> bool {
    let players = players_for(map.spawns@, settings.nb_humans as int, settings.nb_bots as int);
    &&& g.mode == GameMode::Multiplayer
    &&& g.campaign_progress is None
    &&& g.players@ == players
    &&& g.enemies@.len() == 0
    &&& g.exit_pos == (0i64, 0i64)
    &&& !g.exit_revealed
    &&& idle_inputs(g.game_inputs@, players.len() as int)
    &&& g.nb_humans == settings.nb_humans
    &&& g.bombs@.len() == 0
    &&& g.power_ups@.len() == 0
    &&& g.map == map
    &&& g.alive_players@ == players.map_values(|p: Player| p.id)
}

/// The middle of the tile `t`, as a position.
pub open spec fn tile_centre(t: (usize, usize)) -> (int, int) {
    centre_of((t.0 as int, t.1 as int))
}

/// The tile whose middle an enemy starts on.
pub open spec fn start_tile(e: Enemy) -> (usize, usize) {
    ((e.position.0 / UNIT) as usize, (e.position.1 / UNIT) as usize)
}

/// The tiles that an extra enemy of a level must keep away from, when the
/// enemies `enemies` were placed before it: the player's and every earlier
/// enemy's.
pub open spec fn taken_tiles(level: LevelData, enemies: Seq<Enemy>) -> Seq<(usize, usize)> {
    seq![level.player_spawn] + level.enemy_spawns@ + enemies.subrange(
        level.enemy_spawns@.len() as int,
        enemies.len() as int,
    ).map_values(|e: Enemy| start_tile(e))
}

/// The `i`-th enemy of a campaign level with the preset `p`, on the tile
/// `t`: it faces down, about to decide, and behaves as some draw in
/// `0..=99` gives.
pub open spec fn starting_enemy(e: Enemy, i: int, t: (usize, usize), p: DifficultyPreset) -> bool {
    &&& e.id == i
    &&& pt(e.position) == tile_centre(t)
    &&& e.direction == Direction::Down
    &&& exists|roll: int| 0 <= roll <= 99 && e.behavior == behavior_for(p, roll)
    &&& e.speed_multiplier == clamped(p.enemy_speed_multiplier as int, 500, 2500)
    &&& e.decision_timer == 0
    &&& e.decision_interval == clamped(p.decision_interval as int, 200, 2000)
    &&& e.alive
}

/// The enemies of a campaign level, with the preset `p`: one on each
/// enemy spawn of `level`, then at most `p.extra_enemies` more, each on an
/// empty tile at least two tiles from the player and every earlier enemy.
pub open spec fn level_enemies(es: Seq<Enemy>, level: LevelData, p: DifficultyPreset) -> bool {
    let n0 = level.enemy_spawns@.len() as int;
    &&& n0 <= es.len() <= n0 + p.extra_enemies
    &&& forall|i: int| 0 <= i < n0 ==> starting_enemy(#[trigger] es[i], i, level.enemy_spawns@[i], p)
    &&& forall|i: int|
        n0 <= i < es.len() ==> {
            let t = start_tile(#[trigger] es[i]);
            &&& starting_enemy(es[i], i, t, p)
            &&& level.map.in_map(t.0 as int, t.1 as int)
            &&& level.map.cell(t.0 as int, t.1 as int) == MapElement::Empty
            &&& far_from((t.0 as int, t.1 as int), taken_tiles(level, es.subrange(0, i)), 2)
        }
}

/// `g` is the start of the campaign level `level` at `difficulty`, with
/// `lives` lives and `score` points so far, laid out as `data` says.
pub open spec fn fresh_level(
    g: GameState,
    level: u32,
    lives: u32,
    score: u32,
    difficulty: GameDifficulty,
    data: LevelData,
) -> bool {
    &&& g.mode == GameMode::Campaign
    &&& g.campaign_progress == Some(CampaignProgress { level, lives, score, level_time: 0, difficulty })
    &&& g.players@.len() == 1
    &&& pt(g.players@[0].position) == tile_centre(data.player_spawn)
    &&& g.players@[0] == fresh_player(0, g.players@[0].position, Direction::Down, true)
    &&& level_enemies(g.enemies@, data, preset_for(level as int, difficulty))
    &&& pt(g.exit_pos) == tile_centre(data.exit_pos)
    &&& !g.exit_revealed
    &&& idle_inputs(g.game_inputs@, 1)
    &&& g.nb_humans == 1
    &&& g.bombs@.len() == 0
    &&& g.power_ups@.len() == 0
    &&& g.map == data.map
    &&& g.alive_players@ == seq![0u32]
}

/// The inputs of `n` players, none pressed.
fn idle_inputs_for(n: usize) -> (r: Vec<Input>)
    ensures
        idle_inputs(r@, n as int),
{
    let mut r: Vec<Input> = Vec::new();
    let mut i: usize = 0;
    while i < n
        invariant
            i <= n,
            idle_inputs(r@, i as int),
        decreases n - i,
    {
        r.push(Input::default());
        i = i + 1;
    }
    r
}

/// The ids of `players`, in order.
fn player_ids(players: &Vec<Player>) -> (r: Vec<u32>)
    ensures
        r@ == players@.map_values(|p: Player| p.id),
{
    let mut r: Vec<u32> = Vec::new();
    let mut i: usize = 0;
    while i < players.len()
        invariant
            i <= players@.len(),
            r@ == players@.subrange(0, i as int).map_values(|p: Player| p.id),
        decreases players@.len() - i,
    {
        r.push(players[i].id);
        i = i + 1;
        assert(players@.subrange(0, i as int).map_values(|p: Player| p.id) =~= r@);
    }
    assert(players@.subrange(0, i as int) =~= players@);
    r
}

impl GameState {
    /// A match on `map` with the players of `settings`.
    pub fn new_multiplayer_from_map(settings: GameSettings, map: GameMap) -> (g: GameState)
        requires
            settings.nb_humans + settings.nb_bots <= u32::MAX,
        ensures
            fresh_match(g, settings, map),
    {
        let nb_humans = settings.nb_humans;
        let players = Self::create_players(&map, nb_humans, settings.nb_bots);
        let alive_players = player_ids(&players);
        let game_inputs = idle_inputs_for(players.len());
        GameState {
            mode: GameMode::Multiplayer,
            campaign_progress: None,
            players,
            enemies: Vec::new(),
            exit_pos: (0, 0),
            exit_revealed: false,
            game_inputs,
            nb_humans,
            bombs: Vec::new(),
            power_ups: Vec::new(),
            map,
            alive_players,
        }
    }

    /// A match on a map generated from the settings' map settings; fails
    /// when the generation does.
    pub fn new_multiplayer(settings: GameSettings) -> (r: Result<GameState, GameError>)
        requires
            settings.nb_humans + settings.nb_bots <= u32::MAX,
            settings.map_settings.map_type != MapType::Random ==> settings.map_settings.width >= 2
                && settings.map_settings.height >= 2,
        ensures
            match r {
                Ok(g) => g.map.wf() && generated_by(g.map, settings.map_settings) && fresh_match(g, settings, g.map),
                Err(e) => e == GameError::MapCreation && settings.map_settings.map_type == MapType::Random,
            },
            settings.map_settings.map_type != MapType::Random ==> r is Ok,
            settings.map_settings.map_type == MapType::Random && settings.map_settings.attempts == 0 ==> r is Err,
            random_layout_owed(settings.map_settings) ==> r is Ok,
    {
        match MapSettings::new_map(settings.map_settings) {
            Some(map) => Ok(Self::new_multiplayer_from_map(settings, map)),
            None => Err(GameError::MapCreation),
        }
    }

    /// The preview of a match with `settings`: its map, with no player or
    /// enemy on it; fails when the map generation does.
    pub fn new_settings_preview(settings: GameSettings) -> (r: Result<GameState, GameError>)
        requires
            settings.nb_humans + settings.nb_bots <= u32::MAX,
            settings.map_settings.map_type != MapType::Random ==> settings.map_settings.width >= 2
                && settings.map_settings.height >= 2,
        ensures
            match r {
                Ok(g) => exists|m: GameState|
                    {
                        &&& m.map.wf()
                        &&& generated_by(m.map, settings.map_settings)
                        &&& fresh_match(m, settings, m.map)
                        &&& g == (GameState { players: g.players, enemies: g.enemies, ..m })
                        &&& g.players@.len() == 0
                        &&& g.enemies@.len() == 0
                    },
                Err(e) => e == GameError::MapCreation && settings.map_settings.map_type == MapType::Random,
            },
            settings.map_settings.map_type != MapType::Random ==> r is Ok,
            settings.map_settings.map_type == MapType::Random && settings.map_settings.attempts == 0 ==> r is Err,
            random_layout_owed(settings.map_settings) ==> r is Ok,
    {
        match Self::new_multiplayer(settings) {
            Ok(m) => {
                let ghost full = m;
                let g = GameState { players: Vec::new(), enemies: Vec::new(), ..m };
                assert(g == (GameState { players: g.players, enemies: g.enemies, ..full }));
                Ok(g)
            },
            Err(e) => Err(e),
        }
    }
}


/// The tiles the enemies of a level start on: its enemy spawns, then the
/// extra tiles, with the player's tile before them all.
spec fn placements_ok(data: LevelData, positions: Seq<(usize, usize)>, avoid: Seq<(usize, usize)>, extra: int) -> bool {
    let n0 = data.enemy_spawns@.len() as int;
    &&& n0 <= positions.len() <= n0 + extra
    &&& positions.subrange(0, n0) == data.enemy_spawns@
    &&& avoid == seq![data.player_spawn] + positions
    &&& forall|j: int|
        n0 <= j < positions.len() ==> {
            &&& data.map.in_map((#[trigger] positions[j]).0 as int, positions[j].1 as int)
            &&& data.map.cell(positions[j].0 as int, positions[j].1 as int) == MapElement::Empty
            &&& far_from((positions[j].0 as int, positions[j].1 as int), avoid.subrange(0, j + 1), 2)
        }
}

impl GameState {
    /// The start of the campaign level `level` laid out as `data` says, at
    /// `difficulty`, with `lives` lives and `score` points so far: the
    /// player on its spawn, an enemy on each enemy spawn, and the extra
    /// enemies of the level's preset on random empty tiles at least two
    /// tiles from the player and from each other enemy, where such a tile
    /// turns up within forty draws.
    pub fn new_campaign(level: u32, lives: u32, score: u32, difficulty: GameDifficulty, data: LevelData) -> (g: GameState)
        requires
            data.map.wf(),
            data.map.width <= 2_000_000_000,
            data.map.height <= 2_000_000_000,
            data.player_spawn.0 <= 2_000_000_000,
            data.player_spawn.1 <= 2_000_000_000,
            data.exit_pos.0 <= 2_000_000_000,
            data.exit_pos.1 <= 2_000_000_000,
            forall|i: int|
                0 <= i < data.enemy_spawns@.len() ==> (#[trigger] data.enemy_spawns@[i]).0 <= 2_000_000_000
                    && data.enemy_spawns@[i].1 <= 2_000_000_000,
            data.enemy_spawns@.len() + 6 <= u32::MAX,
        ensures
            fresh_level(g, level, lives, score, difficulty, data),
    {
        let preset = DifficultyPreset::for_level(level, difficulty);
        let (px, py) = data.player_spawn;
        let mut players: Vec<Player> = Vec::new();
        players.push(Player::new(0, Enemy::tile_center(px as i64, py as i64), Direction::Down, true));
        let mut alive_players: Vec<u32> = Vec::new();
        alive_players.push(0);
        // Where the enemies start: the level's enemy spawns, then extra tiles.
        let n0 = data.enemy_spawns.len();
        let mut positions: Vec<(usize, usize)> = Vec::new();
        let mut avoid: Vec<(usize, usize)> = Vec::new();
        avoid.push(data.player_spawn);
        let mut i: usize = 0;
        while i < n0
            invariant
                i <= n0,
                n0 == data.enemy_spawns@.len(),
                positions@ == data.enemy_spawns@.subrange(0, i as int),
                avoid@ == seq![data.player_spawn] + positions@,
            decreases n0 - i,
        {
            positions.push(data.enemy_spawns[i]);
            avoid.push(data.enemy_spawns[i]);
            i = i + 1;
            assert(positions@ =~= data.enemy_spawns@.subrange(0, i as int));
            assert(avoid@ =~= seq![data.player_spawn] + positions@);
        }
        assert(data.enemy_spawns@.subrange(0, n0 as int) =~= data.enemy_spawns@);
        assert(positions@.subrange(0, n0 as int) =~= data.enemy_spawns@);
        let mut k: u32 = 0;
        while k < preset.extra_enemies
            invariant
                data.map.wf(),
                n0 == data.enemy_spawns@.len(),
                placements_ok(data, positions@, avoid@, k as int),
                k <= preset.extra_enemies,
            decreases preset.extra_enemies - k,
        {
            let ghost before = avoid@;
            match data.map.find_random_empty(&avoid, 2, 40) {
                Some(t) => {
                    positions.push(t);
                    avoid.push(t);
                    proof {
                        let j = positions@.len() - 1;
                        assert(avoid@.subrange(0, j + 1) =~= before);
                        assert(positions@.subrange(0, n0 as int) =~= data.enemy_spawns@);
                        assert(avoid@ =~= seq![data.player_spawn] + positions@);
                        assert forall|m: int| n0 <= m < positions@.len() - 1 implies far_from(
                            ((#[trigger] positions@[m]).0 as int, positions@[m].1 as int),
                            avoid@.subrange(0, m + 1),
                            2,
                        ) by {
                            assert(avoid@.subrange(0, m + 1) =~= before.subrange(0, m + 1));
                        }
                    }
                },
                None => {},
            }
            k = k + 1;
        }
        assert(preset.extra_enemies <= 6);
        assert forall|j: int| 0 <= j < positions@.len() implies (#[trigger] positions@[j]).0 <= 2_000_000_000
            && positions@[j].1 <= 2_000_000_000 by {
            if j < n0 {
                assert(positions@[j] == positions@.subrange(0, n0 as int)[j]);
            }
        }
        // The enemies, each with a drawn behavior.
        let mut enemies: Vec<Enemy> = Vec::new();
        let mut e: usize = 0;
        while e < positions.len()
            invariant
                e <= positions@.len(),
                positions@.len() <= n0 + 6,
                n0 + 6 <= u32::MAX,
                preset == preset_for(level as int, difficulty),
                data.map.width <= 2_000_000_000,
                data.map.height <= 2_000_000_000,
                forall|j: int|
                    0 <= j < positions@.len() ==> (#[trigger] positions@[j]).0 <= 2_000_000_000
                        && positions@[j].1 <= 2_000_000_000,
                enemies@.len() == e,
                forall|j: int| 0 <= j < e ==> starting_enemy(#[trigger] enemies@[j], j, positions@[j], preset),
            decreases positions@.len() - e,
        {
            let (tx, ty) = positions[e];
            let behavior = preset.pick_behavior();
            enemies.push(
                Enemy::new(
                    e as u32,
                    Enemy::tile_center(tx as i64, ty as i64),
                    behavior,
                    preset.enemy_speed_multiplier,
                    preset.decision_interval,
                ),
            );
            e = e + 1;
        }
        let (ex, ey) = data.exit_pos;
        let exit_pos = Enemy::tile_center(ex as i64, ey as i64);
        let game_inputs = idle_inputs_for(1);
        let ghost es = enemies@;
        proof {
            assert forall|j: int| n0 <= j < es.len() implies start_tile(#[trigger] es[j]) == positions@[j] by {
                let t = positions@[j];
                assert((t.0 * UNIT + UNIT / 2) / (UNIT as int) == t.0);
                assert((t.1 * UNIT + UNIT / 2) / (UNIT as int) == t.1);
            }
            assert forall|j: int| n0 <= j < es.len() implies taken_tiles(data, es.subrange(0, j)) =~= avoid@.subrange(0, j + 1) by {
                assert forall|m: int| n0 <= m < j implies start_tile(#[trigger] es[m]) == positions@[m] by {}
            }
        }
        let g = GameState {
            mode: GameMode::Campaign,
            campaign_progress: Some(CampaignProgress { level, lives, score, level_time: 0, difficulty }),
            players,
            enemies,
            exit_pos,
            exit_revealed: false,
            game_inputs,
            nb_humans: 1,
            bombs: Vec::new(),
            power_ups: Vec::new(),
            map: data.map,
            alive_players,
        };
        g
    }
}

} // verus!

verus! {

/// Ticking bombs leaves the campaign's progress as it was.
proof fn lemma_bombs_keep_progress(
    g0: GameState,
    s0: Seq<SoundEffect>,
    e0: TickEvents,
    g1: GameState,
    s1: Seq<SoundEffect>,
    e1: TickEvents,
    delta: int,
    k: nat,
)
    requires
        bombs_ticked(g0, s0, e0, g1, s1, e1, delta, k),
    ensures
        g1.campaign_progress == g0.campaign_progress,
    decreases k,
{
    if k > 0 {
        let (gm, sm, em, ev) = choose|gm: GameState, sm: Seq<SoundEffect>, em: TickEvents, ev: BombEvents|
            #![trigger bomb_step(gm, sm, g1, s1, (k - 1) as int, delta, ev), with_bomb(em, ev)]
            bombs_ticked(g0, s0, e0, gm, sm, em, delta, (k - 1) as nat) && bomb_step(gm, sm, g1, s1, (k - 1) as int, delta, ev)
                && e1 == with_bomb(em, ev);
        lemma_bombs_keep_progress(g0, s0, e0, gm, sm, em, delta, (k - 1) as nat);
        reveal(bomb_step);
    }
}

/// Ticking enemies leaves the campaign's progress as it was.
proof fn lemma_enemies_keep_progress(
    g0: GameState,
    s0: Seq<SoundEffect>,
    g1: GameState,
    s1: Seq<SoundEffect>,
    delta: int,
    player_pos: Option<Pos>,
    k: nat,
)
    requires
        enemies_ticked(g0, s0, g1, s1, delta, player_pos, k),
    ensures
        g1.campaign_progress == g0.campaign_progress,
    decreases k,
{
    if k > 0 {
        let (gm, sm) = choose|gm: GameState, sm: Seq<SoundEffect>|
            #![trigger enemy_step(gm, sm, g1, s1, (k - 1) as int, delta, player_pos)]
            enemies_ticked(g0, s0, gm, sm, delta, player_pos, (k - 1) as nat) && enemy_step(
                gm,
                sm,
                g1,
                s1,
                (k - 1) as int,
                delta,
                player_pos,
            );
        lemma_enemies_keep_progress(g0, s0, gm, sm, delta, player_pos, (k - 1) as nat);
        reveal(enemy_step);
    }
}

/// A campaign tick keeps the campaign's level and difficulty, never gives
/// a life back and never lowers the score.
pub proof fn lemma_campaign_progress_monotone(
    g0: GameState,
    s0: Seq<SoundEffect>,
    g: GameState,
    s: Seq<SoundEffect>,
    delta: int,
    result: GameTickResult,
)
    requires
        campaign_ticked(g0, s0, g, s, delta, result),
        g0.campaign_progress is Some,
    ensures
        g.campaign_progress matches Some(p) && {
            let p0 = g0.campaign_progress->0;
            &&& p.level == p0.level
            &&& p.difficulty == p0.difficulty
            &&& p.lives <= p0.lives
            &&& p.score >= p0.score
        },
{
    if !game_over_now(g0) {
        let (ga, gc, sc, gd, sd, w, ev) = choose|
            ga: GameState,
            gc: GameState,
            sc: Seq<SoundEffect>,
            gd: GameState,
            sd: Seq<SoundEffect>,
            w: Option<Seq<u32>>,
            ev: TickEvents,
        | #[trigger] campaign_steps(g0, s0, g, s, delta, result, ga, gc, sc, gd, sd, w, ev);
        lemma_enemies_keep_progress(ga, s0, gc, sc, delta, alive_pos(revived_players(g0)), ga.enemies@.len());
        let (g1, s1, e1) = choose|g1: GameState, s1: Seq<SoundEffect>, e1: TickEvents|
            #![trigger bombs_ticked(gc, sc, TickEvents { breakables_destroyed: 0, enemies_killed: 0, powerups_picked: 0 }, g1, s1, e1, delta, gc.bombs@.len())]
            bombs_ticked(
                gc,
                sc,
                TickEvents { breakables_destroyed: 0, enemies_killed: 0, powerups_picked: 0 },
                g1,
                s1,
                e1,
                delta,
                gc.bombs@.len(),
            ) && after_bombs(g1, s1, e1, gd, sd, ev, delta, w);
        lemma_bombs_keep_progress(
            gc,
            sc,
            TickEvents { breakables_destroyed: 0, enemies_killed: 0, powerups_picked: 0 },
            g1,
            s1,
            e1,
            delta,
            gc.bombs@.len(),
        );
        assert(gd.campaign_progress == g1.campaign_progress);
    }
}

} // verus!

verus! {

/// `ps1` has as many players as `ps0`, and every player dead in `ps0` is
/// dead in `ps1`.
pub open spec fn dead_kept(ps0: Seq<Player>, ps1: Seq<Player>) -> bool {
    &&& ps1.len() == ps0.len()
    &&& forall|i: int| 0 <= i < ps0.len() && !(#[trigger] ps0[i]).alive ==> !ps1[i].alive
}

/// Ticking bombs brings no dead player back.
proof fn lemma_bombs_keep_dead(
    g0: GameState,
    s0: Seq<SoundEffect>,
    e0: TickEvents,
    g1: GameState,
    s1: Seq<SoundEffect>,
    e1: TickEvents,
    delta: int,
    k: nat,
)
    requires
        bombs_ticked(g0, s0, e0, g1, s1, e1, delta, k),
    ensures
        dead_kept(g0.players@, g1.players@),
    decreases k,
{
    if k > 0 {
        let (gm, sm, em, ev) = choose|gm: GameState, sm: Seq<SoundEffect>, em: TickEvents, ev: BombEvents|
            #![trigger bomb_step(gm, sm, g1, s1, (k - 1) as int, delta, ev), with_bomb(em, ev)]
            bombs_ticked(g0, s0, e0, gm, sm, em, delta, (k - 1) as nat) && bomb_step(gm, sm, g1, s1, (k - 1) as int, delta, ev)
                && e1 == with_bomb(em, ev);
        lemma_bombs_keep_dead(g0, s0, e0, gm, sm, em, delta, (k - 1) as nat);
        reveal(bomb_step);
        assert(dead_kept(gm.players@, g1.players@));
    }
}

/// Power-ups bring no dead player back.
proof fn lemma_power_ups_keep_dead(ps: Seq<Player>, us: Seq<PowerUp>, c0: int, k: int)
    ensures
        dead_kept(ps, power_ups_done(ps, us, c0, k).0),
    decreases k,
{
    if k > 0 {
        lemma_power_ups_keep_dead(ps, us, c0, k - 1);
    }
}

/// Planting bombs brings no dead player back.
proof fn lemma_planting_keeps_dead(ps: Seq<Player>, bs: Seq<Bomb>, inputs: Seq<Input>, poses: Seq<(u32, Pos)>, k: int)
    requires
        k <= ps.len(),
    ensures
        dead_kept(ps, planted(ps, bs, inputs, poses, k).0),
    decreases k,
{
    if k > 0 {
        lemma_planting_keeps_dead(ps, bs, inputs, poses, k - 1);
    }
}

/// Moving brings no dead player back.
proof fn lemma_moving_keeps_dead(ps: Seq<Player>, bs: Seq<Bomb>, inputs: Seq<Input>, m: GameMap, delta: int, k: int)
    requires
        k <= ps.len(),
    ensures
        dead_kept(ps, players_moved(ps, bs, inputs, m, delta, k).0),
    decreases k,
{
    if k > 0 {
        lemma_moving_keeps_dead(ps, bs, inputs, m, delta, k - 1);
    }
}

/// In a match, a dead player stays dead: a multiplayer tick keeps every
/// player and brings none back.
pub proof fn lemma_dead_stay_dead(
    g0: GameState,
    s0: Seq<SoundEffect>,
    g: GameState,
    s: Seq<SoundEffect>,
    delta: int,
    winners: Option<Seq<u32>>,
    ev: TickEvents,
)
    requires
        mp_ticked(g0, s0, g, s, delta, winners, ev),
    ensures
        dead_kept(g0.players@, g.players@),
{
    let z = TickEvents { breakables_destroyed: 0, enemies_killed: 0, powerups_picked: 0 };
    let (g1, s1, e1) = choose|g1: GameState, s1: Seq<SoundEffect>, e1: TickEvents|
        #![trigger bombs_ticked(g0, s0, TickEvents { breakables_destroyed: 0, enemies_killed: 0, powerups_picked: 0 }, g1, s1, e1, delta, g0.bombs@.len())]
        bombs_ticked(g0, s0, z, g1, s1, e1, delta, g0.bombs@.len()) && after_bombs(g1, s1, e1, g, s, ev, delta, winners);
    lemma_bombs_keep_dead(g0, s0, z, g1, s1, e1, delta, g0.bombs@.len());
    let bs2 = remaining_bombs(chained(g1.bombs@, g1.bombs@.len() as int));
    let pu = power_ups_done(g1.players@, g1.power_ups@, e1.powerups_picked as int, g1.power_ups@.len() as int);
    lemma_power_ups_keep_dead(g1.players@, g1.power_ups@, e1.powerups_picked as int, g1.power_ups@.len() as int);
    let ps3 = pu.0;
    let poses = alive_poses(ps3, ps3.len() as int);
    let pl = planted(ps3, bs2, g1.game_inputs@, poses, ps3.len() as int);
    lemma_planting_keeps_dead(ps3, bs2, g1.game_inputs@, poses, ps3.len() as int);
    lemma_moving_keeps_dead(pl.0, pl.1, g1.game_inputs@, g1.map, delta, pl.0.len() as int);
}

} // verus!

verus! {

/// Whether `v` lies within `lo..=hi`.
fn within_range(v: i64, lo: i64, hi: i64) -> (r: bool)
    ensures
        r == (lo <= v <= hi),
{
    lo <= v && v <= hi
}

impl GameMap {
    /// Whether the map is a rectangle of tiles small enough for the game's
    /// positions: at most a million tiles a side, and a tile count that
    /// fits in memory.
    pub fn fits_game(&self) -> (r: bool)
        ensures
            r == (map_fits(*self) && 1 <= self.width && 1 <= self.height && self.width * self.height <= usize::MAX),
    {
        if self.width < 1 || self.height < 1 || self.width > 1_000_000 || self.height > 1_000_000 {
            return false;
        }
        if self.width.checked_mul(self.height).is_none() {
            return false;
        }
        if self.content.len() != self.height {
            return false;
        }
        let mut y: usize = 0;
        while y < self.content.len()
            invariant
                y <= self.content@.len(),
                self.content@.len() == self.height,
                forall|k: int| 0 <= k < y ==> (#[trigger] self.cells()[k]).len() == self.width,
            decreases self.content@.len() - y,
        {
            assert(self.cells()[y as int] == self.content@[y as int]@);
            if self.content[y].len() != self.width {
                return false;
            }
            y = y + 1;
        }
        true
    }
}

impl GameState {
    /// Whether the game may take a tick of `delta` milliseconds: everything
    /// stands where the game keeps it, counters have room for the tick's
    /// bonuses and, in a campaign, the player and the enemies are there.
    pub fn is_ready(&self, delta: u32) -> (r: bool)
        ensures
            r == ready(*self, delta as int),
    {
        if !self.map.fits_game() {
            return false;
        }
        if self.players.len() > u32::MAX as usize || self.enemies.len() > u32::MAX as usize {
            return false;
        }
        let w = self.map.width as i64 * UNIT;
        let h = self.map.height as i64 * UNIT;
        let mut i: usize = 0;
        while i < self.players.len()
            invariant
                i <= self.players@.len(),
                map_fits(self.map),
                w == self.map.width * UNIT,
                h == self.map.height * UNIT,
                forall|k: int|
                    0 <= k < i ==> near_map(
                        self.map,
                        (#[trigger] self.players@[k].position.0 as int, self.players@[k].position.1 as int),
                        30 * UNIT,
                    ),
                forall|k: int| 0 <= k < i ==> (#[trigger] self.players@[k]).bombs_remaining + self.bombs@.len() <= u32::MAX,
            decreases self.players@.len() - i,
        {
            let p = self.players[i].position;
            if !within_range(p.0, -30 * UNIT, w + 30 * UNIT) || !within_range(p.1, -30 * UNIT, h + 30 * UNIT) {
                return false;
            }
            if self.bombs.len() > u32::MAX as usize
                || self.bombs.len() as u64 + self.players[i].bombs_remaining as u64 > u32::MAX as u64 {
                return false;
            }
            i = i + 1;
        }
        let mut i: usize = 0;
        while i < self.enemies.len()
            invariant
                i <= self.enemies@.len(),
                forall|k: int| 0 <= k < i ==> sane(#[trigger] self.enemies@[k].position),
                self.mode == GameMode::Campaign ==> forall|k: int|
                    0 <= k < i ==> roomy((#[trigger] self.enemies@[k]).position) && self.enemies@[k].speed_multiplier
                        <= 2500 && self.enemies@[k].decision_timer >= i64::MIN + u32::MAX,
            decreases self.enemies@.len() - i,
        {
            let e = self.enemies[i];
            if !within_range(e.position.0, -COORD_LIMIT, COORD_LIMIT) || !within_range(
                e.position.1,
                -COORD_LIMIT,
                COORD_LIMIT,
            ) {
                return false;
            }
            if self.mode == GameMode::Campaign {
                if !within_range(e.position.0, -100_000_000_000, 100_000_000_000) || !within_range(
                    e.position.1,
                    -100_000_000_000,
                    100_000_000_000,
                ) || e.speed_multiplier > 2500 || e.decision_timer < i64::MIN + u32::MAX as i64 {
                    return false;
                }
            }
            i = i + 1;
        }
        let mut i: usize = 0;
        while i < self.bombs.len()
            invariant
                i <= self.bombs@.len(),
                map_fits(self.map),
                w == self.map.width * UNIT,
                h == self.map.height * UNIT,
                forall|k: int| 0 <= k < i ==> bomb_ok(self.map, #[trigger] self.bombs@[k]),
            decreases self.bombs@.len() - i,
        {
            let b = self.bombs[i];
            let margin: i64 = match b.state {
                BombState::Exploding => 41 * UNIT,
                _ => 40 * UNIT,
            };
            if !within_range(b.position.0, -margin, w + margin) || !within_range(b.position.1, -margin, h + margin) {
                return false;
            }
            i = i + 1;
        }
        let mut i: usize = 0;
        while i < self.power_ups.len()
            invariant
                i <= self.power_ups@.len(),
                forall|k: int|
                    0 <= k < i ==> (#[trigger] self.power_ups@[k]).pos.0 < self.map.width && self.power_ups@[k].pos.1
                        < self.map.height,
            decreases self.power_ups@.len() - i,
        {
            if self.power_ups[i].pos.0 >= self.map.width || self.power_ups[i].pos.1 >= self.map.height {
                return false;
            }
            i = i + 1;
        }
        if self.mode == GameMode::Campaign {
            if self.bombs.len() >= u32::MAX as usize || self.players.len() < 1 {
                return false;
            }
            if !within_range(self.exit_pos.0, -COORD_LIMIT, COORD_LIMIT) || !within_range(
                self.exit_pos.1,
                -COORD_LIMIT,
                COORD_LIMIT,
            ) {
                return false;
            }
            if let Some(p) = self.campaign_progress {
                if p.level_time > u64::MAX - delta as u64 {
                    return false;
                }
                if !self.players[0].alive && p.lives > 0 {
                    if self.map.spawns.len() < 1 {
                        return false;
                    }
                    let s = self.map.spawns[0];
                    let w = self.map.width as i64;
                    let h = self.map.height as i64;
                    if (s.x as i64) < -30 || (s.y as i64) < -30 || s.x as i64 > w + 29 || s.y as i64 > h + 29 {
                        return false;
                    }
                }
            }
        }
        assert(self.mode == GameMode::Campaign ==> enemies_ready(*self));
        true
    }
}

} // verus!

verus! {

/// Whether `m1` is `m0` with, at most, some breakable boxes turned into
/// empty tiles: every other tile keeps its content.
pub open spec fn walls_kept(m0: GameMap, m1: GameMap) -> bool {
    forall|x: int, y: int|
        #![trigger m1.elem_at(x, y)]
        (m0.elem_at(x, y) != MapElement::Breakable ==> m1.elem_at(x, y) == m0.elem_at(x, y)) && (m1.elem_at(x, y)
            == m0.elem_at(x, y) || m1.elem_at(x, y) == MapElement::Empty)
}

/// Keeping walls twice in a row keeps them.
proof fn lemma_walls_kept_trans(m0: GameMap, m1: GameMap, m2: GameMap)
    requires
        walls_kept(m0, m1),
        walls_kept(m1, m2),
    ensures
        walls_kept(m0, m2),
{
    assert forall|x: int, y: int|
        (m0.elem_at(x, y) != MapElement::Breakable ==> #[trigger] m2.elem_at(x, y) == m0.elem_at(x, y)) && (
        m2.elem_at(x, y) == m0.elem_at(x, y) || m2.elem_at(x, y) == MapElement::Empty) by {
        assert(m1.elem_at(x, y) == m1.elem_at(x, y));
    }
}

/// A bomb's tick turns at most some boxes into empty tiles.
proof fn lemma_bomb_step_keeps_walls(
    g0: GameState,
    s0: Seq<SoundEffect>,
    g1: GameState,
    s1: Seq<SoundEffect>,
    i: int,
    delta: int,
    ev: BombEvents,
)
    requires
        bomb_step(g0, s0, g1, s1, i, delta, ev),
    ensures
        walls_kept(g0.map, g1.map),
{
    reveal(bomb_step);
    let b0 = g0.bombs@[i];
    if !(b0.state is Exploding) {
        let bm = moved(b0, g0.map, g0.players@, others_pos(g0.bombs@, i), delta);
        if goes_off(bm, delta) {
            assert forall|x: int, y: int|
                (g0.map.elem_at(x, y) != MapElement::Breakable ==> #[trigger] g1.map.elem_at(x, y) == g0.map.elem_at(
                    x,
                    y,
                )) && (g1.map.elem_at(x, y) == g0.map.elem_at(x, y) || g1.map.elem_at(x, y) == MapElement::Empty) by {
                crate::bomb::lemma_only_boxes_break(g0.map, g1.map, bm, x, y);
            }
        }
    }
}

/// Ticking bombs turns at most some boxes into empty tiles.
proof fn lemma_bombs_keep_walls(
    g0: GameState,
    s0: Seq<SoundEffect>,
    e0: TickEvents,
    g1: GameState,
    s1: Seq<SoundEffect>,
    e1: TickEvents,
    delta: int,
    k: nat,
)
    requires
        bombs_ticked(g0, s0, e0, g1, s1, e1, delta, k),
    ensures
        walls_kept(g0.map, g1.map),
    decreases k,
{
    if k == 0 {
        assert forall|x: int, y: int|
            (g0.map.elem_at(x, y) != MapElement::Breakable ==> #[trigger] g1.map.elem_at(x, y) == g0.map.elem_at(x, y))
                && (g1.map.elem_at(x, y) == g0.map.elem_at(x, y) || g1.map.elem_at(x, y) == MapElement::Empty) by {}
    } else {
        let (gm, sm, em, ev) = choose|gm: GameState, sm: Seq<SoundEffect>, em: TickEvents, ev: BombEvents|
            #![trigger bomb_step(gm, sm, g1, s1, (k - 1) as int, delta, ev), with_bomb(em, ev)]
            bombs_ticked(g0, s0, e0, gm, sm, em, delta, (k - 1) as nat) && bomb_step(gm, sm, g1, s1, (k - 1) as int, delta, ev)
                && e1 == with_bomb(em, ev);
        lemma_bombs_keep_walls(g0, s0, e0, gm, sm, em, delta, (k - 1) as nat);
        lemma_bomb_step_keeps_walls(gm, sm, g1, s1, (k - 1) as int, delta, ev);
        lemma_walls_kept_trans(g0.map, gm.map, g1.map);
    }
}

/// Walls are for good: a match tick changes no tile of the map but
/// breakable boxes, which explosions turn into empty tiles.
pub proof fn lemma_match_keeps_walls(
    g0: GameState,
    s0: Seq<SoundEffect>,
    g: GameState,
    s: Seq<SoundEffect>,
    delta: int,
    winners: Option<Seq<u32>>,
    ev: TickEvents,
)
    requires
        mp_ticked(g0, s0, g, s, delta, winners, ev),
    ensures
        walls_kept(g0.map, g.map),
{
    let z = TickEvents { breakables_destroyed: 0, enemies_killed: 0, powerups_picked: 0 };
    let (g1, s1, e1) = choose|g1: GameState, s1: Seq<SoundEffect>, e1: TickEvents|
        #![trigger bombs_ticked(g0, s0, TickEvents { breakables_destroyed: 0, enemies_killed: 0, powerups_picked: 0 }, g1, s1, e1, delta, g0.bombs@.len())]
        bombs_ticked(g0, s0, z, g1, s1, e1, delta, g0.bombs@.len()) && after_bombs(g1, s1, e1, g, s, ev, delta, winners);
    lemma_bombs_keep_walls(g0, s0, z, g1, s1, e1, delta, g0.bombs@.len());
    assert(g.map == g1.map);
}

} // verus!

verus! {

/// Keeping ids twice in a row keeps them.
proof fn lemma_ids_kept_trans(a: Seq<Enemy>, b: Seq<Enemy>, c: Seq<Enemy>)
    requires
        ids_kept(a, b),
        ids_kept(b, c),
    ensures
        ids_kept(a, c),
{
    assert forall|i: int| 0 <= i < a.len() implies (#[trigger] c[i]).id == a[i].id by {
        assert(b[i].id == a[i].id);
    }
}

/// Ticking enemies keeps every enemy at its index, with its id.
proof fn lemma_enemies_keep_ids(
    g0: GameState,
    s0: Seq<SoundEffect>,
    g1: GameState,
    s1: Seq<SoundEffect>,
    delta: int,
    player_pos: Option<Pos>,
    k: nat,
)
    requires
        enemies_ticked(g0, s0, g1, s1, delta, player_pos, k),
    ensures
        ids_kept(g0.enemies@, g1.enemies@),
    decreases k,
{
    if k > 0 {
        let (gm, sm) = choose|gm: GameState, sm: Seq<SoundEffect>|
            #![trigger enemy_step(gm, sm, g1, s1, (k - 1) as int, delta, player_pos)]
            enemies_ticked(g0, s0, gm, sm, delta, player_pos, (k - 1) as nat) && enemy_step(
                gm,
                sm,
                g1,
                s1,
                (k - 1) as int,
                delta,
                player_pos,
            );
        lemma_enemies_keep_ids(g0, s0, gm, sm, delta, player_pos, (k - 1) as nat);
        reveal(enemy_step);
        assert(ids_kept(gm.enemies@, g1.enemies@));
        lemma_ids_kept_trans(g0.enemies@, gm.enemies@, g1.enemies@);
    } else {
        assert(ids_kept(g0.enemies@, g1.enemies@));
    }
}

/// Ticking bombs keeps every enemy at its index, with its id.
proof fn lemma_bombs_keep_enemy_ids(
    g0: GameState,
    s0: Seq<SoundEffect>,
    e0: TickEvents,
    g1: GameState,
    s1: Seq<SoundEffect>,
    e1: TickEvents,
    delta: int,
    k: nat,
)
    requires
        bombs_ticked(g0, s0, e0, g1, s1, e1, delta, k),
    ensures
        ids_kept(g0.enemies@, g1.enemies@),
    decreases k,
{
    if k > 0 {
        let (gm, sm, em, ev) = choose|gm: GameState, sm: Seq<SoundEffect>, em: TickEvents, ev: BombEvents|
            #![trigger bomb_step(gm, sm, g1, s1, (k - 1) as int, delta, ev), with_bomb(em, ev)]
            bombs_ticked(g0, s0, e0, gm, sm, em, delta, (k - 1) as nat) && bomb_step(gm, sm, g1, s1, (k - 1) as int, delta, ev)
                && e1 == with_bomb(em, ev);
        lemma_bombs_keep_enemy_ids(g0, s0, e0, gm, sm, em, delta, (k - 1) as nat);
        reveal(bomb_step);
        assert(ids_kept(gm.enemies@, g1.enemies@));
        lemma_ids_kept_trans(g0.enemies@, gm.enemies@, g1.enemies@);
    } else {
        assert(ids_kept(g0.enemies@, g1.enemies@));
    }
}

/// A campaign tick keeps every enemy of the level at its index, with its
/// id: dead enemies stay in the list, so an id keeps naming its enemy.
pub proof fn lemma_campaign_keeps_enemy_ids(
    g0: GameState,
    s0: Seq<SoundEffect>,
    g: GameState,
    s: Seq<SoundEffect>,
    delta: int,
    result: GameTickResult,
)
    requires
        campaign_ticked(g0, s0, g, s, delta, result),
    ensures
        ids_kept(g0.enemies@, g.enemies@),
{
    if !game_over_now(g0) {
        let (ga, gc, sc, gd, sd, w, ev) = choose|
            ga: GameState,
            gc: GameState,
            sc: Seq<SoundEffect>,
            gd: GameState,
            sd: Seq<SoundEffect>,
            w: Option<Seq<u32>>,
            ev: TickEvents,
        | #[trigger] campaign_steps(g0, s0, g, s, delta, result, ga, gc, sc, gd, sd, w, ev);
        lemma_enemies_keep_ids(ga, s0, gc, sc, delta, alive_pos(revived_players(g0)), ga.enemies@.len());
        let (g1, s1, e1) = choose|g1: GameState, s1: Seq<SoundEffect>, e1: TickEvents|
            #![trigger bombs_ticked(gc, sc, TickEvents { breakables_destroyed: 0, enemies_killed: 0, powerups_picked: 0 }, g1, s1, e1, delta, gc.bombs@.len())]
            bombs_ticked(
                gc,
                sc,
                TickEvents { breakables_destroyed: 0, enemies_killed: 0, powerups_picked: 0 },
                g1,
                s1,
                e1,
                delta,
                gc.bombs@.len(),
            ) && after_bombs(g1, s1, e1, gd, sd, ev, delta, w);
        lemma_bombs_keep_enemy_ids(
            gc,
            sc,
            TickEvents { breakables_destroyed: 0, enemies_killed: 0, powerups_picked: 0 },
            g1,
            s1,
            e1,
            delta,
            gc.bombs@.len(),
        );
        assert(gd.enemies@ == g1.enemies@);
        assert(g.enemies@ == gd.enemies@);
        assert(ga.enemies@ == g0.enemies@);
        lemma_ids_kept_trans(ga.enemies@, gc.enemies@, g1.enemies@);
    } else {
        assert(ids_kept(g0.enemies@, g.enemies@));
    }
}

} // verus!

verus! {

/// A match starts ready to tick: on a map of at least one tile that suits
/// the game and whose spawn points lie on it, the players stand on the
/// spawn points and no bomb, power-up or enemy is there yet.
pub proof fn lemma_match_starts_ready(g: GameState, settings: GameSettings, map: GameMap, delta: int)
    requires
        fresh_match(g, settings, map),
        map_fits(map),
        1 <= map.width,
        1 <= map.height,
        map.width * map.height <= usize::MAX,
        map.spawns_in_map(),
        map.spawns@.len() <= u32::MAX,
    ensures
        ready(g, delta),
{
    assert forall|i: int| 0 <= i < g.players@.len() implies near_map(
        g.map,
        (#[trigger] g.players@[i].position.0 as int, g.players@[i].position.1 as int),
        30 * UNIT,
    ) by {
        let s = map.spawns@[i];
        assert(map.in_map(s.x as int, s.y as int));
    }
}

/// A campaign level starts ready to tick: on a map of at least one tile
/// that suits the game and holds the player's spawn, the exit and the
/// enemy spawns, the player and the enemies stand where the level puts
/// them and the level's clock is at zero.
pub proof fn lemma_level_starts_ready(
    g: GameState,
    level: u32,
    lives: u32,
    score: u32,
    difficulty: GameDifficulty,
    data: LevelData,
    delta: int,
)
    requires
        fresh_level(g, level, lives, score, difficulty, data),
        map_fits(data.map),
        1 <= data.map.width,
        1 <= data.map.height,
        data.map.width * data.map.height <= usize::MAX,
        data.map.in_map(data.player_spawn.0 as int, data.player_spawn.1 as int),
        data.map.in_map(data.exit_pos.0 as int, data.exit_pos.1 as int),
        forall|i: int|
            0 <= i < data.enemy_spawns@.len() ==> data.map.in_map(
                (#[trigger] data.enemy_spawns@[i]).0 as int,
                data.enemy_spawns@[i].1 as int,
            ),
        data.enemy_spawns@.len() + 6 <= u32::MAX,
        0 <= delta <= u32::MAX,
    ensures
        ready(g, delta),
{
    let p = preset_for(level as int, difficulty);
    let n0 = data.enemy_spawns@.len() as int;
    assert forall|i: int| 0 <= i < g.enemies@.len() implies sane(#[trigger] g.enemies@[i].position) && roomy(
        g.enemies@[i].position,
    ) by {
        if i < n0 {
            assert(starting_enemy(g.enemies@[i], i, data.enemy_spawns@[i], p));
        } else {
            assert(starting_enemy(g.enemies@[i], i, start_tile(g.enemies@[i]), p));
        }
    }
    assert(p.extra_enemies <= 6);
    assert(g.players@[0].position == g.players@[0].position);
}

} // verus!

verus! {

/// A player plants a bomb only on the tick its bomb input goes down: among
/// the first `k` players, each whose bomb input is held or released keeps
/// every counter, and each bomb planted belongs to a player whose bomb
/// input was pressed, the bombs already there staying as they were.
pub proof fn lemma_plant_only_on_press(ps: Seq<Player>, bs: Seq<Bomb>, inputs: Seq<Input>, poses: Seq<(u32, Pos)>, k: int)
    requires
        0 <= k <= ps.len(),
    ensures
        ({
            let f = planted(ps, bs, inputs, poses, k);
            &&& f.0.len() == ps.len()
            &&& forall|i: int|
                0 <= i < ps.len() && input_of(inputs, i, 4) != InputState::Pressed ==> #[trigger] f.0[i] == ps[i]
            &&& forall|i: int| k <= i < ps.len() ==> #[trigger] f.0[i] == ps[i]
            &&& bs.len() <= f.1.len()
            &&& forall|j: int| 0 <= j < bs.len() ==> #[trigger] f.1[j] == bs[j]
            &&& forall|j: int|
                bs.len() <= j < f.1.len() ==> exists|i: int|
                    0 <= i < k && input_of(inputs, i, 4) == InputState::Pressed && (#[trigger] f.1[j]).owner_id
                        == ps[i].id
        }),
    decreases k,
{
    if k > 0 {
        lemma_plant_only_on_press(ps, bs, inputs, poses, k - 1);
        let (ps1, bs1, s1) = planted(ps, bs, inputs, poses, k - 1);
        let f = planted(ps, bs, inputs, poses, k);
        assert forall|j: int| bs.len() <= j < f.1.len() implies exists|i: int|
            0 <= i < k && input_of(inputs, i, 4) == InputState::Pressed && (#[trigger] f.1[j]).owner_id == ps[i].id by {
            if j < bs1.len() {
                assert(f.1[j] == bs1[j]);
                let i = choose|i: int|
                    0 <= i < k - 1 && input_of(inputs, i, 4) == InputState::Pressed && (#[trigger] bs1[j]).owner_id
                        == ps[i].id;
                assert(0 <= i < k && input_of(inputs, i, 4) == InputState::Pressed && f.1[j].owner_id == ps[i].id);
            } else {
                assert(ps1[k - 1] == ps[k - 1]);
                assert(input_of(inputs, k - 1, 4) == InputState::Pressed && f.1[j].owner_id == ps[k - 1].id);
            }
        }
    }
}

} // verus!
