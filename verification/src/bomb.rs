use vstd::prelude::*;

use crate::assets::SoundEffect;
use crate::collision::{
    abs, after_map_pushes, any_map_push, bound, clamp, pushed_back, COORD_LIMIT, collide_map, is_colliding_with, map_fits, near_map, overlapping,
    resolve_collision_with, sane, saturated_tile, Pos, SIZE_LIMIT, UNIT,
};
use crate::direction::Direction;
use crate::enemy::{Enemy, ENEMY_RADIUS};
use crate::map::{GameMap, MapElement};
use crate::player::{Player, PLAYER_RADIUS};
use crate::powerup::PowerUp;
use crate::rng::random_in_range;

verus! {

/// How long a bomb ticks before exploding, in milliseconds.
pub const BOMB_TIMER_DEFAULT: u32 = 3000;
/// How long an explosion lasts, in milliseconds.
pub const BOMB_EXPLOSION_TIME: u32 = 2000;
/// The half-width of the arms of an explosion, in thousandths of a tile.
pub const BOMB_EXPLOSION_RADIUS: i64 = 400;
/// The half-width of a sliding bomb, in thousandths of a tile.
pub const BOMB_SLIDE_RADIUS: i64 = 450;
/// How fast a kicked bomb slides, in thousandths of a tile per millisecond.
pub const BOMB_SLIDE_SPEED: i64 = 4;
/// The half-width of a planted bomb, in thousandths of a tile.
pub const BOMB_RADIUS: i64 = 500;
/// The chance, in percent, that a destroyed box leaves a power-up.
pub const PERCENTAGE_POWERUP_SPAWN: u64 = 15;

/// Whether a destroyed box drops a power-up on the draw `roll` in
/// `1..=100`: for the first `PERCENTAGE_POWERUP_SPAWN` values of the draw.
pub fn power_up_drops(roll: u64) -> (r: bool)
    ensures
        r == (roll <= PERCENTAGE_POWERUP_SPAWN),
{
    roll <= PERCENTAGE_POWERUP_SPAWN
}

/// The states of a bomb.
#[derive(Clone, Copy, Debug, PartialEq, Eq, Structural)]
pub enum BombState {
    /// Lies still and ticks.
    Planted,
    /// Slides in a direction and ticks, until it hits something or explodes.
    Sliding(Direction),
    /// Kills what its arms touch, then disappears.
    Exploding,
}

/// What a bomb's tick caused, for scoring.
#[derive(Clone, Copy, Debug, PartialEq, Eq, Structural)]
pub struct BombEvents {
    pub breakables_destroyed: u32,
    pub enemies_killed: u32,
    pub players_killed: u32,
}

impl Default for BombEvents {
    fn default() -> (r: BombEvents)
        ensures
            r == (BombEvents { breakables_destroyed: 0, enemies_killed: 0, players_killed: 0 }),
    {
        BombEvents { breakables_destroyed: 0, enemies_killed: 0, players_killed: 0 }
    }
}

/// How many tiles each arm of an explosion reaches.
#[derive(Clone, Copy, Debug, PartialEq, Eq, Structural)]
pub struct Explosion {
    pub up: u8,
    pub down: u8,
    pub left: u8,
    pub right: u8,
}

impl Default for Explosion {
    fn default() -> (r: Explosion)
        ensures
            r == (Explosion { up: 0, down: 0, left: 0, right: 0 }),
    {
        Explosion { up: 0, down: 0, left: 0, right: 0 }
    }
}

/// A bomb planted by a player.
#[derive(Clone, Copy, Debug)]
pub struct Bomb {
    /// The centre of the bomb, in thousandths of a tile.
    pub position: Pos,
    /// Milliseconds left before the explosion; once exploding, milliseconds since.
    pub timer: u32,
    /// How many tiles its explosion may reach.
    pub power: u8,
    /// The id of the player who planted it.
    pub owner_id: u32,
    pub state: BombState,
    /// Off while its owner still stands on it.
    pub collision_enabled: bool,
    pub explosion: Explosion,
    /// Whether the explosion is over and the bomb leaves the game.
    pub despawn: bool,
}

/// A bomb just planted by `owner` in the middle of the tile `(x, y)`: its
/// full timer runs, it has no explosion yet, and its owner may still stand on it.
pub open spec fn fresh_bomb(owner: u32, x: int, y: int, power: u8) -> Bomb {
    Bomb {
        position: ((x * UNIT + UNIT / 2) as i64, (y * UNIT + UNIT / 2) as i64),
        timer: BOMB_TIMER_DEFAULT,
        power,
        owner_id: owner,
        state: BombState::Planted,
        collision_enabled: false,
        explosion: Explosion { up: 0, down: 0, left: 0, right: 0 },
        despawn: false,
    }
}

/// Whether a tile stops an explosion.
pub open spec fn stops_blast(e: MapElement) -> bool {
    e == MapElement::Breakable || e == MapElement::Unbreakable
}

/// The `j`-th tile from `(tx, ty)` in direction `dir`.
pub open spec fn arm_tile(tx: int, ty: int, dir: Direction, j: int) -> (int, int) {
    match dir {
        Direction::Up => (tx, ty - j),
        Direction::Down => (tx, ty + j),
        Direction::Left => (tx - j, ty),
        Direction::Right => (tx + j, ty),
    }
}

/// How far an arm of an explosion from the tile `(tx, ty)` in the
/// direction `dir` reaches, looking from the `i`-th tile on: the tiles before
/// the first box, and at most `power`.
pub open spec fn ray_stop(m: GameMap, tx: int, ty: int, dir: Direction, power: int, i: int) -> int
    decreases power + 1 - i,
{
    if i < 1 || i > power {
        power
    } else if stops_blast(m.elem_at(arm_tile(tx, ty, dir, i).0, arm_tile(tx, ty, dir, i).1)) {
        i - 1
    } else {
        ray_stop(m, tx, ty, dir, power, i + 1)
    }
}

/// How many tiles the arm of an explosion of `power` from `(tx, ty)` reaches in `dir`.
pub open spec fn blast_reach(m: GameMap, tx: int, ty: int, dir: Direction, power: int) -> int {
    ray_stop(m, tx, ty, dir, power, 1)
}

/// The tile just past the end of an arm of the explosion.
pub open spec fn stop_tile(m: GameMap, tx: int, ty: int, dir: Direction, power: int) -> (int, int) {
    arm_tile(tx, ty, dir, blast_reach(m, tx, ty, dir, power) + 1)
}

/// Whether the arm of the explosion in `dir` ends on a breakable box, which it destroys.
pub open spec fn breaks_box(m: GameMap, tx: int, ty: int, dir: Direction, power: int) -> bool {
    let r = blast_reach(m, tx, ty, dir, power);
    let s = stop_tile(m, tx, ty, dir, power);
    r < power && m.elem_at(s.0, s.1) == MapElement::Breakable
}

/// Whether the tile `(x, y)` is a box destroyed by an explosion of `power` at `(tx, ty)`.
pub open spec fn destroyed_tile(m: GameMap, tx: int, ty: int, power: int, x: int, y: int) -> bool {
    exists|d: Direction|
        breaks_box(m, tx, ty, d, power) && #[trigger] stop_tile(m, tx, ty, d, power) == (x, y)
}

/// How many boxes an explosion of `power` at `(tx, ty)` destroys.
pub open spec fn destroyed_count(m: GameMap, tx: int, ty: int, power: int) -> int {
    (if breaks_box(m, tx, ty, Direction::Up, power) { 1int } else { 0 }) + (if breaks_box(
        m,
        tx,
        ty,
        Direction::Down,
        power,
    ) {
        1int
    } else {
        0
    }) + (if breaks_box(m, tx, ty, Direction::Left, power) { 1int } else { 0 }) + (if breaks_box(
        m,
        tx,
        ty,
        Direction::Right,
        power,
    ) {
        1int
    } else {
        0
    })
}

/// The centre of the tile a coordinate falls in, negative coordinates
/// counting as tile 0.
pub open spec fn centred(v: int) -> int {
    saturated_tile(v) * UNIT + UNIT / 2
}

/// Whether a box of half-width `radius` at `pos` touches the arms of the
/// explosion `e` of a bomb at `b`.
pub open spec fn in_explosion(b: Pos, e: Explosion, pos: Pos, radius: int) -> bool {
    let r = BOMB_EXPLOSION_RADIUS as int;
    ||| (abs(pos.0 - b.0) < r + radius && pos.1 + radius > b.1 - e.up * UNIT - r && pos.1 - radius
        < b.1 + e.down * UNIT + r)
    ||| (abs(pos.1 - b.1) < r + radius && pos.0 + radius > b.0 - e.left * UNIT - r && pos.0 - radius
        < b.0 + e.right * UNIT + r)
}

/// The tile a bomb stands on.
pub open spec fn bomb_tile(b: Bomb) -> (int, int) {
    (saturated_tile(b.position.0 as int), saturated_tile(b.position.1 as int))
}

/// Whether the explosion of `b` fits within the map's origin, so that its
/// range can be computed on tile numbers.
pub open spec fn explosion_fits(b: Bomb) -> bool {
    b.explosion.left <= bomb_tile(b).0 && b.explosion.up <= bomb_tile(b).1
}

/// Whether `other` stands on a tile an arm of the explosion of `b` covers.
pub open spec fn covers(b: Bomb, other: Bomb) -> bool {
    let (sx, sy) = bomb_tile(b);
    let (ox, oy) = bomb_tile(other);
    ||| (sy == oy && sx - b.explosion.left <= ox <= sx + b.explosion.right)
    ||| (sx == ox && sy - b.explosion.up <= oy <= sy + b.explosion.down)
}

/// A bomb caught in another's explosion: a live one is set to explode at
/// once, and stops sliding; an exploding one stays as it is.
pub open spec fn triggered(b: Bomb) -> Bomb {
    match b.state {
        BombState::Exploding => b,
        _ => Bomb { timer: 0, state: BombState::Planted, ..b },
    }
}

/// The bomb `b` once set off on the map `m`: exploding, in the middle of its
/// tile, its arms reaching up to the first box or wall within its power.
pub open spec fn exploded(b: Bomb, m: GameMap) -> Bomb {
    let (tx, ty) = bomb_tile(b);
    let p = b.power as int;
    Bomb {
        state: BombState::Exploding,
        position: (centred(b.position.0 as int) as i64, centred(b.position.1 as int) as i64),
        explosion: Explosion {
            up: blast_reach(m, tx, ty, Direction::Up, p) as u8,
            down: blast_reach(m, tx, ty, Direction::Down, p) as u8,
            left: blast_reach(m, tx, ty, Direction::Left, p) as u8,
            right: blast_reach(m, tx, ty, Direction::Right, p) as u8,
        },
        ..b
    }
}

/// Whether `after` is the map `before` once the explosion of `b` destroyed
/// the boxes its arms end on.
pub open spec fn blasted(before: GameMap, after: GameMap, b: Bomb) -> bool {
    let (tx, ty) = bomb_tile(b);
    &&& after.wf()
    &&& after.width == before.width
    &&& after.height == before.height
    &&& after.spawns == before.spawns
    &&& forall|x: int, y: int|
        #![trigger after.elem_at(x, y)]
        after.elem_at(x, y) == if destroyed_tile(before, tx, ty, b.power as int, x, y) {
            MapElement::Empty
        } else {
            before.elem_at(x, y)
        }
}

/// Whether a live bomb goes off in a tick of `delta` milliseconds.
pub open spec fn goes_off(b: Bomb, delta: int) -> bool {
    b.timer == 0 || delta >= b.timer
}

/// A live bomb after a tick of `delta` milliseconds: set off once its
/// timer runs out, else with that much less time left.
pub open spec fn live_ticked(b: Bomb, m: GameMap, delta: int) -> Bomb {
    if goes_off(b, delta) {
        Bomb { timer: 0, ..exploded(b, m) }
    } else {
        Bomb { timer: (b.timer - delta) as u32, ..b }
    }
}

/// Whether the explosion of `b` catches the living player `p`.
pub open spec fn hits_player(b: Bomb, p: Player) -> bool {
    p.alive && in_explosion(b.position, b.explosion, p.position, PLAYER_RADIUS as int)
}

/// Whether the explosion of `b` catches the living enemy `e`.
pub open spec fn hits_enemy(b: Bomb, e: Enemy) -> bool {
    e.alive && in_explosion(b.position, b.explosion, e.position, ENEMY_RADIUS as int)
}

/// How many of the first `n` players the explosion of `b` catches.
pub open spec fn players_hit(ps: Seq<Player>, b: Bomb, n: int) -> int
    decreases n,
{
    if n <= 0 {
        0
    } else {
        players_hit(ps, b, n - 1) + if hits_player(b, ps[n - 1]) {
            1int
        } else {
            0
        }
    }
}

/// How many of the first `n` enemies the explosion of `b` catches.
pub open spec fn enemies_hit(es: Seq<Enemy>, b: Bomb, n: int) -> int
    decreases n,
{
    if n <= 0 {
        0
    } else {
        enemies_hit(es, b, n - 1) + if hits_enemy(b, es[n - 1]) {
            1int
        } else {
            0
        }
    }
}

/// Whether the explosion of `b` is over at the start of a tick.
pub open spec fn burnt_out(b: Bomb) -> bool {
    b.timer >= BOMB_EXPLOSION_TIME
}

/// The player with index `i` after a tick of the exploding bomb `b`: the
/// owner gets its bomb back when the explosion is over, and a living
/// player the explosion catches dies.
pub open spec fn blast_player(b: Bomb, i: int, p: Player) -> Player {
    let p1 = if burnt_out(b) && i == b.owner_id {
        Player { bombs_remaining: (p.bombs_remaining + 1) as u32, ..p }
    } else {
        p
    };
    if hits_player(b, p) {
        Player { alive: false, ..p1 }
    } else {
        p1
    }
}

/// An enemy after a tick of the exploding bomb `b`.
pub open spec fn blast_enemy(b: Bomb, e: Enemy) -> Enemy {
    if hits_enemy(b, e) {
        Enemy { alive: false, ..e }
    } else {
        e
    }
}

/// An exploding bomb after a tick of `delta` milliseconds: it leaves the
/// game once its explosion is over.
pub open spec fn burning(b: Bomb, delta: int) -> Bomb {
    Bomb {
        despawn: b.despawn || burnt_out(b),
        timer: if b.timer + delta > u32::MAX { u32::MAX } else { (b.timer + delta) as u32 },
        ..b
    }
}

/// `n` copies of a sound.
pub open spec fn repeated(e: SoundEffect, n: int) -> Seq<SoundEffect> {
    Seq::new(n as nat, |_i: int| e)
}

/// The bomb `b` brought back within the map, moved to the middle of its
/// tile and planted.
pub open spec fn planted_at(b: Bomb, m: GameMap) -> Bomb {
    let size = bomb_size(b.state);
    let x = clamp(b.position.0 as int, size, m.width * UNIT - size);
    let y = clamp(b.position.1 as int, size, m.height * UNIT - size);
    Bomb { position: (centred(x) as i64, centred(y) as i64), state: BombState::Planted, ..b }
}

/// The bomb `b` stopped, after being pushed to `p`.
pub open spec fn stopped_at(b: Bomb, p: (int, int), m: GameMap) -> Bomb {
    planted_at(Bomb { position: (p.0 as i64, p.1 as i64), ..b }, m)
}

/// The index of the first living player, from the `k`-th on, whose box a
/// sliding bomb at `p` runs into; the number of players when there is none.
pub open spec fn first_player_block(ps: Seq<Player>, p: Pos, k: int) -> int
    decreases ps.len() - k,
{
    if k >= ps.len() {
        ps.len() as int
    } else if ps[k].alive && overlapping(p, BOMB_SLIDE_RADIUS as int, ps[k].position, PLAYER_RADIUS as int) {
        k
    } else {
        first_player_block(ps, p, k + 1)
    }
}

/// The index of the first other bomb, from the `k`-th on, that a sliding
/// bomb at `p` runs into; the number of bombs when there is none.
pub open spec fn first_bomb_block(os: Seq<Pos>, p: Pos, k: int) -> int
    decreases os.len() - k,
{
    if k >= os.len() {
        os.len() as int
    } else if overlapping(p, BOMB_SLIDE_RADIUS as int, os[k], BOMB_RADIUS as int) {
        k
    } else {
        first_bomb_block(os, p, k + 1)
    }
}

/// One step of `dist` of a bomb sliding in `dir`: it moves, stays within the
/// map, and stops, pushed back, against a blocking tile, a living player or
/// another bomb. Returns the bomb and whether it stopped.
pub open spec fn slide_step(
    b: Bomb,
    m: GameMap,
    ps: Seq<Player>,
    os: Seq<Pos>,
    dir: Direction,
    dist: int,
) -> (Bomb, bool) {
    let size = BOMB_SLIDE_RADIUS as int;
    let p1 = arm_tile(b.position.0 as int, b.position.1 as int, dir, dist);
    let q: Pos = (
        clamp(p1.0, size, m.width * UNIT - size) as i64,
        clamp(p1.1, size, m.height * UNIT - size) as i64,
    );
    let i = first_player_block(ps, q, 0);
    let j = first_bomb_block(os, q, 0);
    if any_map_push(m, q, size, dir, 9) {
        (stopped_at(b, after_map_pushes(m, q, size, dir, 9), m), true)
    } else if i < ps.len() {
        (stopped_at(b, pushed_back(q, size, ps[i].position, PLAYER_RADIUS as int, dir), m), true)
    } else if j < os.len() {
        (stopped_at(b, pushed_back(q, size, os[j], BOMB_RADIUS as int, dir), m), true)
    } else {
        (Bomb { position: q, ..b }, false)
    }
}

/// A bomb sliding in `dir` over `rem` thousandths of a tile, one tile at
/// most per step, until it stops.
pub open spec fn slid(b: Bomb, m: GameMap, ps: Seq<Player>, os: Seq<Pos>, dir: Direction, rem: int) -> Bomb
    decreases rem,
{
    if rem <= 0 {
        b
    } else {
        let dist = if rem > UNIT { UNIT as int } else { rem };
        let (b2, stopped) = slide_step(b, m, ps, os, dir, dist);
        if stopped {
            b2
        } else {
            slid(b2, m, ps, os, dir, rem - dist)
        }
    }
}

/// Whether a point lies on the map, edges included.
pub open spec fn on_map(m: GameMap, p: Pos) -> bool {
    0 <= p.0 <= m.width * UNIT && 0 <= p.1 <= m.height * UNIT
}

/// The bomb `b` after the movement part of a tick of `delta` milliseconds:
/// a sliding bomb slides, others stay.
pub open spec fn moved(b: Bomb, m: GameMap, ps: Seq<Player>, os: Seq<Pos>, delta: int) -> Bomb {
    match b.state {
        BombState::Sliding(d) => slid(b, m, ps, os, d, BOMB_SLIDE_SPEED * delta),
        _ => b,
    }
}

/// The bomb `b` once collision is turned on if its owner, among `ps`, no
/// longer stands on it, or is gone.
pub open spec fn collision_checked(b: Bomb, ps: Seq<Player>) -> Bomb {
    Bomb {
        collision_enabled: b.collision_enabled || b.owner_id >= ps.len() || !overlapping(
            ps[b.owner_id as int].position,
            PLAYER_RADIUS as int,
            b.position,
            BOMB_RADIUS as int,
        ),
        ..b
    }
}

/// The size of a bomb in a state.
pub open spec fn bomb_size(s: BombState) -> int {
    match s {
        BombState::Exploding => 0,
        BombState::Planted => BOMB_RADIUS as int,
        BombState::Sliding(_) => BOMB_SLIDE_RADIUS as int,
    }
}

/// Whether a position lies near a map: within 40 tiles of it.
pub open spec fn near(m: GameMap, p: Pos) -> bool {
    near_map(m, (p.0 as int, p.1 as int), 40 * UNIT)
}

/// Whether a bomb stands where the game keeps bombs: a live bomb near the
/// map, an exploding one at most half a tile farther.
pub open spec fn bomb_ok(m: GameMap, b: Bomb) -> bool {
    if b.state is Exploding {
        near_map(m, (b.position.0 as int, b.position.1 as int), 41 * UNIT)
    } else {
        near(m, b.position)
    }
}

/// The largest tile number a sane position falls in.
pub const TILE_LIMIT: i64 = 1_000_000_000;

/// Whether `(x, y)` is one of the `power` tiles an arm of an explosion from
/// `(tx, ty)` in direction `dir` may reach.
pub open spec fn on_arm(tx: int, ty: int, dir: Direction, power: int, x: int, y: int) -> bool {
    exists|j: int| 1 <= j <= power && (x, y) == #[trigger] arm_tile(tx, ty, dir, j)
}


/// The reach found from the `i`-th tile on lies between `i - 1` and
/// `power`, and an arm that stops short stops before a box.
proof fn lemma_ray_bounds(m: GameMap, tx: int, ty: int, dir: Direction, power: int, i: int)
    requires
        1 <= i <= power + 1,
    ensures
        i - 1 <= ray_stop(m, tx, ty, dir, power, i) <= power,
        ray_stop(m, tx, ty, dir, power, i) < power ==> stops_blast(
            m.elem_at(
                arm_tile(tx, ty, dir, ray_stop(m, tx, ty, dir, power, i) + 1).0,
                arm_tile(tx, ty, dir, ray_stop(m, tx, ty, dir, power, i) + 1).1,
            ),
        ),
    decreases power + 1 - i,
{
    if i <= power && !stops_blast(
        m.elem_at(arm_tile(tx, ty, dir, i).0, arm_tile(tx, ty, dir, i).1),
    ) {
        lemma_ray_bounds(m, tx, ty, dir, power, i + 1);
    }
}

/// Two maps that agree on the tiles of a ray from the `i`-th one on give the same reach.
proof fn lemma_ray_agree(m1: GameMap, m2: GameMap, tx: int, ty: int, dir: Direction, power: int, i: int)
    requires
        1 <= i,
        forall|x: int, y: int|
            on_arm(tx, ty, dir, power, x, y) ==> #[trigger] m1.elem_at(x, y) == m2.elem_at(x, y),
    ensures
        ray_stop(m1, tx, ty, dir, power, i) == ray_stop(m2, tx, ty, dir, power, i),
    decreases power + 1 - i,
{
    if i <= power {
        let t = arm_tile(tx, ty, dir, i);
        assert(on_arm(tx, ty, dir, power, t.0, t.1));
        lemma_ray_agree(m1, m2, tx, ty, dir, power, i + 1);
    }
}

/// An arm of an explosion depends only on the tiles of that arm.
proof fn lemma_arm_agree(m1: GameMap, m2: GameMap, tx: int, ty: int, dir: Direction, power: int)
    requires
        0 <= power,
        forall|x: int, y: int|
            on_arm(tx, ty, dir, power, x, y) ==> #[trigger] m1.elem_at(x, y) == m2.elem_at(x, y),
    ensures
        blast_reach(m1, tx, ty, dir, power) == blast_reach(m2, tx, ty, dir, power),
        stop_tile(m1, tx, ty, dir, power) == stop_tile(m2, tx, ty, dir, power),
        breaks_box(m1, tx, ty, dir, power) == breaks_box(m2, tx, ty, dir, power),
{
    lemma_ray_agree(m1, m2, tx, ty, dir, power, 1);
    lemma_ray_bounds(m1, tx, ty, dir, power, 1);
    let r = blast_reach(m1, tx, ty, dir, power);
    if r < power {
        let t = arm_tile(tx, ty, dir, r + 1);
        assert(on_arm(tx, ty, dir, power, t.0, t.1));
    }
}

/// Two arms in different directions share no tile.
proof fn lemma_arms_disjoint(tx: int, ty: int, d1: Direction, d2: Direction, j1: int, j2: int)
    requires
        d1 != d2,
        1 <= j1,
        1 <= j2,
    ensures
        arm_tile(tx, ty, d1, j1) != arm_tile(tx, ty, d2, j2),
{
}

/// The tile where an arm stops on a box lies on that arm, and on no other.
proof fn lemma_stop_on_arm(m: GameMap, tx: int, ty: int, dir: Direction, power: int)
    requires
        0 <= power,
        breaks_box(m, tx, ty, dir, power),
    ensures
        on_arm(tx, ty, dir, power, stop_tile(m, tx, ty, dir, power).0, stop_tile(m, tx, ty, dir, power).1),
        forall|d2: Direction, x: int, y: int|
            d2 != dir && #[trigger] on_arm(tx, ty, d2, power, x, y) ==> (x, y) != stop_tile(
                m,
                tx,
                ty,
                dir,
                power,
            ),
{
    lemma_ray_bounds(m, tx, ty, dir, power, 1);
    let r = blast_reach(m, tx, ty, dir, power);
    let t = arm_tile(tx, ty, dir, r + 1);
    assert(on_arm(tx, ty, dir, power, t.0, t.1));
    assert forall|d2: Direction, x: int, y: int|
        d2 != dir && #[trigger] on_arm(tx, ty, d2, power, x, y) implies (x, y) != stop_tile(
        m,
        tx,
        ty,
        dir,
        power,
    ) by {
        let j = choose|j: int| 1 <= j <= power && (x, y) == #[trigger] arm_tile(tx, ty, d2, j);
        assert(stop_tile(m, tx, ty, dir, power) == arm_tile(tx, ty, dir, r + 1));
        lemma_arms_disjoint(tx, ty, dir, d2, r + 1, j);
    }
}

/// Whether `(x, y)` is the box where one of the arms in `dirs` of an
/// explosion of `power` from `(tx, ty)` ends, destroying it.
pub open spec fn cleared_by(m: GameMap, tx: int, ty: int, power: int, dirs: Set<Direction>, x: int, y: int) -> bool {
    exists|d: Direction|
        dirs.contains(d) && breaks_box(m, tx, ty, d, power) && #[trigger] stop_tile(m, tx, ty, d, power)
            == (x, y)
}

/// Whether `after` is the map `before` once the arms in `dirs` of an
/// explosion of `power` from `(tx, ty)` destroyed their boxes.
pub open spec fn arms_done(before: GameMap, after: GameMap, tx: int, ty: int, power: int, dirs: Set<Direction>) -> bool {
    forall|x: int, y: int|
        #![trigger after.elem_at(x, y)]
        after.elem_at(x, y) == if cleared_by(before, tx, ty, power, dirs, x, y) {
            MapElement::Empty
        } else {
            before.elem_at(x, y)
        }
}

/// The arms of an explosion can be followed one after the other: the arms
/// already followed do not change where the next one ends, and what it
/// destroys adds to what they destroyed.
proof fn lemma_next_arm(
    m0: GameMap,
    mk: GameMap,
    mk1: GameMap,
    tx: int,
    ty: int,
    power: int,
    dirs: Set<Direction>,
    d: Direction,
)
    requires
        0 <= power,
        !dirs.contains(d),
        arms_done(m0, mk, tx, ty, power, dirs),
        forall|x: int, y: int|
            #![trigger mk1.elem_at(x, y)]
            mk1.elem_at(x, y) == if breaks_box(mk, tx, ty, d, power) && (x, y) == stop_tile(
                mk,
                tx,
                ty,
                d,
                power,
            ) {
                MapElement::Empty
            } else {
                mk.elem_at(x, y)
            },
    ensures
        blast_reach(mk, tx, ty, d, power) == blast_reach(m0, tx, ty, d, power),
        breaks_box(mk, tx, ty, d, power) == breaks_box(m0, tx, ty, d, power),
        stop_tile(mk, tx, ty, d, power) == stop_tile(m0, tx, ty, d, power),
        arms_done(m0, mk1, tx, ty, power, dirs.insert(d)),
{
    assert forall|x: int, y: int| on_arm(tx, ty, d, power, x, y) implies #[trigger] mk.elem_at(x, y)
        == m0.elem_at(x, y) by {
        if cleared_by(m0, tx, ty, power, dirs, x, y) {
            let d2 = choose|d2: Direction|
                dirs.contains(d2) && breaks_box(m0, tx, ty, d2, power) && #[trigger] stop_tile(
                    m0,
                    tx,
                    ty,
                    d2,
                    power,
                ) == (x, y);
            lemma_stop_on_arm(m0, tx, ty, d2, power);
        }
    }
    lemma_arm_agree(mk, m0, tx, ty, d, power);
    let nd = dirs.insert(d);
    assert forall|x: int, y: int| #[trigger] mk1.elem_at(x, y) == if cleared_by(m0, tx, ty, power, nd, x, y) {
        MapElement::Empty
    } else {
        m0.elem_at(x, y)
    } by {
        if breaks_box(m0, tx, ty, d, power) && (x, y) == stop_tile(m0, tx, ty, d, power) {
            assert(nd.contains(d));
        } else if cleared_by(m0, tx, ty, power, nd, x, y) {
            let d2 = choose|d2: Direction|
                nd.contains(d2) && breaks_box(m0, tx, ty, d2, power) && #[trigger] stop_tile(
                    m0,
                    tx,
                    ty,
                    d2,
                    power,
                ) == (x, y);
            assert(cleared_by(m0, tx, ty, power, dirs, x, y));
        } else {
            assert(!cleared_by(m0, tx, ty, power, dirs, x, y));
        }
    }
}

/// The tile a sane coordinate falls in is at most the tile limit.
proof fn lemma_tile_bound(v: int)
    requires
        -COORD_LIMIT <= v <= COORD_LIMIT,
    ensures
        0 <= saturated_tile(v) <= TILE_LIMIT,
{
    if v >= 0 {
        assert(0 <= v / 1000 <= 1_000_000_000) by (nonlinear_arith)
            requires
                0 <= v <= 1_000_000_000_000,
        ;
    }
}

/// The centre of the tile of a point kept at least `size` inside the map
/// lies on the map.
proof fn lemma_centre_on_map(x: int, w: int, size: int)
    requires
        0 < size <= 500,
        1 <= w,
        size <= x <= w * UNIT - size,
    ensures
        0 <= centred(x) <= w * UNIT,
{
    assert(0 <= (x / 1000) * 1000 + 500 <= w * 1000) by (nonlinear_arith)
        requires
            0 < size <= 500,
            1 <= w,
            size <= x <= w * 1000 - size,
    ;
}

/// The centre of the tile of a point lies within half a tile of it, or of
/// the origin's tile for negative points.
proof fn lemma_centred_near(v: int)
    ensures
        v >= 0 ==> v - 500 <= centred(v) <= v + 500,
        v < 0 ==> centred(v) == 500,
{
    if v >= 0 {
        assert(v - 500 <= (v / 1000) * 1000 + 500 <= v + 500) by (nonlinear_arith)
            requires
                v >= 0,
        ;
    }
}

/// The tile of the centre of a tile is that tile.
proof fn lemma_centre_tile(t: int)
    requires
        0 <= t,
    ensures
        (t * UNIT + UNIT / 2) / UNIT as int == t,
{
    assert((t * 1000 + 500) / 1000 == t) by (nonlinear_arith)
        requires
            0 <= t,
    ;
}

/// The centre of the tile a coordinate below the limit falls in is sane.
proof fn lemma_tile_start(v: int)
    requires
        -COORD_LIMIT <= v < COORD_LIMIT,
    ensures
        0 <= saturated_tile(v) * UNIT,
        centred(v) <= COORD_LIMIT,
{
    if v >= 0 {
        assert(0 <= (v / 1000) * 1000 <= v && (v / 1000) * 1000 + 500 <= 1_000_000_000_000) by (nonlinear_arith)
            requires
                0 <= v < 1_000_000_000_000,
        ;
    }
}

/// The `j`-th tile from `(tx, ty)` in direction `dir`.
fn step(tx: i64, ty: i64, dir: Direction, j: i64) -> (r: (i64, i64))
    requires
        0 <= tx <= TILE_LIMIT,
        0 <= ty <= TILE_LIMIT,
        0 <= j <= 1000,
    ensures
        (r.0 as int, r.1 as int) == arm_tile(tx as int, ty as int, dir, j as int),
{
    match dir {
        Direction::Up => (tx, ty - j),
        Direction::Down => (tx, ty + j),
        Direction::Left => (tx - j, ty),
        Direction::Right => (tx + j, ty),
    }
}

/// The first blocking player found from the `k`-th on is one, and comes at or after `k`.
proof fn lemma_first_player_block(ps: Seq<Player>, q: Pos, k: int)
    requires
        0 <= k <= ps.len(),
    ensures
        k <= first_player_block(ps, q, k) <= ps.len(),
        first_player_block(ps, q, k) < ps.len() ==> ps[first_player_block(ps, q, k)].alive && overlapping(
            q,
            BOMB_SLIDE_RADIUS as int,
            ps[first_player_block(ps, q, k)].position,
            PLAYER_RADIUS as int,
        ),
    decreases ps.len() - k,
{
    if k < ps.len() {
        lemma_first_player_block(ps, q, k + 1);
    }
}

/// The first blocking bomb found from the `k`-th on is one, and comes at or after `k`.
proof fn lemma_first_bomb_block(os: Seq<Pos>, q: Pos, k: int)
    requires
        0 <= k <= os.len(),
    ensures
        k <= first_bomb_block(os, q, k) <= os.len(),
        first_bomb_block(os, q, k) < os.len() ==> overlapping(
            q,
            BOMB_SLIDE_RADIUS as int,
            os[first_bomb_block(os, q, k)],
            BOMB_RADIUS as int,
        ),
    decreases os.len() - k,
{
    if k < os.len() {
        lemma_first_bomb_block(os, q, k + 1);
    }
}

/// The index of the first living player whose box a sliding bomb at `q`
/// runs into; the number of players when there is none.
fn find_player_block(players: &Vec<Player>, q: Pos) -> (r: usize)
    requires
        sane(q),
        forall|i: int| 0 <= i < players@.len() ==> sane(#[trigger] players@[i].position),
    ensures
        r == first_player_block(players@, q, 0),
{
    let mut i: usize = 0;
    while i < players.len()
        invariant
            i <= players@.len(),
            sane(q),
            forall|k: int| 0 <= k < players@.len() ==> sane(#[trigger] players@[k].position),
            first_player_block(players@, q, 0) == first_player_block(players@, q, i as int),
        decreases players@.len() - i,
    {
        if players[i].alive && is_colliding_with(q, BOMB_SLIDE_RADIUS, players[i].position, PLAYER_RADIUS) {
            return i;
        }
        i = i + 1;
    }
    i
}

/// The index of the first bomb at `positions` that a sliding bomb at `q`
/// runs into; the number of bombs when there is none.
fn find_bomb_block(positions: &Vec<Pos>, q: Pos) -> (r: usize)
    requires
        sane(q),
        forall|i: int| 0 <= i < positions@.len() ==> sane(#[trigger] positions@[i]),
    ensures
        r == first_bomb_block(positions@, q, 0),
{
    let mut i: usize = 0;
    while i < positions.len()
        invariant
            i <= positions@.len(),
            sane(q),
            forall|k: int| 0 <= k < positions@.len() ==> sane(#[trigger] positions@[k]),
            first_bomb_block(positions@, q, 0) == first_bomb_block(positions@, q, i as int),
        decreases positions@.len() - i,
    {
        if is_colliding_with(q, BOMB_SLIDE_RADIUS, positions[i], BOMB_RADIUS) {
            return i;
        }
        i = i + 1;
    }
    i
}

/// The point `dist` thousandths of a tile from `p` in direction `dir`.
fn advance(p: Pos, dir: Direction, dist: i64) -> (r: Pos)
    requires
        sane(p),
        0 <= dist <= UNIT,
    ensures
        (r.0 as int, r.1 as int) == arm_tile(p.0 as int, p.1 as int, dir, dist as int),
{
    match dir {
        Direction::Up => (p.0, p.1 - dist),
        Direction::Down => (p.0, p.1 + dist),
        Direction::Left => (p.0 - dist, p.1),
        Direction::Right => (p.0 + dist, p.1),
    }
}

/// Whether a tick of `delta` milliseconds takes the bomb `b0` to `b1`,
/// the players `ps0` to `ps1`, the enemies `es0` to `es1`, the map `m0` to
/// `m1`, the power-ups `pu0` to `pu1` and the sounds played `s0` to `s1`,
/// with the events `ev`, the other bombs standing at `os`: a sliding bomb
/// slides, a live one ticks down and maybe goes off, an exploding one burns
/// and kills; then collision turns on once the owner stepped off.
pub open spec fn bomb_tick_rel(
    b0: Bomb,
    b1: Bomb,
    delta: int,
    ps0: Seq<Player>,
    ps1: Seq<Player>,
    es0: Seq<Enemy>,
    es1: Seq<Enemy>,
    m0: GameMap,
    m1: GameMap,
    pu0: Seq<PowerUp>,
    pu1: Seq<PowerUp>,
    s0: Seq<SoundEffect>,
    s1: Seq<SoundEffect>,
    os: Seq<Pos>,
    events: BombEvents,
) -> bool {
    &&& ps1.len() == ps0.len()
    &&& es1.len() == es0.len()
    &&& b0.state is Exploding ==> {
        &&& b1 == collision_checked(burning(b0, delta), ps0)
        &&& forall|i: int| 0 <= i < ps0.len() ==> #[trigger] ps1[i] == blast_player(b0, i, ps0[i])
        &&& forall|i: int| 0 <= i < es0.len() ==> #[trigger] es1[i] == blast_enemy(b0, es0[i])
        &&& events == (BombEvents {
            breakables_destroyed: 0,
            players_killed: players_hit(ps0, b0, ps0.len() as int) as u32,
            enemies_killed: enemies_hit(es0, b0, es0.len() as int) as u32,
        })
        &&& s1 == s0 + repeated(SoundEffect::PlayerDeath, events.players_killed as int) + repeated(
            SoundEffect::EnemyDeath,
            events.enemies_killed as int,
        )
        &&& m1 == m0
        &&& pu1 == pu0
    }
    &&& !(b0.state is Exploding) ==> {
        let bm = moved(b0, m0, ps0, os, delta);
        &&& b1 == collision_checked(live_ticked(bm, m0, delta), ps0)
        &&& ps1 == ps0
        &&& es1 == es0
        &&& goes_off(bm, delta) ==> {
            &&& blasted(m0, m1, bm)
            &&& events == (BombEvents {
                breakables_destroyed: destroyed_count(m0, bomb_tile(bm).0, bomb_tile(bm).1, bm.power as int) as u32,
                enemies_killed: 0,
                players_killed: 0,
            })
            &&& s1 == s0.push(SoundEffect::BombExplosion)
            &&& pu0.len() <= pu1.len() <= pu0.len() + 4
            &&& pu1.subrange(0, pu0.len() as int) == pu0
            &&& forall|k: int|
                pu0.len() <= k < pu1.len() ==> destroyed_tile(
                    m0,
                    bomb_tile(bm).0,
                    bomb_tile(bm).1,
                    bm.power as int,
                    #[trigger] pu1[k].pos.0 as int,
                    pu1[k].pos.1 as int,
                )
        }
        &&& !goes_off(bm, delta) ==> {
            &&& m1 == m0
            &&& events == (BombEvents { breakables_destroyed: 0, enemies_killed: 0, players_killed: 0 })
            &&& s1 == s0
            &&& pu1 == pu0
        }
    }
}

impl Bomb {
    /// A planted bomb of `owner` in the middle of the tile (x, y), about to tick.
    pub fn new(owner: u32, x: usize, y: usize, power: u8) -> (b: Bomb)
        requires
            x < TILE_LIMIT,
            y < TILE_LIMIT,
        ensures
            b == fresh_bomb(owner, x as int, y as int, power),
    {
        Bomb {
            position: (x as i64 * UNIT + UNIT / 2, y as i64 * UNIT + UNIT / 2),
            timer: BOMB_TIMER_DEFAULT,
            power,
            owner_id: owner,
            state: BombState::Planted,
            collision_enabled: false,
            explosion: Explosion::default(),
            despawn: false,
        }
    }

    /// The half-width of the bomb: nothing while exploding, smaller while sliding.
    pub fn get_size(&self) -> (r: i64)
        ensures
            r == bomb_size(self.state),
    {
        match self.state {
            BombState::Exploding => 0,
            BombState::Planted => BOMB_RADIUS,
            BombState::Sliding(_) => BOMB_SLIDE_RADIUS,
        }
    }

    /// Turns collision on once the owner no longer stands on the bomb (or is gone).
    fn enable_collision(&mut self, players: &Vec<Player>)
        requires
            sane(old(self).position),
            forall|i: int| 0 <= i < players@.len() ==> sane(#[trigger] players@[i].position),
        ensures
            *final(self) == (Bomb {
                collision_enabled: old(self).collision_enabled || old(self).owner_id >= players@.len()
                    || !overlapping(
                    players@[old(self).owner_id as int].position,
                    PLAYER_RADIUS as int,
                    old(self).position,
                    BOMB_RADIUS as int,
                ),
                ..*old(self)
            }),
    {
        if self.collision_enabled {
            return;
        }
        if (self.owner_id as usize) < players.len() {
            let owner = players[self.owner_id as usize];
            if !is_colliding_with(owner.position, PLAYER_RADIUS, self.position, BOMB_RADIUS) {
                self.collision_enabled = true;
            }
        } else {
            self.collision_enabled = true;
        }
    }

    /// Moves the bomb to the middle of its tile.
    fn center(&mut self)
        requires
            sane(old(self).position),
            old(self).position.0 < COORD_LIMIT,
            old(self).position.1 < COORD_LIMIT,
        ensures
            *final(self) == (Bomb {
                position: (
                    centred(old(self).position.0 as int) as i64,
                    centred(old(self).position.1 as int) as i64,
                ),
                ..*old(self)
            }),
            sane(final(self).position),
    {
        let x = if self.position.0 < 0 { 0 } else { self.position.0 / UNIT };
        let y = if self.position.1 < 0 { 0 } else { self.position.1 / UNIT };
        proof {
            lemma_tile_start(self.position.0 as int);
            lemma_tile_start(self.position.1 as int);
        }
        self.position = (x * UNIT + UNIT / 2, y * UNIT + UNIT / 2);
    }

    /// Follows one arm of the explosion from the bomb's tile `(tx, ty)`:
    /// destroys the breakable box it ends on, if any, maybe leaving a
    /// power-up there. Returns the reach of the arm and the number of boxes destroyed.
    fn find_wall(
        &self,
        tx: i64,
        ty: i64,
        map: &mut GameMap,
        dir: Direction,
        power_ups: &mut Vec<PowerUp>,
    ) -> (r: (u8, u32))
        requires
            old(map).wf(),
            0 <= tx <= TILE_LIMIT,
            0 <= ty <= TILE_LIMIT,
        ensures
            final(map).wf(),
            final(map).width == old(map).width,
            final(map).height == old(map).height,
            final(map).spawns == old(map).spawns,
            r.0 == blast_reach(*old(map), tx as int, ty as int, dir, self.power as int),
            r.1 == if breaks_box(*old(map), tx as int, ty as int, dir, self.power as int) {
                1u32
            } else {
                0u32
            },
            forall|x: int, y: int|
                #![trigger final(map).elem_at(x, y)]
                final(map).elem_at(x, y) == if breaks_box(
                    *old(map),
                    tx as int,
                    ty as int,
                    dir,
                    self.power as int,
                ) && (x, y) == stop_tile(*old(map), tx as int, ty as int, dir, self.power as int) {
                    MapElement::Empty
                } else {
                    old(map).elem_at(x, y)
                },
            old(power_ups)@.len() <= final(power_ups)@.len() <= old(power_ups)@.len() + 1,
            final(power_ups)@.subrange(0, old(power_ups)@.len() as int) == old(power_ups)@,
            final(power_ups)@.len() > old(power_ups)@.len() ==> {
                let s = stop_tile(*old(map), tx as int, ty as int, dir, self.power as int);
                &&& breaks_box(*old(map), tx as int, ty as int, dir, self.power as int)
                &&& final(power_ups)@.last().pos == (s.0 as usize, s.1 as usize)
                &&& !final(power_ups)@.last().despawn
            },
    {
        let ghost m0 = *map;
        let power = self.power;
        let mut i: u16 = 1;
        while i <= power as u16
            invariant
                1 <= i <= power as int + 1,
                power == self.power,
                *map == m0,
                m0 == *old(map),
                m0.wf(),
                0 <= tx <= TILE_LIMIT,
                0 <= ty <= TILE_LIMIT,
                power_ups@ == old(power_ups)@,
                ray_stop(m0, tx as int, ty as int, dir, power as int, i as int) == blast_reach(
                    m0,
                    tx as int,
                    ty as int,
                    dir,
                    power as int,
                ),
            decreases power as int + 1 - i,
        {
            let (px, py) = step(tx, ty, dir, i as i64);
            let elem = map.get_elem_pos(px, py);
            match elem {
                MapElement::Empty | MapElement::Exit => {
                    i = i + 1;
                },
                MapElement::Breakable => {
                    let _ = map.set_elem_pos(px, py, MapElement::Empty);
                    proof {
                        crate::map::lemma_get_after_set(
                            m0,
                            *map,
                            px as int,
                            py as int,
                            MapElement::Empty,
                        );
                    }
                    if power_up_drops(random_in_range(1, 100)) {
                        power_ups.push(PowerUp::new(py as usize, px as usize));
                    }
                    assert(power_ups@.subrange(0, old(power_ups)@.len() as int) =~= old(power_ups)@);
                    return ((i - 1) as u8, 1);
                },
                MapElement::Unbreakable => {
                    assert(power_ups@.subrange(0, old(power_ups)@.len() as int) =~= old(power_ups)@);
                    return ((i - 1) as u8, 0);
                },
            }
        }
        assert(power_ups@.subrange(0, old(power_ups)@.len() as int) =~= old(power_ups)@);
        (power, 0)
    }

    /// Sets the bomb off: it stops in the middle of its tile, each of its
    /// four arms reaches up to the first box or wall within its power, and
    /// the breakable boxes the arms end on are destroyed, maybe leaving
    /// power-ups. Returns the number of boxes destroyed.
    fn explode(&mut self, map: &mut GameMap, power_ups: &mut Vec<PowerUp>, sounds: &mut Vec<SoundEffect>) -> (destroyed: u32)
        requires
            old(map).wf(),
            sane(old(self).position),
            old(self).position.0 < COORD_LIMIT,
            old(self).position.1 < COORD_LIMIT,
        ensures
            *final(self) == exploded(*old(self), *old(map)),
            blasted(*old(map), *final(map), *old(self)),
            destroyed == destroyed_count(
                *old(map),
                bomb_tile(*old(self)).0,
                bomb_tile(*old(self)).1,
                old(self).power as int,
            ),
            final(sounds)@ == old(sounds)@.push(SoundEffect::BombExplosion),
            old(power_ups)@.len() <= final(power_ups)@.len() <= old(power_ups)@.len() + 4,
            final(power_ups)@.subrange(0, old(power_ups)@.len() as int) == old(power_ups)@,
            forall|k: int|
                old(power_ups)@.len() <= k < final(power_ups)@.len() ==> destroyed_tile(
                    *old(map),
                    bomb_tile(*old(self)).0,
                    bomb_tile(*old(self)).1,
                    old(self).power as int,
                    #[trigger] final(power_ups)@[k].pos.0 as int,
                    final(power_ups)@[k].pos.1 as int,
                ),
    {
        let ghost b0 = *self;
        let ghost m0 = *map;
        let ghost (gx, gy) = bomb_tile(b0);
        let ghost p = b0.power as int;
        proof {
            lemma_tile_start(b0.position.0 as int);
            lemma_tile_start(b0.position.1 as int);
            lemma_centre_tile(gx);
            lemma_centre_tile(gy);
        }
        self.state = BombState::Exploding;
        self.center();
        sounds.push(SoundEffect::BombExplosion);
        let tx = self.position.0 / UNIT;
        let ty = self.position.1 / UNIT;
        assert(tx == gx && ty == gy);

        let (up, up_break) = self.find_wall(tx, ty, map, Direction::Up, power_ups);
        let ghost m1 = *map;
        proof {
            assert(arms_done(m0, m0, gx, gy, p, Set::empty()));
            lemma_next_arm(m0, m0, m1, gx, gy, p, Set::empty(), Direction::Up);
        }
        let ghost pu1 = power_ups@;
        let (down, down_break) = self.find_wall(tx, ty, map, Direction::Down, power_ups);
        let ghost m2 = *map;
        let ghost s1 = set![Direction::Up];
        proof {
            assert(Set::<Direction>::empty().insert(Direction::Up) =~= s1);
            lemma_next_arm(m0, m1, m2, gx, gy, p, s1, Direction::Down);
        }
        let ghost pu2 = power_ups@;
        let (left, left_break) = self.find_wall(tx, ty, map, Direction::Left, power_ups);
        let ghost m3 = *map;
        let ghost s2 = set![Direction::Up, Direction::Down];
        proof {
            assert(s1.insert(Direction::Down) =~= s2);
            lemma_next_arm(m0, m2, m3, gx, gy, p, s2, Direction::Left);
        }
        let ghost pu3 = power_ups@;
        let (right, right_break) = self.find_wall(tx, ty, map, Direction::Right, power_ups);
        let ghost m4 = *map;
        let ghost s3 = set![Direction::Up, Direction::Down, Direction::Left];
        let ghost s4 = set![Direction::Up, Direction::Down, Direction::Left, Direction::Right];
        proof {
            assert(s2.insert(Direction::Left) =~= s3);
            lemma_next_arm(m0, m3, m4, gx, gy, p, s3, Direction::Right);
            assert(s3.insert(Direction::Right) =~= s4);
            assert forall|x: int, y: int| #[trigger] cleared_by(m0, gx, gy, p, s4, x, y) == destroyed_tile(
                m0,
                gx,
                gy,
                p,
                x,
                y,
            ) by {
                if destroyed_tile(m0, gx, gy, p, x, y) {
                    let d = choose|d: Direction|
                        breaks_box(m0, gx, gy, d, p) && #[trigger] stop_tile(m0, gx, gy, d, p) == (x, y);
                    assert(s4.contains(d));
                }
            }
            lemma_ray_bounds(m0, gx, gy, Direction::Up, p, 1);
            lemma_ray_bounds(m0, gx, gy, Direction::Down, p, 1);
            lemma_ray_bounds(m0, gx, gy, Direction::Left, p, 1);
            lemma_ray_bounds(m0, gx, gy, Direction::Right, p, 1);
        }
        self.explosion = Explosion { up, down, left, right };
        proof {
            let pu = power_ups@;
            let n0 = old(power_ups)@.len() as int;
            assert(pu.subrange(0, n0) =~= old(power_ups)@) by {
                assert(pu.subrange(0, n0) =~= pu.subrange(0, pu3.len() as int).subrange(0, n0));
                assert(pu3.subrange(0, n0) =~= pu3.subrange(0, pu2.len() as int).subrange(0, n0));
                assert(pu2.subrange(0, n0) =~= pu2.subrange(0, pu1.len() as int).subrange(0, n0));
            }
            assert forall|k: int| n0 <= k < pu.len() implies destroyed_tile(
                m0,
                gx,
                gy,
                p,
                #[trigger] pu[k].pos.0 as int,
                pu[k].pos.1 as int,
            ) by {
                let d = if k < pu1.len() {
                    Direction::Up
                } else if k < pu2.len() {
                    Direction::Down
                } else if k < pu3.len() {
                    Direction::Left
                } else {
                    Direction::Right
                };
                if k < pu1.len() {
                    assert(pu[k] == pu3[k] && pu3[k] == pu2[k] && pu2[k] == pu1[k]) by {
                        assert(pu.subrange(0, pu3.len() as int)[k] == pu[k]);
                        assert(pu3.subrange(0, pu2.len() as int)[k] == pu3[k]);
                        assert(pu2.subrange(0, pu1.len() as int)[k] == pu2[k]);
                    }
                } else if k < pu2.len() {
                    assert(pu[k] == pu3[k] && pu3[k] == pu2[k]) by {
                        assert(pu.subrange(0, pu3.len() as int)[k] == pu[k]);
                        assert(pu3.subrange(0, pu2.len() as int)[k] == pu3[k]);
                    }
                } else if k < pu3.len() {
                    assert(pu[k] == pu3[k]) by {
                        assert(pu.subrange(0, pu3.len() as int)[k] == pu[k]);
                    }
                }
                let t = stop_tile(m0, gx, gy, d, p);
                assert(breaks_box(m0, gx, gy, d, p));
                assert(m0.in_map(t.0, t.1));
                assert(pu[k].pos.0 as int == t.0 && pu[k].pos.1 as int == t.1);
            }
        }
        up_break + down_break + left_break + right_break
    }

    /// The tick of a planted or sliding bomb: it goes off when its timer
    /// runs out (or already has), else its timer runs down by `delta`.
    fn live_bomb(
        &mut self,
        delta: u32,
        map: &mut GameMap,
        power_ups: &mut Vec<PowerUp>,
        sounds: &mut Vec<SoundEffect>,
    ) -> (events: BombEvents)
        requires
            old(map).wf(),
            sane(old(self).position),
            old(self).position.0 < COORD_LIMIT,
            old(self).position.1 < COORD_LIMIT,
        ensures
            *final(self) == live_ticked(*old(self), *old(map), delta as int),
            near(*old(map), old(self).position) ==> bomb_ok(*final(map), *final(self)),
            goes_off(*old(self), delta as int) ==> {
                &&& blasted(*old(map), *final(map), *old(self))
                &&& events == (BombEvents {
                    breakables_destroyed: destroyed_count(
                        *old(map),
                        bomb_tile(*old(self)).0,
                        bomb_tile(*old(self)).1,
                        old(self).power as int,
                    ) as u32,
                    enemies_killed: 0,
                    players_killed: 0,
                })
                &&& final(sounds)@ == old(sounds)@.push(SoundEffect::BombExplosion)
                &&& old(power_ups)@.len() <= final(power_ups)@.len() <= old(power_ups)@.len() + 4
                &&& final(power_ups)@.subrange(0, old(power_ups)@.len() as int) == old(power_ups)@
                &&& forall|k: int|
                    old(power_ups)@.len() <= k < final(power_ups)@.len() ==> destroyed_tile(
                        *old(map),
                        bomb_tile(*old(self)).0,
                        bomb_tile(*old(self)).1,
                        old(self).power as int,
                        #[trigger] final(power_ups)@[k].pos.0 as int,
                        final(power_ups)@[k].pos.1 as int,
                    )
            },
            !goes_off(*old(self), delta as int) ==> {
                &&& *final(map) == *old(map)
                &&& events == (BombEvents { breakables_destroyed: 0, enemies_killed: 0, players_killed: 0 })
                &&& final(sounds)@ == old(sounds)@
                &&& final(power_ups)@ == old(power_ups)@
            },
    {
        if self.timer == 0 || delta >= self.timer {
            self.timer = 0;
            proof {
                lemma_centred_near(self.position.0 as int);
                lemma_centred_near(self.position.1 as int);
            }
            let breakables_destroyed = self.explode(map, power_ups, sounds);
            return BombEvents { breakables_destroyed, enemies_killed: 0, players_killed: 0 };
        }
        self.timer = self.timer - delta;
        BombEvents::default()
    }

    /// The tile the bomb stands on.
    fn tile(&self) -> (r: (usize, usize))
        requires
            sane(self.position),
        ensures
            (r.0 as int, r.1 as int) == bomb_tile(*self),
            r.0 <= TILE_LIMIT,
            r.1 <= TILE_LIMIT,
    {
        proof {
            lemma_tile_bound(self.position.0 as int);
            lemma_tile_bound(self.position.1 as int);
        }
        let x = if self.position.0 < 0 { 0 } else { (self.position.0 / UNIT) as usize };
        let y = if self.position.1 < 0 { 0 } else { (self.position.1 / UNIT) as usize };
        (x, y)
    }

    /// Whether the other bomb stands on a tile an arm of this bomb's explosion covers.
    fn in_range(&self, bomb: &Bomb) -> (r: bool)
        requires
            sane(self.position),
            sane(bomb.position),
            explosion_fits(*self),
        ensures
            r == covers(*self, *bomb),
    {
        let (self_x, self_y) = self.tile();
        let (other_x, other_y) = bomb.tile();
        if self_y == other_y && other_x >= self_x - self.explosion.left as usize && other_x <= self_x
            + self.explosion.right as usize {
            return true;
        }
        if self_x == other_x && other_y >= self_y - self.explosion.up as usize && other_y <= self_y
            + self.explosion.down as usize {
            return true;
        }
        false
    }

    /// Whether the arms of the explosion stay within the map's origin, so
    /// that the tiles it covers can be worked out.
    pub fn explosion_fits(&self) -> (r: bool)
        requires
            sane(self.position),
        ensures
            r == explosion_fits(*self),
    {
        let (x, y) = self.tile();
        self.explosion.left as usize <= x && self.explosion.up as usize <= y
    }

    /// Sets off at once every live bomb standing on a tile this bomb's
    /// explosion covers; sliding ones stop where they are.
    pub fn chain_react(&self, bombs: &mut Vec<Bomb>)
        requires
            sane(self.position),
            explosion_fits(*self),
            forall|i: int| 0 <= i < old(bombs)@.len() ==> sane(#[trigger] old(bombs)@[i].position),
        ensures
            final(bombs)@.len() == old(bombs)@.len(),
            forall|i: int|
                0 <= i < old(bombs)@.len() ==> #[trigger] final(bombs)@[i] == if covers(
                    *self,
                    old(bombs)@[i],
                ) {
                    triggered(old(bombs)@[i])
                } else {
                    old(bombs)@[i]
                },
    {
        let mut i: usize = 0;
        while i < bombs.len()
            invariant
                i <= bombs@.len(),
                bombs@.len() == old(bombs)@.len(),
                sane(self.position),
                explosion_fits(*self),
                forall|k: int| 0 <= k < old(bombs)@.len() ==> sane(#[trigger] old(bombs)@[k].position),
                forall|k: int|
                    0 <= k < bombs@.len() ==> #[trigger] bombs@[k] == if k < i && covers(
                        *self,
                        old(bombs)@[k],
                    ) {
                        triggered(old(bombs)@[k])
                    } else {
                        old(bombs)@[k]
                    },
            decreases bombs@.len() - i,
        {
            let mut bomb = bombs[i];
            if self.in_range(&bomb) {
                match bomb.state {
                    BombState::Planted => {
                        bomb.timer = 0;
                    },
                    BombState::Sliding(_) => {
                        bomb.state = BombState::Planted;
                        bomb.timer = 0;
                    },
                    BombState::Exploding => {},
                }
                bombs.set(i, bomb);
            }
            i = i + 1;
        }
    }

    /// Whether a box of half-width `radius` at `pos` touches the arms of the explosion.
    fn is_pos_in_explosion(&self, pos: Pos, radius: i64) -> (r: bool)
        requires
            sane(self.position),
            sane(pos),
            0 <= radius <= SIZE_LIMIT,
        ensures
            r == in_explosion(self.position, self.explosion, pos, radius as int),
    {
        let (px, py) = pos;
        let (bx, by) = self.position;
        let r = BOMB_EXPLOSION_RADIUS;
        let dx = if px >= bx { px - bx } else { bx - px };
        let dy = if py >= by { py - by } else { by - py };
        if dx < r + radius && py + radius > by - self.explosion.up as i64 * UNIT - r && py - radius < by
            + self.explosion.down as i64 * UNIT + r {
            return true;
        }
        if dy < r + radius && px + radius > bx - self.explosion.left as i64 * UNIT - r && px - radius < bx
            + self.explosion.right as i64 * UNIT + r {
            return true;
        }
        false
    }

    /// The tick of an exploding bomb: once the explosion has lasted its
    /// time the bomb leaves the game and its owner gets a bomb back; the
    /// explosion kills every living player and enemy it touches.
    fn exploding_bomb(
        &mut self,
        delta: u32,
        players: &mut Vec<Player>,
        enemies: &mut Vec<Enemy>,
        sounds: &mut Vec<SoundEffect>,
    ) -> (events: BombEvents)
        requires
            sane(old(self).position),
            old(players)@.len() <= u32::MAX,
            old(enemies)@.len() <= u32::MAX,
            forall|i: int| 0 <= i < old(players)@.len() ==> sane(#[trigger] old(players)@[i].position),
            forall|i: int| 0 <= i < old(enemies)@.len() ==> sane(#[trigger] old(enemies)@[i].position),
            burnt_out(*old(self)) && old(self).owner_id < old(players)@.len() ==> old(
                players,
            )@[old(self).owner_id as int].bombs_remaining < u32::MAX,
        ensures
            *final(self) == burning(*old(self), delta as int),
            final(players)@.len() == old(players)@.len(),
            forall|i: int|
                0 <= i < old(players)@.len() ==> #[trigger] final(players)@[i] == blast_player(
                    *old(self),
                    i,
                    old(players)@[i],
                ),
            final(enemies)@.len() == old(enemies)@.len(),
            forall|i: int|
                0 <= i < old(enemies)@.len() ==> #[trigger] final(enemies)@[i] == blast_enemy(
                    *old(self),
                    old(enemies)@[i],
                ),
            events == (BombEvents {
                breakables_destroyed: 0,
                players_killed: players_hit(old(players)@, *old(self), old(players)@.len() as int) as u32,
                enemies_killed: enemies_hit(old(enemies)@, *old(self), old(enemies)@.len() as int) as u32,
            }),
            final(sounds)@ == old(sounds)@ + repeated(SoundEffect::PlayerDeath, events.players_killed as int)
                + repeated(SoundEffect::EnemyDeath, events.enemies_killed as int),
    {
        let ghost b0 = *self;
        let mut events = BombEvents::default();
        if self.timer >= BOMB_EXPLOSION_TIME {
            self.despawn = true;
            if (self.owner_id as usize) < players.len() {
                let mut owner = players[self.owner_id as usize];
                owner.bombs_remaining = owner.bombs_remaining + 1;
                players.set(self.owner_id as usize, owner);
            }
        }
        self.timer = self.timer.saturating_add(delta);
        let ghost ps1 = players@;
        assert forall|k: int| 0 <= k < ps1.len() implies (#[trigger] ps1[k]).alive == old(players)@[k].alive
            && ps1[k].position == old(players)@[k].position && blast_player(b0, k, old(players)@[k]) == if hits_player(b0, old(players)@[k]) {
                Player { alive: false, ..ps1[k] }
            } else {
                ps1[k]
            } by {}
        let mut i: usize = 0;
        while i < players.len()
            invariant
                i <= players@.len(),
                players@.len() == old(players)@.len(),
                ps1.len() == old(players)@.len(),
                old(players)@.len() <= u32::MAX,
                self.position == b0.position,
                self.explosion == b0.explosion,
                sane(b0.position),
                events.breakables_destroyed == 0,
                events.enemies_killed == 0,
                events.players_killed == players_hit(old(players)@, b0, i as int),
                0 <= players_hit(old(players)@, b0, i as int) <= i,
                sounds@ == old(sounds)@ + repeated(SoundEffect::PlayerDeath, events.players_killed as int),
                forall|k: int| 0 <= k < old(players)@.len() ==> sane(#[trigger] old(players)@[k].position),
                forall|k: int|
                    0 <= k < ps1.len() ==> (#[trigger] ps1[k]).alive == old(players)@[k].alive
                        && ps1[k].position == old(players)@[k].position && blast_player(
                        b0,
                        k,
                        old(players)@[k],
                    ) == if hits_player(b0, old(players)@[k]) {
                        Player { alive: false, ..ps1[k] }
                    } else {
                        ps1[k]
                    },
                forall|k: int|
                    0 <= k < players@.len() ==> #[trigger] players@[k] == if k < i {
                        blast_player(b0, k, old(players)@[k])
                    } else {
                        ps1[k]
                    },
            decreases players@.len() - i,
        {
            let mut player = players[i];
            assert(player == ps1[i as int]);
            assert(sane(old(players)@[i as int].position));
            assert(players_hit(old(players)@, b0, i + 1) == players_hit(old(players)@, b0, i as int) + if hits_player(b0, old(players)@[i as int]) { 1int } else { 0 });
            if player.alive && self.is_pos_in_explosion(player.position, player.get_size()) {
                sounds.push(SoundEffect::PlayerDeath);
                player.kill();
                players.set(i, player);
                events.players_killed = events.players_killed + 1;
                assert(sounds@ =~= old(sounds)@ + repeated(SoundEffect::PlayerDeath, events.players_killed as int));
            }
            i = i + 1;
        }
        let ghost s1 = sounds@;
        let mut j: usize = 0;
        while j < enemies.len()
            invariant
                j <= enemies@.len(),
                enemies@.len() == old(enemies)@.len(),
                old(enemies)@.len() <= u32::MAX,
                self.position == b0.position,
                self.explosion == b0.explosion,
                sane(b0.position),
                events.breakables_destroyed == 0,
                events.players_killed == players_hit(old(players)@, b0, old(players)@.len() as int),
                events.enemies_killed == enemies_hit(old(enemies)@, b0, j as int),
                0 <= enemies_hit(old(enemies)@, b0, j as int) <= j,
                s1 == old(sounds)@ + repeated(SoundEffect::PlayerDeath, events.players_killed as int),
                sounds@ == s1 + repeated(SoundEffect::EnemyDeath, events.enemies_killed as int),
                forall|k: int| 0 <= k < old(enemies)@.len() ==> sane(#[trigger] old(enemies)@[k].position),
                forall|k: int|
                    0 <= k < enemies@.len() ==> #[trigger] enemies@[k] == if k < j {
                        blast_enemy(b0, old(enemies)@[k])
                    } else {
                        old(enemies)@[k]
                    },
            decreases enemies@.len() - j,
        {
            let mut enemy = enemies[j];
            assert(enemies_hit(old(enemies)@, b0, j + 1) == enemies_hit(old(enemies)@, b0, j as int) + if hits_enemy(b0, old(enemies)@[j as int]) { 1int } else { 0 });
            if enemy.alive && self.is_pos_in_explosion(enemy.position, enemy.get_size()) {
                sounds.push(SoundEffect::EnemyDeath);
                enemy.kill();
                enemies.set(j, enemy);
                events.enemies_killed = events.enemies_killed + 1;
                assert(sounds@ =~= s1 + repeated(SoundEffect::EnemyDeath, events.enemies_killed as int));
            }
            j = j + 1;
        }
        events
    }

    /// Stops a sliding bomb: brings it back within the map, moves it to the
    /// middle of its tile and plants it.
    fn stop_slide(&mut self, map: &GameMap)
        requires
            old(self).state is Sliding,
            map_fits(*map),
            1 <= map.width,
            1 <= map.height,
        ensures
            *final(self) == planted_at(*old(self), *map),
            sane(final(self).position),
            on_map(*map, final(self).position),
    {
        let size = self.get_size();
        self.position = bound(self.position, size, map);
        proof {
            lemma_centre_on_map(self.position.0 as int, map.width as int, size as int);
            lemma_centre_on_map(self.position.1 as int, map.height as int, size as int);
        }
        self.center();
        self.state = BombState::Planted;
    }

    /// One step of `dist` of the bomb sliding in `direction`; returns
    /// whether it stopped.
    fn slide_once(
        &mut self,
        direction: Direction,
        dist: i64,
        map: &GameMap,
        players: &Vec<Player>,
        bombs_pos: &Vec<Pos>,
    ) -> (stopped: bool)
        requires
            map_fits(*map),
            1 <= map.width,
            1 <= map.height,
            0 <= dist <= UNIT,
            old(self).state == BombState::Sliding(direction),
            sane(old(self).position),
            forall|i: int| 0 <= i < players@.len() ==> sane(#[trigger] players@[i].position),
            forall|i: int| 0 <= i < bombs_pos@.len() ==> sane(#[trigger] bombs_pos@[i]),
        ensures
            (*final(self), stopped) == slide_step(
                *old(self),
                *map,
                players@,
                bombs_pos@,
                direction,
                dist as int,
            ),
            sane(final(self).position),
            on_map(*map, final(self).position),
            !stopped ==> final(self).state == old(self).state,
    {
        let moved = advance(self.position, direction, dist);
        let q = bound(moved, BOMB_SLIDE_RADIUS, map);
        self.position = q;
        let (pushed, hit) = collide_map(q, BOMB_SLIDE_RADIUS, map, direction);
        if hit {
            self.position = pushed;
            self.stop_slide(map);
            return true;
        }
        let i = find_player_block(players, q);
        proof {
            lemma_first_player_block(players@, q, 0);
        }
        if i < players.len() {
            let np = resolve_collision_with(q, BOMB_SLIDE_RADIUS, players[i].position, PLAYER_RADIUS, direction);
            if let Some(np) = np {
                self.position = np;
            }
            self.stop_slide(map);
            return true;
        }
        let j = find_bomb_block(bombs_pos, q);
        proof {
            lemma_first_bomb_block(bombs_pos@, q, 0);
        }
        if j < bombs_pos.len() {
            let np = resolve_collision_with(q, BOMB_SLIDE_RADIUS, bombs_pos[j], BOMB_RADIUS, direction);
            if let Some(np) = np {
                self.position = np;
            }
            self.stop_slide(map);
            return true;
        }
        false
    }

    /// Slides the bomb in `direction` for `delta` milliseconds, a tile at
    /// most per step, until it stops against a blocking tile, a living
    /// player or another bomb.
    fn slide(&mut self, direction: Direction, delta: u32, map: &GameMap, players: &Vec<Player>, bombs_pos: &Vec<Pos>)
        requires
            map_fits(*map),
            1 <= map.width,
            1 <= map.height,
            old(self).state == BombState::Sliding(direction),
            sane(old(self).position),
            forall|i: int| 0 <= i < players@.len() ==> sane(#[trigger] players@[i].position),
            forall|i: int| 0 <= i < bombs_pos@.len() ==> sane(#[trigger] bombs_pos@[i]),
        ensures
            *final(self) == slid(
                *old(self),
                *map,
                players@,
                bombs_pos@,
                direction,
                BOMB_SLIDE_SPEED * delta,
            ),
            sane(final(self).position),
            delta > 0 ==> on_map(*map, final(self).position),
    {
        let mut motion: i64 = BOMB_SLIDE_SPEED * delta as i64;
        while motion > 0
            invariant
                0 <= motion,
                map_fits(*map),
                1 <= map.width,
                1 <= map.height,
                self.state == BombState::Sliding(direction),
                sane(self.position),
                motion < BOMB_SLIDE_SPEED * delta ==> on_map(*map, self.position),
                motion <= BOMB_SLIDE_SPEED * delta,
                forall|i: int| 0 <= i < players@.len() ==> sane(#[trigger] players@[i].position),
                forall|i: int| 0 <= i < bombs_pos@.len() ==> sane(#[trigger] bombs_pos@[i]),
                slid(*self, *map, players@, bombs_pos@, direction, motion as int) == slid(
                    *old(self),
                    *map,
                    players@,
                    bombs_pos@,
                    direction,
                    BOMB_SLIDE_SPEED * delta,
                ),
            decreases motion,
        {
            let dist = if motion > UNIT { UNIT } else { motion };
            if self.slide_once(direction, dist, map, players, bombs_pos) {
                return;
            }
            motion = motion - dist;
        }
    }

    /// The tick of a bomb of `delta` milliseconds: a sliding bomb slides, a
    /// live one ticks down and maybe goes off, an exploding one burns and
    /// kills; then collision is turned on once the owner stepped off it.
    /// `bombs_pos` holds the positions of the other bombs.
    #[verifier::spinoff_prover]
    #[verifier::rlimit(50)]
    pub fn tick(
        &mut self,
        delta: u32,
        players: &mut Vec<Player>,
        enemies: &mut Vec<Enemy>,
        map: &mut GameMap,
        power_ups: &mut Vec<PowerUp>,
        sounds: &mut Vec<SoundEffect>,
        bombs_pos: &Vec<Pos>,
    ) -> (events: BombEvents)
        requires
            map_fits(*old(map)),
            1 <= old(map).width,
            1 <= old(map).height,
            bomb_ok(*old(map), *old(self)),
            old(players)@.len() <= u32::MAX,
            old(enemies)@.len() <= u32::MAX,
            forall|i: int| 0 <= i < old(players)@.len() ==> sane(#[trigger] old(players)@[i].position),
            forall|i: int| 0 <= i < old(enemies)@.len() ==> sane(#[trigger] old(enemies)@[i].position),
            forall|i: int| 0 <= i < bombs_pos@.len() ==> sane(#[trigger] bombs_pos@[i]),
            old(self).state is Exploding && burnt_out(*old(self)) && old(self).owner_id < old(
                players,
            )@.len() ==> old(players)@[old(self).owner_id as int].bombs_remaining < u32::MAX,
        ensures
            bomb_tick_rel(
                *old(self),
                *final(self),
                delta as int,
                old(players)@,
                final(players)@,
                old(enemies)@,
                final(enemies)@,
                *old(map),
                *final(map),
                old(power_ups)@,
                final(power_ups)@,
                old(sounds)@,
                final(sounds)@,
                bombs_pos@,
                events,
            ),
            bomb_ok(*final(map), *final(self)),
            forall|i: int| 0 <= i < final(players)@.len() ==> #[trigger] final(players)@[i].position == old(players)@[i].position,
            forall|i: int| 0 <= i < final(enemies)@.len() ==> #[trigger] final(enemies)@[i].position == old(enemies)@[i].position,
    {
        let events = match self.state {
            BombState::Planted => self.live_bomb(delta, map, power_ups, sounds),
            BombState::Sliding(direction) => {
                self.slide(direction, delta, map, players, bombs_pos);
                self.live_bomb(delta, map, power_ups, sounds)
            },
            BombState::Exploding => self.exploding_bomb(delta, players, enemies, sounds),
        };
        proof {
            assert forall|i: int| 0 <= i < players@.len() implies sane(#[trigger] players@[i].position)
                && players@[i].position == old(players)@[i].position by {
                if old(self).state is Exploding {
                    assert(players@[i] == blast_player(*old(self), i, old(players)@[i]));
                }
            }
        }
        self.enable_collision(players);
        events
    }
}



/// An arm of an explosion crosses only tiles that do not stop blasts, and
/// when it falls short of its power, the tile just past its end does.
pub proof fn lemma_blast_reach(m: GameMap, tx: int, ty: int, dir: Direction, power: int)
    requires
        0 <= power,
    ensures
        0 <= blast_reach(m, tx, ty, dir, power) <= power,
        forall|j: int|
            1 <= j <= blast_reach(m, tx, ty, dir, power) ==> !stops_blast(
                m.elem_at(#[trigger] arm_tile(tx, ty, dir, j).0, arm_tile(tx, ty, dir, j).1),
            ),
        blast_reach(m, tx, ty, dir, power) < power ==> stops_blast(
            m.elem_at(stop_tile(m, tx, ty, dir, power).0, stop_tile(m, tx, ty, dir, power).1),
        ),
{
    lemma_ray_bounds(m, tx, ty, dir, power, 1);
    lemma_ray_clear(m, tx, ty, dir, power, 1);
}

/// The tiles from the `i`-th one up to where the ray stops do not stop blasts.
proof fn lemma_ray_clear(m: GameMap, tx: int, ty: int, dir: Direction, power: int, i: int)
    requires
        1 <= i <= power + 1,
    ensures
        forall|j: int|
            i <= j <= ray_stop(m, tx, ty, dir, power, i) ==> !stops_blast(
                m.elem_at(#[trigger] arm_tile(tx, ty, dir, j).0, arm_tile(tx, ty, dir, j).1),
            ),
    decreases power + 1 - i,
{
    if i <= power && !stops_blast(m.elem_at(arm_tile(tx, ty, dir, i).0, arm_tile(tx, ty, dir, i).1)) {
        lemma_ray_clear(m, tx, ty, dir, power, i + 1);
    }
}

/// An explosion destroys breakable boxes only: every other tile, walls
/// and the exit included, stays as it was; and it destroys at most one box
/// per arm.
pub proof fn lemma_only_boxes_break(before: GameMap, after: GameMap, b: Bomb, x: int, y: int)
    requires
        blasted(before, after, b),
    ensures
        before.elem_at(x, y) != MapElement::Breakable ==> after.elem_at(x, y) == before.elem_at(x, y),
        after.elem_at(x, y) == before.elem_at(x, y) || after.elem_at(x, y) == MapElement::Empty,
        0 <= destroyed_count(before, bomb_tile(b).0, bomb_tile(b).1, b.power as int) <= 4,
{
    if destroyed_tile(before, bomb_tile(b).0, bomb_tile(b).1, b.power as int, x, y) {
        let d = choose|d: Direction|
            breaks_box(before, bomb_tile(b).0, bomb_tile(b).1, d, b.power as int) && #[trigger] stop_tile(
                before,
                bomb_tile(b).0,
                bomb_tile(b).1,
                d,
                b.power as int,
            ) == (x, y);
    }
}

/// A chain reaction: a live bomb standing on a tile that an explosion
/// covers goes off on its next tick, however short, without moving.
pub proof fn lemma_chain_reaction(
    b: Bomb,
    other: Bomb,
    m: GameMap,
    ps: Seq<Player>,
    os: Seq<Pos>,
    delta: int,
)
    requires
        covers(b, other),
        !(other.state is Exploding),
        0 <= delta,
    ensures
        triggered(other).state == BombState::Planted,
        moved(triggered(other), m, ps, os, delta) == triggered(other),
        goes_off(triggered(other), delta),
        live_ticked(triggered(other), m, delta) == (Bomb { timer: 0, ..exploded(triggered(other), m) }),
        live_ticked(triggered(other), m, delta).state == BombState::Exploding,
        live_ticked(triggered(other), m, delta).position == (
            centred(other.position.0 as int) as i64,
            centred(other.position.1 as int) as i64,
        ),
{
}

/// An exploding bomb stays unaffected by other explosions.
pub proof fn lemma_exploding_stays(b: Bomb, other: Bomb)
    requires
        other.state is Exploding,
    ensures
        triggered(other) == other,
{
}

} // verus!

verus! {

/// The blast of an explosion `e` from a bomb at `b` reaches, on each side,
/// exactly as far as that side's arm: a box of half-width `radius` lying
/// wholly beyond the end of the left arm (the right, upper, lower one),
/// and off the other axis's band, is untouched; one lying across the
/// horizontal (vertical) band within both horizontal (vertical) arms is caught.
pub proof fn lemma_blast_ends_at_each_arm(b: Pos, e: Explosion, pos: Pos, radius: int)
    requires
        radius >= 0,
    ensures
        abs(pos.0 - b.0) >= BOMB_EXPLOSION_RADIUS + radius && pos.0 + radius <= b.0 - e.left * UNIT
            - BOMB_EXPLOSION_RADIUS ==> !in_explosion(b, e, pos, radius),
        abs(pos.0 - b.0) >= BOMB_EXPLOSION_RADIUS + radius && pos.0 - radius >= b.0 + e.right * UNIT
            + BOMB_EXPLOSION_RADIUS ==> !in_explosion(b, e, pos, radius),
        abs(pos.1 - b.1) >= BOMB_EXPLOSION_RADIUS + radius && pos.1 + radius <= b.1 - e.up * UNIT
            - BOMB_EXPLOSION_RADIUS ==> !in_explosion(b, e, pos, radius),
        abs(pos.1 - b.1) >= BOMB_EXPLOSION_RADIUS + radius && pos.1 - radius >= b.1 + e.down * UNIT
            + BOMB_EXPLOSION_RADIUS ==> !in_explosion(b, e, pos, radius),
        abs(pos.1 - b.1) < BOMB_EXPLOSION_RADIUS + radius && b.0 - e.left * UNIT - BOMB_EXPLOSION_RADIUS < pos.0
            + radius && pos.0 - radius < b.0 + e.right * UNIT + BOMB_EXPLOSION_RADIUS ==> in_explosion(
            b,
            e,
            pos,
            radius,
        ),
        abs(pos.0 - b.0) < BOMB_EXPLOSION_RADIUS + radius && b.1 - e.up * UNIT - BOMB_EXPLOSION_RADIUS < pos.1
            + radius && pos.1 - radius < b.1 + e.down * UNIT + BOMB_EXPLOSION_RADIUS ==> in_explosion(
            b,
            e,
            pos,
            radius,
        ),
{
}

/// How far an explosion reaches to one side depends on that side's arm
/// alone: changing the other arms leaves unchanged whether a box lying
/// wholly on that side, off the other axis's band, is caught.
pub proof fn lemma_blast_sides_independent(b: Pos, e1: Explosion, e2: Explosion, pos: Pos, radius: int)
    requires
        radius >= 0,
        abs(pos.0 - b.0) >= BOMB_EXPLOSION_RADIUS + radius || abs(pos.1 - b.1) >= BOMB_EXPLOSION_RADIUS + radius,
    ensures
        pos.0 < b.0 && abs(pos.0 - b.0) >= BOMB_EXPLOSION_RADIUS + radius && e1.left == e2.left ==> in_explosion(
            b,
            e1,
            pos,
            radius,
        ) == in_explosion(b, e2, pos, radius),
        pos.0 > b.0 && abs(pos.0 - b.0) >= BOMB_EXPLOSION_RADIUS + radius && e1.right == e2.right ==> in_explosion(
            b,
            e1,
            pos,
            radius,
        ) == in_explosion(b, e2, pos, radius),
        pos.1 < b.1 && abs(pos.1 - b.1) >= BOMB_EXPLOSION_RADIUS + radius && e1.up == e2.up ==> in_explosion(
            b,
            e1,
            pos,
            radius,
        ) == in_explosion(b, e2, pos, radius),
        pos.1 > b.1 && abs(pos.1 - b.1) >= BOMB_EXPLOSION_RADIUS + radius && e1.down == e2.down ==> in_explosion(
            b,
            e1,
            pos,
            radius,
        ) == in_explosion(b, e2, pos, radius),
{
}

/// Arms cover tiles the same way across and along: a bomb is covered by
/// another's explosion exactly when, with both boards turned a quarter
/// (columns made rows, the up and down arms made the left and right
/// ones), it is covered. So a live bomb on the exploding bomb's column,
/// within its upward or downward reach, is set off at once, just as one on
/// its row within its side reach.
pub proof fn lemma_cover_both_axes(b: Bomb, other: Bomb)
    ensures
        covers(b, other) == covers(turned(b), turned(other)),
        ({
            let (sx, sy) = bomb_tile(b);
            let (ox, oy) = bomb_tile(other);
            &&& (sx == ox && sy - b.explosion.up <= oy <= sy + b.explosion.down) ==> covers(b, other)
            &&& (sy == oy && sx - b.explosion.left <= ox <= sx + b.explosion.right) ==> covers(b, other)
            &&& covers(b, other) && !(other.state is Exploding) ==> triggered(other).timer == 0
        }),
{
}

/// The bomb `b` with its board turned a quarter: its coordinates swapped,
/// its up and down arms made its left and right ones and back.
pub open spec fn turned(b: Bomb) -> Bomb {
    Bomb {
        position: (b.position.1, b.position.0),
        explosion: Explosion { up: b.explosion.left, down: b.explosion.right, left: b.explosion.up, right: b.explosion.down },
        ..b
    }
}

} // verus!
