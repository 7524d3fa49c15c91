use vstd::prelude::*;

use crate::bomb::{arm_tile, bomb_size, Bomb};
use crate::collision::{
    after_map_pushes, any_map_push, collide_map, is_colliding_with, map_fits, overlapping, sane, Pos, UNIT,
};
use crate::direction::{all_directions, Direction};
use crate::direction::direction_towards;
use crate::map::{is_passable, GameMap};
use crate::route::{dist_at, distances_to, next_reaches, rank, reaches, step, UNREACHED};
use crate::rng::random_in_range;

verus! {

/// The half-width of an enemy's collision box, in thousandths of a tile.
pub const ENEMY_RADIUS: i64 = 400;

/// The base speed of enemies, in thousandths of a tile per second.
pub const ENEMY_SPEED: i64 = 1500;

/// How an enemy chooses where to go.
#[derive(Clone, Copy, Debug, PartialEq, Eq, Structural)]
pub enum EnemyBehavior {
    /// Chases the player.
    Aggressive,
    /// Runs away from the player.
    Coward,
    /// Walks at random.
    Wander,
}

/// An enemy of the campaign.
#[derive(Clone, Copy, Debug)]
pub struct Enemy {
    /// The enemy's number, also its index among the level's enemies.
    pub id: u32,
    /// The centre of the enemy, in thousandths of a tile.
    pub position: Pos,
    /// The enemy always walks the way it faces.
    pub direction: Direction,
    pub behavior: EnemyBehavior,
    /// Multiplies the base speed, in thousandths, between 500 and 2500.
    pub speed_multiplier: u32,
    /// Milliseconds until the enemy decides again.
    pub decision_timer: i64,
    /// Milliseconds between decisions, between 200 and 2000.
    pub decision_interval: u32,
    /// Dead enemies stay in the list so that ids keep their meaning.
    pub alive: bool,
}

/// How close, in thousandths of a tile, a bomb or another enemy must be to
/// the middle of a tile to block it.
pub const OCCUPIED_RADIUS: i64 = 300;

/// How close, in thousandths of a tile, a bomb must be to the middle of a
/// tile to make it dangerous.
pub const DANGER_RADIUS: i64 = 1200;

/// Whether two points lie within `r` of each other.
pub open spec fn within(a: (int, int), b: (int, int), r: int) -> bool {
    (a.0 - b.0) * (a.0 - b.0) + (a.1 - b.1) * (a.1 - b.1) <= r * r
}

/// The square of the distance between two points.
pub open spec fn dist_sq(a: (int, int), b: (int, int)) -> int {
    (a.0 - b.0) * (a.0 - b.0) + (a.1 - b.1) * (a.1 - b.1)
}

/// The tile a point lies in, rounding down.
pub open spec fn floor_tile(p: Pos) -> (int, int) {
    (p.0 as int / UNIT as int, p.1 as int / UNIT as int)
}

/// The middle of the tile `t`.
pub open spec fn centre_of(t: (int, int)) -> (int, int) {
    (t.0 * UNIT + UNIT / 2, t.1 * UNIT + UNIT / 2)
}

/// The position as a pair of mathematical integers.
pub open spec fn pt(p: Pos) -> (int, int) {
    (p.0 as int, p.1 as int)
}

/// Whether a bomb, or a living enemy among `others`, occupies the middle `c` of a tile.
pub open spec fn blocked_at(c: (int, int), bombs: Seq<Bomb>, others: Seq<Enemy>) -> bool {
    ||| exists|i: int| 0 <= i < bombs.len() && within(pt(#[trigger] bombs[i].position), c, OCCUPIED_RADIUS as int)
    ||| exists|i: int|
        0 <= i < others.len() && (#[trigger] others[i]).alive && within(
            pt(others[i].position),
            c,
            OCCUPIED_RADIUS as int,
        )
}

/// Whether a bomb lies close to the middle `c` of a tile.
pub open spec fn dangerous_at(c: (int, int), bombs: Seq<Bomb>) -> bool {
    exists|i: int| 0 <= i < bombs.len() && within(pt(#[trigger] bombs[i].position), c, DANGER_RADIUS as int)
}

/// Whether an enemy may walk onto the tile `t`: it lies in the map, holds
/// nothing or the exit, and no bomb or other enemy occupies it.
pub open spec fn open_tile(m: GameMap, bombs: Seq<Bomb>, others: Seq<Enemy>, t: (int, int)) -> bool {
    &&& m.in_map(t.0, t.1)
    &&& is_passable(m.cell(t.0, t.1))
    &&& !blocked_at(centre_of(t), bombs, others)
}

/// Whether an enemy on the tile `t` may head in `d`: towards an open tile,
/// and, when `avoid` holds, not a dangerous one.
pub open spec fn can_head(m: GameMap, bombs: Seq<Bomb>, others: Seq<Enemy>, t: (int, int), avoid: bool, d: Direction) -> bool {
    let n = arm_tile(t.0, t.1, d, 1);
    open_tile(m, bombs, others, n) && !(avoid && dangerous_at(centre_of(n), bombs))
}

/// The directions among the first `k` of Up, Down, Left, Right that an
/// enemy on the tile `t` may head in, in that order.
pub open spec fn candidates(
    m: GameMap,
    bombs: Seq<Bomb>,
    others: Seq<Enemy>,
    t: (int, int),
    avoid: bool,
    k: int,
) -> Seq<Direction>
    decreases k,
{
    if k <= 0 {
        Seq::empty()
    } else {
        let prev = candidates(m, bombs, others, t, avoid, k - 1);
        let d = all_directions()[k - 1];
        if can_head(m, bombs, others, t, avoid, d) {
            prev.push(d)
        } else {
            prev
        }
    }
}

/// Among the first `k` directions of `ds`, the one leading from the tile `t`
/// to the tile whose middle is nearest to `target` (the first such), or, when
/// `farthest`, farthest from it (the last such).
pub open spec fn best_heading(ds: Seq<Direction>, t: (int, int), target: Pos, farthest: bool, k: int) -> Option<Direction>
    decreases k,
{
    if k <= 0 {
        None
    } else {
        let d = ds[k - 1];
        let dd = dist_sq(centre_of(arm_tile(t.0, t.1, d, 1)), pt(target));
        match best_heading(ds, t, target, farthest, k - 1) {
            None => Some(d),
            Some(b) => {
                let db = dist_sq(centre_of(arm_tile(t.0, t.1, b, 1)), pt(target));
                if (farthest && dd >= db) || (!farthest && dd < db) {
                    Some(d)
                } else {
                    Some(b)
                }
            },
        }
    }
}

/// Whether `dir` is where an enemy at `p`, on the tile `s`, heads to follow a
/// shortest walk over open tiles to the tile `g`: towards the middle of the
/// first neighbour, in the order Up, Down, Left, Right, that starts such a walk.
pub open spec fn route_heading(
    m: GameMap,
    bombs: Seq<Bomb>,
    others: Seq<Enemy>,
    p: Pos,
    s: (int, int),
    g: (int, int),
    dir: Direction,
) -> bool {
    exists|d: Direction, k: nat|
        {
            &&& #[trigger] reaches(m, bombs, others, g, step(s, d), k)
            &&& forall|j: nat| j < k ==> !next_reaches(m, bombs, others, g, s, j)
            &&& forall|d2: Direction| rank(d2) < rank(d) ==> !reaches(m, bombs, others, g, #[trigger] step(s, d2), k)
            &&& dir == direction_towards(pt(p), centre_of(step(s, d)))
        }
}

/// Whether no walk over open tiles leads from a neighbour of `s` to `g`.
pub open spec fn no_route(m: GameMap, bombs: Seq<Bomb>, others: Seq<Enemy>, s: (int, int), g: (int, int)) -> bool {
    forall|k: nat| !next_reaches(m, bombs, others, g, s, k)
}

/// Whether the search for a walk from `p` to `t` finds none.
pub open spec fn bfs_none(m: GameMap, bombs: Seq<Bomb>, others: Seq<Enemy>, p: Pos, t: Pos) -> bool {
    let s = floor_tile(p);
    let g = floor_tile(t);
    s == g || !m.in_map(s.0, s.1) || !m.in_map(g.0, g.1) || no_route(m, bombs, others, s, g)
}

/// Whether `d` is a possible random pick of an enemy at `p`: one of the
/// open directions, or any direction when none is open.
pub open spec fn wander_ok(m: GameMap, bombs: Seq<Bomb>, others: Seq<Enemy>, p: Pos, d: Direction) -> bool {
    let c = candidates(m, bombs, others, floor_tile(p), false, 4);
    c.len() > 0 ==> c.contains(d)
}

/// The open direction from `p` leading nearest to `t`, the first such.
pub open spec fn greedy_pick(m: GameMap, bombs: Seq<Bomb>, others: Seq<Enemy>, p: Pos, t: Pos) -> Option<Direction> {
    let c = candidates(m, bombs, others, floor_tile(p), false, 4);
    best_heading(c, floor_tile(p), t, false, c.len() as int)
}

/// The open, safe direction from `p` leading farthest from `t`, the last such.
pub open spec fn flee_pick(m: GameMap, bombs: Seq<Bomb>, others: Seq<Enemy>, p: Pos, t: Pos) -> Option<Direction> {
    let c = candidates(m, bombs, others, floor_tile(p), true, 4);
    best_heading(c, floor_tile(p), t, true, c.len() as int)
}

/// Whether `d` is a direction the enemy `e` may choose, the player being
/// at `player_pos` if alive: an aggressive enemy follows a shortest walk
/// to the player, else heads for the open tile nearest to it; a coward
/// heads for the safe open tile farthest from the player; failing that, or
/// for a wanderer, a random open direction.
pub open spec fn good_choice(
    e: Enemy,
    m: GameMap,
    player_pos: Option<Pos>,
    bombs: Seq<Bomb>,
    others: Seq<Enemy>,
    d: Direction,
) -> bool {
    match (e.behavior, player_pos) {
        (EnemyBehavior::Aggressive, Some(t)) => if !bfs_none(m, bombs, others, e.position, t) {
            route_heading(m, bombs, others, e.position, floor_tile(e.position), floor_tile(t), d)
        } else {
            match greedy_pick(m, bombs, others, e.position, t) {
                Some(g) => d == g,
                None => wander_ok(m, bombs, others, e.position, d),
            }
        },
        (EnemyBehavior::Coward, Some(t)) => match flee_pick(m, bombs, others, e.position, t) {
            Some(f) => d == f,
            None => wander_ok(m, bombs, others, e.position, d),
        },
        _ => wander_ok(m, bombs, others, e.position, d),
    }
}

/// The largest coordinate, in thousandths of a tile, at which an enemy may
/// start a tick: far enough within the sane range for any tick to keep it sane.
pub const ROOM_LIMIT: i64 = 100_000_000_000;

/// How far an enemy moves in `delta` milliseconds, in thousandths of a tile.
pub open spec fn enemy_motion(e: Enemy, delta: int) -> int {
    delta * ENEMY_SPEED * e.speed_multiplier / 1_000_000
}

/// The point `dist` thousandths of a tile from `p` in direction `d` (back when negative).
pub open spec fn moved_by(p: (int, int), d: Direction, dist: int) -> (int, int) {
    arm_tile(p.0, p.1, d, dist)
}

/// Whether a bomb of `bombs` touches an enemy at `p`.
pub open spec fn bomb_touch(bombs: Seq<Bomb>, p: Pos) -> bool {
    exists|i: int|
        0 <= i < bombs.len() && overlapping(
            p,
            ENEMY_RADIUS as int,
            (#[trigger] bombs[i]).position,
            bomb_size(bombs[i].state),
        )
}

/// Whether another living enemy of `others`, of an id other than `id`, touches an enemy at `p`.
pub open spec fn enemy_touch(others: Seq<Enemy>, id: u32, p: Pos) -> bool {
    exists|i: int|
        0 <= i < others.len() && (#[trigger] others[i]).id != id && others[i].alive && overlapping(
            p,
            ENEMY_RADIUS as int,
            others[i].position,
            ENEMY_RADIUS as int,
        )
}

/// Where an enemy of identifier `id` at `p` ends up after walking `dist`
/// in direction `d`: it steps back after being pushed out of the map's
/// blocking tiles, after running into a bomb, and after running into
/// another enemy; and whether any of these happened.
pub open spec fn stepped(p: Pos, d: Direction, id: u32, m: GameMap, bombs: Seq<Bomb>, others: Seq<Enemy>, dist: int) -> (Pos, bool) {
    let q1 = moved_by(pt(p), d, dist);
    let p1: Pos = (q1.0 as i64, q1.1 as i64);
    let a = after_map_pushes(m, p1, ENEMY_RADIUS as int, d, 9);
    let hit_map = any_map_push(m, p1, ENEMY_RADIUS as int, d, 9);
    let q2 = if hit_map { moved_by(a, d, -dist) } else { a };
    let p2: Pos = (q2.0 as i64, q2.1 as i64);
    let hit_bomb = bomb_touch(bombs, p2);
    let q3 = if hit_bomb { moved_by(q2, d, -dist) } else { q2 };
    let p3: Pos = (q3.0 as i64, q3.1 as i64);
    let hit_enemy = enemy_touch(others, id, p3);
    let q4 = if hit_enemy { moved_by(q3, d, -dist) } else { q3 };
    ((q4.0 as i64, q4.1 as i64), hit_map || hit_bomb || hit_enemy)
}

/// The enemy `e` facing `d`.
pub open spec fn facing(e: Enemy, d: Direction) -> Enemy {
    Enemy { direction: d, ..e }
}

/// Whether a position lies well within the range enemies may start a tick in.
pub open spec fn roomy(p: Pos) -> bool {
    -ROOM_LIMIT <= p.0 <= ROOM_LIMIT && -ROOM_LIMIT <= p.1 <= ROOM_LIMIT
}

/// `v` brought within `lo..=hi`.
pub open spec fn clamped(v: int, lo: int, hi: int) -> int {
    if v < lo {
        lo
    } else if v > hi {
        hi
    } else {
        v
    }
}

/// Whether a bomb touches an enemy at `p`.
fn touches_bomb(bombs: &Vec<Bomb>, p: Pos) -> (r: bool)
    requires
        sane(p),
        forall|i: int| 0 <= i < bombs@.len() ==> sane(#[trigger] bombs@[i].position),
    ensures
        r == bomb_touch(bombs@, p),
{
    let mut i: usize = 0;
    while i < bombs.len()
        invariant
            i <= bombs@.len(),
            sane(p),
            forall|k: int|
                0 <= k < i ==> !overlapping(
                    p,
                    ENEMY_RADIUS as int,
                    (#[trigger] bombs@[k]).position,
                    bomb_size(bombs@[k].state),
                ),
            forall|k: int| 0 <= k < bombs@.len() ==> sane(#[trigger] bombs@[k].position),
        decreases bombs@.len() - i,
    {
        let bomb = bombs[i];
        if is_colliding_with(p, ENEMY_RADIUS, bomb.position, bomb.get_size()) {
            return true;
        }
        i = i + 1;
    }
    false
}

/// Whether another living enemy, of an id other than `id`, touches an enemy at `p`.
fn touches_enemy(others: &Vec<Enemy>, id: u32, p: Pos) -> (r: bool)
    requires
        sane(p),
        forall|i: int| 0 <= i < others@.len() ==> sane(#[trigger] others@[i].position),
    ensures
        r == enemy_touch(others@, id, p),
{
    let mut i: usize = 0;
    while i < others.len()
        invariant
            i <= others@.len(),
            sane(p),
            forall|k: int|
                0 <= k < i ==> !((#[trigger] others@[k]).id != id && others@[k].alive && overlapping(
                    p,
                    ENEMY_RADIUS as int,
                    others@[k].position,
                    ENEMY_RADIUS as int,
                )),
            forall|k: int| 0 <= k < others@.len() ==> sane(#[trigger] others@[k].position),
        decreases others@.len() - i,
    {
        let other = others[i];
        if other.id != id && other.alive && is_colliding_with(p, ENEMY_RADIUS, other.position, ENEMY_RADIUS) {
            return true;
        }
        i = i + 1;
    }
    false
}

/// The point `dist` thousandths of a tile from `p` in direction `d`.
fn shift(p: Pos, d: Direction, dist: i64) -> (r: Pos)
    requires
        -200_000_000_000 <= p.0 <= 200_000_000_000,
        -200_000_000_000 <= p.1 <= 200_000_000_000,
        -20_000_000_000 <= dist <= 20_000_000_000,
    ensures
        pt(r) == moved_by(pt(p), d, dist as int),
{
    match d {
        Direction::Up => (p.0, p.1 - dist),
        Direction::Down => (p.0, p.1 + dist),
        Direction::Left => (p.0 - dist, p.1),
        Direction::Right => (p.0 + dist, p.1),
    }
}

/// `v` divided by a tile, rounding down.
fn floor_div(v: i64) -> (r: i64)
    requires
        -1_000_000_000_000 <= v <= 1_000_000_000_000,
    ensures
        r == v as int / UNIT as int,
        -1_000_000_001 <= r <= 1_000_000_000,
{
    if v >= 0 {
        v / UNIT
    } else {
        let q = (-v + UNIT - 1) / UNIT;
        assert(-q == v as int / 1000) by (nonlinear_arith)
            requires
                v < 0,
                q == (-v + 999) / 1000,
        ;
        -q
    }
}

/// The tile next to `(x, y)` in direction `d`.
pub(crate) fn next_tile(x: i64, y: i64, d: Direction) -> (r: (i64, i64))
    requires
        -1_000_000_001 <= x <= 1_000_000_000,
        -1_000_000_001 <= y <= 1_000_000_000,
    ensures
        (r.0 as int, r.1 as int) == arm_tile(x as int, y as int, d, 1),
        -1_000_000_002 <= r.0 <= 1_000_000_001,
        -1_000_000_002 <= r.1 <= 1_000_000_001,
{
    match d {
        Direction::Up => (x, y - 1),
        Direction::Down => (x, y + 1),
        Direction::Left => (x - 1, y),
        Direction::Right => (x + 1, y),
    }
}

/// The square of the distance between two points near the sane range.
fn dist_sq_exec(a: Pos, b: Pos) -> (r: i128)
    requires
        -1_100_000_000_000 <= a.0 <= 1_100_000_000_000,
        -1_100_000_000_000 <= a.1 <= 1_100_000_000_000,
        -1_100_000_000_000 <= b.0 <= 1_100_000_000_000,
        -1_100_000_000_000 <= b.1 <= 1_100_000_000_000,
    ensures
        r == dist_sq(pt(a), pt(b)),
{
    let dx = a.0 as i128 - b.0 as i128;
    let dy = a.1 as i128 - b.1 as i128;
    assert(0 <= dx * dx <= 5_000_000_000_000_000_000_000_000 && 0 <= dy * dy <= 5_000_000_000_000_000_000_000_000) by (nonlinear_arith)
        requires
            -2_200_000_000_000 <= dx <= 2_200_000_000_000,
            -2_200_000_000_000 <= dy <= 2_200_000_000_000,
    ;
    dx * dx + dy * dy
}

/// Whether two points lie within `r` of each other.
fn close_to(a: Pos, b: Pos, r: i64) -> (res: bool)
    requires
        0 <= r <= 1_000_000,
    ensures
        res == within(pt(a), pt(b), r as int),
{
    let dx = a.0 as i128 - b.0 as i128;
    let dy = a.1 as i128 - b.1 as i128;
    let dx2 = if dx < 0 { -dx } else { dx };
    let dy2 = if dy < 0 { -dy } else { dy };
    if dx2 > r as i128 || dy2 > r as i128 {
        proof {
            assert(dx * dx + dy * dy > r * r) by (nonlinear_arith)
                requires
                    dx2 == if dx < 0 { -dx } else { dx as int },
                    dy2 == if dy < 0 { -dy } else { dy as int },
                    dx2 > r || dy2 > r,
                    r >= 0,
            ;
        }
        return false;
    }
    let sx = dx2 as i64;
    let sy = dy2 as i64;
    proof {
        lemma_square_bound(dx as int, sx as int, r as int);
        lemma_square_bound(dy as int, sy as int, r as int);
    }
    sx * sx + sy * sy <= r * r
}

/// The square of a number of absolute value at most `r` is at most the square of `r`.
proof fn lemma_square_bound(d: int, s: int, r: int)
    requires
        s == if d < 0 { -d } else { d },
        0 <= s <= r <= 1_000_000,
    ensures
        s * s == d * d,
        0 <= s * s <= r * r <= 1_000_000_000_000,
{
    assert(s * s == d * d && 0 <= s * s <= r * r <= 1_000_000_000_000) by (nonlinear_arith)
        requires
            s == if d < 0 { -d } else { d },
            0 <= s <= r <= 1_000_000,
    ;
}

/// Whether a tick of `delta` milliseconds takes the enemy `e0` to `e1`, the
/// player being at `player_pos` if alive: a living enemy decides where to
/// go once its decision time runs out, walks at its speed, and steps back
/// and decides again whenever it runs into a blocking tile, a bomb or
/// another enemy; a dead one stays as it is.
pub open spec fn enemy_tick_rel(
    e0: Enemy,
    e1: Enemy,
    m: GameMap,
    player_pos: Option<Pos>,
    bombs: Seq<Bomb>,
    others: Seq<Enemy>,
    delta: int,
) -> bool {
    &&& !e0.alive ==> e1 == e0
    &&& e0.alive ==> {
        let expired = e0.decision_timer - delta <= 0;
        exists|d0: Direction|
            {
                &&& (expired ==> good_choice(e0, m, player_pos, bombs, others, d0))
                &&& (!expired ==> d0 == e0.direction)
                &&& {
                    let (p, hit) = #[trigger] stepped(e0.position, d0, e0.id, m, bombs, others, enemy_motion(e0, delta));
                    &&& e1.position == p
                    &&& hit ==> good_choice(Enemy { position: p, ..e0 }, m, player_pos, bombs, others, e1.direction)
                    &&& !hit ==> e1.direction == d0
                    &&& e1.decision_timer == if hit || expired {
                        e0.decision_interval as i64
                    } else {
                        (e0.decision_timer - delta) as i64
                    }
                }
            }
    }
    &&& e0.alive ==> e1 == (Enemy {
        position: e1.position,
        direction: e1.direction,
        decision_timer: e1.decision_timer,
        ..e0
    })
}

impl Enemy {
    /// A new enemy facing down, about to decide where to go; the speed
    /// multiplier is kept within 500..=2500 and the interval within 200..=2000.
    pub fn new(id: u32, position: Pos, behavior: EnemyBehavior, speed_multiplier: u32, decision_interval: u32) -> (e: Enemy)
        ensures
            e == (Enemy {
                id,
                position,
                direction: Direction::Down,
                behavior,
                speed_multiplier: clamped(speed_multiplier as int, 500, 2500) as u32,
                decision_timer: 0,
                decision_interval: clamped(decision_interval as int, 200, 2000) as u32,
                alive: true,
            }),
    {
        let speed_multiplier = if speed_multiplier < 500 {
            500
        } else if speed_multiplier > 2500 {
            2500
        } else {
            speed_multiplier
        };
        let decision_interval = if decision_interval < 200 {
            200
        } else if decision_interval > 2000 {
            2000
        } else {
            decision_interval
        };
        Enemy {
            id,
            position,
            direction: Direction::Down,
            behavior,
            speed_multiplier,
            decision_timer: 0,
            decision_interval,
            alive: true,
        }
    }

    /// Removes the enemy from the game.
    pub fn kill(&mut self)
        ensures
            *final(self) == (Enemy { alive: false, ..*old(self) }),
    {
        self.alive = false;
    }

    /// The half-width of the enemy's collision box.
    pub fn get_size(&self) -> (r: i64)
        ensures
            r == ENEMY_RADIUS,
    {
        ENEMY_RADIUS
    }

    /// The tile a point lies in, rounding down.
    fn to_tile(pos: Pos) -> (r: (i64, i64))
        requires
            sane(pos),
        ensures
            (r.0 as int, r.1 as int) == floor_tile(pos),
            -1_000_000_001 <= r.0 <= 1_000_000_000,
            -1_000_000_001 <= r.1 <= 1_000_000_000,
    {
        (floor_div(pos.0), floor_div(pos.1))
    }

    /// The middle of the tile `(x, y)`.
    pub(crate) fn tile_center(x: i64, y: i64) -> (r: Pos)
        requires
            -2_000_000_000 <= x <= 2_000_000_000,
            -2_000_000_000 <= y <= 2_000_000_000,
        ensures
            pt(r) == centre_of((x as int, y as int)),
    {
        (x * UNIT + UNIT / 2, y * UNIT + UNIT / 2)
    }

    /// Whether a bomb, or a living enemy among `other_enemies`, occupies the point `pos`.
    pub(crate) fn tile_blocked(pos: Pos, bombs: &Vec<Bomb>, other_enemies: &Vec<Enemy>) -> (r: bool)
        ensures
            r == blocked_at(pt(pos), bombs@, other_enemies@),
    {
        let mut i: usize = 0;
        while i < bombs.len()
            invariant
                i <= bombs@.len(),
                forall|k: int| 0 <= k < i ==> !within(pt(#[trigger] bombs@[k].position), pt(pos), OCCUPIED_RADIUS as int),
            decreases bombs@.len() - i,
        {
            if close_to(bombs[i].position, pos, OCCUPIED_RADIUS) {
                return true;
            }
            i = i + 1;
        }
        let mut j: usize = 0;
        while j < other_enemies.len()
            invariant
                j <= other_enemies@.len(),
                forall|k: int| 0 <= k < bombs@.len() ==> !within(pt(#[trigger] bombs@[k].position), pt(pos), OCCUPIED_RADIUS as int),
                forall|k: int|
                    0 <= k < j ==> !((#[trigger] other_enemies@[k]).alive && within(
                        pt(other_enemies@[k].position),
                        pt(pos),
                        OCCUPIED_RADIUS as int,
                    )),
            decreases other_enemies@.len() - j,
        {
            if other_enemies[j].alive && close_to(other_enemies[j].position, pos, OCCUPIED_RADIUS) {
                return true;
            }
            j = j + 1;
        }
        false
    }

    /// Whether a bomb lies close to the point `pos`.
    fn tile_dangerous(pos: Pos, bombs: &Vec<Bomb>) -> (r: bool)
        ensures
            r == dangerous_at(pt(pos), bombs@),
    {
        let mut i: usize = 0;
        while i < bombs.len()
            invariant
                i <= bombs@.len(),
                forall|k: int| 0 <= k < i ==> !within(pt(#[trigger] bombs@[k].position), pt(pos), DANGER_RADIUS as int),
            decreases bombs@.len() - i,
        {
            if close_to(bombs[i].position, pos, DANGER_RADIUS) {
                return true;
            }
            i = i + 1;
        }
        false
    }

    /// The directions the enemy may head in, in the order Up, Down, Left,
    /// Right: towards open tiles, and, when `avoid_danger` holds, not
    /// towards dangerous ones.
    fn candidate_directions(&self, map: &GameMap, bombs: &Vec<Bomb>, other_enemies: &Vec<Enemy>, avoid_danger: bool) -> (r: Vec<Direction>)
        requires
            map.wf(),
            sane(self.position),
        ensures
            r@ == candidates(*map, bombs@, other_enemies@, floor_tile(self.position), avoid_danger, 4),
    {
        let (tx, ty) = Self::to_tile(self.position);
        let dirs = Direction::iterator();
        let mut ret: Vec<Direction> = Vec::new();
        let mut k: usize = 0;
        while k < 4
            invariant
                k <= 4,
                map.wf(),
                dirs@ == all_directions(),
                (tx as int, ty as int) == floor_tile(self.position),
                -1_000_000_001 <= tx <= 1_000_000_000,
                -1_000_000_001 <= ty <= 1_000_000_000,
                ret@ == candidates(*map, bombs@, other_enemies@, (tx as int, ty as int), avoid_danger, k as int),
            decreases 4 - k,
        {
            let d = dirs[k];
            if Self::can_head_exec(map, bombs, other_enemies, tx, ty, avoid_danger, d) {
                ret.push(d);
            }
            k = k + 1;
        }
        ret
    }

    /// Whether an enemy on the tile `(tx, ty)` may head in `d`.
    fn can_head_exec(
        map: &GameMap,
        bombs: &Vec<Bomb>,
        other_enemies: &Vec<Enemy>,
        tx: i64,
        ty: i64,
        avoid_danger: bool,
        d: Direction,
    ) -> (r: bool)
        requires
            map.wf(),
            -1_000_000_001 <= tx <= 1_000_000_000,
            -1_000_000_001 <= ty <= 1_000_000_000,
        ensures
            r == can_head(*map, bombs@, other_enemies@, (tx as int, ty as int), avoid_danger, d),
    {
        let (nx, ny) = next_tile(tx, ty, d);
        if !map.is_walkable_tile(nx as i32, ny as i32) {
            return false;
        }
        let next_pos = Self::tile_center(nx, ny);
        if Self::tile_blocked(next_pos, bombs, other_enemies) {
            return false;
        }
        if avoid_danger && Self::tile_dangerous(next_pos, bombs) {
            return false;
        }
        true
    }

    /// Among `candidates`, the direction towards the tile whose middle is
    /// nearest to `target` (the first such), or, when `farthest`, farthest
    /// from it (the last such); `None` when there is no candidate.
    fn best_of(&self, candidates: &Vec<Direction>, target: Pos, farthest: bool) -> (r: Option<Direction>)
        requires
            sane(self.position),
            sane(target),
        ensures
            r == best_heading(candidates@, floor_tile(self.position), target, farthest, candidates@.len() as int),
    {
        let (tx, ty) = Self::to_tile(self.position);
        let mut best: Option<Direction> = None;
        let mut best_dist: i128 = 0;
        let mut k: usize = 0;
        while k < candidates.len()
            invariant
                k <= candidates@.len(),
                sane(target),
                (tx as int, ty as int) == floor_tile(self.position),
                -1_000_000_001 <= tx <= 1_000_000_000,
                -1_000_000_001 <= ty <= 1_000_000_000,
                best == best_heading(candidates@, (tx as int, ty as int), target, farthest, k as int),
                best matches Some(b) ==> best_dist == dist_sq(
                    centre_of(arm_tile(tx as int, ty as int, b, 1)),
                    pt(target),
                ),
            decreases candidates@.len() - k,
        {
            let d = candidates[k];
            let (nx, ny) = next_tile(tx, ty, d);
            let c = Self::tile_center(nx, ny);
            let dd = dist_sq_exec(c, target);
            match best {
                None => {
                    best = Some(d);
                    best_dist = dd;
                },
                Some(_) => {
                    if (farthest && dd >= best_dist) || (!farthest && dd < best_dist) {
                        best = Some(d);
                        best_dist = dd;
                    }
                },
            }
            k = k + 1;
        }
        best
    }

    /// The open direction leading nearest to `target`, the first such.
    fn greedy_direction(
        &self,
        map: &GameMap,
        target: Pos,
        bombs: &Vec<Bomb>,
        other_enemies: &Vec<Enemy>,
        avoid_danger: bool,
    ) -> (r: Option<Direction>)
        requires
            map.wf(),
            sane(self.position),
            sane(target),
        ensures
            r == best_heading(
                candidates(*map, bombs@, other_enemies@, floor_tile(self.position), avoid_danger, 4),
                floor_tile(self.position),
                target,
                false,
                candidates(*map, bombs@, other_enemies@, floor_tile(self.position), avoid_danger, 4).len() as int,
            ),
    {
        let candidates = self.candidate_directions(map, bombs, other_enemies, avoid_danger);
        self.best_of(&candidates, target, false)
    }

    /// The open, safe direction leading farthest from `target`, the last such.
    fn flee_direction(&self, map: &GameMap, target: Pos, bombs: &Vec<Bomb>, other_enemies: &Vec<Enemy>) -> (r: Option<Direction>)
        requires
            map.wf(),
            sane(self.position),
            sane(target),
        ensures
            r == best_heading(
                candidates(*map, bombs@, other_enemies@, floor_tile(self.position), true, 4),
                floor_tile(self.position),
                target,
                true,
                candidates(*map, bombs@, other_enemies@, floor_tile(self.position), true, 4).len() as int,
            ),
    {
        let candidates = self.candidate_directions(map, bombs, other_enemies, true);
        self.best_of(&candidates, target, true)
    }

    /// A random open direction, or a random direction when none is open.
    fn wander_direction(&self, map: &GameMap, bombs: &Vec<Bomb>, other_enemies: &Vec<Enemy>) -> (r: Direction)
        requires
            map.wf(),
            sane(self.position),
        ensures
            candidates(*map, bombs@, other_enemies@, floor_tile(self.position), false, 4).len() > 0 ==> candidates(
                *map,
                bombs@,
                other_enemies@,
                floor_tile(self.position),
                false,
                4,
            ).contains(r),
    {
        let candidates = self.candidate_directions(map, bombs, other_enemies, false);
        if candidates.len() == 0 {
            let directions = Direction::iterator();
            let i = random_in_range(0, 3);
            return directions[i as usize];
        }
        let i = random_in_range(0, (candidates.len() - 1) as u64);
        let r = candidates[i as usize];
        assert(candidates@[i as int] == r);
        r
    }

    /// The direction to take towards `target` along a shortest walk over
    /// open tiles: `None` when the enemy is on the target's tile, either
    /// tile is off the map, or no such walk exists.
    fn bfs_direction_to_target(&self, map: &GameMap, target: Pos, bombs: &Vec<Bomb>, other_enemies: &Vec<Enemy>) -> (r: Option<Direction>)
        requires
            map.wf(),
            map.width <= 1_000_000,
            map.height <= 1_000_000,
            map.width * map.height <= usize::MAX,
            sane(self.position),
            sane(target),
        ensures
            ({
                let s = floor_tile(self.position);
                let g = floor_tile(target);
                &&& r is None <==> (s == g || !map.in_map(s.0, s.1) || !map.in_map(g.0, g.1) || no_route(
                    *map,
                    bombs@,
                    other_enemies@,
                    s,
                    g,
                ))
                &&& r matches Some(dir) ==> route_heading(*map, bombs@, other_enemies@, self.position, s, g, dir)
            }),
    {
        let (sx, sy) = Self::to_tile(self.position);
        let (gx, gy) = Self::to_tile(target);
        if sx == gx && sy == gy {
            return None;
        }
        let w = map.width as i64;
        let h = map.height as i64;
        if sx < 0 || sy < 0 || gx < 0 || gy < 0 || sx >= w || sy >= h || gx >= w || gy >= h {
            return None;
        }
        let ghost s = (sx as int, sy as int);
        let ghost g = (gx as int, gy as int);
        let dist = distances_to(map, bombs, other_enemies, gx as usize, gy as usize);
        let dirs = Direction::iterator();
        let n = dist.len();
        let mut best: Option<(Direction, u64, i64, i64)> = None;
        let mut k: usize = 0;
        while k < 4
            invariant
                k <= 4,
                map.wf(),
                map.width <= 1_000_000,
                map.height <= 1_000_000,
                w == map.width,
                h == map.height,
                0 <= sx < w,
                0 <= sy < h,
                s == (sx as int, sy as int),
                g == (gx as int, gy as int),
                dirs@ == crate::direction::all_directions(),
                dist@.len() == map.width * map.height,
                n == dist@.len(),
                forall|x: int, y: int|
                    map.in_map(x, y) ==> {
                        let v = #[trigger] dist_at(dist@, map.width as int, x, y);
                        &&& (v == UNREACHED <==> forall|kk: nat| !reaches(*map, bombs@, other_enemies@, g, (x, y), kk))
                        &&& v != UNREACHED ==> reaches(*map, bombs@, other_enemies@, g, (x, y), v as nat) && forall|j: nat|
                            j < v ==> !reaches(*map, bombs@, other_enemies@, g, (x, y), j)
                    },
                best is None ==> forall|d2: Direction, kk: nat| rank(d2) < k ==> !#[trigger] reaches(*map, bombs@, other_enemies@, g, step(s, d2), kk),
                best matches Some(b) ==> {
                    &&& rank(b.0) < k
                    &&& (b.2 as int, b.3 as int) == step(s, b.0)
                    &&& reaches(*map, bombs@, other_enemies@, g, step(s, b.0), b.1 as nat)
                    &&& forall|j: nat, d2: Direction| j < b.1 && rank(d2) < k ==> !#[trigger] reaches(*map, bombs@, other_enemies@, g, step(s, d2), j)
                    &&& forall|d2: Direction| rank(d2) < rank(b.0) ==> !reaches(*map, bombs@, other_enemies@, g, #[trigger] step(s, d2), b.1 as nat)
                },
            decreases 4 - k,
        {
            let d = dirs[k];
            assert(rank(d) == k);
            let (nx, ny) = next_tile(sx, sy, d);
            let ghost t = step(s, d);
            assert(t == (nx as int, ny as int));
            if !(nx >= 0 && ny >= 0 && nx < w && ny < h) {
                assert forall|kk: nat| !reaches(*map, bombs@, other_enemies@, g, t, kk) by {}
            }
            if nx >= 0 && ny >= 0 && nx < w && ny < h {
                proof {
                    crate::route::lemma_tix_bound(nx as int, ny as int, w as int, h as int);
                }
                let v = dist[(ny as usize) * map.width + nx as usize];
                assert(v == dist_at(dist@, w as int, nx as int, ny as int));
                if v != UNREACHED {
                    match best {
                        None => {
                            best = Some((d, v, nx, ny));
                        },
                        Some(b) => {
                            if v < b.1 {
                                best = Some((d, v, nx, ny));
                            }
                        },
                    }
                }
            }
            k = k + 1;
        }
        match best {
            None => {
                proof {
                    assert forall|kk: nat| !next_reaches(*map, bombs@, other_enemies@, g, s, kk) by {
                        assert forall|d2: Direction| !reaches(*map, bombs@, other_enemies@, g, #[trigger] step(s, d2), kk) by {
                            assert(rank(d2) < 4);
                        }
                    }
                    assert(no_route(*map, bombs@, other_enemies@, s, g));
                }
                None
            },
            Some(b) => {
                let c = Self::tile_center(b.2, b.3);
                proof {
                    assert forall|j: nat| j < b.1 implies !next_reaches(*map, bombs@, other_enemies@, g, s, j) by {
                        assert forall|d2: Direction| !reaches(*map, bombs@, other_enemies@, g, #[trigger] step(s, d2), j) by {
                            assert(rank(d2) < 4);
                        }
                    }
                    assert(reaches(*map, bombs@, other_enemies@, g, step(s, b.0), b.1 as nat));
                }
                let r = Direction::get_direction(self.position, c);
                assert(route_heading(*map, bombs@, other_enemies@, self.position, s, g, r));
                assert(next_reaches(*map, bombs@, other_enemies@, g, s, b.1 as nat));
                assert(!no_route(*map, bombs@, other_enemies@, s, g));
                Some(r)
            },
        }
    }

    /// Chooses where to head, following the enemy's behavior.
    fn pick_direction(&self, map: &GameMap, player_pos: Option<Pos>, bombs: &Vec<Bomb>, other_enemies: &Vec<Enemy>) -> (r: Direction)
        requires
            map.wf(),
            map.width <= 1_000_000,
            map.height <= 1_000_000,
            map.width * map.height <= usize::MAX,
            sane(self.position),
            player_pos matches Some(t) ==> sane(t),
        ensures
            good_choice(*self, *map, player_pos, bombs@, other_enemies@, r),
    {
        match self.behavior {
            EnemyBehavior::Aggressive => {
                if let Some(target) = player_pos {
                    if let Some(dir) = self.bfs_direction_to_target(map, target, bombs, other_enemies) {
                        return dir;
                    }
                    if let Some(dir) = self.greedy_direction(map, target, bombs, other_enemies, false) {
                        return dir;
                    }
                }
                self.wander_direction(map, bombs, other_enemies)
            },
            EnemyBehavior::Coward => {
                if let Some(target) = player_pos {
                    if let Some(dir) = self.flee_direction(map, target, bombs, other_enemies) {
                        return dir;
                    }
                }
                self.wander_direction(map, bombs, other_enemies)
            },
            EnemyBehavior::Wander => self.wander_direction(map, bombs, other_enemies),
        }
    }

    /// Chooses a new direction and waits a full interval before the next choice.
    fn decide_direction(&mut self, map: &GameMap, player_pos: Option<Pos>, bombs: &Vec<Bomb>, other_enemies: &Vec<Enemy>)
        requires
            map.wf(),
            map.width <= 1_000_000,
            map.height <= 1_000_000,
            map.width * map.height <= usize::MAX,
            sane(old(self).position),
            player_pos matches Some(t) ==> sane(t),
        ensures
            good_choice(*old(self), *map, player_pos, bombs@, other_enemies@, final(self).direction),
            *final(self) == (Enemy {
                direction: final(self).direction,
                decision_timer: old(self).decision_interval as i64,
                ..*old(self)
            }),
    {
        self.direction = self.pick_direction(map, player_pos, bombs, other_enemies);
        self.decision_timer = self.decision_interval as i64;
    }

    /// Moves a living enemy for `delta` milliseconds: it decides where to
    /// go once its decision time runs out, walks at its speed, and steps
    /// back and decides again whenever it runs into a blocking tile, a bomb
    /// or another enemy. Dead enemies do not move.
    pub fn tick(&mut self, delta: u32, map: &GameMap, player_pos: Option<Pos>, bombs: &Vec<Bomb>, other_enemies: &Vec<Enemy>)
        requires
            map_fits(*map),
            map.width * map.height <= usize::MAX,
            roomy(old(self).position),
            old(self).speed_multiplier <= 2500,
            old(self).decision_timer >= i64::MIN + u32::MAX,
            player_pos matches Some(t) ==> sane(t),
            forall|i: int| 0 <= i < bombs@.len() ==> sane(#[trigger] bombs@[i].position),
            forall|i: int| 0 <= i < other_enemies@.len() ==> sane(#[trigger] other_enemies@[i].position),
        ensures
            enemy_tick_rel(*old(self), *final(self), *map, player_pos, bombs@, other_enemies@, delta as int),
            sane(final(self).position),
    {
        if !self.alive {
            return;
        }
        let ghost e0 = *self;
        self.decision_timer = self.decision_timer - delta as i64;
        let expired = self.decision_timer <= 0;
        if expired {
            self.decide_direction(map, player_pos, bombs, other_enemies);
        }
        let ghost d0 = self.direction;
        let ghost t1 = self.decision_timer;
        let prod: i128 = (delta as i128) * (ENEMY_SPEED as i128);
        assert(0 <= prod * self.speed_multiplier <= 16_106_127_356_250_000) by (nonlinear_arith)
            requires
                0 <= prod <= 6_442_450_942_500,
                self.speed_multiplier <= 2500,
        ;
        let motion: i64 = (prod * (self.speed_multiplier as i128) / 1_000_000) as i64;
        assert(motion as int == enemy_motion(e0, delta as int));
        let hit = self.walk(motion, map, player_pos, bombs, other_enemies);
    }

    /// Walks `motion` in the enemy's direction, stepping back and deciding
    /// again on running into a blocking tile, a bomb or another enemy.
    /// Returns whether it ran into anything.
    #[verifier::spinoff_prover]
    fn walk(&mut self, motion: i64, map: &GameMap, player_pos: Option<Pos>, bombs: &Vec<Bomb>, other_enemies: &Vec<Enemy>) -> (hit: bool)
        requires
            map_fits(*map),
            map.width * map.height <= usize::MAX,
            roomy(old(self).position),
            0 <= motion <= 20_000_000_000,
            player_pos matches Some(t) ==> sane(t),
            forall|i: int| 0 <= i < bombs@.len() ==> sane(#[trigger] bombs@[i].position),
            forall|i: int| 0 <= i < other_enemies@.len() ==> sane(#[trigger] other_enemies@[i].position),
        ensures
            (final(self).position, hit) == stepped(
                old(self).position,
                old(self).direction,
                old(self).id,
                *map,
                bombs@,
                other_enemies@,
                motion as int,
            ),
            hit ==> good_choice(
                Enemy { position: final(self).position, ..*old(self) },
                *map,
                player_pos,
                bombs@,
                other_enemies@,
                final(self).direction,
            ),
            hit ==> final(self).decision_timer == old(self).decision_interval as i64,
            !hit ==> final(self).direction == old(self).direction && final(self).decision_timer
                == old(self).decision_timer,
            *final(self) == (Enemy {
                position: final(self).position,
                direction: final(self).direction,
                decision_timer: final(self).decision_timer,
                ..*old(self)
            }),
            sane(final(self).position),
    {
        let ghost e0 = *self;
        let dir = self.direction;
        let p1 = shift(self.position, dir, motion);
        let (q, hit_map) = collide_map(p1, ENEMY_RADIUS, map, dir);
        let p2 = if hit_map { shift(q, dir, -motion) } else { q };
        let hit_bomb = touches_bomb(bombs, p2);
        let p3 = if hit_bomb { shift(p2, dir, -motion) } else { p2 };
        let hit_enemy = touches_enemy(other_enemies, self.id, p3);
        let p4 = if hit_enemy { shift(p3, dir, -motion) } else { p3 };
        let hit = hit_map || hit_bomb || hit_enemy;
        assert((p4, hit) == stepped(e0.position, e0.direction, e0.id, *map, bombs@, other_enemies@, motion as int));
        self.position = p4;
        if hit {
            self.decide_direction(map, player_pos, bombs, other_enemies);
        }
        hit
    }
}

} // verus!

verus! {

/// The heading chosen among the first `k` directions of `ds` is one of
/// them, and leads to a tile whose middle is at least as near to `target`
/// as that of every other one (at least as far, when `farthest`).
pub proof fn lemma_best_heading_extreme(ds: Seq<Direction>, t: (int, int), target: Pos, farthest: bool, k: int)
    requires
        0 <= k <= ds.len(),
    ensures
        (best_heading(ds, t, target, farthest, k) is Some) <==> k > 0,
        best_heading(ds, t, target, farthest, k) matches Some(d) ==> {
            &&& exists|i: int| 0 <= i < k && ds[i] == d
            &&& forall|i: int|
                0 <= i < k ==> {
                    let dd = dist_sq(centre_of(arm_tile(t.0, t.1, d, 1)), pt(target));
                    let di = dist_sq(centre_of(arm_tile(t.0, t.1, #[trigger] ds[i], 1)), pt(target));
                    if farthest {
                        dd >= di
                    } else {
                        dd <= di
                    }
                }
        },
    decreases k,
{
    if k > 0 {
        lemma_best_heading_extreme(ds, t, target, farthest, k - 1);
        let d = ds[k - 1];
        match best_heading(ds, t, target, farthest, k - 1) {
            None => {
                assert(ds[k - 1] == d);
            },
            Some(b) => {
                let w = choose|i: int| 0 <= i < k - 1 && ds[i] == b;
                assert(ds[w] == b);
                assert(ds[k - 1] == d);
            },
        }
    }
}

/// An aggressive enemy's greedy heading, when no walk reaches the player,
/// is an open direction leading to a tile whose middle is at least as near
/// to the player as that of every other open direction; a coward's heading
/// is a safe open direction leading at least as far as every other.
pub proof fn lemma_greedy_nearest_flee_farthest(m: GameMap, bombs: Seq<Bomb>, others: Seq<Enemy>, p: Pos, t: Pos)
    ensures
        greedy_pick(m, bombs, others, p, t) matches Some(d) ==> {
            let c = candidates(m, bombs, others, floor_tile(p), false, 4);
            &&& c.contains(d)
            &&& forall|d2: Direction|
                c.contains(d2) ==> dist_sq(centre_of(arm_tile(floor_tile(p).0, floor_tile(p).1, d, 1)), pt(t))
                    <= dist_sq(centre_of(arm_tile(floor_tile(p).0, floor_tile(p).1, d2, 1)), pt(t))
        },
        flee_pick(m, bombs, others, p, t) matches Some(d) ==> {
            let c = candidates(m, bombs, others, floor_tile(p), true, 4);
            &&& c.contains(d)
            &&& forall|d2: Direction|
                c.contains(d2) ==> dist_sq(centre_of(arm_tile(floor_tile(p).0, floor_tile(p).1, d, 1)), pt(t))
                    >= dist_sq(centre_of(arm_tile(floor_tile(p).0, floor_tile(p).1, d2, 1)), pt(t))
        },
        (greedy_pick(m, bombs, others, p, t) is Some) <==> candidates(m, bombs, others, floor_tile(p), false, 4).len()
            > 0,
{
    let s = floor_tile(p);
    let c = candidates(m, bombs, others, s, false, 4);
    let f = candidates(m, bombs, others, s, true, 4);
    lemma_best_heading_extreme(c, s, t, false, c.len() as int);
    lemma_best_heading_extreme(f, s, t, true, f.len() as int);
    assert forall|d2: Direction| c.contains(d2) implies greedy_pick(m, bombs, others, p, t) matches Some(d)
        && dist_sq(centre_of(arm_tile(s.0, s.1, d, 1)), pt(t)) <= dist_sq(centre_of(arm_tile(s.0, s.1, d2, 1)), pt(t)) by {
        let i = choose|i: int| 0 <= i < c.len() && c[i] == d2;
        assert(c[i] == d2);
    }
    assert forall|d2: Direction| f.contains(d2) implies flee_pick(m, bombs, others, p, t) matches Some(d)
        && dist_sq(centre_of(arm_tile(s.0, s.1, d, 1)), pt(t)) >= dist_sq(centre_of(arm_tile(s.0, s.1, d2, 1)), pt(t)) by {
        let i = choose|i: int| 0 <= i < f.len() && f[i] == d2;
        assert(f[i] == d2);
    }
}

} // verus!
