use vstd::prelude::*;

use crate::bomb::{bomb_size, fresh_bomb, Bomb, BombState, BOMB_RADIUS, TILE_LIMIT};
use crate::collision::{
    abs, after_map_pushes, bound, clamp, collide_map, is_colliding_with, map_fits, near_map, overlapping,
    pushed_back, resolve_collision_with, sane, saturated_tile, Pos, COORD_LIMIT, UNIT,
};
use crate::direction::Direction;
use crate::input::{axis, Input};
use crate::map::{GameMap, MapElement};

verus! {

/// The half-width of a player's collision box, in thousandths of a tile.
pub const PLAYER_RADIUS: i64 = 400;

/// The speed of a player at a speed level, in thousandths of a tile per
/// second; levels past the last one move at the top speed.
pub open spec fn player_speed(level: int) -> int {
    if level <= 0 {
        2000
    } else if level == 1 {
        3500
    } else if level == 2 {
        5000
    } else {
        6000
    }
}

/// The tile a player at `p` would plant a bomb on.
pub open spec fn bomb_spot(p: Pos) -> (int, int) {
    (saturated_tile(p.0 as int), saturated_tile(p.1 as int))
}

/// Whether the bomb `b` keeps a new bomb from being planted by the player
/// `id` at `spot`: the player's own bomb it still stands on, or any bomb
/// that overlaps the spot.
pub open spec fn bomb_in_the_way(b: Bomb, id: u32, spot: Pos) -> bool {
    (b.owner_id == id && !b.collision_enabled) || overlapping(
        b.position,
        bomb_size(b.state),
        spot,
        BOMB_RADIUS as int,
    )
}

/// Whether the player `p` may plant a bomb: it has one left, and neither a
/// bomb nor another player is in the way of the new bomb.
pub open spec fn may_plant(p: Player, bombs: Seq<Bomb>, others: Seq<(u32, Pos)>) -> bool {
    let spot = fresh_bomb(p.id, bomb_spot(p.position).0, bomb_spot(p.position).1, p.power_level).position;
    &&& p.bombs_remaining > 0
    &&& forall|i: int| 0 <= i < bombs.len() ==> !bomb_in_the_way(#[trigger] bombs[i], p.id, spot)
    &&& forall|i: int|
        0 <= i < others.len() ==> (#[trigger] others[i]).0 == p.id || !overlapping(
            spot,
            BOMB_RADIUS as int,
            others[i].1,
            PLAYER_RADIUS as int,
        )
}

/// The remainder of `v` by a tile, with the sign of `v`, as Rust's `%` gives it.
pub open spec fn tile_rem(v: int) -> int {
    if v >= 0 {
        v % UNIT as int
    } else {
        -((-v) % UNIT as int)
    }
}

/// What lies at the point `(x, y)`: the tile it falls in, or nothing off the map.
pub open spec fn point_elem(m: GameMap, x: int, y: int) -> MapElement {
    if x < 0 || y < 0 {
        MapElement::Empty
    } else {
        m.elem_at(x / UNIT as int, y / UNIT as int)
    }
}

/// The movement, as `(x, y)` in -1..=1 each, that a player at `p` pressing
/// `(ax, ay)` makes: a player heading straight for a free tile while off
/// the middle of its lane is steered towards the lane, to slip into gaps.
pub open spec fn assisted(p: Pos, ax: int, ay: int, m: GameMap) -> (int, int) {
    let side_free = ay == 0 && ax != 0 && point_elem(m, p.0 + ax * UNIT, p.1 as int) == MapElement::Empty;
    let up_free = ax == 0 && ay != 0 && point_elem(m, p.0 as int, p.1 + ay * UNIT) == MapElement::Empty;
    if side_free && tile_rem(p.1 as int) > 600 {
        (ax, -1)
    } else if side_free && tile_rem(p.1 as int) < 400 {
        (ax, 1)
    } else if up_free && tile_rem(p.0 as int) > 600 {
        (-1, ay)
    } else if up_free && tile_rem(p.0 as int) < 400 {
        (1, ay)
    } else {
        (ax, ay)
    }
}

/// A player of identifier `id` at `q`, moving in `dir` among the bombs
/// `bs`, after bumping into the first `k` of them: each bomb it overlaps
/// pushes it back, unless it is the player's own bomb it still stands on;
/// a kicker sets a planted bomb it bumps into sliding. Returns where the
/// player ends up and the bombs.
pub open spec fn bombs_pass(id: u32, kick: bool, q: Pos, bs: Seq<Bomb>, dir: Direction, k: int) -> (Pos, Seq<Bomb>)
    decreases k,
{
    if k <= 0 {
        (q, bs)
    } else {
        let (q1, bs1) = bombs_pass(id, kick, q, bs, dir, k - 1);
        let b = bs[k - 1];
        if b.owner_id == id && !b.collision_enabled {
            (q1, bs1)
        } else if overlapping(q1, PLAYER_RADIUS as int, b.position, BOMB_RADIUS as int) {
            let pb = pushed_back(q1, PLAYER_RADIUS as int, b.position, BOMB_RADIUS as int, dir);
            let q2: Pos = (pb.0 as i64, pb.1 as i64);
            if kick && b.state == BombState::Planted {
                (q2, bs1.update(k - 1, Bomb { state: BombState::Sliding(dir), ..b }))
            } else {
                (q2, bs1)
            }
        } else {
            (q1, bs1)
        }
    }
}

/// Where the player `p`, moving in `dir`, ends up once kept within the
/// map, pushed out of blocking tiles and bumped by the bombs `bs`; and the
/// bombs, some of which it may have kicked.
pub open spec fn handled(p: Player, m: GameMap, bs: Seq<Bomb>, dir: Direction) -> (Pos, Seq<Bomb>) {
    let r = PLAYER_RADIUS as int;
    let q0: Pos = (
        clamp(p.position.0 as int, r, m.width * UNIT - r) as i64,
        clamp(p.position.1 as int, r, m.height * UNIT - r) as i64,
    );
    let a = after_map_pushes(m, q0, r, dir, 9);
    bombs_pass(p.id, p.can_kick_bomb, (a.0 as i64, a.1 as i64), bs, dir, bs.len() as int)
}

/// The length of the next step of a movement `v`: a fifth of a tile at most.
pub open spec fn step_len(v: int) -> int {
    if abs(v) < 200 {
        abs(v)
    } else {
        200
    }
}

/// The player `p` after a horizontal step of the movement `mx`, and the bombs.
pub open spec fn walk_x(p: Player, m: GameMap, bs: Seq<Bomb>, mx: int) -> (Player, Seq<Bomb>) {
    let dir = if mx > 0 { Direction::Right } else { Direction::Left };
    let x = if mx > 0 { p.position.0 + step_len(mx) } else { p.position.0 - step_len(mx) };
    let p1 = Player { direction: dir, position: (x as i64, p.position.1), ..p };
    let (q, bs1) = handled(p1, m, bs, dir);
    (Player { position: q, ..p1 }, bs1)
}

/// The player `p` after a vertical step of the movement `my`, and the bombs.
pub open spec fn walk_y(p: Player, m: GameMap, bs: Seq<Bomb>, my: int) -> (Player, Seq<Bomb>) {
    let dir = if my > 0 { Direction::Down } else { Direction::Up };
    let y = if my > 0 { p.position.1 + step_len(my) } else { p.position.1 - step_len(my) };
    let p1 = Player { direction: dir, position: (p.position.0, y as i64), ..p };
    let (q, bs1) = handled(p1, m, bs, dir);
    (Player { position: q, ..p1 }, bs1)
}

/// What is left of a movement `v` after its next step.
pub open spec fn after_step(v: int) -> int {
    if v > 0 {
        v - step_len(v)
    } else if v < 0 {
        v + step_len(v)
    } else {
        0
    }
}

/// The player `p` after the movement `(mx, my)`, taken a fifth of a tile
/// at a time, a horizontal step then a vertical one; and the bombs.
pub open spec fn walked(p: Player, m: GameMap, bs: Seq<Bomb>, mx: int, my: int) -> (Player, Seq<Bomb>)
    decreases abs(mx) + abs(my),
{
    if mx == 0 && my == 0 {
        (p, bs)
    } else {
        let (p1, bs1) = if mx != 0 { walk_x(p, m, bs, mx) } else { (p, bs) };
        let (p2, bs2) = if my != 0 { walk_y(p1, m, bs1, my) } else { (p1, bs1) };
        walked(p2, m, bs2, after_step(mx), after_step(my))
    }
}

/// A new player of id `id` at `position`, facing `direction`: alive,
/// range 2, base speed, one bomb, no kick.
pub open spec fn fresh_player(id: u32, position: Pos, direction: Direction, is_human: bool) -> Player {
    Player {
        id,
        position,
        direction,
        alive: true,
        power_level: 2,
        speed_level: 0,
        bombs_remaining: 1,
        is_human,
        can_kick_bomb: false,
    }
}

/// A human or bot player of a multiplayer game, or the hero of a campaign.
#[derive(Clone, Copy, Debug)]
pub struct Player {
    /// The player's number, also its index among the game's players.
    pub id: u32,
    /// The centre of the player, in thousandths of a tile.
    pub position: Pos,
    /// The direction the player faces.
    pub direction: Direction,
    /// Dead players do not move.
    pub alive: bool,
    /// How many tiles the player's bombs reach.
    pub power_level: u8,
    /// Picks the player's speed; grows with each speed bonus.
    pub speed_level: u8,
    /// How many more bombs the player may plant now.
    pub bombs_remaining: u32,
    /// Whether a human controls the player.
    pub is_human: bool,
    /// Whether the player kicks the bombs it walks into.
    pub can_kick_bomb: bool,
}

/// The tile of a coordinate below the limit is below the tile limit, and
/// the centre of that tile is a sane coordinate.
proof fn lemma_spot_bound(v: int)
    requires
        -COORD_LIMIT <= v < COORD_LIMIT,
    ensures
        0 <= saturated_tile(v) < TILE_LIMIT,
        0 <= saturated_tile(v) * UNIT + UNIT / 2 <= COORD_LIMIT,
{
    if v >= 0 {
        assert(0 <= v / 1000 < 1_000_000_000 && 0 <= (v / 1000) * 1000 + 500 <= 1_000_000_000_000)
            by (nonlinear_arith)
            requires
                0 <= v < 1_000_000_000_000,
        ;
    }
}

/// What lies at the point `(x, y)`: the tile it falls in, or nothing off the map.
fn point_elem_exec(map: &GameMap, x: i64, y: i64) -> (r: MapElement)
    requires
        map.wf(),
    ensures
        r == point_elem(*map, x as int, y as int),
{
    if x < 0 || y < 0 {
        return MapElement::Empty;
    }
    map.get_elem_pos(x / UNIT, y / UNIT)
}

/// Whether a position lies well within the sane range, where bombs and
/// enemies stay.
pub open spec fn roomy_pos(p: Pos) -> bool {
    -ROOMY <= p.0 <= ROOMY && -ROOMY <= p.1 <= ROOMY
}

/// Whether a position lies within a few tiles of the roomy range.
pub open spec fn kept(p: Pos) -> bool {
    -ROOMY - 30 * UNIT <= p.0 <= ROOMY + 30 * UNIT && -ROOMY - 30 * UNIT <= p.1 <= ROOMY + 30 * UNIT
}

/// Whether a position lies within a few more tiles of the roomy range, as
/// a player pushed back by a bomb does.
pub open spec fn loose(p: Pos) -> bool {
    -ROOMY - 31 * UNIT <= p.0 <= ROOMY + 31 * UNIT && -ROOMY - 31 * UNIT <= p.1 <= ROOMY + 31 * UNIT
}

/// The bound of the roomy range, in thousandths of a tile.
pub const ROOMY: i64 = 100_000_000_000;

impl Player {
    /// A new player: alive, range 2, base speed, one bomb, no kick.
    pub fn new(id: u32, position: Pos, direction: Direction, is_human: bool) -> (p: Player)
        ensures
            p == fresh_player(id, position, direction, is_human),
    {
        Player {
            id,
            position,
            direction,
            alive: true,
            power_level: 2,
            speed_level: 0,
            bombs_remaining: 1,
            is_human,
            can_kick_bomb: false,
        }
    }

    /// Brings the player back to life with every bonus, for testing.
    pub fn make_op(&mut self)
        ensures
            *final(self) == (Player {
                alive: true,
                power_level: 10,
                speed_level: 4,
                bombs_remaining: 100,
                can_kick_bomb: true,
                ..*old(self)
            }),
    {
        self.alive = true;
        self.power_level = 10;
        self.speed_level = 4;
        self.bombs_remaining = 100;
        self.can_kick_bomb = true;
    }

    /// Kills the player.
    pub fn kill(&mut self)
        ensures
            *final(self) == (Player { alive: false, ..*old(self) }),
    {
        self.alive = false;
    }

    /// Brings a campaign player back at `position`, with the bonuses of a new player.
    pub fn respawn(&mut self, position: Pos)
        ensures
            *final(self) == (Player {
                alive: true,
                position,
                power_level: 2,
                speed_level: 0,
                bombs_remaining: 1,
                can_kick_bomb: false,
                ..*old(self)
            }),
    {
        self.alive = true;
        self.position = position;
        self.power_level = 2;
        self.speed_level = 0;
        self.bombs_remaining = 1;
        self.can_kick_bomb = false;
    }

    /// The half-width of the player's collision box.
    pub fn get_size(&self) -> (r: i64)
        ensures
            r == PLAYER_RADIUS,
    {
        PLAYER_RADIUS
    }

    /// Plants a bomb on the player's tile, if it has one left and nothing
    /// is in the way: a bomb it still stands on, a bomb on the spot, or
    /// another player (of `player_positions`, given as id and position).
    /// The player has one bomb less when it succeeds.
    pub fn create_bomb(&mut self, bombs: &Vec<Bomb>, player_positions: &Vec<(u32, Pos)>) -> (r: Option<Bomb>)
        requires
            sane(old(self).position),
            old(self).position.0 < COORD_LIMIT,
            old(self).position.1 < COORD_LIMIT,
            forall|i: int| 0 <= i < bombs@.len() ==> sane(#[trigger] bombs@[i].position),
            forall|i: int| 0 <= i < player_positions@.len() ==> sane(#[trigger] player_positions@[i].1),
        ensures
            r is Some <==> may_plant(*old(self), bombs@, player_positions@),
            r matches Some(b) ==> b == fresh_bomb(
                old(self).id,
                bomb_spot(old(self).position).0,
                bomb_spot(old(self).position).1,
                old(self).power_level,
            ) && *final(self) == (Player {
                bombs_remaining: (old(self).bombs_remaining - 1) as u32,
                ..*old(self)
            }),
            r is None ==> *final(self) == *old(self),
    {
        if self.bombs_remaining == 0 {
            return None;
        }
        proof {
            lemma_spot_bound(self.position.0 as int);
            lemma_spot_bound(self.position.1 as int);
        }
        let target_x: usize = if self.position.0 < 0 { 0 } else { (self.position.0 / UNIT) as usize };
        let target_y: usize = if self.position.1 < 0 { 0 } else { (self.position.1 / UNIT) as usize };
        let ret_bomb = Bomb::new(self.id, target_x, target_y, self.power_level);
        let ghost spot = ret_bomb.position;
        assert(spot == fresh_bomb(
            self.id,
            bomb_spot(self.position).0,
            bomb_spot(self.position).1,
            self.power_level,
        ).position);
        let mut i: usize = 0;
        while i < bombs.len()
            invariant
                i <= bombs@.len(),
                sane(spot),
                ret_bomb.position == spot,
                self == old(self),
                spot == fresh_bomb(
                    old(self).id,
                    bomb_spot(old(self).position).0,
                    bomb_spot(old(self).position).1,
                    old(self).power_level,
                ).position,
                forall|k: int| 0 <= k < bombs@.len() ==> sane(#[trigger] bombs@[k].position),
                forall|k: int| 0 <= k < i ==> !bomb_in_the_way(#[trigger] bombs@[k], self.id, spot),
            decreases bombs@.len() - i,
        {
            let bomb = bombs[i];
            if bomb.owner_id == self.id && !bomb.collision_enabled {
                assert(bomb_in_the_way(bombs@[i as int], self.id, spot));
                assert(!may_plant(*old(self), bombs@, player_positions@));
                return None;
            }
            if is_colliding_with(bomb.position, bomb.get_size(), ret_bomb.position, BOMB_RADIUS) {
                assert(bomb_in_the_way(bombs@[i as int], self.id, spot));
                assert(!may_plant(*old(self), bombs@, player_positions@));
                return None;
            }
            i = i + 1;
        }
        let mut j: usize = 0;
        while j < player_positions.len()
            invariant
                j <= player_positions@.len(),
                sane(spot),
                ret_bomb.position == spot,
                self == old(self),
                spot == fresh_bomb(
                    old(self).id,
                    bomb_spot(old(self).position).0,
                    bomb_spot(old(self).position).1,
                    old(self).power_level,
                ).position,
                forall|k: int| 0 <= k < bombs@.len() ==> !bomb_in_the_way(#[trigger] bombs@[k], self.id, spot),
                forall|k: int| 0 <= k < player_positions@.len() ==> sane(#[trigger] player_positions@[k].1),
                forall|k: int|
                    0 <= k < j ==> (#[trigger] player_positions@[k]).0 == self.id || !overlapping(
                        spot,
                        BOMB_RADIUS as int,
                        player_positions@[k].1,
                        PLAYER_RADIUS as int,
                    ),
            decreases player_positions@.len() - j,
        {
            let (id, pos) = player_positions[j];
            if id != self.id && is_colliding_with(ret_bomb.position, BOMB_RADIUS, pos, PLAYER_RADIUS) {
                assert(player_positions@[j as int].0 != self.id);
                assert(!may_plant(*old(self), bombs@, player_positions@));
                return None;
            }
            j = j + 1;
        }
        self.bombs_remaining = self.bombs_remaining - 1;
        Some(ret_bomb)
    }

    /// Keeps the player, moving in `direction`, within the map, pushes it
    /// out of the blocking tiles around it, then out of the bombs it runs
    /// into, kicking the planted ones when it can.
    fn handle_collisions(&mut self, map: &GameMap, direction: Direction, bombs: &mut Vec<Bomb>)
        requires
            map_fits(*map),
            1 <= map.width,
            1 <= map.height,
            forall|i: int| 0 <= i < old(bombs)@.len() ==> kept(#[trigger] old(bombs)@[i].position),
        ensures
            (final(self).position, final(bombs)@) == handled(*old(self), *map, old(bombs)@, direction),
            *final(self) == (Player { position: final(self).position, ..*old(self) }),
            loose(final(self).position),
            final(bombs)@.len() == old(bombs)@.len(),
            forall|i: int|
                0 <= i < old(bombs)@.len() ==> (#[trigger] final(bombs)@[i]).position == old(
                    bombs,
                )@[i].position,
    {
        let q0 = bound(self.position, PLAYER_RADIUS, map);
        let (q1, _) = collide_map(q0, PLAYER_RADIUS, map, direction);
        let mut q = q1;
        let mut i: usize = 0;
        while i < bombs.len()
            invariant
                i <= bombs@.len(),
                bombs@.len() == old(bombs)@.len(),
                map_fits(*map),
                *self == *old(self),
                loose(q),
                (q, bombs@) == bombs_pass(
                    self.id,
                    self.can_kick_bomb,
                    q1,
                    old(bombs)@,
                    direction,
                    i as int,
                ),
                forall|k: int| i <= k < bombs@.len() ==> #[trigger] bombs@[k] == old(bombs)@[k],
                forall|k: int|
                    0 <= k < bombs@.len() ==> (#[trigger] bombs@[k]).position == old(bombs)@[k].position,
                forall|k: int| 0 <= k < old(bombs)@.len() ==> kept(#[trigger] old(bombs)@[k].position),
            decreases bombs@.len() - i,
        {
            let bomb = bombs[i];
            assert(bomb == old(bombs)@[i as int]);
            if !(bomb.owner_id == self.id && !bomb.collision_enabled) {
                if let Some(np) = resolve_collision_with(q, PLAYER_RADIUS, bomb.position, BOMB_RADIUS, direction) {
                    q = np;
                    if self.can_kick_bomb && bomb.state == BombState::Planted {
                        bombs.set(i, Bomb { state: BombState::Sliding(direction), ..bomb });
                    }
                }
            }
            i = i + 1;
        }
        self.position = q;
    }

    /// The movement the player's direction inputs ask for, steered towards
    /// the middle of the lane when heading for a free tile off-centre.
    fn assist_input(&self, input: Input, map: &GameMap) -> (r: (i64, i64))
        requires
            map.wf(),
            sane(self.position),
        ensures
            (r.0 as int, r.1 as int) == assisted(
                self.position,
                axis(input@[2], input@[3]),
                axis(input@[1], input@[0]),
                *map,
            ),
    {
        let (ax8, ay8) = input.as_axes();
        let ax = ax8 as i64;
        let ay = ay8 as i64;
        let (px, py) = self.position;
        let rx = if px >= 0 { px % UNIT } else { -((-px) % UNIT) };
        let ry = if py >= 0 { py % UNIT } else { -((-py) % UNIT) };
        if ay == 0 && ax != 0 {
            let nx = if ax > 0 { px + UNIT } else { px - UNIT };
            if point_elem_exec(map, nx, py) == MapElement::Empty {
                if ry > 600 {
                    return (ax, -1);
                }
                if ry < 400 {
                    return (ax, 1);
                }
            }
        }
        if ax == 0 && ay != 0 {
            let ny = if ay > 0 { py + UNIT } else { py - UNIT };
            if point_elem_exec(map, px, ny) == MapElement::Empty {
                if rx > 600 {
                    return (-1, ay);
                }
                if rx < 400 {
                    return (1, ay);
                }
            }
        }
        (ax, ay)
    }

    /// Moves a living player for `delta` milliseconds along its (steered)
    /// direction inputs at the speed of its level, a fifth of a tile at a
    /// time, colliding with the map and the bombs, and kicking bombs when
    /// it can. Dead players do not move.
    pub fn player_move(&mut self, input: Input, delta: u32, map: &GameMap, bombs: &mut Vec<Bomb>)
        requires
            map_fits(*map),
            1 <= map.width,
            1 <= map.height,
            loose(old(self).position),
            forall|i: int| 0 <= i < old(bombs)@.len() ==> kept(#[trigger] old(bombs)@[i].position),
        ensures
            !old(self).alive ==> *final(self) == *old(self) && final(bombs)@ == old(bombs)@,
            old(self).alive ==> {
                let a = assisted(
                    old(self).position,
                    axis(input@[2], input@[3]),
                    axis(input@[1], input@[0]),
                    *map,
                );
                let base = player_speed(old(self).speed_level as int) * delta / 1000;
                (*final(self), final(bombs)@) == walked(*old(self), *map, old(bombs)@, a.0 * base, a.1 * base)
            },
            loose(final(self).position),
            final(bombs)@.len() == old(bombs)@.len(),
            forall|i: int|
                0 <= i < old(bombs)@.len() ==> (#[trigger] final(bombs)@[i]).position == old(
                    bombs,
                )@[i].position,
    {
        if !self.alive {
            return;
        }
        let (ax, ay) = self.assist_input(input, map);
        let speed: i64 = if self.speed_level == 0 {
            2000
        } else if self.speed_level == 1 {
            3500
        } else if self.speed_level == 2 {
            5000
        } else {
            6000
        };
        let base: i64 = speed * delta as i64 / 1000;
        let mut mx: i64 = if ax > 0 { base } else if ax < 0 { -base } else { 0 };
        let mut my: i64 = if ay > 0 { base } else if ay < 0 { -base } else { 0 };
        proof {
            assert(mx == ax * base && my == ay * base) by (nonlinear_arith)
                requires
                    -1 <= ax <= 1,
                    -1 <= ay <= 1,
                    mx == if ax > 0 { base as int } else if ax < 0 { -base } else { 0 },
                    my == if ay > 0 { base as int } else if ay < 0 { -base } else { 0 },
            ;
        }
        while mx != 0 || my != 0
            invariant
                map_fits(*map),
                1 <= map.width,
                1 <= map.height,
                loose(self.position),
                -30_000_000_000_000 <= mx <= 30_000_000_000_000,
                -30_000_000_000_000 <= my <= 30_000_000_000_000,
                walked(*self, *map, bombs@, mx as int, my as int) == walked(
                    *old(self),
                    *map,
                    old(bombs)@,
                    ax * base,
                    ay * base,
                ),
                bombs@.len() == old(bombs)@.len(),
                forall|k: int|
                    0 <= k < bombs@.len() ==> (#[trigger] bombs@[k]).position == old(bombs)@[k].position,
                forall|k: int| 0 <= k < old(bombs)@.len() ==> kept(#[trigger] old(bombs)@[k].position),
            decreases abs(mx as int) + abs(my as int),
        {
            assert forall|k: int| 0 <= k < bombs@.len() implies kept(#[trigger] bombs@[k].position) by {
                assert(bombs@[k].position == old(bombs)@[k].position);
            }
            if mx != 0 {
                let dist = if mx > 200 { 200 } else if mx < -200 { 200 } else if mx > 0 { mx } else { -mx };
                if mx > 0 {
                    self.direction = Direction::Right;
                    mx = mx - dist;
                    self.position.0 = self.position.0 + dist;
                } else {
                    self.direction = Direction::Left;
                    mx = mx + dist;
                    self.position.0 = self.position.0 - dist;
                }
                let dir = self.direction;
                self.handle_collisions(map, dir, bombs);
            }
            assert forall|k: int| 0 <= k < bombs@.len() implies kept(#[trigger] bombs@[k].position) by {
                assert(bombs@[k].position == old(bombs)@[k].position);
            }
            if my != 0 {
                let dist = if my > 200 { 200 } else if my < -200 { 200 } else if my > 0 { my } else { -my };
                if my > 0 {
                    self.direction = Direction::Down;
                    my = my - dist;
                    self.position.1 = self.position.1 + dist;
                } else {
                    self.direction = Direction::Up;
                    my = my + dist;
                    self.position.1 = self.position.1 - dist;
                }
                let dir = self.direction;
                self.handle_collisions(map, dir, bombs);
            }
        }
    }
}

} // verus!

verus! {

/// Lane assist steers towards the middle of the lane, never away: a player
/// pressing only a horizontal direction moves vertically only towards the
/// middle of its row (the vertical movement has the sign of 500 minus the
/// player's offset within its row), and only when the tile ahead is free
/// and the player is off the middle band; pressing only a vertical
/// direction, likewise along its column. The pressed direction is kept.
pub proof fn lemma_assist_towards_lane(p: Pos, ax: int, ay: int, m: GameMap)
    ensures
        ({
            let a = assisted(p, ax, ay, m);
            let ry = tile_rem(p.1 as int);
            let rx = tile_rem(p.0 as int);
            &&& ay == 0 && ax != 0 ==> {
                &&& a.0 == ax
                &&& a.1 * (500 - ry) >= 0
                &&& a.1 != 0 <==> (point_elem(m, p.0 + ax * UNIT, p.1 as int) == MapElement::Empty && (ry > 600
                    || ry < 400))
                &&& -1 <= a.1 <= 1
            }
            &&& ax == 0 && ay != 0 ==> {
                &&& a.1 == ay
                &&& a.0 * (500 - rx) >= 0
                &&& a.0 != 0 <==> (point_elem(m, p.0 as int, p.1 + ay * UNIT) == MapElement::Empty && (rx > 600
                    || rx < 400))
                &&& -1 <= a.0 <= 1
            }
            &&& (ax == 0 && ay == 0) || (ax != 0 && ay != 0) ==> a == (ax, ay)
        }),
{
    let a = assisted(p, ax, ay, m);
    let ry = tile_rem(p.1 as int);
    let rx = tile_rem(p.0 as int);
    if ay == 0 && ax != 0 {
        if a.1 == -1 {
            assert(ry > 600);
            assert(a.1 * (500 - ry) == ry - 500);
        } else if a.1 == 1 {
            assert(ry < 400);
            assert(a.1 * (500 - ry) == 500 - ry);
        } else {
            assert(a.1 == 0);
            assert(a.1 * (500 - ry) == 0) by (nonlinear_arith)
                requires
                    a.1 == 0,
            ;
        }
    }
    if ax == 0 && ay != 0 {
        if a.0 == -1 {
            assert(rx > 600);
            assert(a.0 * (500 - rx) == rx - 500);
        } else if a.0 == 1 {
            assert(rx < 400);
            assert(a.0 * (500 - rx) == 500 - rx);
        } else {
            assert(a.0 == 0);
            assert(a.0 * (500 - rx) == 0) by (nonlinear_arith)
                requires
                    a.0 == 0,
            ;
        }
    }
}

} // verus!
