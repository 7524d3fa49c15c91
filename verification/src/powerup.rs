use vstd::prelude::*;

use crate::collision::{is_colliding_with, overlapping, sane, Pos, UNIT};
use crate::player::Player;
use crate::rng::random_in_range;
use crate::assets::SoundEffect;

verus! {

/// The half-width of a power-up's pick-up box, in thousandths of a tile.
pub const POWERUP_SIZE: i64 = 400;

/// The bonuses players can pick up.
#[derive(Clone, Copy, Debug, PartialEq, Eq, Structural)]
pub enum PowerUpType {
    /// One more speed level.
    Speed,
    /// One more tile of explosion range.
    Power,
    /// One more bomb at once.
    Bomb,
    /// Lets the player kick bombs.
    Slide,
}

/// The power-up a random draw in `0..=3` selects.
pub open spec fn roll_power_up(roll: int) -> PowerUpType {
    if roll == 0 {
        PowerUpType::Speed
    } else if roll == 1 {
        PowerUpType::Power
    } else if roll == 2 {
        PowerUpType::Bomb
    } else {
        PowerUpType::Slide
    }
}

/// Whether a player can take the power-up `t` without a counter overflowing.
pub open spec fn can_take(p: Player, t: PowerUpType) -> bool {
    match t {
        PowerUpType::Speed => p.speed_level < u8::MAX,
        PowerUpType::Power => p.power_level < u8::MAX,
        PowerUpType::Bomb => p.bombs_remaining < u32::MAX,
        PowerUpType::Slide => true,
    }
}

/// The player `p` after taking the power-up `t`.
pub open spec fn taken(p: Player, t: PowerUpType) -> Player {
    match t {
        PowerUpType::Speed => Player { speed_level: (p.speed_level + 1) as u8, ..p },
        PowerUpType::Power => Player { power_level: (p.power_level + 1) as u8, ..p },
        PowerUpType::Bomb => Player { bombs_remaining: (p.bombs_remaining + 1) as u32, ..p },
        PowerUpType::Slide => Player { can_kick_bomb: true, ..p },
    }
}

impl PowerUpType {
    /// Gives this bonus to a player.
    pub fn apply(&self, p: &mut Player)
        requires
            can_take(*old(p), *self),
        ensures
            *final(p) == taken(*old(p), *self),
    {
        match self {
            PowerUpType::Speed => p.speed_level = p.speed_level + 1,
            PowerUpType::Power => p.power_level = p.power_level + 1,
            PowerUpType::Bomb => p.bombs_remaining = p.bombs_remaining + 1,
            PowerUpType::Slide => p.can_kick_bomb = true,
        }
    }

    /// The power-up a random draw in `0..=3` selects.
    pub fn from_roll(roll: u64) -> (t: PowerUpType)
        ensures
            t == roll_power_up(roll as int),
    {
        match roll {
            0 => PowerUpType::Speed,
            1 => PowerUpType::Power,
            2 => PowerUpType::Bomb,
            _ => PowerUpType::Slide,
        }
    }
}

/// A bonus lying on a tile of the map.
#[derive(Clone, Copy, Debug)]
pub struct PowerUp {
    pub power_up_type: PowerUpType,
    /// The tile it lies on, as (x, y).
    pub pos: (usize, usize),
    /// Whether it was picked up and leaves the game.
    pub despawn: bool,
}

/// The centre of a tile, in thousandths of a tile.
pub open spec fn tile_centre(x: int, y: int) -> (int, int) {
    (x * UNIT + UNIT / 2, y * UNIT + UNIT / 2)
}

impl PowerUp {
    /// The half-width of the pick-up box.
    pub fn get_size(&self) -> (r: i64)
        ensures
            r == POWERUP_SIZE,
    {
        POWERUP_SIZE
    }

    /// A power-up of a random kind on the tile (x, y).
    pub fn new(y: usize, x: usize) -> (r: PowerUp)
        ensures
            r.pos == (x, y),
            !r.despawn,
    {
        let roll = random_in_range(0, 3);
        PowerUp { power_up_type: PowerUpType::from_roll(roll), pos: (x, y), despawn: false }
    }

    /// Gives the bonus to every player, dead or alive, whose box overlaps
    /// the power-up, and marks it picked up; one bonus sound per pick-up.
    /// Returns whether anyone picked it up.
    pub fn tick(&mut self, players: &mut Vec<Player>, sounds: &mut Vec<SoundEffect>) -> (picked: bool)
        requires
            old(self).pos.0 <= 1_000_000,
            old(self).pos.1 <= 1_000_000,
            forall|i: int| 0 <= i < old(players)@.len() ==> sane(#[trigger] old(players)@[i].position),
            forall|i: int|
                0 <= i < old(players)@.len() && picks(old(players)@[i], *old(self)) ==> can_take(
                    #[trigger] old(players)@[i],
                    old(self).power_up_type,
                ),
        ensures
            final(players)@.len() == old(players)@.len(),
            forall|i: int|
                0 <= i < old(players)@.len() ==> #[trigger] final(players)@[i] == if overlapping(
                    old(players)@[i].position,
                    crate::player::PLAYER_RADIUS as int,
                    centre_pos(old(self).pos),
                    POWERUP_SIZE as int,
                ) {
                    taken(old(players)@[i], old(self).power_up_type)
                } else {
                    old(players)@[i]
                },
            picked == exists|i: int|
                0 <= i < old(players)@.len() && overlapping(
                    #[trigger] old(players)@[i].position,
                    crate::player::PLAYER_RADIUS as int,
                    centre_pos(old(self).pos),
                    POWERUP_SIZE as int,
                ),
            final(self).despawn == (old(self).despawn || picked),
            final(self).pos == old(self).pos,
            final(self).power_up_type == old(self).power_up_type,
            final(sounds)@ == old(sounds)@ + Seq::new(
                pickers(old(players)@, *old(self), old(players)@.len() as int) as nat,
                |_i: int| SoundEffect::BonusPickup,
            ),
    {
        let centre = ((self.pos.0 as i64) * UNIT + UNIT / 2, (self.pos.1 as i64) * UNIT + UNIT / 2);
        assert(centre == centre_pos(self.pos));
        let mut picked = false;
        let mut i: usize = 0;
        while i < players.len()
            invariant
                i <= players@.len(),
                players@.len() == old(players)@.len(),
                centre == centre_pos(self.pos),
                sane(centre),
                self.pos == old(self).pos,
                self.power_up_type == old(self).power_up_type,
                self.despawn == (old(self).despawn || picked),
                forall|k: int|
                    0 <= k < old(players)@.len() ==> sane(#[trigger] old(players)@[k].position),
                forall|k: int|
                    0 <= k < old(players)@.len() && picks(old(players)@[k], *old(self)) ==> can_take(
                        #[trigger] old(players)@[k],
                        old(self).power_up_type,
                    ),
                self.pos == old(self).pos,
                forall|k: int|
                    0 <= k < players@.len() ==> #[trigger] players@[k] == if k < i && overlapping(
                        old(players)@[k].position,
                        crate::player::PLAYER_RADIUS as int,
                        centre_pos(old(self).pos),
                        POWERUP_SIZE as int,
                    ) {
                        taken(old(players)@[k], old(self).power_up_type)
                    } else {
                        old(players)@[k]
                    },
                picked == exists|k: int|
                    0 <= k < i && overlapping(
                        #[trigger] old(players)@[k].position,
                        crate::player::PLAYER_RADIUS as int,
                        centre_pos(old(self).pos),
                        POWERUP_SIZE as int,
                    ),
                0 <= pickers(old(players)@, *old(self), i as int) <= i,
                sounds@ == old(sounds)@ + Seq::new(
                    pickers(old(players)@, *old(self), i as int) as nat,
                    |_i: int| SoundEffect::BonusPickup,
                ),
            decreases players@.len() - i,
        {
            let mut player = players[i];
            assert(player == old(players)@[i as int]);
            if is_colliding_with(player.position, crate::player::PLAYER_RADIUS, centre, POWERUP_SIZE) {
                sounds.push(SoundEffect::BonusPickup);
                self.power_up_type.apply(&mut player);
                players.set(i, player);
                self.despawn = true;
                picked = true;
            }
            assert(sounds@ =~= old(sounds)@ + Seq::new(
                pickers(old(players)@, *old(self), i + 1) as nat,
                |_i: int| SoundEffect::BonusPickup,
            ));
            i = i + 1;
        }
        picked
    }
}

/// Whether the player `p` stands on the power-up `u`.
pub open spec fn picks(p: Player, u: PowerUp) -> bool {
    overlapping(p.position, crate::player::PLAYER_RADIUS as int, centre_pos(u.pos), POWERUP_SIZE as int)
}

/// How many of the first `k` players stand on the power-up `u`.
pub open spec fn pickers(ps: Seq<Player>, u: PowerUp, k: int) -> int
    decreases k,
{
    if k <= 0 {
        0
    } else {
        pickers(ps, u, k - 1) + if picks(ps[k - 1], u) {
            1int
        } else {
            0
        }
    }
}

/// The centre of the tile a power-up lies on, as a position.
pub open spec fn centre_pos(pos: (usize, usize)) -> Pos {
    ((pos.0 * UNIT + UNIT / 2) as i64, (pos.1 * UNIT + UNIT / 2) as i64)
}

} // verus!
