use vstd::prelude::*;

verus! {

/// One of the four grid directions an entity can face or move in.
#[derive(Clone, Copy, Debug, PartialEq, Eq, Structural)]
pub enum Direction {
    Up,
    Down,
    Left,
    Right,
}

/// The four directions, in the order the game always visits them.
pub open spec fn all_directions() -> Seq<Direction> {
    seq![Direction::Up, Direction::Down, Direction::Left, Direction::Right]
}

/// The unit step of a direction on the tile grid: `y` grows downwards.
pub open spec fn offset(d: Direction) -> (int, int) {
    match d {
        Direction::Up => (0, -1),
        Direction::Down => (0, 1),
        Direction::Left => (-1, 0),
        Direction::Right => (1, 0),
    }
}

/// The direction chosen to go from `start` to `goal`: the horizontal
/// difference decides first, then the vertical one; `Up` when they coincide.
pub open spec fn direction_towards(start: (int, int), goal: (int, int)) -> Direction {
    let dx = goal.0 - start.0;
    let dy = goal.1 - start.1;
    if dx > 0 {
        Direction::Right
    } else if dx < 0 {
        Direction::Left
    } else if dy > 0 {
        Direction::Down
    } else {
        Direction::Up
    }
}

/// The direction a die roll in `0..=3` stands for: Up, Down, Left, then
/// Right for every other value.
pub open spec fn roll_direction(roll: int) -> Direction {
    if roll == 0 {
        Direction::Up
    } else if roll == 1 {
        Direction::Down
    } else if roll == 2 {
        Direction::Left
    } else {
        Direction::Right
    }
}

/// The direction a random draw in `0..=3` selects.
pub fn direction_from_roll(roll: u64) -> (d: Direction)
    ensures
        d == roll_direction(roll as int),
{
    match roll {
        0 => Direction::Up,
        1 => Direction::Down,
        2 => Direction::Left,
        _ => Direction::Right,
    }
}

impl Direction {
    /// All four directions, in the order Up, Down, Left, Right.
    pub fn iterator() -> (r: Vec<Direction>)
        ensures
            r@ == all_directions(),
    {
        let r = vec![Direction::Up, Direction::Down, Direction::Left, Direction::Right];
        assert(r@ =~= all_directions());
        r
    }

    /// The unit step of this direction, as a (dx, dy) pair of tiles.
    pub fn to_offset(self) -> (r: (i64, i64))
        ensures
            (r.0 as int, r.1 as int) == offset(self),
    {
        match self {
            Direction::Up => (0, -1),
            Direction::Down => (0, 1),
            Direction::Left => (-1, 0),
            Direction::Right => (1, 0),
        }
    }

    /// The direction to take from `start` towards `goal` (both in the same
    /// fixed-point unit): horizontal movement first, then vertical.
    pub fn get_direction(start: (i64, i64), goal: (i64, i64)) -> (r: Direction)
        ensures
            r == direction_towards((start.0 as int, start.1 as int), (goal.0 as int, goal.1 as int)),
    {
        if goal.0 > start.0 {
            Direction::Right
        } else if goal.0 < start.0 {
            Direction::Left
        } else if goal.1 > start.1 {
            Direction::Down
        } else {
            Direction::Up
        }
    }
}

} // verus!
