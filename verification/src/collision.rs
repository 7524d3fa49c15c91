use vstd::prelude::*;

use crate::direction::Direction;
use crate::map::{is_passable, GameMap};

verus! {

/// Positions and sizes are counted in thousandths of a tile.
pub const UNIT: i64 = 1000;

/// The width of the layer kept between colliding objects, which avoids jitter.
pub const PUSHBACK: i64 = 10;

/// The largest coordinate, in thousandths of a tile, that positions may reach.
pub const COORD_LIMIT: i64 = 1_000_000_000_000;

/// The largest size of a colliding object, in thousandths of a tile.
pub const SIZE_LIMIT: i64 = 1_000_000;

/// A position in thousandths of a tile.
pub type Pos = (i64, i64);

/// Whether a position lies within the coordinates the game works with.
pub open spec fn sane(p: Pos) -> bool {
    -COORD_LIMIT <= p.0 <= COORD_LIMIT && -COORD_LIMIT <= p.1 <= COORD_LIMIT
}

/// Whether a map is small enough for its positions to be sane.
pub open spec fn map_fits(m: GameMap) -> bool {
    m.wf() && m.width <= 1_000_000 && m.height <= 1_000_000
}

/// The absolute value of `x`.
pub open spec fn abs(x: int) -> int {
    if x < 0 {
        -x
    } else {
        x
    }
}

/// Whether two square boxes, of half-widths `size` and `radius` centred on
/// `a` and `b`, overlap.
pub open spec fn overlapping(a: Pos, size: int, b: Pos, radius: int) -> bool {
    abs(a.0 - b.0) < size + radius && abs(a.1 - b.1) < size + radius
}

/// Where an object of half-width `size` at `a`, moving in `direction` into
/// the box of half-width `radius` at `b`, is pushed back to: just outside
/// the box on the side it came from.
pub open spec fn pushed_back(a: Pos, size: int, b: Pos, radius: int, direction: Direction) -> (int, int) {
    let r = radius + PUSHBACK;
    match direction {
        Direction::Up => (a.0 as int, b.1 + r + size),
        Direction::Down => (a.0 as int, b.1 - r - size),
        Direction::Left => (b.0 + r + size, a.1 as int),
        Direction::Right => (b.0 - r - size, a.1 as int),
    }
}

/// The tile a coordinate falls in, negative coordinates counting as tile 0.
pub open spec fn saturated_tile(v: int) -> int {
    if v < 0 {
        0
    } else {
        v / UNIT as int
    }
}

/// Whether the point `(x, y)` lies outside the map or on a tile that blocks movement.
pub open spec fn blocks(m: GameMap, x: int, y: int) -> bool {
    x < 0 || y < 0 || !m.in_map(x / UNIT as int, y / UNIT as int) || !is_passable(
        m.cell(x / UNIT as int, y / UNIT as int),
    )
}

/// Whether two boxes overlap.
pub fn is_colliding_with(a: Pos, size: i64, b: Pos, radius: i64) -> (r: bool)
    requires
        sane(a),
        sane(b),
        0 <= size <= SIZE_LIMIT,
        0 <= radius <= SIZE_LIMIT,
    ensures
        r == overlapping(a, size as int, b, radius as int),
{
    let dx = if a.0 >= b.0 { a.0 - b.0 } else { b.0 - a.0 };
    let dy = if a.1 >= b.1 { a.1 - b.1 } else { b.1 - a.1 };
    dx < size + radius && dy < size + radius
}

/// Pushes an object of half-width `size` at `a`, moving in `direction`, out
/// of the box of half-width `radius` at `b`. `None` when they do not overlap.
pub fn resolve_collision_with(a: Pos, size: i64, b: Pos, radius: i64, direction: Direction) -> (r: Option<Pos>)
    requires
        sane(a),
        sane(b),
        0 <= size <= SIZE_LIMIT,
        0 <= radius <= SIZE_LIMIT,
    ensures
        r is None <==> !overlapping(a, size as int, b, radius as int),
        r matches Some(p) ==> (p.0 as int, p.1 as int) == pushed_back(
            a,
            size as int,
            b,
            radius as int,
            direction,
        ),
{
    if !is_colliding_with(a, size, b, radius) {
        return None;
    }
    let r = radius + PUSHBACK;
    Some(
        match direction {
            Direction::Up => (a.0, b.1 + r + size),
            Direction::Down => (a.0, b.1 - r - size),
            Direction::Left => (b.0 + r + size, a.1),
            Direction::Right => (b.0 - r - size, a.1),
        },
    )
}

/// Keeps an object of half-width `size` inside the map.
pub fn bound(p: Pos, size: i64, map: &GameMap) -> (r: Pos)
    requires
        map_fits(*map),
        0 <= size <= SIZE_LIMIT,
        2 * size <= map.width * UNIT,
        2 * size <= map.height * UNIT,
    ensures
        r.0 == clamp(p.0 as int, size as int, map.width * UNIT - size),
        r.1 == clamp(p.1 as int, size as int, map.height * UNIT - size),
        sane(r),
{
    let max_x = map.width as i64 * UNIT - size;
    let max_y = map.height as i64 * UNIT - size;
    let x = if p.0 < size {
        size
    } else if p.0 > max_x {
        max_x
    } else {
        p.0
    };
    let y = if p.1 < size {
        size
    } else if p.1 > max_y {
        max_y
    } else {
        p.1
    };
    (x, y)
}

/// `v` brought within `lo..=hi`.
pub open spec fn clamp(v: int, lo: int, hi: int) -> int {
    if v < lo {
        lo
    } else if v > hi {
        hi
    } else {
        v
    }
}

/// Whether the point `(x, y)` is outside the map or on a box.
pub fn does_map_collide(map: &GameMap, x: i64, y: i64) -> (r: bool)
    requires
        map.wf(),
    ensures
        r == blocks(*map, x as int, y as int),
{
    if x < 0 || y < 0 {
        return true;
    }
    let tx = x / UNIT;
    let ty = y / UNIT;
    if tx as u64 >= map.width as u64 || ty as u64 >= map.height as u64 {
        return true;
    }
    let e = map.get_elem(tx as usize, ty as usize);
    !is_passable_exec(e)
}

fn is_passable_exec(e: crate::map::MapElement) -> (r: bool)
    ensures
        r == is_passable(e),
{
    e == crate::map::MapElement::Empty || e == crate::map::MapElement::Exit
}

/// The offset, in tiles, of the `k`-th of the nine tiles around an object,
/// visited row by row from the top-left one.
pub open spec fn around(k: int) -> (int, int) {
    (k % 3 - 1, k / 3 - 1)
}

/// The position of an object after the first `k` of the nine tiles around
/// it have pushed it back: each blocking tile, taken as a box of half-width
/// half a tile centred on its middle, pushes the object out when they overlap.
pub open spec fn after_map_pushes(m: GameMap, p: Pos, size: int, direction: Direction, k: int) -> (int, int)
    decreases k,
{
    if k <= 0 {
        (p.0 as int, p.1 as int)
    } else {
        let q = after_map_pushes(m, p, size, direction, k - 1);
        let (dx, dy) = around(k - 1);
        let x = q.0 + dx * UNIT;
        let y = q.1 + dy * UNIT;
        let centre = (
            (saturated_tile(x) * UNIT + UNIT / 2) as i64,
            (saturated_tile(y) * UNIT + UNIT / 2) as i64,
        );
        if blocks(m, x, y) && overlapping((q.0 as i64, q.1 as i64), size, centre, UNIT / 2) {
            pushed_back((q.0 as i64, q.1 as i64), size, centre, UNIT / 2, direction)
        } else {
            q
        }
    }
}

/// Whether one of the first `k` of the nine tiles around an object pushed it back.
pub open spec fn any_map_push(m: GameMap, p: Pos, size: int, direction: Direction, k: int) -> bool
    decreases k,
{
    if k <= 0 {
        false
    } else {
        let q = after_map_pushes(m, p, size, direction, k - 1);
        let (dx, dy) = around(k - 1);
        let x = q.0 + dx * UNIT;
        let y = q.1 + dy * UNIT;
        let centre = (
            (saturated_tile(x) * UNIT + UNIT / 2) as i64,
            (saturated_tile(y) * UNIT + UNIT / 2) as i64,
        );
        any_map_push(m, p, size, direction, k - 1) || (blocks(m, x, y) && overlapping(
            (q.0 as i64, q.1 as i64),
            size,
            centre,
            UNIT / 2,
        ))
    }
}

/// Whether a position lies within `margin` thousandths of a tile of the map.
pub open spec fn near_map(m: GameMap, p: (int, int), margin: int) -> bool {
    -margin <= p.0 <= m.width * UNIT + margin && -margin <= p.1 <= m.height * UNIT + margin
}

/// Pushes an object of half-width `size`, moving in `direction`, out of the
/// blocking tiles among the nine around it, in turn. Returns the new
/// position and whether any tile pushed it.
pub fn collide_map(p: Pos, size: i64, map: &GameMap, direction: Direction) -> (r: (Pos, bool))
    requires
        map_fits(*map),
        0 <= size <= UNIT,
        -COORD_LIMIT + 30 * UNIT <= p.0 <= COORD_LIMIT - 30 * UNIT,
        -COORD_LIMIT + 30 * UNIT <= p.1 <= COORD_LIMIT - 30 * UNIT,
    ensures
        (r.0.0 as int, r.0.1 as int) == after_map_pushes(*map, p, size as int, direction, 9),
        r.1 == any_map_push(*map, p, size as int, direction, 9),
        abs(r.0.0 - p.0) <= 28 * UNIT,
        abs(r.0.1 - p.1) <= 28 * UNIT,
        near_map(*map, (p.0 as int, p.1 as int), 0) ==> near_map(*map, (r.0.0 as int, r.0.1 as int), 28 * UNIT),
{
    let mut q = p;
    let mut hit = false;
    let mut k: i64 = 0;
    while k < 9
        invariant
            0 <= k <= 9,
            map_fits(*map),
            0 <= size <= UNIT,
            (q.0 as int, q.1 as int) == after_map_pushes(*map, p, size as int, direction, k as int),
            hit == any_map_push(*map, p, size as int, direction, k as int),
            abs(q.0 - p.0) <= 3100 * k,
            abs(q.1 - p.1) <= 3100 * k,
            -COORD_LIMIT + 30 * UNIT <= p.0 <= COORD_LIMIT - 30 * UNIT,
            -COORD_LIMIT + 30 * UNIT <= p.1 <= COORD_LIMIT - 30 * UNIT,
        decreases 9 - k,
    {
        let dx = k % 3 - 1;
        let dy = k / 3 - 1;
        let x = q.0 + dx * UNIT;
        let y = q.1 + dy * UNIT;
        if does_map_collide(map, x, y) {
            let cx = if x < 0 { 0 } else { x / UNIT } * UNIT + UNIT / 2;
            let cy = if y < 0 { 0 } else { y / UNIT } * UNIT + UNIT / 2;
            assert(sane((cx, cy)));
            if let Some(np) = resolve_collision_with(q, size, (cx, cy), UNIT / 2, direction) {
                q = np;
                hit = true;
            }
        }
        k = k + 1;
    }
    (q, hit)
}

} // verus!
