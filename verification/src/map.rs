use vstd::prelude::*;

use crate::direction::{all_directions, direction_from_roll, offset, Direction};
use crate::rng::random_in_range;
use crate::strings::push_char;

verus! {

/// The content of one tile of the map.
#[derive(Clone, Copy, Debug, PartialEq, Eq, Structural)]
pub enum MapElement {
    /// Nothing: walkable, explosions go through it.
    Empty,
    /// A box that an explosion destroys; the explosion stops on it.
    Breakable,
    /// A box nothing destroys; explosions and players stop on it.
    Unbreakable,
    /// The exit of a campaign level, walkable.
    Exit,
}

/// The character that represents a tile in the debug display of a map.
pub open spec fn element_char(e: MapElement) -> char {
    match e {
        MapElement::Empty => ' ',
        MapElement::Breakable => '#',
        MapElement::Unbreakable => 'X',
        MapElement::Exit => 'O',
    }
}

/// Whether a tile lets players and enemies walk on it.
pub open spec fn is_passable(e: MapElement) -> bool {
    e == MapElement::Empty || e == MapElement::Exit
}

impl MapElement {
    /// The character of this tile in the debug display of a map.
    pub fn value(&self) -> (c: char)
        ensures
            c == element_char(*self),
    {
        match *self {
            MapElement::Empty => ' ',
            MapElement::Breakable => '#',
            MapElement::Unbreakable => 'X',
            MapElement::Exit => 'O',
        }
    }
}

/// Whether map generation removes a breakable box on the draw `roll` in
/// `1..=100`, with `cheesiness` percent of boxes removed (at most all).
pub fn box_removed(roll: u64, cheesiness: u8) -> (r: bool)
    ensures
        r == (roll <= if cheesiness > 100 { 100 } else { cheesiness as int }),
{
    let limit: u64 = if cheesiness > 100 { 100 } else { cheesiness as u64 };
    roll <= limit
}

/// A player's spawn location in a multiplayer game.
#[derive(Clone, Copy, Debug, PartialEq, Eq, Structural)]
pub struct SpawnPoint {
    /// The direction the player faces when spawning.
    pub direction: Direction,
    /// The horizontal tile coordinate.
    pub x: i32,
    /// The vertical tile coordinate.
    pub y: i32,
}

impl SpawnPoint {
    /// A spawn point at the given tile, facing a random direction.
    pub fn init(x: i32, y: i32) -> (s: SpawnPoint)
        ensures
            s.x == x,
            s.y == y,
    {
        let roll = random_in_range(0, 3);
        SpawnPoint { direction: direction_from_roll(roll), x, y }
    }

    /// The middle of the spawn point's tile, in thousandths of a tile.
    pub fn position(&self) -> (r: (i64, i64))
        ensures
            r == ((self.x * 1000 + 500) as i64, (self.y * 1000 + 500) as i64),
    {
        (self.x as i64 * 1000 + 500, self.y as i64 * 1000 + 500)
    }
}

/// How the spawn points of a generated map are laid out.
#[derive(Clone, Copy, Debug, PartialEq, Eq, Structural)]
pub enum MapType {
    /// One spawn in each corner.
    Corners,
    /// The four corners, plus six spawns around the middle.
    Arena,
    /// Eight spawns on the borders, two per team.
    Teams,
    /// Spawns placed at random, away from each other.
    Random,
}

/// The parameters of map generation.
#[derive(Clone, Copy, Debug, PartialEq, Eq, Structural)]
pub struct MapSettings {
    pub width: u8,
    pub height: u8,
    /// The percentage of breakable boxes removed at random.
    pub cheesiness: u8,
    /// How many spawn points a random map gets.
    pub spawns: u8,
    /// The half-width of the square cleared around a random spawn.
    pub spawn_size: u8,
    /// How far apart random spawns must be, on both axes.
    pub safe_range: u8,
    pub map_type: MapType,
    /// Whether an unbreakable wall surrounds the map.
    pub walls: bool,
    /// How many failed placements a random map tolerates.
    pub attempts: u8,
}

impl MapSettings {
    /// The four-player corner map.
    pub fn corners() -> (s: MapSettings)
        ensures
            s == (MapSettings {
                width: 15,
                height: 15,
                cheesiness: 5,
                spawns: 4,
                spawn_size: 1,
                safe_range: 3,
                map_type: MapType::Corners,
                walls: true,
                attempts: 100,
            }),
    {
        MapSettings {
            width: 15,
            height: 15,
            cheesiness: 5,
            spawns: 4,
            spawn_size: 1,
            safe_range: 3,
            map_type: MapType::Corners,
            walls: true,
            attempts: 100,
        }
    }

    /// The large ten-player arena.
    pub fn arena() -> (s: MapSettings)
        ensures
            s == (MapSettings {
                width: 37,
                height: 21,
                cheesiness: 7,
                spawns: 10,
                spawn_size: 1,
                safe_range: 3,
                map_type: MapType::Arena,
                walls: true,
                attempts: 100,
            }),
    {
        MapSettings {
            width: 37,
            height: 21,
            cheesiness: 7,
            spawns: 10,
            spawn_size: 1,
            safe_range: 3,
            map_type: MapType::Arena,
            walls: true,
            attempts: 100,
        }
    }

    /// The eight-player team map.
    pub fn teams() -> (s: MapSettings)
        ensures
            s == (MapSettings {
                width: 21,
                height: 21,
                cheesiness: 2,
                spawns: 8,
                spawn_size: 0,
                safe_range: 3,
                map_type: MapType::Teams,
                walls: true,
                attempts: 100,
            }),
    {
        MapSettings {
            width: 21,
            height: 21,
            cheesiness: 2,
            spawns: 8,
            spawn_size: 0,
            safe_range: 3,
            map_type: MapType::Teams,
            walls: true,
            attempts: 100,
        }
    }

    /// A corner-sized map with random spawns.
    pub fn default_cheese() -> (s: MapSettings)
        ensures
            s == (MapSettings {
                width: 15,
                height: 15,
                cheesiness: 5,
                spawns: 4,
                spawn_size: 1,
                safe_range: 3,
                map_type: MapType::Random,
                walls: true,
                attempts: 100,
            }),
    {
        MapSettings {
            width: 15,
            height: 15,
            cheesiness: 5,
            spawns: 4,
            spawn_size: 1,
            safe_range: 3,
            map_type: MapType::Random,
            walls: true,
            attempts: 100,
        }
    }

    /// Generates the map these settings describe.
    pub fn new_map(settings: Self) -> (r: Option<GameMap>)
        requires
            settings.map_type != MapType::Random ==> settings.width >= 2 && settings.height >= 2,
        ensures
            r matches Some(m) ==> m.wf() && generated_by(m, settings),
            settings.map_type != MapType::Random ==> r is Some,
            (settings.map_type == MapType::Random && settings.attempts == 0) ==> r is None,
            random_layout_owed(settings) ==> r is Some,
    {
        GameMap::new(settings)
    }
}

impl Default for MapSettings {
    fn default() -> (s: MapSettings)
        ensures
            s == (MapSettings {
                width: 15,
                height: 15,
                cheesiness: 5,
                spawns: 4,
                spawn_size: 1,
                safe_range: 3,
                map_type: MapType::Corners,
                walls: true,
                attempts: 100,
            }),
    {
        Self::corners()
    }
}

/// The grid of tiles the game takes place on, with its spawn points.
pub struct GameMap {
    pub width: usize,
    pub height: usize,
    pub content: Vec<Vec<MapElement>>,
    pub spawns: Vec<SpawnPoint>,
}

/// A campaign level read from its text description.
pub struct LevelData {
    pub map: GameMap,
    /// The tile where the player starts.
    pub player_spawn: (usize, usize),
    /// The tiles where enemies start, in reading order.
    pub enemy_spawns: Vec<(usize, usize)>,
    /// The tile of the exit, hidden under a breakable box.
    pub exit_pos: (usize, usize),
}

/// The absolute value of `x`.
pub open spec fn abs(x: int) -> int {
    if x < 0 {
        -x
    } else {
        x
    }
}

/// Whether `(x, y)` lies in the square of half-width `size` centred on `(cx, cy)`.
pub open spec fn in_square(x: int, y: int, cx: int, cy: int, size: int) -> bool {
    cx - size <= x <= cx + size && cy - size <= y <= cy + size
}

/// Whether `(x, y)` is one of the three tiles of a corner of a `w` by `h`
/// map: the corner itself and its two neighbours along the border.
pub open spec fn corner_tile(x: int, y: int, w: int, h: int) -> bool {
    let left = x == 0 || x == w - 1;
    let top = y == 0 || y == h - 1;
    let next_x = x == 1 || x == w - 2;
    let next_y = y == 1 || y == h - 2;
    (left && top) || (next_x && top) || (left && next_y)
}

/// The grid after breakable boxes in the square of half-width `size` around
/// `(cx, cy)` have been removed.
pub open spec fn cleared(cells: Seq<Seq<MapElement>>, cx: int, cy: int, size: int) -> Seq<Seq<MapElement>> {
    Seq::new(
        cells.len(),
        |y: int|
            Seq::new(
                cells[y].len(),
                |x: int|
                    if in_square(x, y, cx, cy, size) && cells[y][x] == MapElement::Breakable {
                        MapElement::Empty
                    } else {
                        cells[y][x]
                    },
            ),
    )
}

/// The tiles cleared by the team layout of a `w` by `h` map before its
/// corners are set: one tile per spawn, and the square of half-width 2 in the middle.
pub open spec fn team_cleared(x: int, y: int, w: int, h: int) -> bool {
    ||| (x == 3 && y == 0)
    ||| (x == w - 4 && y == 0)
    ||| (x == 3 && y == h - 1)
    ||| (x == w - 4 && y == h - 1)
    ||| (x == 0 && y == 3)
    ||| (x == w - 1 && y == 3)
    ||| (x == 0 && y == h - 4)
    ||| (x == w - 1 && y == h - 4)
    ||| in_square(x, y, w / 2, h / 2, 2)
}

/// The three tiles of the top-left corner.
pub open spec fn top_left_tile(x: int, y: int) -> bool {
    (x == 0 && y == 0) || (x == 1 && y == 0) || (x == 0 && y == 1)
}

/// The three tiles of the top-right corner of a map `w` wide.
pub open spec fn top_right_tile(x: int, y: int, w: int) -> bool {
    (x == w - 1 && y == 0) || (x == w - 2 && y == 0) || (x == w - 1 && y == 1)
}

/// The three tiles of the bottom-left corner of a map `h` high.
pub open spec fn bottom_left_tile(x: int, y: int, h: int) -> bool {
    (x == 0 && y == h - 1) || (x == 1 && y == h - 1) || (x == 0 && y == h - 2)
}

/// The three tiles of the bottom-right corner of a `w` by `h` map.
pub open spec fn bottom_right_tile(x: int, y: int, w: int, h: int) -> bool {
    (x == w - 1 && y == h - 1) || (x == w - 2 && y == h - 1) || (x == w - 1 && y == h - 2)
}

/// One corner step of the team layout on a tile holding `prev`: the square
/// of half-width 1 around `(cx, cy)` loses its boxes, then the corner tiles
/// get a breakable box.
pub open spec fn team_corner_step(prev: MapElement, x: int, y: int, cx: int, cy: int, corner: bool) -> MapElement {
    if corner {
        MapElement::Breakable
    } else if in_square(x, y, cx, cy, 1) && prev == MapElement::Breakable {
        MapElement::Empty
    } else {
        prev
    }
}

/// The tile at `(x, y)` of a `w` by `h` map after the team layout, when it held `e` before.
pub open spec fn team_tile(e: MapElement, x: int, y: int, w: int, h: int) -> MapElement {
    let p0 = if team_cleared(x, y, w, h) && e == MapElement::Breakable {
        MapElement::Empty
    } else {
        e
    };
    let p1 = team_corner_step(p0, x, y, 1, 1, top_left_tile(x, y));
    let p2 = team_corner_step(p1, x, y, w - 2, 1, top_right_tile(x, y, w));
    let p3 = team_corner_step(p2, x, y, 1, h - 2, bottom_left_tile(x, y, h));
    team_corner_step(p3, x, y, w - 2, h - 2, bottom_right_tile(x, y, w, h))
}

/// Whether the team layout of a `w` by `h` map empties `(x, y)` when it
/// holds a breakable box and is no corner tile.
pub open spec fn team_square(x: int, y: int, w: int, h: int) -> bool {
    ||| team_cleared(x, y, w, h)
    ||| in_square(x, y, 1, 1, 1)
    ||| in_square(x, y, w - 2, 1, 1)
    ||| in_square(x, y, 1, h - 2, 1)
    ||| in_square(x, y, w - 2, h - 2, 1)
}

/// The spawn points of the arena layout of a `w` by `h` map, after those of the corners.
pub open spec fn arena_spawns(w: int, h: int) -> Seq<SpawnPoint> {
    let qx = (w - 1) / 4;
    let qy = (h - 1) / 4 + 1;
    seq![
        SpawnPoint { direction: Direction::Down, x: (w / 2) as i32, y: 0 },
        SpawnPoint { direction: Direction::Up, x: (w / 2) as i32, y: (h - 1) as i32 },
        SpawnPoint { direction: Direction::Up, x: qx as i32, y: qy as i32 },
        SpawnPoint { direction: Direction::Up, x: (w - qx - 1) as i32, y: qy as i32 },
        SpawnPoint { direction: Direction::Down, x: qx as i32, y: (h - qy - 1) as i32 },
        SpawnPoint { direction: Direction::Down, x: (w - qx - 1) as i32, y: (h - qy - 1) as i32 },
    ]
}

/// Whether `(x, y)` lies in one of the squares of half-width 1 cleared
/// around the arena spawns of a `w` by `h` map.
pub open spec fn arena_square(x: int, y: int, w: int, h: int) -> bool {
    let qx = (w - 1) / 4;
    let qy = (h - 1) / 4 + 1;
    ||| in_square(x, y, w / 2, 0, 1)
    ||| in_square(x, y, w / 2, h - 1, 1)
    ||| in_square(x, y, qx, qy, 1)
    ||| in_square(x, y, w - qx - 1, qy, 1)
    ||| in_square(x, y, qx, h - qy - 1, 1)
    ||| in_square(x, y, w - qx - 1, h - qy - 1, 1)
}

/// The spawn points of the corner layout of a `w` by `h` map.
pub open spec fn corner_spawns(w: int, h: int) -> Seq<SpawnPoint> {
    seq![
        SpawnPoint { direction: Direction::Right, x: 0, y: 0 },
        SpawnPoint { direction: Direction::Left, x: (w - 1) as i32, y: 0 },
        SpawnPoint { direction: Direction::Right, x: 0, y: (h - 1) as i32 },
        SpawnPoint { direction: Direction::Left, x: (w - 1) as i32, y: (h - 1) as i32 },
    ]
}

/// The spawn points of the team layout of a `w` by `h` map.
pub open spec fn team_spawns(w: int, h: int) -> Seq<SpawnPoint> {
    seq![
        SpawnPoint { direction: Direction::Right, x: 3, y: 0 },
        SpawnPoint { direction: Direction::Left, x: (w - 4) as i32, y: 0 },
        SpawnPoint { direction: Direction::Right, x: 3, y: (h - 1) as i32 },
        SpawnPoint { direction: Direction::Left, x: (w - 4) as i32, y: (h - 1) as i32 },
        SpawnPoint { direction: Direction::Down, x: 0, y: 3 },
        SpawnPoint { direction: Direction::Down, x: (w - 1) as i32, y: 3 },
        SpawnPoint { direction: Direction::Up, x: 0, y: (h - 4) as i32 },
        SpawnPoint { direction: Direction::Up, x: (w - 1) as i32, y: (h - 4) as i32 },
    ]
}

/// Whether the tile `(x, y)` of a freshly generated `w` by `h` grid (before
/// spawns, removals and walls) holds an unbreakable pillar: both coordinates odd.
pub open spec fn pillar(x: int, y: int) -> bool {
    x % 2 == 1 && y % 2 == 1
}

/// What a tile of a fresh grid holds once boxes have been laid and some
/// removed: a pillar where both coordinates are odd, else a box or nothing.
pub open spec fn base_tile(e: MapElement, x: int, y: int) -> bool {
    if pillar(x, y) {
        e == MapElement::Unbreakable
    } else {
        e == MapElement::Empty || e == MapElement::Breakable
    }
}

/// What holds of the tile `e` at `(x, y)` of a map that `s` generate,
/// counted inside the surrounding wall, whatever the random draws.
pub open spec fn generated_tile(e: MapElement, x: int, y: int, s: MapSettings) -> bool {
    let w = s.width as int;
    let h = s.height as int;
    match s.map_type {
        MapType::Corners => if corner_tile(x, y, w, h) {
            e == MapElement::Empty
        } else {
            base_tile(e, x, y)
        },
        MapType::Arena => if corner_tile(x, y, w, h) {
            e == MapElement::Empty
        } else if !pillar(x, y) && arena_square(x, y, w, h) {
            e == MapElement::Empty
        } else {
            base_tile(e, x, y)
        },
        MapType::Teams => if w < 5 || h < 5 {
            true
        } else if corner_tile(x, y, w, h) {
            e == MapElement::Breakable
        } else if !pillar(x, y) && team_square(x, y, w, h) {
            e == MapElement::Empty
        } else {
            base_tile(e, x, y)
        },
        MapType::Random => base_tile(e, x, y),
    }
}

/// The spawn points that `s` lay out, before the wall moves them; for a
/// random layout only their number is fixed.
pub open spec fn layout_spawns(s: MapSettings) -> Seq<SpawnPoint> {
    let w = s.width as int;
    let h = s.height as int;
    match s.map_type {
        MapType::Corners => corner_spawns(w, h),
        MapType::Arena => corner_spawns(w, h) + arena_spawns(w, h),
        MapType::Teams => team_spawns(w, h),
        MapType::Random => Seq::empty(),
    }
}

/// Whether every tile of `m` whose coordinates differ in parity lies more
/// than `safe_range` tiles, on some axis, from each spawn point of `m`, so
/// that any such tile drawn suits a new random spawn.
pub open spec fn all_spots_spaced(m: GameMap, safe_range: int) -> bool {
    forall|x: int, y: int, i: int|
        #![trigger m.spawns@[i], m.cell(x, y)]
        m.in_map(x, y) && x % 2 != y % 2 && 0 <= i < m.spawns@.len() ==> abs(m.spawns@[i].x - x) > safe_range
            || abs(m.spawns@[i].y - y) > safe_range
}

/// Whether the spawn points `ps` are spread as a random layout places
/// them: each on a tile whose coordinates differ in parity, and any two
/// more than `safe_range` tiles apart on some axis.
pub open spec fn spread_spawns(ps: Seq<SpawnPoint>, safe_range: int) -> bool {
    &&& forall|i: int| 0 <= i < ps.len() ==> (#[trigger] ps[i]).x % 2 != ps[i].y % 2
    &&& forall|i: int, j: int|
        0 <= i < j < ps.len() ==> abs(#[trigger] ps[i].x - #[trigger] ps[j].x) > safe_range || abs(ps[i].y - ps[j].y)
            > safe_range
}

/// Whether no breakable box of `m` lies in the square of half-width `size`
/// around any spawn point of `ps`.
pub open spec fn boxes_cleared_around(m: GameMap, ps: Seq<SpawnPoint>, size: int) -> bool {
    forall|i: int, x: int, y: int|
        0 <= i < ps.len() && m.in_map(x, y) && in_square(x, y, (#[trigger] ps[i]).x as int, ps[i].y as int, size)
            ==> #[trigger] m.cell(x, y) != MapElement::Breakable
}

/// Whether a random layout with the settings `s` succeeds whatever the
/// draws: it has attempts and places no spawn, or places one spawn on a map
/// of at least four tiles a side, where any first draw suits.
pub open spec fn random_layout_owed(s: MapSettings) -> bool {
    &&& s.map_type == MapType::Random
    &&& s.attempts != 0
    &&& (s.spawns == 0 || (s.spawns == 1 && s.width >= 4 && s.height >= 4))
}

/// What holds of every map that `s` generate, whatever the random draws:
/// its size, its wall, its tiles, and its spawn points.
pub open spec fn generated_by(m: GameMap, s: MapSettings) -> bool {
    let w = s.width as int;
    let h = s.height as int;
    let off: int = if s.walls { 1 } else { 0 };
    &&& m.width == w + 2 * off
    &&& m.height == h + 2 * off
    &&& forall|x: int, y: int|
        m.in_map(x, y) && (x < off || y < off || x >= w + off || y >= h + off)
            ==> #[trigger] m.cell(x, y) == MapElement::Unbreakable
    &&& forall|x: int, y: int|
        off <= x < w + off && off <= y < h + off ==> generated_tile(
            #[trigger] m.cell(x, y),
            x - off,
            y - off,
            s,
        )
    &&& if s.map_type == MapType::Random {
        &&& m.spawns@.len() == s.spawns
        &&& m.spawns_in_map()
        &&& forall|i: int|
            0 <= i < m.spawns@.len() ==> off <= (#[trigger] m.spawns@[i]).x < w + off && off <= m.spawns@[i].y < h
                + off
        &&& spread_spawns(m.spawns@, s.safe_range as int)
        &&& boxes_cleared_around(m, m.spawns@, s.spawn_size as int)
    } else {
        m.spawns@ == layout_spawns(s).map_values(|p: SpawnPoint| shifted(p, off))
    }
}

/// The index of the first line end at or after `i` in `t`, or the length
/// of `t` when there is none.
pub open spec fn line_end(t: Seq<char>, i: int) -> int
    decreases t.len() - i,
{
    if i >= t.len() {
        t.len() as int
    } else if t[i] == '\n' {
        i
    } else {
        line_end(t, i + 1)
    }
}

/// A line end found at or after `i` lies between `i` and the end of `t`,
/// and nothing before it is a line end.
pub proof fn lemma_line_end_bounds(t: Seq<char>, i: int)
    requires
        0 <= i <= t.len(),
    ensures
        i <= line_end(t, i) <= t.len(),
        line_end(t, i) < t.len() ==> t[line_end(t, i)] == '\n',
        forall|j: int| i <= j < line_end(t, i) ==> t[j] != '\n',
    decreases t.len() - i,
{
    if i < t.len() && t[i] != '\n' {
        lemma_line_end_bounds(t, i + 1);
    }
}

/// The lines of `t` from index `i` on, split the way `str::lines` splits
/// them: at each `\n`, dropping a `\r` just before it, with no empty line
/// after a final `\n`.
pub open spec fn lines_from(t: Seq<char>, i: int) -> Seq<Seq<char>>
    decreases t.len() + 1 - i,
{
    if i < 0 || i >= t.len() {
        Seq::empty()
    } else {
        let e = line_end(t, i);
        proof {
            lemma_line_end_bounds(t, i);
        }
        let raw = t.subrange(i, e);
        let line = if e < t.len() && raw.len() > 0 && raw.last() == '\r' {
            raw.drop_last()
        } else {
            raw
        };
        seq![line] + lines_from(t, e + 1)
    }
}

/// Whether every character of `t` is an ASCII character.
pub open spec fn is_ascii_seq(t: Seq<char>) -> bool {
    forall|i: int| 0 <= i < t.len() ==> '\0' <= #[trigger] t[i] <= '\u{7f}'
}

/// The tile a character of a level description stands for.
pub open spec fn level_elem(c: char) -> MapElement {
    if c == 'X' {
        MapElement::Unbreakable
    } else if c == '#' || c == 'O' {
        MapElement::Breakable
    } else {
        MapElement::Empty
    }
}

/// The positions of the first `n` characters of `line` (row `y`) equal to `c`, left to right.
pub open spec fn marks_in_row(line: Seq<char>, y: int, c: char, n: int) -> Seq<(int, int)>
    decreases n,
{
    if n <= 0 {
        Seq::empty()
    } else if line[n - 1] == c {
        marks_in_row(line, y, c, n - 1).push((n - 1, y))
    } else {
        marks_in_row(line, y, c, n - 1)
    }
}

/// The positions of the characters equal to `c` in the first `n` lines, in reading order.
pub open spec fn marks(lines: Seq<Seq<char>>, c: char, n: int) -> Seq<(int, int)>
    decreases n,
{
    if n <= 0 {
        Seq::empty()
    } else {
        marks(lines, c, n - 1) + marks_in_row(lines[n - 1], n - 1, c, lines[n - 1].len() as int)
    }
}

/// The last of `ps`, or the origin when `ps` is empty.
pub open spec fn last_or_origin(ps: Seq<(int, int)>) -> (int, int) {
    if ps.len() == 0 {
        (0, 0)
    } else {
        ps.last()
    }
}

/// The tile that the first `k` lines of a level leave at the index `f` of
/// a grid `w` tiles wide, read row after row: the characters of line `y`
/// go to the indices from `y * w` on, so a line longer than `w` runs on
/// into the next row; the last character written at `f` decides, and an
/// index no character reaches is empty.
pub open spec fn flat_tile(lines: Seq<Seq<char>>, w: int, f: int, k: int) -> MapElement
    decreases k,
{
    if k <= 0 {
        MapElement::Empty
    } else if (k - 1) * w <= f < (k - 1) * w + lines[k - 1].len() {
        level_elem(lines[k - 1][f - (k - 1) * w])
    } else {
        flat_tile(lines, w, f, k - 1)
    }
}

/// The length in bytes of a line, in UTF-8: how wide the grid of a level is.
pub open spec fn line_width(line: Seq<char>) -> int {
    vstd::utf8::encode_utf8(line).len() as int
}

/// How many bytes the UTF-8 encoding of `c` takes.
pub open spec fn char_width(c: char) -> int {
    if c as u32 <= 0x7F {
        1
    } else if c as u32 <= 0x7FF {
        2
    } else if c as u32 <= 0xFFFF {
        3
    } else {
        4
    }
}

/// Whether every character of the lines `lines` lands inside a grid as wide
/// as the first line (in bytes) and with one row per line.
pub open spec fn fits_grid(lines: Seq<Seq<char>>) -> bool {
    forall|y: int|
        0 <= y < lines.len() ==> y * line_width(lines[0]) + (#[trigger] lines[y]).len() <= line_width(lines[0])
            * lines.len()
}

/// Whether `level` is the level described by the lines `lines`: one row
/// per line, as wide as the first line is long in bytes, each tile given by the character
/// written at its place when the lines are laid row after row (a longer
/// line runs on into the next row; a place no character reaches is empty,
/// as are the places a shorter line leaves), the player on the last `P`,
/// the enemies on the `E`s in reading order, the exit on the last `O`.
pub open spec fn describes(level: LevelData, lines: Seq<Seq<char>>) -> bool {
    let m = level.map;
    &&& lines.len() > 0
    &&& m.wf()
    &&& m.width == line_width(lines[0])
    &&& m.height == lines.len()
    &&& forall|x: int, y: int|
        m.in_map(x, y) ==> #[trigger] m.cell(x, y) == flat_tile(lines, m.width as int, y * m.width + x, m.height as int)
    &&& (level.player_spawn.0 as int, level.player_spawn.1 as int) == last_or_origin(
        marks(lines, 'P', lines.len() as int),
    )
    &&& (level.exit_pos.0 as int, level.exit_pos.1 as int) == last_or_origin(
        marks(lines, 'O', lines.len() as int),
    )
    &&& level.enemy_spawns@.map_values(|p: (usize, usize)| (p.0 as int, p.1 as int)) == marks(
        lines,
        'E',
        lines.len() as int,
    )
    &&& m.spawns@.len() == 1
    &&& m.spawns@[0].x == level.player_spawn.0
    &&& m.spawns@[0].y == level.player_spawn.1
}

/// The neighbours of `(x, y)` in the directions `dirs`, in that order,
/// that hold nothing (tiles outside the map count as empty).
pub open spec fn empty_neighbours(m: GameMap, x: int, y: int, dirs: Seq<Direction>) -> Seq<(int, int)>
    decreases dirs.len(),
{
    if dirs.len() == 0 {
        Seq::empty()
    } else {
        let (dx, dy) = offset(dirs[0]);
        let rest = empty_neighbours(m, x, y, dirs.drop_first());
        if m.elem_at(x + dx, y + dy) == MapElement::Empty {
            seq![(x + dx, y + dy)] + rest
        } else {
            rest
        }
    }
}

/// The characters of one row of the debug display, without its line end.
pub open spec fn rendered_row(row: Seq<MapElement>) -> Seq<char> {
    row.map_values(|e: MapElement| element_char(e))
}

/// The debug display of the rows `rows`: each row's characters followed by a line end.
pub open spec fn rendered_rows(rows: Seq<Seq<MapElement>>) -> Seq<char>
    decreases rows.len(),
{
    if rows.len() == 0 {
        Seq::empty()
    } else {
        rendered_rows(rows.drop_last()) + rendered_row(rows.last()) + seq!['\n']
    }
}

/// The tile at `(x, y)` once `m` is surrounded by a wall.
pub open spec fn walled_cell(m: GameMap, x: int, y: int) -> MapElement {
    if 1 <= x <= m.width && 1 <= y <= m.height {
        m.cell(x - 1, y - 1)
    } else {
        MapElement::Unbreakable
    }
}

/// A spawn point moved by `off` tiles along both axes.
pub open spec fn shifted(p: SpawnPoint, off: int) -> SpawnPoint {
    SpawnPoint { direction: p.direction, x: (p.x + off) as i32, y: (p.y + off) as i32 }
}

/// The characters of `text`, in order.
pub(crate) fn chars_of(text: &str) -> (r: Vec<char>)
    ensures
        r@ == text@,
{
    broadcast use vstd::string::axiom_spec_iter;

    let mut cs: Vec<char> = Vec::new();
    for c in it: text.chars()
        invariant
            cs@ == it.seq().take(it.index() as int),
            it.seq() == text@,
    {
        cs.push(c);
    }
    cs
}

impl GameMap {
    /// The tiles of the map, row by row.
    pub open spec fn cells(&self) -> Seq<Seq<MapElement>> {
        self.content@.map_values(|r: Vec<MapElement>| r@)
    }

    /// The map is a `width` by `height` rectangle of tiles.
    pub open spec fn wf(&self) -> bool {
        &&& self.cells().len() == self.height
        &&& forall|y: int| 0 <= y < self.height ==> #[trigger] self.cells()[y].len() == self.width
    }

    /// Whether `(x, y)` is a tile of the map.
    pub open spec fn in_map(&self, x: int, y: int) -> bool {
        0 <= x < self.width && 0 <= y < self.height
    }

    /// The tile at `(x, y)`, meaningful when it lies in the map.
    pub open spec fn cell(&self, x: int, y: int) -> MapElement {
        self.cells()[y][x]
    }

    /// What a lookup of `(x, y)` gives: the tile, or `Empty` outside the map.
    pub open spec fn elem_at(&self, x: int, y: int) -> MapElement {
        if self.in_map(x, y) {
            self.cell(x, y)
        } else {
            MapElement::Empty
        }
    }

    fn set_cell(&mut self, x: usize, y: usize, e: MapElement)
        requires
            old(self).wf(),
            old(self).in_map(x as int, y as int),
        ensures
            final(self).wf(),
            final(self).width == old(self).width,
            final(self).height == old(self).height,
            final(self).spawns == old(self).spawns,
            final(self).cells() == old(self).cells().update(
                y as int,
                old(self).cells()[y as int].update(x as int, e),
            ),
    {
        assert(self.cells()[y as int] == self.content@[y as int]@);
        self.content[y][x] = e;
        assert(self.content@.map_values(|r: Vec<MapElement>| r@) =~= old(self).cells().update(
            y as int,
            old(self).cells()[y as int].update(x as int, e),
        ));
    }

    fn tile(&self, x: usize, y: usize) -> (e: MapElement)
        requires
            self.wf(),
            self.in_map(x as int, y as int),
        ensures
            e == self.cell(x as int, y as int),
    {
        assert(self.cells()[y as int] == self.content@[y as int]@);
        self.content[y][x]
    }

    /// A `width` by `height` map with every tile empty and no spawn point.
    fn empty(width: u8, height: u8) -> (m: GameMap)
        ensures
            m.wf(),
            m.width == width,
            m.height == height,
            m.spawns@.len() == 0,
            forall|x: int, y: int| m.in_map(x, y) ==> #[trigger] m.cell(x, y) == MapElement::Empty,
    {
        let mut content: Vec<Vec<MapElement>> = Vec::new();
        let mut y: u8 = 0;
        while y < height
            invariant
                y <= height,
                content@.len() == y,
                forall|j: int|
                    0 <= j < y ==> #[trigger] content@[j]@ == Seq::new(
                        width as nat,
                        |i: int| MapElement::Empty,
                    ),
            decreases height - y,
        {
            let mut row: Vec<MapElement> = Vec::new();
            let mut x: u8 = 0;
            while x < width
                invariant
                    x <= width,
                    row@.len() == x,
                    forall|i: int| 0 <= i < x ==> row@[i] == MapElement::Empty,
                decreases width - x,
            {
                row.push(MapElement::Empty);
                x = x + 1;
            }
            assert(row@ =~= Seq::new(width as nat, |i: int| MapElement::Empty));
            content.push(row);
            assert(content@[y as int]@ == row@);
            y = y + 1;
        }
        let m = GameMap { width: width as usize, height: height as usize, content, spawns: Vec::new() };
        assert forall|x: int, y: int| m.in_map(x, y) implies #[trigger] m.cell(x, y) == MapElement::Empty by {
            assert(m.cells()[y] == content@[y]@);
        }
        m
    }

    /// Puts an unbreakable pillar on every tile whose coordinates are both odd.
    fn grid(self) -> (r: GameMap)
        requires
            self.wf(),
            self.width <= 255,
            self.height <= 255,
        ensures
            r.wf(),
            r.width == self.width,
            r.height == self.height,
            r.spawns == self.spawns,
            forall|x: int, y: int|
                r.in_map(x, y) ==> #[trigger] r.cell(x, y) == if pillar(x, y) {
                    MapElement::Unbreakable
                } else {
                    self.cell(x, y)
                },
    {
        let ghost orig = self;
        let mut m = self;
        let ghost old_map = self.cells();
        let ghost w = m.width as int;
        let mut y: usize = 1;
        while y < m.height
            invariant
                m.wf(),
                m.width == w,
                m.height == orig.height,
                m.width <= 255,
                m.height <= 255,
                m.spawns == orig.spawns,
                old_map == orig.cells(),
                1 <= y <= m.height + 1,
                y % 2 == 1,
                forall|xx: int, yy: int|
                    m.in_map(xx, yy) ==> #[trigger] m.cell(xx, yy) == if pillar(xx, yy) && yy < y {
                        MapElement::Unbreakable
                    } else {
                        old_map[yy][xx]
                    },
            decreases m.height + 1 - y,
        {
            let mut x: usize = 1;
            while x < m.width
                invariant
                    m.wf(),
                    m.width == w,
                    m.height == orig.height,
                    m.width <= 255,
                    m.height <= 255,
                    m.spawns == orig.spawns,
                    old_map == orig.cells(),
                    1 <= y < m.height,
                    y % 2 == 1,
                    1 <= x <= m.width + 1,
                    x % 2 == 1,
                    forall|xx: int, yy: int|
                        m.in_map(xx, yy) ==> #[trigger] m.cell(xx, yy) == if pillar(xx, yy) && (yy
                            < y || (yy == y && xx < x)) {
                            MapElement::Unbreakable
                        } else {
                            old_map[yy][xx]
                        },
                decreases m.width + 1 - x,
            {
                let ghost before = m;
                m.set_cell(x, y, MapElement::Unbreakable);
                assert forall|xx: int, yy: int| m.in_map(xx, yy) implies #[trigger] m.cell(xx, yy)
                    == if pillar(xx, yy) && (yy < y || (yy == y && xx < x + 2)) {
                    MapElement::Unbreakable
                } else {
                    old_map[yy][xx]
                } by {
                    if xx != x || yy != y {
                        assert(m.cell(xx, yy) == before.cell(xx, yy));
                    }
                }
                x = x + 2;
            }
            y = y + 2;
        }
        m
    }

    /// Fills every empty tile with a breakable box.
    fn fill_break(self) -> (r: GameMap)
        requires
            self.wf(),
        ensures
            r.wf(),
            r.width == self.width,
            r.height == self.height,
            r.spawns == self.spawns,
            forall|x: int, y: int|
                r.in_map(x, y) ==> #[trigger] r.cell(x, y) == if self.cell(x, y) == MapElement::Empty {
                    MapElement::Breakable
                } else {
                    self.cell(x, y)
                },
    {
        let ghost orig = self;
        let mut m = self;
        let ghost old_map = self.cells();
        let mut y: usize = 0;
        while y < m.height
            invariant
                m.wf(),
                m.width == orig.width,
                m.height == orig.height,
                m.spawns == orig.spawns,
                old_map == orig.cells(),
                y <= m.height,
                forall|xx: int, yy: int|
                    m.in_map(xx, yy) ==> #[trigger] m.cell(xx, yy) == if yy < y && old_map[yy][xx]
                        == MapElement::Empty {
                        MapElement::Breakable
                    } else {
                        old_map[yy][xx]
                    },
            decreases m.height - y,
        {
            let mut x: usize = 0;
            while x < m.width
                invariant
                    m.wf(),
                    m.width == orig.width,
                    m.height == orig.height,
                    m.spawns == orig.spawns,
                    y < m.height,
                    x <= m.width,
                    forall|xx: int, yy: int|
                        m.in_map(xx, yy) ==> #[trigger] m.cell(xx, yy) == if (yy < y || (yy == y
                            && xx < x)) && old_map[yy][xx] == MapElement::Empty {
                            MapElement::Breakable
                        } else {
                            old_map[yy][xx]
                        },
                decreases m.width - x,
            {
                let ghost before = m;
                if m.tile(x, y) == MapElement::Empty {
                    m.set_cell(x, y, MapElement::Breakable);
                }
                assert forall|xx: int, yy: int| m.in_map(xx, yy) implies #[trigger] m.cell(xx, yy)
                    == if (yy < y || (yy == y && xx < x + 1)) && old_map[yy][xx] == MapElement::Empty {
                    MapElement::Breakable
                } else {
                    old_map[yy][xx]
                } by {
                    assert(before.cell(xx, yy) == before.cell(xx, yy));
                    if xx != x || yy != y {
                        assert(m.cell(xx, yy) == before.cell(xx, yy));
                    }
                }
                x = x + 1;
            }
            y = y + 1;
        }
        m
    }

    /// Surrounds the map with a border of unbreakable tiles, one tile thick,
    /// and moves the spawn points accordingly.
    fn walls(self) -> (r: GameMap)
        requires
            self.wf(),
            self.width <= 32765,
            self.height <= 32765,
            forall|i: int| 0 <= i < self.spawns@.len() ==> -32768 <= #[trigger] self.spawns@[i].x <= 32765
                && -32768 <= self.spawns@[i].y <= 32765,
        ensures
            r.wf(),
            r.width == self.width + 2,
            r.height == self.height + 2,
            r.spawns@ == self.spawns@.map_values(|p: SpawnPoint| shifted(p, 1)),
            forall|x: int, y: int|
                r.in_map(x, y) ==> #[trigger] r.cell(x, y) == if 1 <= x <= self.width && 1 <= y
                    <= self.height {
                    self.cell(x - 1, y - 1)
                } else {
                    MapElement::Unbreakable
                },
    {
        let new_w = self.width + 2;
        let new_h = self.height + 2;
        let mut content: Vec<Vec<MapElement>> = Vec::new();
        let mut y: usize = 0;
        while y < new_h
            invariant
                self.wf(),
                new_w == self.width + 2,
                new_h == self.height + 2,
                y <= new_h,
                content@.len() == y,
                forall|j: int|
                    0 <= j < y ==> #[trigger] content@[j]@ == Seq::new(
                        new_w as nat,
                        |i: int| walled_cell(self, i, j),
                    ),
            decreases new_h - y,
        {
            let mut row: Vec<MapElement> = Vec::new();
            let mut x: usize = 0;
            while x < new_w
                invariant
                    self.wf(),
                    new_w == self.width + 2,
                    new_h == self.height + 2,
                    y < new_h,
                    x <= new_w,
                    row@.len() == x,
                    forall|i: int| 0 <= i < x ==> row@[i] == walled_cell(self, i, y as int),
                decreases new_w - x,
            {
                if 1 <= x && x <= self.width && 1 <= y && y <= self.height {
                    row.push(self.content[y - 1][x - 1]);
                } else {
                    row.push(MapElement::Unbreakable);
                }
                x = x + 1;
            }
            assert(row@ =~= Seq::new(new_w as nat, |i: int| walled_cell(self, i, y as int)));
            content.push(row);
            assert(content@[y as int]@ == row@);
            y = y + 1;
        }
        let mut spawns: Vec<SpawnPoint> = Vec::new();
        let mut i: usize = 0;
        while i < self.spawns.len()
            invariant
                i <= self.spawns@.len(),
                forall|k: int| 0 <= k < self.spawns@.len() ==> -32768 <= #[trigger] self.spawns@[k].x <= 32765
                    && -32768 <= self.spawns@[k].y <= 32765,
                spawns@ == self.spawns@.subrange(0, i as int).map_values(|p: SpawnPoint| shifted(p, 1)),
            decreases self.spawns@.len() - i,
        {
            let spawn = self.spawns[i];
            spawns.push(SpawnPoint { direction: spawn.direction, x: spawn.x + 1, y: spawn.y + 1 });
            assert(self.spawns@.subrange(0, i + 1) =~= self.spawns@.subrange(0, i as int).push(spawn));
            i = i + 1;
        }
        assert(self.spawns@.subrange(0, self.spawns@.len() as int) =~= self.spawns@);
        let r = GameMap { width: new_w, height: new_h, content, spawns };
        assert forall|x: int, y: int| r.in_map(x, y) implies #[trigger] r.cell(x, y) == if 1 <= x
            <= self.width && 1 <= y <= self.height {
            self.cell(x - 1, y - 1)
        } else {
            MapElement::Unbreakable
        } by {
            assert(r.cells()[y] == content@[y]@);
        }
        assert forall|j: int| 0 <= j < r.height implies #[trigger] r.cells()[j].len() == r.width by {
            assert(r.cells()[j] == content@[j]@);
        }
        r
    }

    /// Puts a spawn point in each corner and empties the three tiles of each corner.
    fn corners(self) -> (r: GameMap)
        requires
            self.wf(),
            2 <= self.width <= 32767,
            2 <= self.height <= 32767,
        ensures
            r.wf(),
            r.width == self.width,
            r.height == self.height,
            r.spawns@ == self.spawns@ + corner_spawns(self.width as int, self.height as int),
            forall|x: int, y: int|
                r.in_map(x, y) ==> #[trigger] r.cell(x, y) == if corner_tile(
                    x,
                    y,
                    self.width as int,
                    self.height as int,
                ) {
                    MapElement::Empty
                } else {
                    self.cell(x, y)
                },
    {
        let ghost orig = self;
        let mut m = self;
        let w = m.width;
        let h = m.height;
        m.spawns.push(SpawnPoint { x: 0, y: 0, direction: Direction::Right });
        m.spawns.push(SpawnPoint { x: w as i32 - 1, y: 0, direction: Direction::Left });
        m.spawns.push(SpawnPoint { x: 0, y: h as i32 - 1, direction: Direction::Right });
        m.spawns.push(SpawnPoint { x: w as i32 - 1, y: h as i32 - 1, direction: Direction::Left });
        assert(m.spawns@ =~= orig.spawns@ + corner_spawns(w as int, h as int));
        // Top left corner
        m.set_cell(0, 0, MapElement::Empty);
        m.set_cell(1, 0, MapElement::Empty);
        m.set_cell(0, 1, MapElement::Empty);
        // Top right corner
        m.set_cell(w - 1, 0, MapElement::Empty);
        m.set_cell(w - 2, 0, MapElement::Empty);
        m.set_cell(w - 1, 1, MapElement::Empty);
        // Bottom left corner
        m.set_cell(0, h - 1, MapElement::Empty);
        m.set_cell(1, h - 1, MapElement::Empty);
        m.set_cell(0, h - 2, MapElement::Empty);
        // Bottom right corner
        m.set_cell(w - 1, h - 1, MapElement::Empty);
        m.set_cell(w - 2, h - 1, MapElement::Empty);
        m.set_cell(w - 1, h - 2, MapElement::Empty);
        m
    }

    /// Removes the breakable boxes in the square of half-width `size` centred
    /// on `(x, y)`; the parts of the square outside the map are ignored.
    fn clear_range(&mut self, x: i16, y: i16, size: i16)
        requires
            old(self).wf(),
            old(self).width <= 32767,
            old(self).height <= 32767,
            size >= 0,
            x - size >= -32768,
            x + size <= 32767,
            y - size >= -32768,
            y + size <= 32767,
        ensures
            final(self).wf(),
            final(self).width == old(self).width,
            final(self).height == old(self).height,
            final(self).spawns == old(self).spawns,
            final(self).cells() == cleared(old(self).cells(), x as int, y as int, size as int),
    {
        let ghost old_map = self.cells();
        let w = self.width as i32;
        let h = self.height as i32;
        let xi = x as i32;
        let yi = y as i32;
        let si = size as i32;
        let x_lo: i32 = if xi - si > 0 { xi - si } else { 0 };
        let x_hi: i32 = if xi + si < w - 1 { xi + si } else { w - 1 };
        let y_lo: i32 = if yi - si > 0 { yi - si } else { 0 };
        let y_hi: i32 = if yi + si < h - 1 { yi + si } else { h - 1 };
        let mut yy: i32 = y_lo;
        while yy <= y_hi
            invariant
                self.wf(),
                self.width == old(self).width,
                self.height == old(self).height,
                self.spawns == old(self).spawns,
                old_map == old(self).cells(),
                w == self.width,
                h == self.height,
                self.width <= 32767,
                self.height <= 32767,
                x_lo == (if x - size > 0 { x - size } else { 0 }),
                x_hi == (if x + size < w - 1 { x + size } else { w - 1 }),
                y_lo == (if y - size > 0 { y - size } else { 0 }),
                y_hi == (if y + size < h - 1 { y + size } else { h - 1 }),
                y_lo <= yy,
                yy <= y_hi + 1 || yy == y_lo,
                forall|cx: int, cy: int|
                    self.in_map(cx, cy) ==> #[trigger] self.cell(cx, cy) == if in_square(
                        cx,
                        cy,
                        x as int,
                        y as int,
                        size as int,
                    ) && old_map[cy][cx] == MapElement::Breakable && cy < yy {
                        MapElement::Empty
                    } else {
                        old_map[cy][cx]
                    },
            decreases y_hi + 1 - yy,
        {
            let mut xx: i32 = x_lo;
            while xx <= x_hi
                invariant
                    self.wf(),
                    self.width == old(self).width,
                    self.height == old(self).height,
                    self.spawns == old(self).spawns,
                    old_map == old(self).cells(),
                    w == self.width,
                    h == self.height,
                    self.width <= 32767,
                    self.height <= 32767,
                    x_lo == (if x - size > 0 { x - size } else { 0 }),
                    x_hi == (if x + size < w - 1 { x + size } else { w - 1 }),
                    y_lo == (if y - size > 0 { y - size } else { 0 }),
                    y_hi == (if y + size < h - 1 { y + size } else { h - 1 }),
                    y_lo <= yy <= y_hi,
                    x_lo <= xx,
                    xx <= x_hi + 1 || xx == x_lo,
                    forall|cx: int, cy: int|
                        self.in_map(cx, cy) ==> #[trigger] self.cell(cx, cy) == if in_square(
                            cx,
                            cy,
                            x as int,
                            y as int,
                            size as int,
                        ) && old_map[cy][cx] == MapElement::Breakable && (cy < yy || (cy == yy && cx
                            < xx)) {
                            MapElement::Empty
                        } else {
                            old_map[cy][cx]
                        },
                decreases x_hi + 1 - xx,
            {
                let ghost before = *self;
                if self.tile(xx as usize, yy as usize) == MapElement::Breakable {
                    self.set_cell(xx as usize, yy as usize, MapElement::Empty);
                }
                assert forall|cx: int, cy: int| self.in_map(cx, cy) implies #[trigger] self.cell(cx, cy)
                    == if in_square(cx, cy, x as int, y as int, size as int) && old_map[cy][cx]
                    == MapElement::Breakable && (cy < yy || (cy == yy && cx < xx + 1)) {
                    MapElement::Empty
                } else {
                    old_map[cy][cx]
                } by {
                    assert(before.cell(cx, cy) == before.cell(cx, cy));
                    if cx != xx || cy != yy {
                        assert(self.cell(cx, cy) == before.cell(cx, cy));
                    }
                }
                xx = xx + 1;
            }
            yy = yy + 1;
        }
        let ghost target = cleared(old_map, x as int, y as int, size as int);
        assert forall|cy: int| 0 <= cy < self.height implies #[trigger] self.cells()[cy] =~= target[cy] by {
            assert(old_map.len() == self.height);
            assert(old_map[cy].len() == self.width);
            assert(target[cy] == Seq::new(
                old_map[cy].len(),
                |cx: int|
                    if in_square(cx, cy, x as int, y as int, size as int) && old_map[cy][cx] == MapElement::Breakable {
                        MapElement::Empty
                    } else {
                        old_map[cy][cx]
                    },
            ));
            assert forall|cx: int| 0 <= cx < self.width implies self.cells()[cy][cx] == target[cy][cx] by {
                assert(self.in_map(cx, cy));
                let c = self.cell(cx, cy);
                assert(c == if in_square(cx, cy, x as int, y as int, size as int) && old_map[cy][cx]
                    == MapElement::Breakable && cy < yy {
                    MapElement::Empty
                } else {
                    old_map[cy][cx]
                });
                if in_square(cx, cy, x as int, y as int, size as int) {
                    assert(cy < yy);
                }
                assert(target[cy][cx] == if in_square(cx, cy, x as int, y as int, size as int)
                    && old_map[cy][cx] == MapElement::Breakable {
                    MapElement::Empty
                } else {
                    old_map[cy][cx]
                });
            }
        }
        assert(self.cells() =~= target);
    }

    /// Adds a spawn point at `(x, y)`, facing `direction` or a random
    /// direction, and clears the boxes in the square of half-width
    /// `spawn_size` around it.
    fn add_spawn(&mut self, x: i16, y: i16, spawn_size: u8, direction: Direction, random_dir: bool)
        requires
            old(self).wf(),
            old(self).width <= 32767,
            old(self).height <= 32767,
            x - spawn_size >= -32768,
            x + spawn_size <= 32767,
            y - spawn_size >= -32768,
            y + spawn_size <= 32767,
        ensures
            final(self).wf(),
            final(self).width == old(self).width,
            final(self).height == old(self).height,
            final(self).spawns@.len() == old(self).spawns@.len() + 1,
            final(self).spawns@.drop_last() == old(self).spawns@,
            final(self).spawns@.last().x == x,
            final(self).spawns@.last().y == y,
            !random_dir ==> final(self).spawns@.last().direction == direction,
            final(self).cells() == cleared(old(self).cells(), x as int, y as int, spawn_size as int),
    {
        if random_dir {
            self.spawns.push(SpawnPoint::init(x as i32, y as i32));
        } else {
            self.spawns.push(SpawnPoint { x: x as i32, y: y as i32, direction });
        }
        assert(self.spawns@.drop_last() =~= old(self).spawns@);
        self.clear_range(x, y, spawn_size as i16);
    }

    /// Adds the six spawn points of the arena around the middle of the map,
    /// each with the boxes around it removed.
    fn arena(self) -> (r: GameMap)
        requires
            self.wf(),
            2 <= self.width <= 32767,
            2 <= self.height <= 32767,
        ensures
            r.wf(),
            r.width == self.width,
            r.height == self.height,
            r.spawns@ == self.spawns@ + arena_spawns(self.width as int, self.height as int),
            forall|x: int, y: int|
                r.in_map(x, y) ==> #[trigger] r.cell(x, y) == if arena_square(
                    x,
                    y,
                    self.width as int,
                    self.height as int,
                ) && self.cell(x, y) == MapElement::Breakable {
                    MapElement::Empty
                } else {
                    self.cell(x, y)
                },
    {
        let ghost orig = self;
        let mut m = self;
        let w = m.width;
        let h = m.height;
        let wi = w as i16;
        let hi = h as i16;
        // Top and bottom
        m.add_spawn(wi / 2, 0, 1, Direction::Down, false);
        let ghost c1 = m.cells();
        m.add_spawn(wi / 2, hi - 1, 1, Direction::Up, false);
        let ghost c2 = m.cells();
        // Middle ring
        let quarter_x = (w - 1) / 4;
        let quarter_y = (h - 1) / 4 + 1;
        m.add_spawn(quarter_x as i16, quarter_y as i16, 1, Direction::Up, false);
        let ghost c3 = m.cells();
        m.add_spawn((w - quarter_x - 1) as i16, quarter_y as i16, 1, Direction::Up, false);
        let ghost c4 = m.cells();
        m.add_spawn(quarter_x as i16, (h - quarter_y - 1) as i16, 1, Direction::Down, false);
        let ghost c5 = m.cells();
        m.add_spawn((w - quarter_x - 1) as i16, (h - quarter_y - 1) as i16, 1, Direction::Down, false);
        assert(m.spawns@ =~= orig.spawns@ + arena_spawns(w as int, h as int));
        assert forall|x: int, y: int| m.in_map(x, y) implies #[trigger] m.cell(x, y) == if arena_square(
            x,
            y,
            w as int,
            h as int,
        ) && orig.cell(x, y) == MapElement::Breakable {
            MapElement::Empty
        } else {
            orig.cell(x, y)
        } by {
            assert(orig.cells()[y].len() == w);
            assert(c1[y].len() == w);
            assert(c2[y].len() == w);
            assert(c3[y].len() == w);
            assert(c4[y].len() == w);
            assert(c5[y].len() == w);
        }
        m
    }

    #[verifier::spinoff_prover]
    #[verifier::rlimit(60)]
    /// Lays out the eight team spawns on the borders, empties the middle and
    /// the squares next to the corners, and puts a breakable box on the three
    /// tiles of each corner.
    fn teams(self) -> (r: GameMap)
        requires
            self.wf(),
            2 <= self.width <= 32767,
            2 <= self.height <= 32767,
        ensures
            r.wf(),
            r.width == self.width,
            r.height == self.height,
            r.spawns@ == self.spawns@ + team_spawns(self.width as int, self.height as int),
            forall|x: int, y: int|
                r.in_map(x, y) ==> #[trigger] r.cell(x, y) == team_tile(
                    self.cell(x, y),
                    x,
                    y,
                    self.width as int,
                    self.height as int,
                ),
    {
        let ghost orig = self;
        let mut m = self;
        let w = m.width;
        let h = m.height;
        let wi = w as i16;
        let hi = h as i16;
        // First player of each team
        m.add_spawn(3, 0, 0, Direction::Right, false);
        let ghost c1 = m.cells();
        m.add_spawn(wi - 4, 0, 0, Direction::Left, false);
        let ghost c2 = m.cells();
        m.add_spawn(3, hi - 1, 0, Direction::Right, false);
        let ghost c3 = m.cells();
        m.add_spawn(wi - 4, hi - 1, 0, Direction::Left, false);
        let ghost c4 = m.cells();
        // Second player of each team
        m.add_spawn(0, 3, 0, Direction::Down, false);
        let ghost c5 = m.cells();
        m.add_spawn(wi - 1, 3, 0, Direction::Down, false);
        let ghost c6 = m.cells();
        m.add_spawn(0, hi - 4, 0, Direction::Up, false);
        let ghost c7 = m.cells();
        m.add_spawn(wi - 1, hi - 4, 0, Direction::Up, false);
        assert(m.spawns@ =~= orig.spawns@ + team_spawns(w as int, h as int));
        let ghost c8 = m.cells();
        // Clear center
        m.clear_range(wi / 2, hi / 2, 2);
        let ghost p0 = m;
        assert forall|x: int, y: int| m.in_map(x, y) implies #[trigger] m.cell(x, y) == (if team_cleared(
            x,
            y,
            w as int,
            h as int,
        ) && orig.cell(x, y) == MapElement::Breakable {
            MapElement::Empty
        } else {
            orig.cell(x, y)
        }) by {
            assert(orig.cells()[y].len() == w);
            assert(c1[y].len() == w);
            assert(c2[y].len() == w);
            assert(c3[y].len() == w);
            assert(c4[y].len() == w);
            assert(c5[y].len() == w);
            assert(c6[y].len() == w);
            assert(c7[y].len() == w);
            assert(c8[y].len() == w);
        }
        // Top left corner
        m.clear_range(1, 1, 1);
        m.set_cell(0, 0, MapElement::Breakable);
        m.set_cell(0, 1, MapElement::Breakable);
        m.set_cell(1, 0, MapElement::Breakable);
        let ghost p1 = m;
        assert forall|x: int, y: int| m.in_map(x, y) implies #[trigger] m.cell(x, y) == team_corner_step(
            p0.cell(x, y),
            x,
            y,
            1,
            1,
            top_left_tile(x, y),
        ) by {
            assert(p0.cells()[y].len() == w);
        }
        // Top right corner
        m.clear_range(wi - 2, 1, 1);
        m.set_cell(w - 1, 0, MapElement::Breakable);
        m.set_cell(w - 2, 0, MapElement::Breakable);
        m.set_cell(w - 1, 1, MapElement::Breakable);
        let ghost p2 = m;
        assert forall|x: int, y: int| m.in_map(x, y) implies #[trigger] m.cell(x, y) == team_corner_step(
            p1.cell(x, y),
            x,
            y,
            w - 2,
            1,
            top_right_tile(x, y, w as int),
        ) by {
            assert(p1.cells()[y].len() == w);
        }
        // Bottom left corner
        m.clear_range(1, hi - 2, 1);
        m.set_cell(0, h - 1, MapElement::Breakable);
        m.set_cell(1, h - 1, MapElement::Breakable);
        m.set_cell(0, h - 2, MapElement::Breakable);
        let ghost p3 = m;
        assert forall|x: int, y: int| m.in_map(x, y) implies #[trigger] m.cell(x, y) == team_corner_step(
            p2.cell(x, y),
            x,
            y,
            1,
            h - 2,
            bottom_left_tile(x, y, h as int),
        ) by {
            assert(p2.cells()[y].len() == w);
        }
        // Bottom right corner
        m.clear_range(wi - 2, hi - 2, 1);
        m.set_cell(w - 1, h - 1, MapElement::Breakable);
        m.set_cell(w - 2, h - 1, MapElement::Breakable);
        m.set_cell(w - 1, h - 2, MapElement::Breakable);
        assert forall|x: int, y: int| m.in_map(x, y) implies #[trigger] m.cell(x, y) == team_corner_step(
            p3.cell(x, y),
            x,
            y,
            w - 2,
            h - 2,
            bottom_right_tile(x, y, w as int, h as int),
        ) by {
            assert(p3.cells()[y].len() == w);
        }
        assert forall|x: int, y: int| m.in_map(x, y) implies #[trigger] m.cell(x, y) == team_tile(
            orig.cell(x, y),
            x,
            y,
            w as int,
            h as int,
        ) by {
            assert(p0.cell(x, y) == p0.cell(x, y));
            assert(p1.cell(x, y) == p1.cell(x, y));
            assert(p2.cell(x, y) == p2.cell(x, y));
            assert(p3.cell(x, y) == p3.cell(x, y));
        }
        m
    }

    /// Removes each breakable box with probability `cheesiness` percent.
    fn cheese(self, cheesiness: u8) -> (r: GameMap)
        requires
            self.wf(),
        ensures
            r.wf(),
            r.width == self.width,
            r.height == self.height,
            r.spawns == self.spawns,
            forall|x: int, y: int|
                r.in_map(x, y) ==> {
                    let old_e = self.cell(x, y);
                    let new_e = #[trigger] r.cell(x, y);
                    &&& new_e == old_e || (old_e == MapElement::Breakable && new_e == MapElement::Empty)
                    &&& cheesiness == 0 ==> new_e == old_e
                    &&& (cheesiness >= 100 && old_e == MapElement::Breakable) ==> new_e == MapElement::Empty
                },
    {
        let ghost orig = self;
        let mut m = self;
        let mut y: usize = 0;
        while y < m.height
            invariant
                m.wf(),
                m.width == orig.width,
                m.height == orig.height,
                m.spawns == orig.spawns,
                y <= m.height,
                forall|xx: int, yy: int|
                    m.in_map(xx, yy) ==> {
                        let old_e = orig.cell(xx, yy);
                        let new_e = #[trigger] m.cell(xx, yy);
                        &&& new_e == old_e || (old_e == MapElement::Breakable && new_e == MapElement::Empty)
                        &&& yy >= y ==> new_e == old_e
                        &&& cheesiness == 0 ==> new_e == old_e
                        &&& (cheesiness >= 100 && old_e == MapElement::Breakable && yy < y) ==> new_e
                            == MapElement::Empty
                    },
            decreases m.height - y,
        {
            let mut x: usize = 0;
            while x < m.width
                invariant
                    m.wf(),
                    m.width == orig.width,
                    m.height == orig.height,
                    m.spawns == orig.spawns,
                    y < m.height,
                    x <= m.width,
                    forall|xx: int, yy: int|
                        m.in_map(xx, yy) ==> {
                            let old_e = orig.cell(xx, yy);
                            let new_e = #[trigger] m.cell(xx, yy);
                            &&& new_e == old_e || (old_e == MapElement::Breakable && new_e
                                == MapElement::Empty)
                            &&& (yy > y || (yy == y && xx >= x)) ==> new_e == old_e
                            &&& cheesiness == 0 ==> new_e == old_e
                            &&& (cheesiness >= 100 && old_e == MapElement::Breakable && (yy < y || (yy
                                == y && xx < x))) ==> new_e == MapElement::Empty
                        },
                decreases m.width - x,
            {
                let ghost before = m;
                if m.tile(x, y) == MapElement::Breakable {
                    if box_removed(random_in_range(1, 100), cheesiness) {
                        m.set_cell(x, y, MapElement::Empty);
                    }
                }
                assert forall|xx: int, yy: int| m.in_map(xx, yy) implies {
                    let old_e = orig.cell(xx, yy);
                    let new_e = #[trigger] m.cell(xx, yy);
                    &&& new_e == old_e || (old_e == MapElement::Breakable && new_e == MapElement::Empty)
                    &&& (yy > y || (yy == y && xx >= x + 1)) ==> new_e == old_e
                    &&& cheesiness == 0 ==> new_e == old_e
                    &&& (cheesiness >= 100 && old_e == MapElement::Breakable && (yy < y || (yy == y
                        && xx < x + 1))) ==> new_e == MapElement::Empty
                } by {
                    assert(before.cell(xx, yy) == before.cell(xx, yy));
                    if xx != x || yy != y {
                        assert(m.cell(xx, yy) == before.cell(xx, yy));
                    }
                }
                x = x + 1;
            }
            y = y + 1;
        }
        m
    }

    /// Whether every spawn point lies on a tile of the map.
    pub open spec fn spawns_in_map(&self) -> bool {
        forall|i: int|
            0 <= i < self.spawns@.len() ==> self.in_map(
                #[trigger] self.spawns@[i].x as int,
                self.spawns@[i].y as int,
            )
    }

    /// Whether `new` is `old` with, at most, some breakable boxes removed.
    pub open spec fn only_cleared(old: GameMap, new: GameMap) -> bool {
        &&& new.width == old.width
        &&& new.height == old.height
        &&& forall|x: int, y: int|
            new.in_map(x, y) ==> #[trigger] new.cell(x, y) == old.cell(x, y) || (old.cell(x, y)
                == MapElement::Breakable && new.cell(x, y) == MapElement::Empty)
    }

    /// Tries to add a spawn point at a random tile whose coordinates have
    /// different parities, at least `safe_range + 1` tiles away on some axis
    /// from every existing spawn, and clears the boxes around it. Returns
    /// whether the spawn was placed.
    fn add_spawns_random(&mut self, safe_range: u8, spawn_size: u8) -> (placed: bool)
        requires
            old(self).wf(),
            old(self).width <= 255,
            old(self).height <= 255,
            old(self).spawns_in_map(),
        ensures
            final(self).wf(),
            final(self).spawns_in_map(),
            final(self).width == old(self).width,
            final(self).height == old(self).height,
            GameMap::only_cleared(*old(self), *final(self)),
            (old(self).width < 4 || old(self).height < 4) ==> !placed,
            (old(self).width >= 4 && old(self).height >= 4 && all_spots_spaced(*old(self), safe_range as int))
                ==> placed,
            !placed ==> final(self).cells() == old(self).cells() && final(self).spawns == old(
                self,
            ).spawns,
            placed ==> {
                let p = final(self).spawns@.last();
                &&& final(self).spawns@.len() == old(self).spawns@.len() + 1
                &&& final(self).spawns@.drop_last() == old(self).spawns@
                &&& (p.x as int) % 2 != (p.y as int) % 2
                &&& forall|i: int|
                    0 <= i < old(self).spawns@.len() ==> {
                        let q = #[trigger] old(self).spawns@[i];
                        abs(q.x - p.x) > safe_range || abs(q.y - p.y) > safe_range
                    }
                &&& final(self).cells() == cleared(
                    old(self).cells(),
                    p.x as int,
                    p.y as int,
                    spawn_size as int,
                )
            },
    {
        if self.width < 4 || self.height < 4 {
            return false;
        }
        // The tiles whose coordinates have different parities.
        let mut candidates: Vec<(i16, i16)> = Vec::new();
        let mut cy: usize = 0;
        while cy < self.height
            invariant
                self.width <= 255,
                self.height <= 255,
                self.width >= 4,
                cy <= self.height,
                cy >= 1 ==> candidates@.len() >= 1,
                forall|i: int|
                    0 <= i < candidates@.len() ==> {
                        let c = #[trigger] candidates@[i];
                        &&& 0 <= c.0 < self.width
                        &&& 0 <= c.1 < self.height
                        &&& (c.0 as int) % 2 != (c.1 as int) % 2
                    },
            decreases self.height - cy,
        {
            let mut cx: usize = 0;
            while cx < self.width
                invariant
                    self.width <= 255,
                    self.height <= 255,
                    self.width >= 4,
                    cy < self.height,
                    cx <= self.width,
                    (cy >= 1 || cx >= 2) ==> candidates@.len() >= 1,
                    forall|i: int|
                        0 <= i < candidates@.len() ==> {
                            let c = #[trigger] candidates@[i];
                            &&& 0 <= c.0 < self.width
                            &&& 0 <= c.1 < self.height
                            &&& (c.0 as int) % 2 != (c.1 as int) % 2
                        },
                decreases self.width - cx,
            {
                if cx % 2 != cy % 2 {
                    candidates.push((cx as i16, cy as i16));
                }
                cx = cx + 1;
            }
            cy = cy + 1;
        }
        let pick = random_in_range(0, (candidates.len() - 1) as u64) as usize;
        let (x, y) = candidates[pick];
        assert(candidates@[pick as int] == (x, y));
        let mut i: usize = 0;
        while i < self.spawns.len()
            invariant
                i <= self.spawns@.len(),
                self == old(self),
                self.wf(),
                0 <= x < 255,
                0 <= y < 255,
                self.in_map(x as int, y as int),
                (x as int) % 2 != (y as int) % 2,
                self.spawns_in_map(),
                self.width <= 255,
                self.height <= 255,
                forall|k: int|
                    0 <= k < i ==> {
                        let q = #[trigger] self.spawns@[k];
                        abs(q.x - x) > safe_range || abs(q.y - y) > safe_range
                    },
            decreases self.spawns@.len() - i,
        {
            let spawn = self.spawns[i];
            assert(self.in_map(self.spawns@[i as int].x as int, self.spawns@[i as int].y as int));
            let dx: i32 = if spawn.x >= x as i32 { spawn.x - x as i32 } else { x as i32 - spawn.x };
            let dy: i32 = if spawn.y >= y as i32 { spawn.y - y as i32 } else { y as i32 - spawn.y };
            if dx <= safe_range as i32 && dy <= safe_range as i32 {
                assert(!all_spots_spaced(*old(self), safe_range as int)) by {
                    // The drawn tile is one the spacing speaks of, and this spawn is too close.
                    let m = *old(self);
                    let c = m.cell(x as int, y as int);
                    let q = m.spawns@[i as int];
                    assert(q == spawn);
                }
                return false;
            }
            i = i + 1;
        }
        self.add_spawn(x, y, spawn_size, Direction::Up, true);
        assert forall|xx: int, yy: int| self.in_map(xx, yy) implies #[trigger] self.cell(xx, yy) == old(
            self,
        ).cell(xx, yy) || (old(self).cell(xx, yy) == MapElement::Breakable && self.cell(xx, yy)
            == MapElement::Empty) by {
            assert(old(self).cells()[yy].len() == self.width);
        }
        assert forall|k: int| 0 <= k < self.spawns@.len() implies self.in_map(
            #[trigger] self.spawns@[k].x as int,
            self.spawns@[k].y as int,
        ) by {
            if k < old(self).spawns@.len() {
                assert(self.spawns@[k] == old(self).spawns@[k]);
            }
        }
        true
    }

    /// Places `settings.spawns` random spawn points, giving up once
    /// `settings.attempts` placements have failed.
    fn random(self, settings: &MapSettings) -> (r: Option<GameMap>)
        requires
            self.wf(),
            self.width <= 255,
            self.height <= 255,
            self.spawns_in_map(),
            spread_spawns(self.spawns@, settings.safe_range as int),
            boxes_cleared_around(self, self.spawns@, settings.spawn_size as int),
        ensures
            settings.attempts == 0 ==> r is None,
            (settings.attempts != 0 && settings.spawns == 0) ==> r == Some(self),
            (settings.spawns != 0 && (self.width < 4 || self.height < 4)) ==> r is None,
            (settings.attempts != 0 && settings.spawns == 1 && self.width >= 4 && self.height >= 4
                && self.spawns@.len() == 0) ==> r is Some,
            r matches Some(m) ==> {
                &&& m.wf()
                &&& m.spawns_in_map()
                &&& GameMap::only_cleared(self, m)
                &&& m.spawns@.len() == self.spawns@.len() + settings.spawns
                &&& spread_spawns(m.spawns@, settings.safe_range as int)
                &&& boxes_cleared_around(m, m.spawns@, settings.spawn_size as int)
            },
    {
        let ghost orig = self;
        let mut m = self;
        let mut attempts = settings.attempts;
        let mut spawns = settings.spawns;
        while attempts != 0 && spawns != 0
            invariant
                m.wf(),
                m.width <= 255,
                m.height <= 255,
                m.spawns_in_map(),
                GameMap::only_cleared(orig, m),
                spread_spawns(m.spawns@, settings.safe_range as int),
                boxes_cleared_around(m, m.spawns@, settings.spawn_size as int),
                attempts <= settings.attempts,
                spawns <= settings.spawns,
                m.spawns@.len() == orig.spawns@.len() + (settings.spawns - spawns),
                (settings.spawns != 0 && (orig.width < 4 || orig.height < 4)) ==> spawns
                    == settings.spawns,
                settings.attempts != 0 && settings.spawns == 0 ==> m == orig && attempts
                    == settings.attempts,
                (settings.attempts != 0 && settings.spawns == 1 && orig.width >= 4 && orig.height >= 4
                    && orig.spawns@.len() == 0) ==> attempts == settings.attempts,
            decreases attempts + spawns,
        {
            let ghost before = m;
            let placed = m.add_spawns_random(settings.safe_range, settings.spawn_size);
            if placed {
                spawns = spawns - 1;
                proof {
                    lemma_spawn_added(before, m, settings.safe_range as int, settings.spawn_size as int);
                }
            } else {
                attempts = attempts - 1;
            }
            assert forall|x: int, y: int| m.in_map(x, y) implies #[trigger] m.cell(x, y) == orig.cell(
                x,
                y,
            ) || (orig.cell(x, y) == MapElement::Breakable && m.cell(x, y) == MapElement::Empty) by {
                assert(before.cell(x, y) == before.cell(x, y));
            }
        }
        if attempts == 0 {
            return None;
        }
        Some(m)
    }

    /// Generates a map from `settings`: pillars on a grid, boxes everywhere
    /// else, some boxes removed at random, the spawn layout, then the wall.
    /// `None` when the random layout fails to place its spawns.
    pub fn new(settings: MapSettings) -> (r: Option<GameMap>)
        requires
            settings.map_type != MapType::Random ==> settings.width >= 2 && settings.height >= 2,
        ensures
            r matches Some(m) ==> m.wf() && generated_by(m, settings),
            settings.map_type != MapType::Random ==> r is Some,
            (settings.map_type == MapType::Random && settings.attempts == 0) ==> r is None,
            random_layout_owed(settings) ==> r is Some,
    {
        let ret = GameMap::empty(settings.width, settings.height).grid().fill_break().cheese(
            settings.cheesiness,
        );
        let ghost base = ret;
        assert forall|x: int, y: int| ret.in_map(x, y) implies base_tile(#[trigger] ret.cell(x, y), x, y) by {
        }
        let ret = match settings.map_type {
            MapType::Corners => Some(ret.corners()),
            MapType::Arena => Some(ret.corners().arena()),
            MapType::Teams => Some(ret.teams()),
            MapType::Random => ret.random(&settings),
        };
        let ret = match ret {
            Some(r) => r,
            None => {
                return None;
            },
        };
        let ghost laid = ret;
        proof {
            let w = settings.width as int;
            let h = settings.height as int;
            assert(laid.width == w && laid.height == h);
            assert forall|x: int, y: int| 0 <= x < w && 0 <= y < h implies generated_tile(
                #[trigger] laid.cell(x, y),
                x,
                y,
                settings,
            ) by {
                assert(base.cell(x, y) == base.cell(x, y));
                assert(laid.cell(x, y) == laid.cell(x, y));
                if settings.map_type == MapType::Teams {
                    assert(base.cells()[y].len() == w);
                }
            }
            if settings.map_type != MapType::Random {
                assert(laid.spawns@ =~= layout_spawns(settings));
            }
        }
        if settings.walls {
            let walled = ret.walls();
            proof {
                let w = settings.width as int;
                let h = settings.height as int;
                assert forall|x: int, y: int| 1 <= x < w + 1 && 1 <= y < h + 1 implies generated_tile(
                    #[trigger] walled.cell(x, y),
                    x - 1,
                    y - 1,
                    settings,
                ) by {
                    assert(laid.cell(x - 1, y - 1) == laid.cell(x - 1, y - 1));
                }
            }
            Some(walled)
        } else {
            proof {
                if settings.map_type != MapType::Random {
                    assert(laid.spawns@ =~= layout_spawns(settings).map_values(
                        |p: SpawnPoint| shifted(p, 0),
                    ));
                }
                assert forall|x: int, y: int| 0 <= x < settings.width && 0 <= y < settings.height implies generated_tile(
                    #[trigger] laid.cell(x, y),
                    x - 0,
                    y - 0,
                    settings,
                ) by {
                    assert(laid.cell(x, y) == laid.cell(x, y));
                }
            }
            Some(ret)
        }
    }

    /// The tile at `(x, y)`, or `Empty` when it lies outside the map.
    pub fn get_elem(&self, x: usize, y: usize) -> (r: MapElement)
        requires
            self.wf(),
        ensures
            r == self.elem_at(x as int, y as int),
    {
        if x >= self.width || y >= self.height {
            return MapElement::Empty;
        }
        self.tile(x, y)
    }

    /// The tile at the signed coordinates `(x, y)`, or `Empty` when they lie
    /// outside the map (negative coordinates included).
    pub fn get_elem_pos(&self, x: i64, y: i64) -> (r: MapElement)
        requires
            self.wf(),
        ensures
            r == self.elem_at(x as int, y as int),
    {
        if x < 0 || y < 0 {
            return MapElement::Empty;
        }
        if x as u64 >= self.width as u64 || y as u64 >= self.height as u64 {
            return MapElement::Empty;
        }
        self.tile(x as usize, y as usize)
    }

    /// Replaces the tile at `(x, y)`; `Err` and no change when it lies outside the map.
    pub fn set_elem(&mut self, x: usize, y: usize, elem: MapElement) -> (r: Result<(), ()>)
        requires
            old(self).wf(),
        ensures
            final(self).wf(),
            final(self).width == old(self).width,
            final(self).height == old(self).height,
            final(self).spawns == old(self).spawns,
            r is Ok <==> old(self).in_map(x as int, y as int),
            r is Ok ==> final(self).cells() == old(self).cells().update(
                y as int,
                old(self).cells()[y as int].update(x as int, elem),
            ),
            r is Err ==> final(self).cells() == old(self).cells(),
    {
        if x >= self.width || y >= self.height {
            return Err(());
        }
        self.set_cell(x, y, elem);
        Ok(())
    }

    /// Replaces the tile at the signed coordinates `(x, y)`; `Err` and no
    /// change when they lie outside the map.
    pub fn set_elem_pos(&mut self, x: i64, y: i64, elem: MapElement) -> (r: Result<(), ()>)
        requires
            old(self).wf(),
        ensures
            final(self).wf(),
            final(self).width == old(self).width,
            final(self).height == old(self).height,
            final(self).spawns == old(self).spawns,
            r is Ok <==> old(self).in_map(x as int, y as int),
            r is Ok ==> final(self).cells() == old(self).cells().update(
                y as int,
                old(self).cells()[y as int].update(x as int, elem),
            ),
            r is Err ==> final(self).cells() == old(self).cells(),
    {
        if x < 0 || y < 0 {
            return Err(());
        }
        if x as u64 >= self.width as u64 || y as u64 >= self.height as u64 {
            return Err(());
        }
        self.set_elem(x as usize, y as usize, elem)
    }

    /// Whether an enemy may walk onto the tile `(x, y)`: it lies in the map
    /// and holds nothing or the exit.
    pub fn is_walkable_tile(&self, x: i32, y: i32) -> (r: bool)
        requires
            self.wf(),
        ensures
            r == (self.in_map(x as int, y as int) && is_passable(self.cell(x as int, y as int))),
    {
        if x < 0 || y < 0 || x as u64 >= self.width as u64 || y as u64 >= self.height as u64 {
            return false;
        }
        let e = self.tile(x as usize, y as usize);
        e == MapElement::Empty || e == MapElement::Exit
    }

    /// The neighbouring tiles of `(x, y)` that hold nothing, in the order
    /// Up, Down, Left, Right; tiles outside the map count as empty.
    pub fn get_neighbours(&self, x: i64, y: i64) -> (r: Vec<(i64, i64)>)
        requires
            self.wf(),
            i64::MIN < x < i64::MAX,
            i64::MIN < y < i64::MAX,
        ensures
            r@.map_values(|p: (i64, i64)| (p.0 as int, p.1 as int)) == empty_neighbours(
                *self,
                x as int,
                y as int,
                all_directions(),
            ),
    {
        let dirs = Direction::iterator();
        let mut r: Vec<(i64, i64)> = Vec::new();
        let mut i: usize = dirs.len();
        let ghost dirs_seq = dirs@;
        assert(dirs_seq == all_directions());
        let mut acc: Vec<(i64, i64)> = Vec::new();
        // Walk the directions from the last, so that the result keeps their order.
        while i > 0
            invariant
                i <= dirs@.len(),
                dirs@ == all_directions(),
                self.wf(),
                i64::MIN < x < i64::MAX,
                i64::MIN < y < i64::MAX,
                acc@.map_values(|p: (i64, i64)| (p.0 as int, p.1 as int)) == empty_neighbours(
                    *self,
                    x as int,
                    y as int,
                    all_directions().subrange(i as int, 4),
                ),
            decreases i,
        {
            i = i - 1;
            let (dx, dy) = dirs[i].to_offset();
            let nx = x + dx;
            let ny = y + dy;
            let ghost rest = all_directions().subrange(i as int + 1, 4);
            assert(all_directions().subrange(i as int, 4).drop_first() =~= rest);
            if self.get_elem_pos(nx, ny) == MapElement::Empty {
                let mut next: Vec<(i64, i64)> = Vec::new();
                next.push((nx, ny));
                let mut k: usize = 0;
                while k < acc.len()
                    invariant
                        k <= acc@.len(),
                        next@ == seq![(nx, ny)] + acc@.subrange(0, k as int),
                    decreases acc@.len() - k,
                {
                    next.push(acc[k]);
                    assert(acc@.subrange(0, k as int + 1) =~= acc@.subrange(0, k as int).push(acc@[k as int]));
                    k = k + 1;
                }
                assert(acc@.subrange(0, acc@.len() as int) =~= acc@);
                assert(next@.map_values(|p: (i64, i64)| (p.0 as int, p.1 as int)) =~= seq![(nx as int, ny as int)]
                    + acc@.map_values(|p: (i64, i64)| (p.0 as int, p.1 as int)));
                acc = next;
            }
        }
        assert(all_directions().subrange(0, 4) =~= all_directions());
        r = acc;
        r
    }

    /// The debug display of the map: one line per row, one character per tile.
    pub fn to_str(&self) -> (s: String)
        requires
            self.wf(),
        ensures
            s@ == rendered_rows(self.cells()),
    {
        let mut s = String::new();
        let mut y: usize = 0;
        while y < self.height
            invariant
                self.wf(),
                y <= self.height,
                s@ == rendered_rows(self.cells().subrange(0, y as int)),
            decreases self.height - y,
        {
            let ghost before = s@;
            let mut x: usize = 0;
            while x < self.width
                invariant
                    self.wf(),
                    y < self.height,
                    x <= self.width,
                    s@ == before + self.cells()[y as int].subrange(0, x as int).map_values(
                        |e: MapElement| element_char(e),
                    ),
                decreases self.width - x,
            {
                let c = self.tile(x, y).value();
                push_char(&mut s, c);
                assert(self.cells()[y as int].subrange(0, x as int + 1) =~= self.cells()[y as int].subrange(
                    0,
                    x as int,
                ).push(self.cells()[y as int][x as int]));
                x = x + 1;
            }
            push_char(&mut s, '\n');
            assert(self.cells()[y as int].subrange(0, self.width as int) =~= self.cells()[y as int]);
            assert(self.cells().subrange(0, y as int + 1).drop_last() =~= self.cells().subrange(0, y as int));
            y = y + 1;
        }
        assert(self.cells().subrange(0, self.height as int) =~= self.cells());
        s
    }

    /// Reads a campaign level from its text description: one line per row
    /// of tiles, `X` for an unbreakable box, `#` for a breakable one, `O` for
    /// the exit (hidden under a breakable box), `P` for the player's start,
    /// `E` for an enemy's start, anything else for an empty tile. The map is
    /// as wide as the first line. `None` for an empty text.
    pub fn from_level_text(text: &str) -> (r: Option<LevelData>)
        requires
            text@.len() < i32::MAX,
            fits_grid(lines_from(text@, 0)),
            lines_from(text@, 0).len() > 0 ==> line_width(lines_from(text@, 0)[0]) * lines_from(text@, 0).len()
                <= usize::MAX,
        ensures
            r is None <==> text@.len() == 0,
            r matches Some(level) ==> describes(level, lines_from(text@, 0)),
    {
        let ghost t = text@;
        let cs = chars_of(text);
        let n = cs.len();
        let ghost lines = lines_from(t, 0);
        // Split the text into lines, as ranges of indices.
        let mut ranges: Vec<(usize, usize)> = Vec::new();
        let mut i: usize = 0;
        while i < n
            invariant
                n == t.len(),
                cs@ == t,
                                n < i32::MAX,
                i <= n + 1,
                ranges@.len() <= i,
                forall|k: int| 0 <= k < ranges@.len() ==> #[trigger] ranges@[k].0 <= ranges@[k].1 <= n,
                ranges@.map_values(|r: (usize, usize)| t.subrange(r.0 as int, r.1 as int)) + lines_from(
                    t,
                    i as int,
                ) == lines,
                i == 0 ==> ranges@.len() == 0,
            decreases n + 1 - i,
        {
            proof {
                lemma_line_end_bounds(t, i as int);
            }
            let mut e = i;
            while e < n && cs[e] != '\n'
                invariant
                    n == t.len(),
                    cs@ == t,
                                        n < i32::MAX,
                    i < n,
                    i <= e <= n,
                    line_end(t, i as int) == line_end(t, e as int),
                decreases n - e,
            {
                assert(t[e as int] != '\n');
                e = e + 1;
            }
            assert(e < n ==> t[e as int] == '\n');
            assert(line_end(t, e as int) == e);
            let end = if e < n && e > i && cs[e - 1] == '\r' {
                e - 1
            } else {
                e
            };
            let ghost raw = t.subrange(i as int, e as int);
            assert(e < n && e > i ==> (raw.last() == '\r' <==> cs@[e - 1] == '\r'));
            assert(t.subrange(i as int, end as int) =~= (if e < n && raw.len() > 0 && raw.last() == '\r' {
                raw.drop_last()
            } else {
                raw
            }));
            ranges.push((i, end));
            assert(lines_from(t, i as int) =~= seq![t.subrange(i as int, end as int)] + lines_from(
                t,
                e as int + 1,
            ));
            assert(ranges@.map_values(|r: (usize, usize)| t.subrange(r.0 as int, r.1 as int)) =~= ranges@.drop_last().map_values(
                |r: (usize, usize)| t.subrange(r.0 as int, r.1 as int),
            ).push(t.subrange(i as int, end as int)));
            i = e + 1;
        }
        assert(lines_from(t, i as int) =~= Seq::<Seq<char>>::empty());
        assert(ranges@.map_values(|r: (usize, usize)| t.subrange(r.0 as int, r.1 as int)) =~= lines);
        if ranges.len() == 0 {
            assert(t.len() == 0);
            return None;
        }
        assert forall|k: int| 0 <= k < ranges@.len() implies #[trigger] lines[k] == t.subrange(
            ranges@[k].0 as int,
            ranges@[k].1 as int,
        ) by {
            assert(lines[k] == ranges@.map_values(
                |r: (usize, usize)| t.subrange(r.0 as int, r.1 as int),
            )[k]);
        }
        let height = ranges.len();
        // The grid is as wide as the first line is long in bytes.
        let (a0, b0) = ranges[0];
        let mut w64: u64 = 0;
        let mut k: usize = a0;
        while k < b0
            invariant
                a0 <= k <= b0 <= n,
                n == t.len(),
                n < i32::MAX,
                cs@ == t,
                w64 == line_width(t.subrange(a0 as int, k as int)),
                w64 <= 4 * (k - a0),
            decreases b0 - k,
        {
            let c = cs[k];
            proof {
                lemma_line_width_push(t.subrange(a0 as int, k as int), c);
                assert(t.subrange(a0 as int, k + 1) =~= t.subrange(a0 as int, k as int).push(c));
            }
            let cw: u64 = if (c as u32) <= 0x7F {
                1
            } else if (c as u32) <= 0x7FF {
                2
            } else if (c as u32) <= 0xFFFF {
                3
            } else {
                4
            };
            w64 = w64 + cw;
            k = k + 1;
        }
        assert(lines[0] == t.subrange(a0 as int, b0 as int));
        assert(w64 <= usize::MAX) by (nonlinear_arith)
            requires
                w64 * height <= usize::MAX,
                height >= 1,
        ;
        let width = w64 as usize;
        assert(width * height <= usize::MAX);
        let total = width * height;
        // The tiles row after row, in one sequence, all empty at first.
        let mut flat: Vec<MapElement> = Vec::new();
        let mut f: usize = 0;
        while f < total
            invariant
                f <= total,
                flat@.len() == f,
                forall|k: int| 0 <= k < f ==> #[trigger] flat@[k] == MapElement::Empty,
            decreases total - f,
        {
            flat.push(MapElement::Empty);
            f = f + 1;
        }
        let mut player_spawn: (usize, usize) = (0, 0);
        let mut exit_pos: (usize, usize) = (0, 0);
        let mut enemy_spawns: Vec<(usize, usize)> = Vec::new();
        // Each line writes its characters from the start of its row on.
        let mut y: usize = 0;
        while y < height
            invariant
                n == t.len(),
                n < i32::MAX,
                cs@ == t,
                                height == ranges@.len(),
                height <= n + 1,
                height == lines.len(),
                width == line_width(lines[0]),
                total == width * height,
                fits_grid(lines),
                forall|k: int| 0 <= k < ranges@.len() ==> #[trigger] ranges@[k].0 <= ranges@[k].1 <= n,
                forall|k: int|
                    0 <= k < ranges@.len() ==> #[trigger] lines[k] == t.subrange(
                        ranges@[k].0 as int,
                        ranges@[k].1 as int,
                    ),
                y <= height,
                flat@.len() == total,
                forall|k: int| 0 <= k < total ==> #[trigger] flat@[k] == flat_tile(lines, width as int, k, y as int),
                (player_spawn.0 as int, player_spawn.1 as int) == last_or_origin(
                    marks(lines, 'P', y as int),
                ),
                (exit_pos.0 as int, exit_pos.1 as int) == last_or_origin(marks(lines, 'O', y as int)),
                enemy_spawns@.map_values(|p: (usize, usize)| (p.0 as int, p.1 as int)) == marks(
                    lines,
                    'E',
                    y as int,
                ),
                player_spawn.0 <= n && player_spawn.1 <= n + 1,
            decreases height - y,
        {
            let (a, b) = ranges[y];
            let len = b - a;
            let ghost line = lines[y as int];
            assert(line == t.subrange(a as int, b as int));
            assert(y * width + lines[y as int].len() <= width * height);
            let base = y * width;
            let mut x: usize = 0;
            while x < len
                invariant
                    n == t.len(),
                    n < i32::MAX,
                    height <= n + 1,
                    cs@ == t,
                                        a <= b <= n,
                    len == b - a,
                    line == t.subrange(a as int, b as int),
                    y < height,
                    height == lines.len(),
                    line == lines[y as int],
                    base == y * width,
                    base + len <= total,
                    x <= len,
                    flat@.len() == total,
                    forall|k: int|
                        0 <= k < total ==> #[trigger] flat@[k] == if base <= k < base + x {
                            level_elem(line[k - base])
                        } else {
                            flat_tile(lines, width as int, k, y as int)
                        },
                    (player_spawn.0 as int, player_spawn.1 as int) == last_or_origin(
                        marks(lines, 'P', y as int) + marks_in_row(line, y as int, 'P', x as int),
                    ),
                    (exit_pos.0 as int, exit_pos.1 as int) == last_or_origin(
                        marks(lines, 'O', y as int) + marks_in_row(line, y as int, 'O', x as int),
                    ),
                    enemy_spawns@.map_values(|p: (usize, usize)| (p.0 as int, p.1 as int)) == marks(
                        lines,
                        'E',
                        y as int,
                    ) + marks_in_row(line, y as int, 'E', x as int),
                    player_spawn.0 <= n && player_spawn.1 <= n + 1,
                decreases len - x,
            {
                let c = cs[a + x];
                assert(c == line[x as int]);
                let ghost ch = line[x as int];
                let ghost before_e = enemy_spawns@;
                let elem = if c == 'X' {
                    MapElement::Unbreakable
                } else if c == '#' {
                    MapElement::Breakable
                } else if c == 'P' {
                    player_spawn = (x, y);
                    MapElement::Empty
                } else if c == 'E' {
                    enemy_spawns.push((x, y));
                    MapElement::Empty
                } else if c == 'O' {
                    exit_pos = (x, y);
                    MapElement::Breakable
                } else {
                    MapElement::Empty
                };
                assert(elem == level_elem(ch));
                assert(enemy_spawns@.map_values(|p: (usize, usize)| (p.0 as int, p.1 as int)) =~= marks(
                    lines,
                    'E',
                    y as int,
                ) + marks_in_row(line, y as int, 'E', x as int + 1)) by {
                    let prev = marks_in_row(line, y as int, 'E', x as int);
                    assert(line[x as int] == t[a + x]);
                    if ch == 'E' {
                        assert(marks_in_row(line, y as int, 'E', x as int + 1) == prev.push((x as int, y as int)));
                        assert(enemy_spawns@ == before_e.push((x, y)));
                        assert(enemy_spawns@.map_values(|p: (usize, usize)| (p.0 as int, p.1 as int))
                            =~= before_e.map_values(|p: (usize, usize)| (p.0 as int, p.1 as int)).push(
                            (x as int, y as int),
                        ));
                    } else {
                        assert(marks_in_row(line, y as int, 'E', x as int + 1) == prev);
                        assert(enemy_spawns@ == before_e);
                    }
                }
                flat.set(base + x, elem);
                x = x + 1;
            }
            assert forall|k: int| 0 <= k < total implies #[trigger] flat@[k] == flat_tile(
                lines,
                width as int,
                k,
                y as int + 1,
            ) by {
                assert((y as int + 1 - 1) * width == base);
            }
            assert(marks_in_row(line, y as int, 'P', len as int) == marks_in_row(
                lines[y as int],
                y as int,
                'P',
                lines[y as int].len() as int,
            ));
            assert(marks(lines, 'P', y as int + 1) == marks(lines, 'P', y as int) + marks_in_row(
                line,
                y as int,
                'P',
                len as int,
            ));
            assert(marks(lines, 'O', y as int + 1) == marks(lines, 'O', y as int) + marks_in_row(
                line,
                y as int,
                'O',
                len as int,
            ));
            assert(marks(lines, 'E', y as int + 1) == marks(lines, 'E', y as int) + marks_in_row(
                line,
                y as int,
                'E',
                len as int,
            ));
            y = y + 1;
        }
        // The rows, cut from the sequence.
        let mut content: Vec<Vec<MapElement>> = Vec::new();
        let mut y: usize = 0;
        while y < height
            invariant
                total == width * height,
                flat@.len() == total,
                forall|k: int| 0 <= k < total ==> #[trigger] flat@[k] == flat_tile(lines, width as int, k, height as int),
                y <= height,
                content@.len() == y,
                forall|k: int|
                    0 <= k < y ==> #[trigger] content@[k]@ == Seq::new(
                        width as nat,
                        |x: int| flat_tile(lines, width as int, k * width + x, height as int),
                    ),
            decreases height - y,
        {
            assert(y * width + width <= width * height) by (nonlinear_arith)
                requires
                    y < height,
            ;
            let base = y * width;
            let mut row: Vec<MapElement> = Vec::new();
            let mut x: usize = 0;
            while x < width
                invariant
                    total == width * height,
                    flat@.len() == total,
                    forall|k: int|
                        0 <= k < total ==> #[trigger] flat@[k] == flat_tile(lines, width as int, k, height as int),
                    base == y * width,
                    base + width <= total,
                    x <= width,
                    row@.len() == x,
                    forall|k: int|
                        0 <= k < x ==> row@[k] == flat_tile(lines, width as int, y * width + k, height as int),
                decreases width - x,
            {
                row.push(flat[base + x]);
                x = x + 1;
            }
            assert(row@ =~= Seq::new(
                width as nat,
                |x: int| flat_tile(lines, width as int, y * width + x, height as int),
            ));
            content.push(row);
            assert(content@[y as int]@ == row@);
            y = y + 1;
        }
        let spawn = SpawnPoint::init(player_spawn.0 as i32, player_spawn.1 as i32);
        let mut spawns: Vec<SpawnPoint> = Vec::new();
        spawns.push(spawn);
        let map = GameMap { width, height, content, spawns };
        assert forall|x: int, y: int| map.in_map(x, y) implies #[trigger] map.cell(x, y) == flat_tile(
            lines,
            map.width as int,
            y * map.width + x,
            map.height as int,
        ) by {
            assert(map.cells()[y] == content@[y]@);
        }
        assert forall|k: int| 0 <= k < map.height implies #[trigger] map.cells()[k].len() == map.width by {
            assert(map.cells()[k] == content@[k]@);
        }
        Some(LevelData { map, player_spawn, enemy_spawns, exit_pos })
    }
}

/// A line end searched for past a prefix `p` is found in what follows it.
proof fn lemma_line_end_shift(p: Seq<char>, q: Seq<char>, j: int)
    requires
        0 <= j <= q.len(),
    ensures
        line_end(p + q, p.len() + j) == p.len() + line_end(q, j),
    decreases q.len() - j,
{
    if j < q.len() {
        assert((p + q)[p.len() + j] == q[j]);
        if q[j] != '\n' {
            lemma_line_end_shift(p, q, j + 1);
        }
    }
}

/// Splitting lines past a prefix `p` that ends a line splits what follows it.
proof fn lemma_lines_from_shift(p: Seq<char>, q: Seq<char>, j: int)
    requires
        0 <= j <= q.len() + 1,
    ensures
        lines_from(p + q, p.len() + j) == lines_from(q, j),
    decreases q.len() + 1 - j,
{
    let t = p + q;
    if j < q.len() {
        lemma_line_end_shift(p, q, j);
        lemma_line_end_bounds(q, j);
        let e = line_end(q, j);
        assert(t.subrange(p.len() + j, p.len() + e) =~= q.subrange(j, e));
        lemma_lines_from_shift(p, q, e + 1);
    }
}

/// The characters of a rendered row hold no line end.
proof fn lemma_rendered_row_chars(row: Seq<MapElement>)
    ensures
        forall|k: int|
            0 <= k < rendered_row(row).len() ==> #[trigger] rendered_row(row)[k] != '\n'
                && rendered_row(row)[k] != '\r',
        rendered_row(row).len() == row.len(),
{
}

/// The rendering of rows, unfolded from the first row.
proof fn lemma_rendered_rows_front(rows: Seq<Seq<MapElement>>)
    requires
        rows.len() > 0,
    ensures
        rendered_rows(rows) == rendered_row(rows[0]) + seq!['\n'] + rendered_rows(rows.drop_first()),
    decreases rows.len(),
{
    if rows.len() == 1 {
        assert(rows.drop_first() =~= Seq::<Seq<MapElement>>::empty());
        assert(rows.drop_last() =~= Seq::<Seq<MapElement>>::empty());
        assert(rendered_rows(rows.drop_last()) =~= Seq::<char>::empty());
        assert(rendered_rows(rows) =~= rendered_row(rows[0]) + seq!['\n']);
    } else {
        lemma_rendered_rows_front(rows.drop_last());
        assert(rows.drop_last().drop_first() =~= rows.drop_first().drop_last());
        assert(rows.drop_last()[0] == rows[0]);
        assert(rows.drop_first().last() == rows.last());
        assert(rendered_rows(rows) =~= rendered_row(rows[0]) + seq!['\n'] + rendered_rows(
            rows.drop_first(),
        ));
    }
}

/// Splitting the rendering of rows into lines gives back one line per row.
proof fn lemma_lines_of_rendered(rows: Seq<Seq<MapElement>>)
    ensures
        lines_from(rendered_rows(rows), 0) == rows.map_values(|r: Seq<MapElement>| rendered_row(r)),
    decreases rows.len(),
{
    if rows.len() == 0 {
        assert(rows.map_values(|r: Seq<MapElement>| rendered_row(r)) =~= Seq::<Seq<char>>::empty());
    } else {
        lemma_rendered_rows_front(rows);
        let first = rendered_row(rows[0]);
        let rest = rendered_rows(rows.drop_first());
        let t = first + seq!['\n'] + rest;
        lemma_rendered_row_chars(rows[0]);
        assert forall|k: int| 0 <= k < first.len() implies t[k] != '\n' by {
            assert(t[k] == first[k]);
        }
        assert(t[first.len() as int] == '\n');
        assert(line_end(t, first.len() as int) == first.len()) by {
            lemma_line_end_bounds(t, first.len() as int);
        }
        assert forall|j: int| 0 <= j <= first.len() implies line_end(t, j) == first.len() by {
            lemma_line_end_bounds(t, j);
        }
        assert(t.subrange(0, first.len() as int) =~= first);
        assert(t =~= (first + seq!['\n']) + rest);
        lemma_lines_from_shift(first + seq!['\n'], rest, 0);
        lemma_lines_of_rendered(rows.drop_first());
        if first.len() > 0 {
            assert(first.last() != '\r');
        }
        assert(lines_from(t, 0) == seq![first] + lines_from(rest, 0));
        assert(rows.map_values(|r: Seq<MapElement>| rendered_row(r)) =~= seq![first]
            + rows.drop_first().map_values(|r: Seq<MapElement>| rendered_row(r)));
    }
}

/// When every line is `w` characters long, the tile at column `x` of row
/// `y` is given by that line's character there.
proof fn lemma_flat_tile_row(lines: Seq<Seq<char>>, w: int, y: int, x: int, k: int)
    requires
        0 <= x < w,
        0 <= y < k <= lines.len(),
        forall|j: int| 0 <= j < lines.len() ==> #[trigger] lines[j].len() == w,
    ensures
        flat_tile(lines, w, y * w + x, k) == level_elem(lines[y][x]),
    decreases k,
{
    if k - 1 > y {
        assert((k - 1) * w >= y * w + w) by (nonlinear_arith)
            requires
                k - 1 >= y + 1,
                w >= 0,
        ;
        lemma_flat_tile_row(lines, w, y, x, k - 1);
    } else {
        assert((k - 1) * w == y * w);
    }
}

/// When every line is `w` characters long, the lines fit a grid `w` wide.
proof fn lemma_equal_lines_fit(lines: Seq<Seq<char>>, w: int)
    requires
        lines.len() > 0,
        w >= 0,
        line_width(lines[0]) == w,
        forall|j: int| 0 <= j < lines.len() ==> #[trigger] lines[j].len() == w,
    ensures
        fits_grid(lines),
{
    assert forall|y: int| 0 <= y < lines.len() implies y * line_width(lines[0]) + (#[trigger] lines[y]).len()
        <= line_width(lines[0]) * lines.len() by {
        assert(y * w + w <= w * lines.len()) by (nonlinear_arith)
            requires
                0 <= y < lines.len(),
                w >= 0,
        ;
    }
}

/// A row of the debug display is as many bytes wide as it has tiles.
proof fn lemma_rendered_row_width(row: Seq<MapElement>)
    ensures
        line_width(rendered_row(row)) == row.len(),
{
    assert forall|k: int| 0 <= k < rendered_row(row).len() implies '\0' <= #[trigger] rendered_row(row)[k]
        <= '\u{7f}' by {
        assert(rendered_row(row)[k] == element_char(row[k]));
    }
    lemma_ascii_line_width(rendered_row(row));
}

/// Law: reading back the debug display of a map gives the same tiles, when
/// the map has at least one row and no exit tile (its `O` reads back as a
/// breakable box). The display is also a text that a level can be read from.
pub proof fn lemma_level_text_roundtrip(m: GameMap, level: LevelData)
    requires
        m.wf(),
        m.height >= 1,
        forall|x: int, y: int| m.in_map(x, y) ==> #[trigger] m.cell(x, y) != MapElement::Exit,
        describes(level, lines_from(rendered_rows(m.cells()), 0)),
    ensures
        level.map.width == m.width,
        level.map.height == m.height,
        level.map.cells() == m.cells(),
{
    let lines = lines_from(rendered_rows(m.cells()), 0);
    lemma_lines_of_rendered(m.cells());
    assert(lines.len() == m.height);
    assert(lines[0] == rendered_row(m.cells()[0]));
    assert(m.cells()[0].len() == m.width);
    lemma_rendered_row_width(m.cells()[0]);
    assert forall|y: int| 0 <= y < m.height implies #[trigger] level.map.cells()[y] =~= m.cells()[y] by {
        assert(lines[y] == rendered_row(m.cells()[y]));
        assert(level.map.cells()[y].len() == m.width);
        assert forall|x: int| 0 <= x < m.width implies level.map.cells()[y][x] == m.cells()[y][x] by {
            assert(m.cells()[y].len() == m.width);
            assert(lines[y].len() == m.width);
            assert(lines[y][x] == element_char(m.cells()[y][x]));
            assert(level.map.in_map(x, y));
            lemma_flat_tile_row(lines, m.width as int, y, x, m.height as int);
            assert(level.map.cell(x, y) == level_elem(lines[y][x]));
            assert(m.cell(x, y) != MapElement::Exit);
        }
    }
    assert(level.map.cells() =~= m.cells());
}

/// Law: the debug display of a map is a text the level reader accepts: it
/// is ASCII, every line is as long as the first, and, when the map has a
/// row, its lines fit the grid they describe.
pub proof fn lemma_rendered_is_level_text(m: GameMap)
    requires
        m.wf(),
    ensures
        is_ascii_seq(rendered_rows(m.cells())),
        m.height > 0 ==> fits_grid(lines_from(rendered_rows(m.cells()), 0)),
        forall|y: int|
            0 <= y < lines_from(rendered_rows(m.cells()), 0).len() ==> #[trigger] lines_from(
                rendered_rows(m.cells()),
                0,
            )[y].len() == m.width,
{
    lemma_lines_of_rendered(m.cells());
    lemma_rendered_ascii(m.cells());
    if m.height > 0 {
        let lines = lines_from(rendered_rows(m.cells()), 0);
        assert forall|j: int| 0 <= j < lines.len() implies #[trigger] lines[j].len() == m.width by {
            assert(lines[j] == rendered_row(m.cells()[j]));
        }
        assert(lines[0] == rendered_row(m.cells()[0]));
        lemma_rendered_row_width(m.cells()[0]);
        lemma_equal_lines_fit(lines, m.width as int);
    }
}

proof fn lemma_rendered_ascii(rows: Seq<Seq<MapElement>>)
    ensures
        is_ascii_seq(rendered_rows(rows)),
    decreases rows.len(),
{
    if rows.len() > 0 {
        lemma_rendered_ascii(rows.drop_last());
        let a = rendered_rows(rows.drop_last());
        let b = rendered_row(rows.last());
        assert forall|i: int| 0 <= i < rendered_rows(rows).len() implies '\0' <= #[trigger] rendered_rows(
            rows,
        )[i] <= '\u{7f}' by {
            if i < a.len() {
                assert(rendered_rows(rows)[i] == a[i]);
            } else if i < a.len() + b.len() {
                assert(rendered_rows(rows)[i] == b[i - a.len()]);
            }
        }
    }
}

/// Law: after a successful write of `e` at `(x, y)`, a read of `(x, y)`
/// gives `e` and a read of any other tile gives what it gave before.
pub proof fn lemma_get_after_set(before: GameMap, after: GameMap, x: int, y: int, e: MapElement)
    requires
        before.wf(),
        after.wf(),
        after.width == before.width,
        after.height == before.height,
        before.in_map(x, y),
        after.cells() == before.cells().update(y, before.cells()[y].update(x, e)),
    ensures
        after.elem_at(x, y) == e,
        forall|x2: int, y2: int| (x2, y2) != (x, y) ==> #[trigger] after.elem_at(x2, y2) == before.elem_at(x2, y2),
{
    assert forall|x2: int, y2: int| (x2, y2) != (x, y) implies #[trigger] after.elem_at(x2, y2) == before.elem_at(x2, y2) by {
        if after.in_map(x2, y2) && y2 == y {
            assert(before.cells()[y].len() == before.width);
        }
    }
}

} // verus!

verus! {

/// The square of the straight-line distance between the tiles `a` and `b`.
pub open spec fn tile_dist_sq(a: (int, int), b: (int, int)) -> int {
    (a.0 - b.0) * (a.0 - b.0) + (a.1 - b.1) * (a.1 - b.1)
}

/// Whether the tile `t` lies at least `min_dist` tiles from each tile of `avoid`.
pub open spec fn far_from(t: (int, int), avoid: Seq<(usize, usize)>, min_dist: int) -> bool {
    forall|i: int|
        0 <= i < avoid.len() ==> tile_dist_sq(t, (#[trigger] avoid[i].0 as int, avoid[i].1 as int)) >= min_dist
            * min_dist
}

/// Whether every tile of `m` is empty and lies at least `min_dist` tiles
/// from each tile of `avoid`, so that any tile drawn suits.
pub open spec fn all_tiles_free(m: GameMap, avoid: Seq<(usize, usize)>, min_dist: int) -> bool {
    forall|x: int, y: int|
        m.in_map(x, y) ==> #[trigger] m.cell(x, y) == MapElement::Empty && far_from((x, y), avoid, min_dist)
}

/// The difference of two coordinates, as a distance.
fn gap(a: usize, b: usize) -> (r: u128)
    ensures
        r == if a >= b { a - b } else { b - a },
{
    if a >= b {
        (a - b) as u128
    } else {
        (b - a) as u128
    }
}

impl GameMap {
    /// Whether the tile `(x, y)` lies at least `min_dist` tiles from each tile of `avoid`.
    fn is_far_from(x: usize, y: usize, avoid: &Vec<(usize, usize)>, min_dist: u32) -> (r: bool)
        ensures
            r == far_from((x as int, y as int), avoid@, min_dist as int),
    {
        let d = min_dist as u128;
        let mut i: usize = 0;
        while i < avoid.len()
            invariant
                i <= avoid@.len(),
                d == min_dist,
                forall|k: int|
                    0 <= k < i ==> tile_dist_sq((x as int, y as int), (#[trigger] avoid@[k].0 as int, avoid@[k].1 as int))
                        >= min_dist * min_dist,
            decreases avoid@.len() - i,
        {
            let (ax, ay) = avoid[i];
            let dx = gap(x, ax);
            let dy = gap(y, ay);
            let ghost t = tile_dist_sq((x as int, y as int), (ax as int, ay as int));
            assert(t == dx * dx + dy * dy) by (nonlinear_arith)
                requires
                    t == (x - ax) * (x - ax) + (y - ay) * (y - ay),
                    dx == if x >= ax { x - ax } else { ax - x },
                    dy == if y >= ay { y - ay } else { ay - y },
            ;
            if dx < d && dy < d {
                assert(dx * dx < d * d && dy * dy < d * d && d * d <= 0xffff_ffff * 0xffff_ffff) by (nonlinear_arith)
                    requires
                        0 <= dx < d,
                        0 <= dy < d,
                        d <= 0xffff_ffff,
                ;
                if dx * dx + dy * dy < d * d {
                    return false;
                }
            } else {
                assert(dx * dx + dy * dy >= d * d) by (nonlinear_arith)
                    requires
                        dx >= d || dy >= d,
                        dx >= 0,
                        dy >= 0,
                        d >= 0,
                ;
            }
            i = i + 1;
        }
        true
    }

    /// Draws up to `attempts` tiles of the map at random and gives the
    /// first that is empty and lies at least `min_dist` tiles from each tile
    /// of `avoid`; `None` when no draw found one.
    pub fn find_random_empty(&self, avoid: &Vec<(usize, usize)>, min_dist: u32, attempts: u32) -> (r: Option<(usize, usize)>)
        requires
            self.wf(),
        ensures
            r matches Some(t) ==> {
                &&& self.in_map(t.0 as int, t.1 as int)
                &&& self.cell(t.0 as int, t.1 as int) == MapElement::Empty
                &&& far_from((t.0 as int, t.1 as int), avoid@, min_dist as int)
            },
            (attempts == 0 || self.width == 0 || self.height == 0) ==> r is None,
            (attempts > 0 && self.width > 0 && self.height > 0 && all_tiles_free(*self, avoid@, min_dist as int))
                ==> r is Some,
    {
        if self.width == 0 || self.height == 0 {
            return None;
        }
        let mut k: u32 = 0;
        while k < attempts
            invariant
                self.wf(),
                self.width > 0,
                self.height > 0,
                k > 0 ==> !all_tiles_free(*self, avoid@, min_dist as int),
            decreases attempts - k,
        {
            let x = random_in_range(0, (self.width - 1) as u64) as usize;
            let y = random_in_range(0, (self.height - 1) as u64) as usize;
            assert(self.cells()[y as int] == self.content@[y as int]@);
            if self.content[y][x] == MapElement::Empty && Self::is_far_from(x, y, avoid, min_dist) {
                return Some((x, y));
            }
            assert(!all_tiles_free(*self, avoid@, min_dist as int)) by {
                assert(self.in_map(x as int, y as int));
                assert(self.cell(x as int, y as int) == self.content@[y as int]@[x as int]);
            }
            k = k + 1;
        }
        None
    }
}

} // verus!

verus! {

/// A spawn point placed by the random layout keeps the spawns spread and
/// the boxes around them cleared.
proof fn lemma_spawn_added(before: GameMap, after: GameMap, safe_range: int, size: int)
    requires
        before.wf(),
        after.wf(),
        spread_spawns(before.spawns@, safe_range),
        boxes_cleared_around(before, before.spawns@, size),
        after.width == before.width,
        after.height == before.height,
        after.spawns@.len() == before.spawns@.len() + 1,
        after.spawns@.drop_last() == before.spawns@,
        ({
            let p = after.spawns@.last();
            &&& (p.x as int) % 2 != (p.y as int) % 2
            &&& forall|i: int|
                0 <= i < before.spawns@.len() ==> {
                    let q = #[trigger] before.spawns@[i];
                    abs(q.x - p.x) > safe_range || abs(q.y - p.y) > safe_range
                }
            &&& after.cells() == cleared(before.cells(), p.x as int, p.y as int, size)
        }),
    ensures
        spread_spawns(after.spawns@, safe_range),
        boxes_cleared_around(after, after.spawns@, size),
{
    let n = before.spawns@.len() as int;
    let p = after.spawns@.last();
    assert forall|i: int| 0 <= i < n implies after.spawns@[i] == before.spawns@[i] by {
        assert(after.spawns@.drop_last()[i] == after.spawns@[i]);
    }
    assert forall|i: int, j: int|
        0 <= i < j < after.spawns@.len() implies abs(#[trigger] after.spawns@[i].x - #[trigger] after.spawns@[j].x)
        > safe_range || abs(after.spawns@[i].y - after.spawns@[j].y) > safe_range by {
        assert(after.spawns@[i] == before.spawns@[i]);
        if j < n {
            assert(after.spawns@[j] == before.spawns@[j]);
        } else {
            assert(after.spawns@[j] == p);
        }
    }
    assert forall|i: int, x: int, y: int|
        0 <= i < after.spawns@.len() && after.in_map(x, y) && in_square(
            x,
            y,
            (#[trigger] after.spawns@[i]).x as int,
            after.spawns@[i].y as int,
            size,
        ) implies #[trigger] after.cell(x, y) != MapElement::Breakable by {
        assert(before.cells()[y].len() == before.width);
        if i < n {
            assert(after.spawns@[i] == before.spawns@[i]);
            assert(before.cell(x, y) != MapElement::Breakable);
        }
    }
}

} // verus!

verus! {

/// A line one character longer is as many bytes wider as that character takes.
pub proof fn lemma_line_width_push(line: Seq<char>, c: char)
    ensures
        line_width(line.push(c)) == line_width(line) + char_width(c),
    decreases line.len(),
{
    let u = c as u32;
    assert(0 <= u <= 0xD7FF || 0xE000 <= u <= 0x10FFFF);
    if line.len() == 0 {
        assert(line.push(c).drop_first() =~= Seq::<char>::empty());
        assert(vstd::utf8::encode_utf8(Seq::<char>::empty()).len() == 0);
    } else {
        lemma_line_width_push(line.drop_first(), c);
        assert(line.push(c).drop_first() =~= line.drop_first().push(c));
        assert(line.push(c)[0] == line[0]);
    }
}

/// An ASCII line is as many bytes wide as it has characters.
pub proof fn lemma_ascii_line_width(line: Seq<char>)
    requires
        is_ascii_seq(line),
    ensures
        line_width(line) == line.len(),
{
    assert(vstd::utf8::is_ascii_chars(line));
    vstd::utf8::is_ascii_chars_encode_utf8(line);
}

} // verus!

