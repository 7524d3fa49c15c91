use vstd::prelude::*;

use crate::bomb::{arm_tile, Bomb};
use crate::direction::Direction;
use crate::enemy::{next_tile, open_tile, Enemy};
use crate::map::GameMap;

verus! {

/// The tile next to `t` in direction `d`.
pub open spec fn step(t: (int, int), d: Direction) -> (int, int) {
    arm_tile(t.0, t.1, d, 1)
}

/// The direction opposite to `d`.
pub open spec fn opposite(d: Direction) -> Direction {
    match d {
        Direction::Up => Direction::Down,
        Direction::Down => Direction::Up,
        Direction::Left => Direction::Right,
        Direction::Right => Direction::Left,
    }
}

/// The rank of a direction in the order Up, Down, Left, Right.
pub open spec fn rank(d: Direction) -> int {
    match d {
        Direction::Up => 0,
        Direction::Down => 1,
        Direction::Left => 2,
        Direction::Right => 3,
    }
}

/// Whether a walk of at most `k` steps, each to a neighbouring tile and
/// all over open tiles, leads from the open tile `t` to `goal`.
pub open spec fn reaches(m: GameMap, bombs: Seq<Bomb>, others: Seq<Enemy>, goal: (int, int), t: (int, int), k: nat) -> bool
    decreases k,
{
    open_tile(m, bombs, others, t) && (t == goal || (k > 0 && (reaches(
        m,
        bombs,
        others,
        goal,
        step(t, Direction::Up),
        (k - 1) as nat,
    ) || reaches(m, bombs, others, goal, step(t, Direction::Down), (k - 1) as nat) || reaches(
        m,
        bombs,
        others,
        goal,
        step(t, Direction::Left),
        (k - 1) as nat,
    ) || reaches(m, bombs, others, goal, step(t, Direction::Right), (k - 1) as nat))))
}

/// Whether a neighbour of `s` reaches `goal` within `k` steps.
pub open spec fn next_reaches(m: GameMap, bombs: Seq<Bomb>, others: Seq<Enemy>, goal: (int, int), s: (int, int), k: nat) -> bool {
    exists|d: Direction| reaches(m, bombs, others, goal, #[trigger] step(s, d), k)
}

/// Walking a step and back again leads to the start.
pub proof fn lemma_step_back(t: (int, int), d: Direction)
    ensures
        step(step(t, d), opposite(d)) == t,
{
}

/// A tile that reaches the goal within `j` steps reaches it within any more.
pub proof fn lemma_reaches_mono(m: GameMap, bombs: Seq<Bomb>, others: Seq<Enemy>, goal: (int, int), t: (int, int), j: nat, k: nat)
    requires
        j <= k,
        reaches(m, bombs, others, goal, t, j),
    ensures
        reaches(m, bombs, others, goal, t, k),
    decreases j,
{
    if t != goal {
        if reaches(m, bombs, others, goal, step(t, Direction::Up), (j - 1) as nat) {
            lemma_reaches_mono(m, bombs, others, goal, step(t, Direction::Up), (j - 1) as nat, (k - 1) as nat);
        } else if reaches(m, bombs, others, goal, step(t, Direction::Down), (j - 1) as nat) {
            lemma_reaches_mono(m, bombs, others, goal, step(t, Direction::Down), (j - 1) as nat, (k - 1) as nat);
        } else if reaches(m, bombs, others, goal, step(t, Direction::Left), (j - 1) as nat) {
            lemma_reaches_mono(m, bombs, others, goal, step(t, Direction::Left), (j - 1) as nat, (k - 1) as nat);
        } else {
            lemma_reaches_mono(m, bombs, others, goal, step(t, Direction::Right), (j - 1) as nat, (k - 1) as nat);
        }
    }
}

/// A tile reaching the goal within `k + 1` steps has a neighbour reaching
/// it within `k`, unless it is the goal.
pub proof fn lemma_reaches_unfold(m: GameMap, bombs: Seq<Bomb>, others: Seq<Enemy>, goal: (int, int), t: (int, int), k: nat)
    requires
        reaches(m, bombs, others, goal, t, k + 1),
        t != goal,
    ensures
        open_tile(m, bombs, others, t),
        next_reaches(m, bombs, others, goal, t, k),
{
    if reaches(m, bombs, others, goal, step(t, Direction::Up), k) {
        assert(reaches(m, bombs, others, goal, step(t, Direction::Up), k));
    } else if reaches(m, bombs, others, goal, step(t, Direction::Down), k) {
        assert(reaches(m, bombs, others, goal, step(t, Direction::Down), k));
    } else if reaches(m, bombs, others, goal, step(t, Direction::Left), k) {
        assert(reaches(m, bombs, others, goal, step(t, Direction::Left), k));
    } else {
        assert(reaches(m, bombs, others, goal, step(t, Direction::Right), k));
    }
}

/// An open tile with a neighbour reaching the goal within `k` steps reaches
/// it within `k + 1`.
pub proof fn lemma_reaches_fold(m: GameMap, bombs: Seq<Bomb>, others: Seq<Enemy>, goal: (int, int), t: (int, int), d: Direction, k: nat)
    requires
        open_tile(m, bombs, others, t),
        reaches(m, bombs, others, goal, step(t, d), k),
    ensures
        reaches(m, bombs, others, goal, t, k + 1),
{
    match d {
        Direction::Up => {},
        Direction::Down => {},
        Direction::Left => {},
        Direction::Right => {},
    }
}

/// Once no tile needs `L + 1` steps rather than `L`, no tile needs more
/// than `L` steps at all.
pub proof fn lemma_reaches_settled(m: GameMap, bombs: Seq<Bomb>, others: Seq<Enemy>, goal: (int, int), level: nat, t: (int, int), k: nat)
    requires
        forall|u: (int, int)| #[trigger] reaches(m, bombs, others, goal, u, level + 1) ==> reaches(m, bombs, others, goal, u, level),
        reaches(m, bombs, others, goal, t, k),
    ensures
        reaches(m, bombs, others, goal, t, level),
    decreases k,
{
    if k <= level {
        lemma_reaches_mono(m, bombs, others, goal, t, k, level);
    } else if t == goal {
        lemma_reaches_mono(m, bombs, others, goal, t, 0, level);
    } else {
        lemma_reaches_unfold(m, bombs, others, goal, t, (k - 1) as nat);
        let d = choose|d: Direction| reaches(m, bombs, others, goal, #[trigger] step(t, d), (k - 1) as nat);
        lemma_reaches_settled(m, bombs, others, goal, level, step(t, d), (k - 1) as nat);
        lemma_reaches_fold(m, bombs, others, goal, t, d, level);
    }
}

} // verus!

verus! {

/// The value of a tile no walk reaches.
pub const UNREACHED: u64 = 0xffff_ffff_ffff_ffff;

/// The number of the tile `(x, y)` of a map `w` tiles wide, row by row.
pub open spec fn tix(x: int, y: int, w: int) -> int {
    y * w + x
}

/// The entry of `dist` for the tile `(x, y)` of a map `w` tiles wide.
pub open spec fn dist_at(dist: Seq<u64>, w: int, x: int, y: int) -> u64 {
    dist[tix(x, y, w)]
}

/// Whether `v` is the least number of steps in which the tile `t` reaches
/// `goal`, as far as `level` steps go: `UNREACHED` when it needs more.
pub open spec fn exact(m: GameMap, bombs: Seq<Bomb>, others: Seq<Enemy>, goal: (int, int), v: u64, t: (int, int), level: nat) -> bool {
    &&& (v == UNREACHED <==> !reaches(m, bombs, others, goal, t, level))
    &&& v != UNREACHED ==> {
        &&& v <= level
        &&& reaches(m, bombs, others, goal, t, v as nat)
        &&& (v == 0 || !reaches(m, bombs, others, goal, t, (v - 1) as nat))
    }
}

/// How many of the first `k` entries of `dist` are reached.
pub open spec fn num_reached(dist: Seq<u64>, k: int) -> int
    decreases k,
{
    if k <= 0 {
        0
    } else {
        num_reached(dist, k - 1) + if dist[k - 1] != UNREACHED {
            1int
        } else {
            0
        }
    }
}

/// Tile numbers are distinct and lie within the map's count of tiles.
proof fn lemma_tix(x: int, y: int, x2: int, y2: int, w: int, h: int)
    requires
        0 <= x < w,
        0 <= y < h,
        0 <= x2 < w,
        0 <= y2 < h,
    ensures
        0 <= tix(x, y, w) < w * h,
        tix(x, y, w) == tix(x2, y2, w) ==> x == x2 && y == y2,
{
    assert(0 <= y * w + x < w * h) by (nonlinear_arith)
        requires
            0 <= x < w,
            0 <= y < h,
    ;
    if y < y2 {
        assert(y * w + x < y2 * w + x2) by (nonlinear_arith)
            requires
                0 <= x < w,
                0 <= x2,
                y < y2,
        ;
    } else if y2 < y {
        assert(y2 * w + x2 < y * w + x) by (nonlinear_arith)
            requires
                0 <= x2 < w,
                0 <= x,
                y2 < y,
        ;
    }
}

/// The number of a tile of the map lies within the map's count of tiles.
pub(crate) proof fn lemma_tix_bound(x: int, y: int, w: int, h: int)
    requires
        0 <= x < w,
        0 <= y < h,
    ensures
        0 <= tix(x, y, w) < w * h,
{
    lemma_tix(x, y, x, y, w, h);
}

/// At most all entries are reached.
proof fn lemma_num_reached_bound(dist: Seq<u64>, k: int)
    requires
        0 <= k,
    ensures
        0 <= num_reached(dist, k) <= k,
    decreases k,
{
    if k > 0 {
        lemma_num_reached_bound(dist, k - 1);
    }
}

/// Marking an unreached entry as reached adds one to the count.
proof fn lemma_num_reached_update(dist: Seq<u64>, i: int, v: u64, k: int)
    requires
        0 <= i < dist.len(),
        0 <= k <= dist.len(),
        dist[i] == UNREACHED,
        v != UNREACHED,
    ensures
        num_reached(dist.update(i, v), k) == num_reached(dist, k) + if i < k {
            1int
        } else {
            0
        },
    decreases k,
{
    if k > 0 {
        lemma_num_reached_update(dist, i, v, k - 1);
    }
}

} // verus!

verus! {

/// Whether every tile of the map has its least number of steps to `goal`
/// in `dist`, as far as `level` steps go.
pub open spec fn settled(m: GameMap, bombs: Seq<Bomb>, others: Seq<Enemy>, goal: (int, int), dist: Seq<u64>, level: nat) -> bool {
    &&& dist.len() == m.width * m.height
    &&& forall|x: int, y: int|
        m.in_map(x, y) ==> exact(m, bombs, others, goal, #[trigger] dist_at(dist, m.width as int, x, y), (x, y), level)
}

/// Whether `f` lists exactly the tiles `level` steps away from the goal.
pub open spec fn frontier_ok(m: GameMap, dist: Seq<u64>, f: Seq<(usize, usize)>, level: nat) -> bool {
    &&& forall|i: int|
        0 <= i < f.len() ==> m.in_map((#[trigger] f[i]).0 as int, f[i].1 as int) && dist_at(
            dist,
            m.width as int,
            f[i].0 as int,
            f[i].1 as int,
        ) == level
    &&& forall|x: int, y: int|
        m.in_map(x, y) && #[trigger] dist_at(dist, m.width as int, x, y) == level ==> exists|i: int|
            0 <= i < f.len() && (#[trigger] f[i]).0 as int == x && f[i].1 as int == y
}

/// Whether an enemy may walk onto the tile `(x, y)` of the map.
fn open_exec(map: &GameMap, bombs: &Vec<Bomb>, others: &Vec<Enemy>, x: usize, y: usize) -> (r: bool)
    requires
        map.wf(),
        x < map.width,
        y < map.height,
        map.width <= 1_000_000,
        map.height <= 1_000_000,
    ensures
        r == open_tile(*map, bombs@, others@, (x as int, y as int)),
{
    if !map.is_walkable_tile(x as i32, y as i32) {
        return false;
    }
    let c = Enemy::tile_center(x as i64, y as i64);
    !Enemy::tile_blocked(c, bombs, others)
}

/// Labels the tile `(x, y)` with `level + 1` steps and adds it to `next`
/// when it lies in the map, is open and has no label yet.
fn visit(
    map: &GameMap,
    bombs: &Vec<Bomb>,
    others: &Vec<Enemy>,
    dist: &mut Vec<u64>,
    next: &mut Vec<(usize, usize)>,
    x: i64,
    y: i64,
    level: u64,
)
    requires
        map.wf(),
        map.width <= 1_000_000,
        map.height <= 1_000_000,
        old(dist)@.len() == map.width * map.height,
        level < UNREACHED - 1,
    ensures
        ({
            let t = (x as int, y as int);
            if map.in_map(t.0, t.1) && dist_at(old(dist)@, map.width as int, t.0, t.1) == UNREACHED
                && open_tile(*map, bombs@, others@, t) {
                &&& final(dist)@ == old(dist)@.update(tix(t.0, t.1, map.width as int), (level + 1) as u64)
                &&& final(next)@ == old(next)@.push((x as usize, y as usize))
            } else {
                &&& final(dist)@ == old(dist)@
                &&& final(next)@ == old(next)@
            }
        }),
{
    if x < 0 || y < 0 || x as u64 >= map.width as u64 || y as u64 >= map.height as u64 {
        return;
    }
    let ux = x as usize;
    let uy = y as usize;
    let n = dist.len();
    proof {
        lemma_tix(x as int, y as int, x as int, y as int, map.width as int, map.height as int);
    }
    let i = uy * map.width + ux;
    if dist[i] != UNREACHED {
        return;
    }
    if !open_exec(map, bombs, others, ux, uy) {
        return;
    }
    dist.set(i, level + 1);
    next.push((ux, uy));
}

} // verus!

verus! {

/// Whether `dist` is `d0` with some of the tiles `level + 1` steps from the
/// goal labelled so, and `next` lists exactly those.
pub open spec fn round_inv(
    m: GameMap,
    bombs: Seq<Bomb>,
    others: Seq<Enemy>,
    goal: (int, int),
    d0: Seq<u64>,
    dist: Seq<u64>,
    next: Seq<(usize, usize)>,
    level: nat,
) -> bool {
    let w = m.width as int;
    &&& dist.len() == d0.len() == m.width * m.height
    &&& forall|x: int, y: int|
        #![trigger dist_at(dist, w, x, y)]
        #![trigger dist_at(d0, w, x, y)]
        m.in_map(x, y) ==> {
            let v0 = dist_at(d0, w, x, y);
            let v = dist_at(dist, w, x, y);
            &&& v0 != UNREACHED ==> v == v0
            &&& v0 == UNREACHED ==> (v == UNREACHED || (v == level + 1 && reaches(
                m,
                bombs,
                others,
                goal,
                (x, y),
                level + 1,
            )))
        }
    &&& forall|j: int|
        0 <= j < next.len() ==> m.in_map((#[trigger] next[j]).0 as int, next[j].1 as int) && dist_at(
            dist,
            w,
            next[j].0 as int,
            next[j].1 as int,
        ) == level + 1 && dist_at(d0, w, next[j].0 as int, next[j].1 as int) == UNREACHED
    &&& forall|x: int, y: int|
        m.in_map(x, y) && #[trigger] dist_at(dist, w, x, y) == level + 1 && dist_at(d0, w, x, y)
            == UNREACHED ==> exists|j: int| 0 <= j < next.len() && (#[trigger] next[j]).0 as int == x && next[j].1 as int == y
    &&& num_reached(dist, m.width * m.height) == num_reached(d0, m.width * m.height) + next.len()
}

/// Labels the neighbour in direction `d` of the tile `(fx, fy)`, which
/// reaches the goal within `level` steps, when it is open and unlabelled.
fn visit_from(
    map: &GameMap,
    bombs: &Vec<Bomb>,
    others: &Vec<Enemy>,
    Ghost(goal): Ghost<(int, int)>,
    Ghost(d0): Ghost<Seq<u64>>,
    dist: &mut Vec<u64>,
    next: &mut Vec<(usize, usize)>,
    fx: usize,
    fy: usize,
    d: Direction,
    level: u64,
)
    requires
        map.wf(),
        map.width <= 1_000_000,
        map.height <= 1_000_000,
        level < UNREACHED - 1,
        fx < map.width,
        fy < map.height,
        reaches(*map, bombs@, others@, goal, (fx as int, fy as int), level as nat),
        round_inv(*map, bombs@, others@, goal, d0, old(dist)@, old(next)@, level as nat),
    ensures
        round_inv(*map, bombs@, others@, goal, d0, final(dist)@, final(next)@, level as nat),
        ({
            let nb = step((fx as int, fy as int), d);
            map.in_map(nb.0, nb.1) && open_tile(*map, bombs@, others@, nb) ==> dist_at(
                final(dist)@,
                map.width as int,
                nb.0,
                nb.1,
            ) != UNREACHED
        }),
        forall|x: int, y: int|
            map.in_map(x, y) && #[trigger] dist_at(old(dist)@, map.width as int, x, y) != UNREACHED ==> dist_at(
                final(dist)@,
                map.width as int,
                x,
                y,
            ) == dist_at(old(dist)@, map.width as int, x, y),
{
    let ghost dist1 = dist@;
    let ghost next1 = next@;
    let ghost w = map.width as int;
    let ghost h = map.height as int;
    let (nx, ny) = next_tile(fx as i64, fy as i64, d);
    visit(map, bombs, others, dist, next, nx, ny, level);
    proof {
        let t = (nx as int, ny as int);
        if map.in_map(t.0, t.1) && dist_at(dist1, w, t.0, t.1) == UNREACHED && open_tile(*map, bombs@, others@, t) {
            let i = tix(t.0, t.1, w);
            lemma_tix(t.0, t.1, t.0, t.1, w, h);
            lemma_step_back((fx as int, fy as int), d);
            lemma_reaches_fold(*map, bombs@, others@, goal, t, opposite(d), level as nat);
            lemma_num_reached_update(dist1, i, (level + 1) as u64, w * h);
            assert forall|x: int, y: int| map.in_map(x, y) && (x, y) != t implies #[trigger] dist_at(dist@, w, x, y)
                == dist_at(dist1, w, x, y) by {
                lemma_tix(x, y, t.0, t.1, w, h);
            }
            assert(dist_at(dist@, w, t.0, t.1) == level + 1);
            assert(dist_at(d0, w, t.0, t.1) == UNREACHED);
            assert forall|x: int, y: int|
                map.in_map(x, y) && #[trigger] dist_at(dist@, w, x, y) == level + 1 && dist_at(d0, w, x, y)
                    == UNREACHED implies exists|j: int|
                0 <= j < next@.len() && (#[trigger] next@[j]).0 as int == x && next@[j].1 as int == y by {
                if (x, y) == t {
                    assert(next@[next@.len() - 1] == (nx as usize, ny as usize));
                } else {
                    let j = choose|j: int|
                        0 <= j < next1.len() && (#[trigger] next1[j]).0 as int == x && next1[j].1 as int == y;
                    assert(next@[j] == next1[j]);
                }
            }
            assert forall|j: int| 0 <= j < next@.len() implies map.in_map((#[trigger] next@[j]).0 as int, next@[j].1 as int)
                && dist_at(dist@, w, next@[j].0 as int, next@[j].1 as int) == level + 1 && dist_at(
                d0,
                w,
                next@[j].0 as int,
                next@[j].1 as int,
            ) == UNREACHED by {
                if j < next1.len() {
                    assert(next@[j] == next1[j]);
                    lemma_tix(next1[j].0 as int, next1[j].1 as int, t.0, t.1, w, h);
                }
            }
        }
    }
}

} // verus!

verus! {

/// Whether the neighbour of `f` in direction `d` is labelled, when it is
/// an open tile of the map.
pub open spec fn covered(m: GameMap, bombs: Seq<Bomb>, others: Seq<Enemy>, dist: Seq<u64>, f: (usize, usize), d: Direction) -> bool {
    let nb = step((f.0 as int, f.1 as int), d);
    m.in_map(nb.0, nb.1) && open_tile(m, bombs, others, nb) ==> dist_at(dist, m.width as int, nb.0, nb.1)
        != UNREACHED
}

/// One round of the search: labels with `level + 1` steps the unlabelled
/// open neighbours of the tiles `level` steps from the goal, and returns them.
fn expand(
    map: &GameMap,
    bombs: &Vec<Bomb>,
    others: &Vec<Enemy>,
    Ghost(goal): Ghost<(int, int)>,
    dist: &mut Vec<u64>,
    frontier: &Vec<(usize, usize)>,
    level: u64,
) -> (next: Vec<(usize, usize)>)
    requires
        map.wf(),
        map.width <= 1_000_000,
        map.height <= 1_000_000,
        level < UNREACHED - 1,
        settled(*map, bombs@, others@, goal, old(dist)@, level as nat),
        frontier_ok(*map, old(dist)@, frontier@, level as nat),
    ensures
        settled(*map, bombs@, others@, goal, final(dist)@, (level + 1) as nat),
        frontier_ok(*map, final(dist)@, next@, (level + 1) as nat),
        num_reached(final(dist)@, map.width * map.height) == num_reached(old(dist)@, map.width * map.height)
            + next@.len(),
{
    let ghost d0 = dist@;
    let ghost w = map.width as int;
    let mut next: Vec<(usize, usize)> = Vec::new();
    let mut fi: usize = 0;
    while fi < frontier.len()
        invariant
            map.wf(),
            map.width <= 1_000_000,
            map.height <= 1_000_000,
            w == map.width,
            level < UNREACHED - 1,
            fi <= frontier@.len(),
            settled(*map, bombs@, others@, goal, d0, level as nat),
            frontier_ok(*map, d0, frontier@, level as nat),
            round_inv(*map, bombs@, others@, goal, d0, dist@, next@, level as nat),
            forall|i: int, d: Direction|
                0 <= i < fi ==> #[trigger] covered(*map, bombs@, others@, dist@, frontier@[i], d),
        decreases frontier@.len() - fi,
    {
        let (fx, fy) = frontier[fi];
        assert(frontier@[fi as int] == (fx, fy));
        assert(dist_at(d0, w, fx as int, fy as int) == level);
        let ghost before = dist@;
        visit_from(map, bombs, others, Ghost(goal), Ghost(d0), dist, &mut next, fx, fy, Direction::Up, level);
        let ghost after_up = dist@;
        visit_from(map, bombs, others, Ghost(goal), Ghost(d0), dist, &mut next, fx, fy, Direction::Down, level);
        let ghost after_down = dist@;
        visit_from(map, bombs, others, Ghost(goal), Ghost(d0), dist, &mut next, fx, fy, Direction::Left, level);
        let ghost after_left = dist@;
        visit_from(map, bombs, others, Ghost(goal), Ghost(d0), dist, &mut next, fx, fy, Direction::Right, level);
        proof {
            assert forall|i: int, d: Direction|
                0 <= i < fi + 1 implies #[trigger] covered(*map, bombs@, others@, dist@, frontier@[i], d) by {
                let nb = step((frontier@[i].0 as int, frontier@[i].1 as int), d);
                if map.in_map(nb.0, nb.1) && open_tile(*map, bombs@, others@, nb) {
                    if i < fi {
                        assert(covered(*map, bombs@, others@, before, frontier@[i], d));
                    } else {
                        match d {
                            Direction::Up => {},
                            Direction::Down => {},
                            Direction::Left => {},
                            Direction::Right => {},
                        }
                    }
                    assert(dist_at(before, w, nb.0, nb.1) != UNREACHED ==> dist_at(after_up, w, nb.0, nb.1) != UNREACHED);
                    assert(dist_at(after_up, w, nb.0, nb.1) != UNREACHED ==> dist_at(after_down, w, nb.0, nb.1) != UNREACHED);
                    assert(dist_at(after_down, w, nb.0, nb.1) != UNREACHED ==> dist_at(after_left, w, nb.0, nb.1) != UNREACHED);
                    assert(dist_at(after_left, w, nb.0, nb.1) != UNREACHED ==> dist_at(dist@, w, nb.0, nb.1) != UNREACHED);
                }
            }
        }
        fi = fi + 1;
    }
    proof {
        let m = *map;
        let bs = bombs@;
        let os = others@;
        let lv = level as nat;
        assert forall|x: int, y: int| m.in_map(x, y) implies exact(
            m,
            bs,
            os,
            goal,
            #[trigger] dist_at(dist@, w, x, y),
            (x, y),
            lv + 1,
        ) by {
            let t = (x, y);
            let v0 = dist_at(d0, w, x, y);
            let v = dist_at(dist@, w, x, y);
            assert(exact(m, bs, os, goal, v0, t, lv));
            if v0 != UNREACHED {
                lemma_reaches_mono(m, bs, os, goal, t, v0 as nat, lv + 1);
            } else if v == UNREACHED {
                if reaches(m, bs, os, goal, t, lv + 1) {
                    if t == goal {
                        lemma_reaches_mono(m, bs, os, goal, t, 0, lv);
                    } else {
                        lemma_reaches_unfold(m, bs, os, goal, t, lv);
                        let d = choose|d: Direction| reaches(m, bs, os, goal, #[trigger] step(t, d), lv);
                        let f = step(t, d);
                        let vf = dist_at(d0, w, f.0, f.1);
                        assert(exact(m, bs, os, goal, vf, f, lv));
                        if vf < level {
                            lemma_reaches_mono(m, bs, os, goal, f, vf as nat, (lv - 1) as nat);
                            lemma_reaches_fold(m, bs, os, goal, t, d, (lv - 1) as nat);
                        } else {
                            let i = choose|i: int|
                                0 <= i < frontier@.len() && (#[trigger] frontier@[i]).0 as int == f.0
                                    && frontier@[i].1 as int == f.1;
                            lemma_step_back(t, d);
                            assert(covered(m, bs, os, dist@, frontier@[i], opposite(d)));
                        }
                    }
                }
            }
        }
        assert forall|x: int, y: int|
            m.in_map(x, y) && #[trigger] dist_at(dist@, w, x, y) == lv + 1 implies exists|i: int|
            0 <= i < next@.len() && (#[trigger] next@[i]).0 as int == x && next@[i].1 as int == y by {
            assert(dist_at(d0, w, x, y) == UNREACHED) by {
                assert(exact(m, bs, os, goal, dist_at(d0, w, x, y), (x, y), lv));
            }
        }
    }
    next
}

} // verus!

verus! {

/// Nothing is reached in a table where no entry is.
proof fn lemma_num_reached_none(dist: Seq<u64>, k: int)
    requires
        0 <= k <= dist.len(),
        forall|i: int| 0 <= i < dist.len() ==> dist[i] == UNREACHED,
    ensures
        num_reached(dist, k) == 0,
    decreases k,
{
    if k > 0 {
        lemma_num_reached_none(dist, k - 1);
    }
}

/// For each tile of the map, row by row, the least number of steps in which
/// it reaches the tile `(gx, gy)` over open tiles; `UNREACHED` when no walk
/// does.
pub(crate) fn distances_to(map: &GameMap, bombs: &Vec<Bomb>, others: &Vec<Enemy>, gx: usize, gy: usize) -> (dist: Vec<u64>)
    requires
        map.wf(),
        map.width <= 1_000_000,
        map.height <= 1_000_000,
        map.width * map.height <= usize::MAX,
        gx < map.width,
        gy < map.height,
    ensures
        dist@.len() == map.width * map.height,
        forall|x: int, y: int|
            map.in_map(x, y) ==> {
                let v = #[trigger] dist_at(dist@, map.width as int, x, y);
                let g = (gx as int, gy as int);
                &&& (v == UNREACHED <==> forall|k: nat| !reaches(*map, bombs@, others@, g, (x, y), k))
                &&& v != UNREACHED ==> reaches(*map, bombs@, others@, g, (x, y), v as nat) && forall|j: nat|
                    j < v ==> !reaches(*map, bombs@, others@, g, (x, y), j)
            },
{
    let ghost goal = (gx as int, gy as int);
    let ghost w = map.width as int;
    let ghost h = map.height as int;
    let n = map.width * map.height;
    let mut dist: Vec<u64> = Vec::new();
    let mut i: usize = 0;
    while i < n
        invariant
            i <= n,
            n == map.width * map.height,
            dist@.len() == i,
            forall|k: int| 0 <= k < i ==> dist@[k] == UNREACHED,
        decreases n - i,
    {
        dist.push(UNREACHED);
        i = i + 1;
    }
    proof {
        lemma_num_reached_none(dist@, n as int);
        lemma_tix(gx as int, gy as int, gx as int, gy as int, w, h);
    }
    let mut frontier: Vec<(usize, usize)> = Vec::new();
    let gi = gy * map.width + gx;
    if open_exec(map, bombs, others, gx, gy) {
        proof {
            lemma_num_reached_update(dist@, gi as int, 0, n as int);
        }
        dist.set(gi, 0);
        frontier.push((gx, gy));
    }
    proof {
        assert forall|x: int, y: int| map.in_map(x, y) implies exact(
            *map,
            bombs@,
            others@,
            goal,
            #[trigger] dist_at(dist@, w, x, y),
            (x, y),
            0,
        ) by {
            lemma_tix(x, y, gx as int, gy as int, w, h);
        }
        assert forall|x: int, y: int| map.in_map(x, y) && #[trigger] dist_at(dist@, w, x, y) == 0 implies exists|i: int|
            0 <= i < frontier@.len() && (#[trigger] frontier@[i]).0 as int == x && frontier@[i].1 as int == y by {
            lemma_tix(x, y, gx as int, gy as int, w, h);
            assert(frontier@[0] == (gx, gy));
        }
    }
    let mut level: u64 = 0;
    while frontier.len() > 0
        invariant
            map.wf(),
            map.width <= 1_000_000,
            map.height <= 1_000_000,
            n == map.width * map.height,
            w == map.width,
            settled(*map, bombs@, others@, goal, dist@, level as nat),
            frontier_ok(*map, dist@, frontier@, level as nat),
            level <= num_reached(dist@, n as int),
            frontier@.len() > 0 ==> level < num_reached(dist@, n as int),
            frontier@.len() <= num_reached(dist@, n as int),
        decreases n - num_reached(dist@, n as int) + frontier@.len(),
    {
        proof {
            lemma_num_reached_bound(dist@, n as int);
            assert(map.width * map.height <= 1_000_000_000_000) by (nonlinear_arith)
                requires
                    map.width <= 1_000_000,
                    map.height <= 1_000_000,
            ;
        }
        let next = expand(map, bombs, others, Ghost(goal), &mut dist, &frontier, level);
        frontier = next;
        level = level + 1;
    }
    proof {
        let m = *map;
        let bs = bombs@;
        let os = others@;
        let lv = level as nat;
        assert forall|u: (int, int)| #[trigger] reaches(m, bs, os, goal, u, lv + 1) implies reaches(
            m,
            bs,
            os,
            goal,
            u,
            lv,
        ) by {
            if !reaches(m, bs, os, goal, u, lv) {
                if u == goal {
                    lemma_reaches_mono(m, bs, os, goal, u, 0, lv);
                } else {
                    lemma_reaches_unfold(m, bs, os, goal, u, lv);
                    let d = choose|d: Direction| reaches(m, bs, os, goal, #[trigger] step(u, d), lv);
                    let f = step(u, d);
                    let vf = dist_at(dist@, w, f.0, f.1);
                    assert(exact(m, bs, os, goal, vf, f, lv));
                    if vf < level {
                        lemma_reaches_mono(m, bs, os, goal, f, vf as nat, (lv - 1) as nat);
                        lemma_reaches_fold(m, bs, os, goal, u, d, (lv - 1) as nat);
                    }
                }
            }
        }
        assert forall|x: int, y: int| map.in_map(x, y) implies {
            let v = #[trigger] dist_at(dist@, map.width as int, x, y);
            &&& (v == UNREACHED <==> forall|k: nat| !reaches(m, bs, os, goal, (x, y), k))
            &&& v != UNREACHED ==> reaches(m, bs, os, goal, (x, y), v as nat) && forall|j: nat|
                j < v ==> !reaches(m, bs, os, goal, (x, y), j)
        } by {
            let v = dist_at(dist@, w, x, y);
            assert(exact(m, bs, os, goal, v, (x, y), lv));
            if v == UNREACHED {
                assert forall|k: nat| !reaches(m, bs, os, goal, (x, y), k) by {
                    if reaches(m, bs, os, goal, (x, y), k) {
                        lemma_reaches_settled(m, bs, os, goal, lv, (x, y), k);
                    }
                }
            } else {
                assert forall|j: nat| j < v implies !reaches(m, bs, os, goal, (x, y), j) by {
                    if reaches(m, bs, os, goal, (x, y), j) {
                        lemma_reaches_mono(m, bs, os, goal, (x, y), j, (v - 1) as nat);
                    }
                }
            }
        }
    }
    dist
}

} // verus!
