use vstd::prelude::*;

use crate::game::clamp_to;
use crate::pathfinding::manhattan;
use crate::terrain::LevelMap;
use crate::zone::CardinalDir;

verus! {

/// `r` is what [`LevelMap::nearest_open_tile`] gives for `(x, y)`: the clamped cell
/// when it is passable, else a passable grid tile no farther from it than any other
/// (`(0, 0)` on a map without one).
pub open spec fn nearest_open(m: LevelMap, x: i32, y: i32, r: (i32, i32)) -> bool {
    &&& m.passable_at(m.clamped_cell(x, y).0 as int, m.clamped_cell(x, y).1 as int) ==> r == m.clamped_cell(x, y)
    &&& m.has_passable_tile() ==> m.in_grid(r.0 as int, r.1 as int) && m.passable_at(r.0 as int, r.1 as int)
    &&& forall|v: (i32, i32)|
        m.in_grid(v.0 as int, v.1 as int) && m.passable_at(v.0 as int, v.1 as int) ==> #[trigger] manhattan(
            m.clamped_cell(x, y),
            v,
        ) >= manhattan(m.clamped_cell(x, y), r)
    &&& !m.has_passable_tile() ==> r == (0i32, 0i32)
}

/// A usable zone map: well formed, at least one tile each way, sizes within `i32`.
pub open spec fn usable_map(m: LevelMap) -> bool {
    m.wf() && 1 <= m.cols <= i32::MAX && 1 <= m.rows <= i32::MAX
}

// ── Following the player ──────────────────────────────────────────────────────

/// The sign of `v`: -1, 0 or 1.
pub open spec fn sign(v: int) -> int {
    if v > 0 {
        1
    } else if v < 0 {
        -1
    } else {
        0
    }
}

/// The cell one step `(cx, cy)` from `p`, clamped onto the map.
pub open spec fn step_cell(m: LevelMap, p: (i32, i32), cx: int, cy: int) -> (i32, i32) {
    (clamp_to(p.0 + cx, m.cols - 1) as i32, clamp_to(p.1 + cy, m.rows - 1) as i32)
}

/// Whether the step `(cx, cy)` from `p` is a real step onto a passable cell.
pub open spec fn step_ok(m: LevelMap, p: (i32, i32), cx: int, cy: int) -> bool {
    !(cx == 0 && cy == 0) && m.passable_at(step_cell(m, p, cx, cy).0 as int, step_cell(m, p, cx, cy).1 as int)
}

/// Where a companion at `c` goes when the player is at `p`: nowhere while within 3
/// tiles (Chebyshev); otherwise one step toward the player, diagonal first, then
/// along x, then along y, the first that lands on a passable tile.
pub open spec fn spec_follow_step(m: LevelMap, p: (i32, i32), c: (i32, i32)) -> (i32, i32) {
    let dx = p.0 - c.0;
    let dy = p.1 - c.1;
    let adx = if dx < 0 { -dx } else { dx };
    let ady = if dy < 0 { -dy } else { dy };
    let sx = sign(dx);
    let sy = sign(dy);
    if (if adx >= ady { adx } else { ady }) <= 3 {
        c
    } else if step_ok(m, c, sx, sy) {
        step_cell(m, c, sx, sy)
    } else if step_ok(m, c, sx, 0) {
        step_cell(m, c, sx, 0)
    } else if step_ok(m, c, 0, sy) {
        step_cell(m, c, 0, sy)
    } else {
        c
    }
}

fn step_cell_c(m: &LevelMap, p: (i32, i32), cx: i64, cy: i64) -> (r: (i32, i32))
    requires
        usable_map(*m),
        -1 <= cx <= 1,
        -1 <= cy <= 1,
    ensures
        r == step_cell(*m, p, cx as int, cy as int),
{
    let hx: i64 = m.cols as i64 - 1;
    let hy: i64 = m.rows as i64 - 1;
    let x: i64 = p.0 as i64 + cx;
    let y: i64 = p.1 as i64 + cy;
    let nx: i64 = if x < 0 { 0 } else if x > hx { hx } else { x };
    let ny: i64 = if y < 0 { 0 } else if y > hy { hy } else { y };
    (nx as i32, ny as i32)
}

fn step_ok_c(m: &LevelMap, p: (i32, i32), cx: i64, cy: i64) -> (b: bool)
    requires
        usable_map(*m),
        -1 <= cx <= 1,
        -1 <= cy <= 1,
    ensures
        b == step_ok(*m, p, cx as int, cy as int),
{
    if cx == 0 && cy == 0 {
        return false;
    }
    let t = step_cell_c(m, p, cx, cy);
    m.is_passable(t.0, t.1)
}

/// The step a companion at `c` takes toward the player at `p`.
pub fn follow_step(m: &LevelMap, p: (i32, i32), c: (i32, i32)) -> (r: (i32, i32))
    requires
        usable_map(*m),
    ensures
        r == spec_follow_step(*m, p, c),
{
    let dx: i64 = p.0 as i64 - c.0 as i64;
    let dy: i64 = p.1 as i64 - c.1 as i64;
    let adx: i64 = if dx < 0 { -dx } else { dx };
    let ady: i64 = if dy < 0 { -dy } else { dy };
    let cheb: i64 = if adx >= ady { adx } else { ady };
    if cheb <= 3 {
        return c;
    }
    let sx: i64 = if dx > 0 { 1 } else if dx < 0 { -1 } else { 0 };
    let sy: i64 = if dy > 0 { 1 } else if dy < 0 { -1 } else { 0 };
    if step_ok_c(m, c, sx, sy) {
        step_cell_c(m, c, sx, sy)
    } else if step_ok_c(m, c, sx, 0) {
        step_cell_c(m, c, sx, 0)
    } else if step_ok_c(m, c, 0, sy) {
        step_cell_c(m, c, 0, sy)
    } else {
        c
    }
}

/// Move each companion one step toward the player at `player` when more than 3
/// tiles (Chebyshev) away.
pub fn follow_companions(m: &LevelMap, player: (i32, i32), companions: &mut Vec<(i32, i32)>)
    requires
        usable_map(*m),
    ensures
        final(companions)@ == old(companions)@.map_values(|c: (i32, i32)| spec_follow_step(*m, player, c)),
{
    let ghost start = companions@;
    let mut i: usize = 0;
    while i < companions.len()
        invariant
            usable_map(*m),
            i <= companions@.len(),
            companions@.len() == start.len(),
            forall|j: int| 0 <= j < start.len() ==> #[trigger] companions@[j] == (if j < i {
                spec_follow_step(*m, player, start[j])
            } else {
                start[j]
            }),
        decreases companions@.len() - i,
    {
        let c = companions[i];
        companions.set(i, follow_step(m, player, c));
        i = i + 1;
    }
    proof {
        assert(companions@ =~= start.map_values(|c: (i32, i32)| spec_follow_step(*m, player, c)));
    }
}

// ── Placing the party on arrival ──────────────────────────────────────────────

/// Where companion `i` is asked to stand around `spawn`: `i + 1` tiles east of it,
/// clamped onto the map.
pub open spec fn companion_anchor(m: LevelMap, spawn: (i32, i32), i: int) -> (i32, i32) {
    (clamp_to(spawn.0 + i + 1, m.cols - 1) as i32, clamp_to(spawn.1 as int, m.rows - 1) as i32)
}

/// Positions for `count` companions near `spawn`: companion `i` at the nearest open
/// tile to the cell `i + 1` east of the spawn.
pub fn place_companions_near(m: &LevelMap, spawn: (i32, i32), count: usize) -> (v: Vec<(i32, i32)>)
    requires
        usable_map(*m),
        count <= i32::MAX,
    ensures
        v@.len() == count,
        forall|i: int|
            0 <= i < count ==> nearest_open(*m, companion_anchor(*m, spawn, i).0, companion_anchor(*m, spawn, i).1, #[trigger] v@[i]),
{
    let mut v: Vec<(i32, i32)> = Vec::new();
    let hx: i64 = m.cols as i64 - 1;
    let hy: i64 = m.rows as i64 - 1;
    let mut i: usize = 0;
    while i < count
        invariant
            usable_map(*m),
            hx == m.cols - 1,
            hy == m.rows - 1,
            i <= count <= i32::MAX,
            v@.len() == i,
            forall|j: int|
                0 <= j < i ==> nearest_open(*m, companion_anchor(*m, spawn, j).0, companion_anchor(*m, spawn, j).1, #[trigger] v@[j]),
        decreases count - i,
    {
        let x: i64 = spawn.0 as i64 + i as i64 + 1;
        let cx: i64 = if x < 0 { 0 } else if x > hx { hx } else { x };
        let y: i64 = spawn.1 as i64;
        let cy: i64 = if y < 0 { 0 } else if y > hy { hy } else { y };
        let r = m.nearest_open_tile(cx as i32, cy as i32);
        proof {
            assert(companion_anchor(*m, spawn, i as int) == (cx as i32, cy as i32));
        }
        v.push(r);
        i = i + 1;
    }
    v
}

/// The door on side `dir` among `doors`: the first listed.
pub open spec fn door_on(doors: Seq<((i32, i32), CardinalDir)>, dir: CardinalDir, n: int) -> Option<(i32, i32)>
    decreases n,
{
    if n <= 0 {
        None
    } else {
        match door_on(doors, dir, n - 1) {
            Some(p) => Some(p),
            None => if doors[n - 1].1 == dir {
                Some(doors[n - 1].0)
            } else {
                None
            },
        }
    }
}

/// The cell one tile inward from door `d` on side `dir`.
pub open spec fn inward(m: LevelMap, d: (i32, i32), dir: CardinalDir) -> (i32, i32) {
    let x = match dir {
        CardinalDir::East => if d.0 - 1 > 0 { d.0 - 1 } else { 0 },
        CardinalDir::West => if d.0 + 1 < m.cols - 1 { d.0 + 1 } else { m.cols - 1 },
        _ => d.0 as int,
    };
    let y = match dir {
        CardinalDir::North => if d.1 + 1 < m.rows - 1 { d.1 + 1 } else { m.rows - 1 },
        CardinalDir::South => if d.1 - 1 > 0 { d.1 - 1 } else { 0 },
        _ => d.1 as int,
    };
    (x as i32, y as i32)
}

/// Where the party enters a zone through its door on side `dir` (`doors` lists the
/// zone's doors): the nearest open tile to the cell one tile inward from that door,
/// or `(1, 1)` when the zone has no such door.
pub fn spawn_pos_near_door(m: &LevelMap, doors: &Vec<((i32, i32), CardinalDir)>, dir: CardinalDir) -> (r: (i32, i32))
    requires
        usable_map(*m),
    ensures
        match door_on(doors@, dir, doors@.len() as int) {
            Some(d) => nearest_open(*m, inward(*m, d, dir).0, inward(*m, d, dir).1, r),
            None => r == (1i32, 1i32),
        },
{
    let mut found: Option<(i32, i32)> = None;
    let mut k: usize = 0;
    while k < doors.len()
        invariant
            k <= doors@.len(),
            found == door_on(doors@, dir, k as int),
        decreases doors@.len() - k,
    {
        if found.is_none() && doors[k].1 == dir {
            found = Some(doors[k].0);
        }
        k = k + 1;
    }
    let d = match found {
        Some(d) => d,
        None => return (1, 1),
    };
    let hx: i64 = m.cols as i64 - 1;
    let hy: i64 = m.rows as i64 - 1;
    let x: i64 = match dir {
        CardinalDir::East => if d.0 as i64 - 1 > 0 { d.0 as i64 - 1 } else { 0 },
        CardinalDir::West => if d.0 as i64 + 1 < hx { d.0 as i64 + 1 } else { hx },
        _ => d.0 as i64,
    };
    let y: i64 = match dir {
        CardinalDir::North => if d.1 as i64 + 1 < hy { d.1 as i64 + 1 } else { hy },
        CardinalDir::South => if d.1 as i64 - 1 > 0 { d.1 as i64 - 1 } else { 0 },
        _ => d.1 as i64,
    };
    proof {
        assert(inward(*m, d, dir) == (x as i32, y as i32));
    }
    m.nearest_open_tile(x as i32, y as i32)
}

} // verus!
