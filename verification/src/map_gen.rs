use vstd::prelude::*;

use crate::pathfinding::contains_cell;
use crate::terrain::{LevelMap, Tile};
use crate::zone::ZoneKind;

verus! {

/// A change the loop's events make to part of a zone: the obstacles of a region
/// cleared away, or the region blocked off. The region spans columns `x0..x1` and
/// rows `y0..y1`.
#[derive(Debug, Clone, Copy, PartialEq, Eq, Structural)]
pub enum RegionChange {
    Clear { x0: i32, y0: i32, x1: i32, y1: i32 },
    Block { x0: i32, y0: i32, x1: i32, y1: i32 },
}

/// Whether a zone change clears or blocks its region.
#[derive(Debug, Clone, Copy, PartialEq, Eq, Structural)]
pub enum ChangeKind {
    Clear,
    Block,
}

/// The kind of change the zone shows in loop `loop_number`: the Excavation Site's
/// collapsed tunnel is blocked before loop 3 and cleared from loop 3 on.
pub open spec fn spec_zone_change(zone_kind: ZoneKind, loop_number: u32) -> Option<ChangeKind> {
    if zone_kind == ZoneKind::ExcavationSite {
        if loop_number >= 3 {
            Some(ChangeKind::Clear)
        } else {
            Some(ChangeKind::Block)
        }
    } else {
        None
    }
}

/// The kind of change the zone shows in loop `loop_number`, if any.
pub fn zone_change(zone_kind: ZoneKind, loop_number: u32) -> (c: Option<ChangeKind>)
    ensures
        c == spec_zone_change(zone_kind, loop_number),
{
    if zone_kind == ZoneKind::ExcavationSite {
        if loop_number >= 3 {
            Some(ChangeKind::Clear)
        } else {
            Some(ChangeKind::Block)
        }
    } else {
        None
    }
}

/// Whether `(x, y)` lies in columns `x0..x1` and rows `y0..y1`.
pub open spec fn in_region(x0: i32, y0: i32, x1: i32, y1: i32, x: int, y: int) -> bool {
    x0 <= x < x1 && y0 <= y < y1
}

/// Whether the draw for grid cell `(x, y)` (row-major, one per cell) placed an obstacle.
pub open spec fn drawn_obstacle(cols: u32, rows: u32, drawn: Seq<bool>, x: int, y: int) -> bool {
    0 <= x < cols && 0 <= y < rows && drawn[y * cols + x]
}

/// The tile at `(x, y)` before the zone change: a door on door tiles, open ground on
/// reserved tiles, else an obstacle exactly where the draw says so.
pub open spec fn generated_tile(
    cols: u32,
    rows: u32,
    reserved: Seq<(i32, i32)>,
    doors: Seq<(i32, i32)>,
    drawn: Seq<bool>,
    x: i32,
    y: i32,
) -> Tile {
    if doors.contains((x, y)) {
        Tile::Door
    } else if reserved.contains((x, y)) {
        Tile::Open
    } else if drawn_obstacle(cols, rows, drawn, x as int, y as int) {
        Tile::Obstacle
    } else {
        Tile::Open
    }
}

/// The tile at `(x, y)` of the generated zone: a cleared region holds no obstacle,
/// and a blocked region is all obstacle except reserved and door tiles.
pub open spec fn zone_tile(
    cols: u32,
    rows: u32,
    reserved: Seq<(i32, i32)>,
    doors: Seq<(i32, i32)>,
    drawn: Seq<bool>,
    change: Option<RegionChange>,
    x: i32,
    y: i32,
) -> Tile {
    let base = generated_tile(cols, rows, reserved, doors, drawn, x, y);
    match change {
        Some(RegionChange::Clear { x0, y0, x1, y1 }) => if in_region(x0, y0, x1, y1, x as int, y as int) && base
            == Tile::Obstacle {
            Tile::Open
        } else {
            base
        },
        Some(RegionChange::Block { x0, y0, x1, y1 }) => if in_region(x0, y0, x1, y1, x as int, y as int)
            && !reserved.contains((x, y)) && !doors.contains((x, y)) {
            Tile::Obstacle
        } else {
            base
        },
        None => base,
    }
}

/// The tile before the change, as laid down so far: obstacles from the draws of the
/// cells before row `y`, column `x`, and the first `k` doors.
spec fn laid(
    cols: u32,
    rows: u32,
    reserved: Seq<(i32, i32)>,
    doors: Seq<(i32, i32)>,
    drawn: Seq<bool>,
    y: int,
    x: int,
    k: int,
    px: i32,
    py: i32,
) -> Tile {
    if doors.subrange(0, k).contains((px, py)) {
        Tile::Door
    } else if (py < y || (py == y && px < x)) && !reserved.contains((px, py)) && !doors.contains((px, py))
        && drawn_obstacle(cols, rows, drawn, px as int, py as int) {
        Tile::Obstacle
    } else {
        Tile::Open
    }
}

/// Lay out a zone's terrain: an obstacle on every grid cell whose draw in `drawn`
/// (row-major, one per cell) is true, except reserved and door tiles; doors on the
/// door tiles; then the zone change over its region; then directional cover for
/// every passable tile.
pub fn build_zone_map(
    cols: u32,
    rows: u32,
    zone_kind: ZoneKind,
    reserved_open: &Vec<(i32, i32)>,
    door_tiles: &Vec<(i32, i32)>,
    drawn: &Vec<bool>,
    change: Option<RegionChange>,
) -> (m: LevelMap)
    requires
        cols <= i32::MAX,
        rows <= i32::MAX,
        drawn@.len() == cols * rows,
    ensures
        m.wf(),
        m.cols == cols,
        m.rows == rows,
        m.zone_kind == zone_kind,
        forall|x: i32, y: i32|
            #[trigger] m.tile_at(x as int, y as int) == zone_tile(
                cols,
                rows,
                reserved_open@,
                door_tiles@,
                drawn@,
                change,
                x,
                y,
            ),
        m.cover_consistent(),
{
    let ghost res = reserved_open@;
    let ghost drs = door_tiles@;
    let ghost dw = drawn@;
    let n: usize = drawn.len();
    let mut m = LevelMap::new(cols, rows, zone_kind);
    let c: i32 = cols as i32;
    let r: i32 = rows as i32;
    let mut y: i32 = 0;
    proof {
        assert(drs.subrange(0, 0) =~= Seq::<(i32, i32)>::empty());
    }
    while y < r
        invariant
            m.wf(),
            m.cols == cols,
            m.rows == rows,
            m.zone_kind == zone_kind,
            c == cols,
            r == rows,
            0 <= y <= r,
            cols <= i32::MAX,
            rows <= i32::MAX,
            dw.len() == cols * rows,
            n == dw.len(),
            res == reserved_open@,
            drs == door_tiles@,
            dw == drawn@,
            forall|px: i32, py: i32|
                #[trigger] m.tile_at(px as int, py as int) == laid(cols, rows, res, drs, dw, y as int, 0, 0, px, py),
        decreases r - y,
    {
        let mut x: i32 = 0;
        while x < c
            invariant
                m.wf(),
                m.cols == cols,
                m.rows == rows,
                m.zone_kind == zone_kind,
                c == cols,
                r == rows,
                0 <= y < r,
                0 <= x <= c,
                cols <= i32::MAX,
                rows <= i32::MAX,
                dw.len() == cols * rows,
                n == dw.len(),
                res == reserved_open@,
                drs == door_tiles@,
                dw == drawn@,
                forall|px: i32, py: i32|
                    #[trigger] m.tile_at(px as int, py as int) == laid(cols, rows, res, drs, dw, y as int, x as int, 0, px, py),
            decreases c - x,
        {
            if !contains_cell(reserved_open, (x, y)) && !contains_cell(door_tiles, (x, y)) {
                assert(0 <= (y as int) * (cols as int) && (y as int) * (cols as int) + (x as int) < (cols as int) * (rows as int)) by (nonlinear_arith)
                    requires
                        0 <= x < cols,
                        0 <= y < rows,
                ;
                assert((cols as int) * (rows as int) == n);
                let idx: usize = (y as usize) * (cols as usize) + (x as usize);
                let ghost prev = m;
                if drawn[idx] {
                    m.set(x, y, Tile::Obstacle);
                }
                proof {
                    assert forall|px: i32, py: i32| #[trigger] m.tile_at(px as int, py as int) == laid(cols, rows, res, drs, dw, y as int, x + 1, 0, px, py) by {
                        assert(prev.tile_at(px as int, py as int) == laid(cols, rows, res, drs, dw, y as int, x as int, 0, px, py));
                    }
                }
            }
            x = x + 1;
        }
        y = y + 1;
    }
    let mut k: usize = 0;
    while k < door_tiles.len()
        invariant
            m.wf(),
            m.cols == cols,
            m.rows == rows,
            m.zone_kind == zone_kind,
            k <= drs.len(),
            r == rows,
            res == reserved_open@,
            drs == door_tiles@,
            dw == drawn@,
            forall|px: i32, py: i32|
                #[trigger] m.tile_at(px as int, py as int) == laid(cols, rows, res, drs, dw, r as int, 0, k as int, px, py),
        decreases drs.len() - k,
    {
        let d = door_tiles[k];
        let ghost prev = m;
        m.set(d.0, d.1, Tile::Door);
        k = k + 1;
        proof {
            assert(drs.subrange(0, k as int) =~= drs.subrange(0, k - 1).push(d));
            assert forall|px: i32, py: i32| #[trigger] m.tile_at(px as int, py as int) == laid(cols, rows, res, drs, dw, r as int, 0, k as int, px, py) by {
                assert(prev.tile_at(px as int, py as int) == laid(cols, rows, res, drs, dw, r as int, 0, k - 1, px, py));
                if (px, py) != d {
                    assert(drs.subrange(0, k as int).contains((px, py)) == drs.subrange(0, k - 1).contains((px, py)));
                } else {
                    assert(drs.subrange(0, k as int)[k - 1] == d);
                }
            }
        }
    }
    proof {
        assert(drs.subrange(0, k as int) =~= drs);
        assert forall|px: i32, py: i32| #[trigger] m.tile_at(px as int, py as int) == generated_tile(cols, rows, res, drs, dw, px, py) by {
            assert(m.tile_at(px as int, py as int) == laid(cols, rows, res, drs, dw, r as int, 0, k as int, px, py));
            if drawn_obstacle(cols, rows, dw, px as int, py as int) {
                assert(py < r);
            }
        }
    }
    match change {
        Some(RegionChange::Clear { x0, y0, x1, y1 }) => {
            apply_region(&mut m, reserved_open, door_tiles, x0, y0, x1, y1, true);
        },
        Some(RegionChange::Block { x0, y0, x1, y1 }) => {
            apply_region(&mut m, reserved_open, door_tiles, x0, y0, x1, y1, false);
        },
        None => {},
    }
    proof {
        assert forall|px: i32, py: i32| #[trigger] m.tile_at(px as int, py as int) == zone_tile(cols, rows, res, drs, dw, change, px, py) by {
        }
    }
    let ghost before = m;
    m.recompute_cover();
    proof {
        assert forall|px: i32, py: i32| #[trigger] m.tile_at(px as int, py as int) == before.tile_at(px as int, py as int) by {}
    }
    m
}

/// Clear (`clear`) or block the region `x0..x1` × `y0..y1` of `m`.
fn apply_region(
    m: &mut LevelMap,
    reserved_open: &Vec<(i32, i32)>,
    door_tiles: &Vec<(i32, i32)>,
    x0: i32,
    y0: i32,
    x1: i32,
    y1: i32,
    clear: bool,
)
    requires
        old(m).wf(),
    ensures
        final(m).wf(),
        final(m).cols == old(m).cols,
        final(m).rows == old(m).rows,
        final(m).zone_kind == old(m).zone_kind,
        forall|px: i32, py: i32|
            #[trigger] final(m).tile_at(px as int, py as int) == (if in_region(x0, y0, x1, y1, px as int, py as int) {
                if clear {
                    if old(m).tile_at(px as int, py as int) == Tile::Obstacle {
                        Tile::Open
                    } else {
                        old(m).tile_at(px as int, py as int)
                    }
                } else if !reserved_open@.contains((px, py)) && !door_tiles@.contains((px, py)) {
                    Tile::Obstacle
                } else {
                    old(m).tile_at(px as int, py as int)
                }
            } else {
                old(m).tile_at(px as int, py as int)
            }),
{
    let ghost start = *m;
    if x0 >= x1 || y0 >= y1 {
        return;
    }
    let mut y: i32 = y0;
    while y < y1
        invariant
            m.wf(),
            m.cols == start.cols,
            m.rows == start.rows,
            m.zone_kind == start.zone_kind,
            start.wf(),
            x0 < x1,
            y0 <= y <= y1,
            forall|px: i32, py: i32|
                #[trigger] m.tile_at(px as int, py as int) == (if in_region(x0, y0, x1, y, px as int, py as int) {
                    if clear {
                        if start.tile_at(px as int, py as int) == Tile::Obstacle {
                            Tile::Open
                        } else {
                            start.tile_at(px as int, py as int)
                        }
                    } else if !reserved_open@.contains((px, py)) && !door_tiles@.contains((px, py)) {
                        Tile::Obstacle
                    } else {
                        start.tile_at(px as int, py as int)
                    }
                } else {
                    start.tile_at(px as int, py as int)
                }),
        decreases y1 - y,
    {
        let mut x: i32 = x0;
        while x < x1
            invariant
                m.wf(),
                m.cols == start.cols,
                m.rows == start.rows,
                m.zone_kind == start.zone_kind,
                start.wf(),
                x0 <= x <= x1,
                y0 <= y < y1,
                forall|px: i32, py: i32|
                    #[trigger] m.tile_at(px as int, py as int) == (if in_region(x0, y0, x1, y, px as int, py as int)
                        || (py == y && x0 <= px < x) {
                        if clear {
                            if start.tile_at(px as int, py as int) == Tile::Obstacle {
                                Tile::Open
                            } else {
                                start.tile_at(px as int, py as int)
                            }
                        } else if !reserved_open@.contains((px, py)) && !door_tiles@.contains((px, py)) {
                            Tile::Obstacle
                        } else {
                            start.tile_at(px as int, py as int)
                        }
                    } else {
                        start.tile_at(px as int, py as int)
                    }),
            decreases x1 - x,
        {
            if clear {
                if m.get(x, y) == Tile::Obstacle {
                    m.set(x, y, Tile::Open);
                }
            } else if !contains_cell(reserved_open, (x, y)) && !contains_cell(door_tiles, (x, y)) {
                m.set(x, y, Tile::Obstacle);
            }
            x = x + 1;
        }
        y = y + 1;
    }
}


/// In a generated zone, door tiles are doors and reserved tiles passable; a cleared
/// region holds no obstacle, a blocked region is all obstacle except reserved and
/// door tiles, and every other cell is an obstacle exactly when its draw says so.
pub proof fn lemma_zone_tile_rules(
    cols: u32,
    rows: u32,
    reserved: Seq<(i32, i32)>,
    doors: Seq<(i32, i32)>,
    drawn: Seq<bool>,
    change: Option<RegionChange>,
    x: i32,
    y: i32,
)
    ensures
        ({
            let t = zone_tile(cols, rows, reserved, doors, drawn, change, x, y);
            let in_change = match change {
                Some(RegionChange::Clear { x0, y0, x1, y1 }) => in_region(x0, y0, x1, y1, x as int, y as int),
                Some(RegionChange::Block { x0, y0, x1, y1 }) => in_region(x0, y0, x1, y1, x as int, y as int),
                None => false,
            };
            &&& doors.contains((x, y)) ==> t == Tile::Door
            &&& reserved.contains((x, y)) ==> t.spec_is_passable()
            &&& (change matches Some(RegionChange::Clear { .. }) && in_change) ==> t != Tile::Obstacle
            &&& (change matches Some(RegionChange::Block { .. }) && in_change && !reserved.contains((x, y))
                && !doors.contains((x, y))) ==> t == Tile::Obstacle
            &&& (!in_change && !reserved.contains((x, y)) && !doors.contains((x, y))) ==> (t == Tile::Obstacle
                <==> drawn_obstacle(cols, rows, drawn, x as int, y as int))
        }),
{
}

} // verus!
