use vstd::prelude::*;

use crate::zone::ZoneKind;

verus! {

// ── Tiles and cover ───────────────────────────────────────────────────────────

/// The terrain type of a single map cell. Tiles are either passable or not;
/// cover is derived from adjacency to obstacles, not stored on the tile itself.
#[derive(Debug, Clone, Copy, PartialEq, Eq, Structural)]
pub enum Tile {
    /// Open ground: passable, no inherent cover.
    Open,
    /// Impassable solid structure: blocks movement and provides adjacent cover.
    Obstacle,
    /// Door: passable threshold leading to the next zone.
    Door,
}

impl Tile {
    /// Everything but an obstacle can be walked on.
    pub open spec fn spec_is_passable(self) -> bool {
        self != Tile::Obstacle
    }

    /// `true` unless the tile is an obstacle.
    #[verifier::when_used_as_spec(spec_is_passable)]
    pub fn is_passable(self) -> (b: bool)
        ensures
            b == self.spec_is_passable(),
    {
        match self {
            Tile::Obstacle => false,
            _ => true,
        }
    }
}

/// How much protection a tile's position provides from a given attack direction.
#[derive(Debug, Clone, Copy, PartialEq, Eq, Structural, PartialOrd, Ord)]
pub enum CoverLevel {
    /// No adjacent obstacle: attacker has normal hit chance.
    NoCover,
    /// Diagonal obstacle: hit chance reduced.
    Partial,
    /// Direct adjacent obstacle: hit chance reduced the most.
    Full,
}

/// A cardinal direction on the grid (y increases southward).
#[derive(Debug, Clone, Copy, PartialEq, Eq, Structural)]
pub enum Direction {
    North,
    South,
    East,
    West,
}

/// Slot of each direction in a [`DirectionalCover`].
pub open spec fn direction_index(dir: Direction) -> int {
    match dir {
        Direction::North => 0,
        Direction::South => 1,
        Direction::East => 2,
        Direction::West => 3,
    }
}

/// Absolute value over the integers.
pub open spec fn abs_int(v: int) -> int {
    if v < 0 {
        -v
    } else {
        v
    }
}

/// The side an attack at `attacker` comes from, seen from `defender`: the dominant
/// axis decides, and a tie goes to the east/west axis.
pub open spec fn spec_from_attack(attacker: (i32, i32), defender: (i32, i32)) -> Direction {
    let dx = attacker.0 - defender.0;
    let dy = attacker.1 - defender.1;
    if abs_int(dx) >= abs_int(dy) {
        if dx >= 0 {
            Direction::East
        } else {
            Direction::West
        }
    } else if dy >= 0 {
        Direction::South
    } else {
        Direction::North
    }
}

impl Direction {
    /// Returns the direction the attacker is approaching FROM (from the defender's
    /// perspective). Uses the dominant axis: |dx| >= |dy| picks East/West.
    pub fn from_attack(attacker: (i32, i32), defender: (i32, i32)) -> (d: Self)
        requires
            -i32::MAX <= attacker.0 - defender.0 <= i32::MAX,
            -i32::MAX <= attacker.1 - defender.1 <= i32::MAX,
        ensures
            d == spec_from_attack(attacker, defender),
    {
        let dx = attacker.0 - defender.0;
        let dy = attacker.1 - defender.1;
        let adx = if dx < 0 { -dx } else { dx };
        let ady = if dy < 0 { -dy } else { dy };
        if adx >= ady {
            if dx >= 0 {
                Direction::East
            } else {
                Direction::West
            }
        } else if dy >= 0 {
            Direction::South
        } else {
            Direction::North
        }
    }
}

/// Cover levels for each of the four cardinal directions for a single tile,
/// in the order north, south, east, west.
#[derive(Debug, Clone, Copy)]
pub struct DirectionalCover(pub [CoverLevel; 4]);

impl DirectionalCover {
    /// Cover from `dir`.
    pub open spec fn spec_get(self, dir: Direction) -> CoverLevel {
        self.0@[direction_index(dir)]
    }

    /// Whether some direction offers cover.
    pub open spec fn spec_any_nonzero(self) -> bool {
        exists|i: int| 0 <= i < 4 && self.0@[i] != CoverLevel::NoCover
    }

    /// Cover level seen from `dir`.
    pub fn get(self, dir: Direction) -> (c: CoverLevel)
        ensures
            c == self.spec_get(dir),
    {
        match dir {
            Direction::North => self.0[0],
            Direction::South => self.0[1],
            Direction::East => self.0[2],
            Direction::West => self.0[3],
        }
    }

    /// `true` when any direction offers partial or full cover.
    fn any_nonzero(self) -> (b: bool)
        ensures
            b == self.spec_any_nonzero(),
    {
        let mut i: usize = 0;
        while i < 4
            invariant
                i <= 4,
                forall|j: int| 0 <= j < i ==> self.0@[j] == CoverLevel::NoCover,
            decreases 4 - i,
        {
            if self.0[i] != CoverLevel::NoCover {
                return true;
            }
            i = i + 1;
        }
        false
    }
}

// ── Sparse position tables ───────────────────────────────────────────────────

/// The map described by a list of `(position, value)` entries; later entries win.
pub open spec fn entries_map<V>(s: Seq<((i32, i32), V)>) -> Map<(i32, i32), V>
    decreases s.len(),
{
    if s.len() == 0 {
        Map::empty()
    } else {
        entries_map(s.drop_last()).insert(s.last().0, s.last().1)
    }
}

/// No position occurs twice in the entry list.
pub open spec fn keys_distinct<V>(s: Seq<((i32, i32), V)>) -> bool {
    forall|i: int, j: int| 0 <= i < j < s.len() ==> s[i].0 != s[j].0
}

/// A position is a key of the map exactly when some entry names it.
pub proof fn lemma_entries_map_dom<V>(s: Seq<((i32, i32), V)>, k: (i32, i32))
    ensures
        entries_map(s).dom().contains(k) <==> exists|i: int| 0 <= i < s.len() && s[i].0 == k,
    decreases s.len(),
{
    if s.len() > 0 {
        lemma_entries_map_dom(s.drop_last(), k);
        if entries_map(s).dom().contains(k) && k != s.last().0 {
            let i = choose|i: int| 0 <= i < s.len() - 1 && s.drop_last()[i].0 == k;
            assert(s[i].0 == k);
        }
        if exists|i: int| 0 <= i < s.len() && s[i].0 == k {
            let i = choose|i: int| 0 <= i < s.len() && s[i].0 == k;
            if i < s.len() - 1 {
                assert(s.drop_last()[i].0 == k);
            }
        }
    }
}

/// With distinct keys, each entry's value is the map's value at its key.
pub proof fn lemma_entries_map_index<V>(s: Seq<((i32, i32), V)>, i: int)
    requires
        keys_distinct(s),
        0 <= i < s.len(),
    ensures
        entries_map(s).dom().contains(s[i].0),
        entries_map(s)[s[i].0] == s[i].1,
    decreases s.len(),
{
    if i < s.len() - 1 {
        assert(keys_distinct(s.drop_last()));
        lemma_entries_map_index(s.drop_last(), i);
        assert(s.drop_last()[i] == s[i]);
    }
}

/// Overwriting one entry's value (distinct keys) updates the map at that key only.
pub proof fn lemma_entries_map_update<V>(s: Seq<((i32, i32), V)>, i: int, v: V)
    requires
        keys_distinct(s),
        0 <= i < s.len(),
    ensures
        entries_map(s.update(i, (s[i].0, v))) == entries_map(s).insert(s[i].0, v),
        keys_distinct(s.update(i, (s[i].0, v))),
    decreases s.len(),
{
    let t = s.update(i, (s[i].0, v));
    if i == s.len() - 1 {
        assert(t.drop_last() =~= s.drop_last());
        assert(entries_map(t) =~= entries_map(s).insert(s[i].0, v));
    } else {
        assert(keys_distinct(s.drop_last()));
        lemma_entries_map_update(s.drop_last(), i, v);
        assert(t.drop_last() =~= s.drop_last().update(i, (s[i].0, v)));
        assert(entries_map(t) =~= entries_map(s).insert(s[i].0, v));
    }
}

/// Index of the entry for `k`, if any.
fn find_entry<V>(s: &Vec<((i32, i32), V)>, k: (i32, i32)) -> (r: Option<usize>)
    ensures
        match r {
            Some(i) => i < s@.len() && s@[i as int].0 == k,
            None => forall|i: int| 0 <= i < s@.len() ==> s@[i].0 != k,
        },
{
    let mut i: usize = 0;
    while i < s.len()
        invariant
            i <= s@.len(),
            forall|j: int| 0 <= j < i ==> s@[j].0 != k,
        decreases s@.len() - i,
    {
        let p = &s[i].0;
        if p.0 == k.0 && p.1 == k.1 {
            return Some(i);
        }
        i = i + 1;
    }
    None
}

// ── Level map ─────────────────────────────────────────────────────────────────

/// Grid offset of the neighbour that shields a tile from `dir`.
pub open spec fn direction_delta(dir: Direction) -> (int, int) {
    match dir {
        Direction::North => (0, -1),
        Direction::South => (0, 1),
        Direction::East => (1, 0),
        Direction::West => (-1, 0),
    }
}

/// The 2-D terrain grid for one level, including precomputed directional cover.
///
/// Tiles are stored sparsely: a position with no entry is open ground.
#[derive(Debug, Clone)]
pub struct LevelMap {
    pub cols: u32,
    pub rows: u32,
    pub zone_kind: ZoneKind,
    /// Explicitly stored tiles (sparse; read and write them with `get` and `set`).
    pub tiles: Vec<((i32, i32), Tile)>,
    /// Precomputed cover of passable tiles that have some (see `recompute_cover`).
    pub cover: Vec<((i32, i32), DirectionalCover)>,
}

impl LevelMap {
    /// No position is stored twice in either table.
    pub open spec fn wf(&self) -> bool {
        keys_distinct(self.tiles@) && keys_distinct(self.cover@)
    }

    /// The explicitly stored tiles.
    pub open spec fn tile_entries(&self) -> Map<(i32, i32), Tile> {
        entries_map(self.tiles@)
    }

    /// The stored directional cover.
    pub open spec fn cover_entries(&self) -> Map<(i32, i32), DirectionalCover> {
        entries_map(self.cover@)
    }

    /// The tile at integer coordinates: the stored one, else open ground.
    pub open spec fn tile_at(&self, x: int, y: int) -> Tile {
        if i32::MIN <= x <= i32::MAX && i32::MIN <= y <= i32::MAX && self.tile_entries().dom().contains(
            (x as i32, y as i32),
        ) {
            self.tile_entries()[(x as i32, y as i32)]
        } else {
            Tile::Open
        }
    }

    /// Whether the tile at `(x, y)` can be walked on.
    pub open spec fn passable_at(&self, x: int, y: int) -> bool {
        self.tile_at(x, y).spec_is_passable()
    }

    /// Whether `(x, y)` lies on the grid `[0, cols) x [0, rows)` (dimensions read as `i32`).
    pub open spec fn in_grid(&self, x: int, y: int) -> bool {
        0 <= x < self.cols as i32 && 0 <= y < self.rows as i32
    }

    /// Cover of `(x, y)` against an attack from `dir`, derived from the obstacles around
    /// it: an obstacle straight ahead gives full cover, one on either flanking diagonal
    /// gives partial cover.
    pub open spec fn cover_from_obstacles(&self, x: int, y: int, dir: Direction) -> CoverLevel {
        let (dx, dy) = direction_delta(dir);
        if self.tile_at(x + dx, y + dy) == Tile::Obstacle {
            CoverLevel::Full
        } else if dy == 0 {
            if self.tile_at(x + dx, y - 1) == Tile::Obstacle || self.tile_at(x + dx, y + 1)
                == Tile::Obstacle {
                CoverLevel::Partial
            } else {
                CoverLevel::NoCover
            }
        } else {
            if self.tile_at(x - 1, y + dy) == Tile::Obstacle || self.tile_at(x + 1, y + dy)
                == Tile::Obstacle {
                CoverLevel::Partial
            } else {
                CoverLevel::NoCover
            }
        }
    }

    /// Whether `(x, y)` gets some cover from some direction.
    pub open spec fn has_some_cover(&self, x: int, y: int) -> bool {
        ||| self.cover_from_obstacles(x, y, Direction::North) != CoverLevel::NoCover
        ||| self.cover_from_obstacles(x, y, Direction::South) != CoverLevel::NoCover
        ||| self.cover_from_obstacles(x, y, Direction::East) != CoverLevel::NoCover
        ||| self.cover_from_obstacles(x, y, Direction::West) != CoverLevel::NoCover
    }

    /// The cover that [`LevelMap::recompute_cover`] derives for `(x, y)` against `dir`:
    /// obstacle-derived cover for passable grid tiles, none elsewhere.
    pub open spec fn derived_cover(&self, x: int, y: int, dir: Direction) -> CoverLevel {
        if self.in_grid(x, y) && self.passable_at(x, y) {
            self.cover_from_obstacles(x, y, dir)
        } else {
            CoverLevel::NoCover
        }
    }

    /// The stored cover of `(x, y)` against `dir`, none where nothing is stored.
    pub open spec fn stored_cover(&self, x: i32, y: i32, dir: Direction) -> CoverLevel {
        if self.cover_entries().dom().contains((x, y)) {
            self.cover_entries()[(x, y)].spec_get(dir)
        } else {
            CoverLevel::NoCover
        }
    }

    /// The stored cover is exactly what the current obstacle layout yields.
    pub open spec fn cover_consistent(&self) -> bool {
        forall|x: i32, y: i32, d: Direction| #[trigger]
            self.stored_cover(x, y, d) == self.derived_cover(x as int, y as int, d)
    }

    /// An empty map: every tile open, no cover.
    pub fn new(cols: u32, rows: u32, zone_kind: ZoneKind) -> (m: Self)
        ensures
            m.wf(),
            m.cols == cols,
            m.rows == rows,
            m.zone_kind == zone_kind,
            m.tile_entries() == Map::<(i32, i32), Tile>::empty(),
            m.cover_entries() == Map::<(i32, i32), DirectionalCover>::empty(),
    {
        Self { cols, rows, zone_kind, tiles: Vec::new(), cover: Vec::new() }
    }

    /// Returns the tile at `(x, y)`, defaulting to `Open`.
    pub fn get(&self, x: i32, y: i32) -> (t: Tile)
        requires
            self.wf(),
        ensures
            t == self.tile_at(x as int, y as int),
    {
        match find_entry(&self.tiles, (x, y)) {
            Some(i) => {
                proof {
                    lemma_entries_map_index(self.tiles@, i as int);
                }
                self.tiles[i].1
            },
            None => {
                proof {
                    lemma_entries_map_dom(self.tiles@, (x, y));
                }
                Tile::Open
            },
        }
    }

    /// Store `tile` at `(x, y)`. Cover is not recomputed.
    pub fn set(&mut self, x: i32, y: i32, tile: Tile)
        requires
            old(self).wf(),
        ensures
            final(self).wf(),
            final(self).tile_entries() == old(self).tile_entries().insert((x, y), tile),
            final(self).cover_entries() == old(self).cover_entries(),
            final(self).cols == old(self).cols,
            final(self).rows == old(self).rows,
            final(self).zone_kind == old(self).zone_kind,
    {
        match find_entry(&self.tiles, (x, y)) {
            Some(i) => {
                proof {
                    lemma_entries_map_update(self.tiles@, i as int, tile);
                }
                self.tiles.set(i, ((x, y), tile));
            },
            None => {
                self.tiles.push(((x, y), tile));
                proof {
                    assert(self.tiles@.drop_last() =~= old(self).tiles@);
                }
            },
        }
    }

    /// Whether the tile at `(x, y)` can be walked on.
    pub fn is_passable(&self, x: i32, y: i32) -> (b: bool)
        requires
            self.wf(),
        ensures
            b == self.passable_at(x as int, y as int),
    {
        self.get(x, y).is_passable()
    }

    /// Returns the cover level at `(x, y)` from the given `from` direction.
    pub fn get_cover(&self, x: i32, y: i32, from: Direction) -> (c: CoverLevel)
        requires
            self.wf(),
        ensures
            c == self.stored_cover(x, y, from),
            self.cover_consistent() ==> c == self.derived_cover(x as int, y as int, from),
    {
        match find_entry(&self.cover, (x, y)) {
            Some(i) => {
                proof {
                    lemma_entries_map_index(self.cover@, i as int);
                }
                self.cover[i].1.get(from)
            },
            None => {
                proof {
                    lemma_entries_map_dom(self.cover@, (x, y));
                }
                CoverLevel::NoCover
            },
        }
    }

    fn is_obstacle(&self, x: i32, y: i32) -> (b: bool)
        requires
            self.wf(),
        ensures
            b == (self.tile_at(x as int, y as int) == Tile::Obstacle),
    {
        match self.get(x, y) {
            Tile::Obstacle => true,
            _ => false,
        }
    }

    /// Cover for a single cardinal direction `(dx, dy)`.
    /// Direct obstacle neighbor gives Full; diagonal obstacle neighbors give Partial; else None.
    fn cover_in_direction(&self, x: i32, y: i32, dir: Direction) -> (c: CoverLevel)
        requires
            self.wf(),
            i32::MIN < x < i32::MAX,
            i32::MIN < y < i32::MAX,
        ensures
            c == self.cover_from_obstacles(x as int, y as int, dir),
    {
        let (dx, dy): (i32, i32) = match dir {
            Direction::North => (0, -1),
            Direction::South => (0, 1),
            Direction::East => (1, 0),
            Direction::West => (-1, 0),
        };
        if self.is_obstacle(x + dx, y + dy) {
            return CoverLevel::Full;
        }
        let (d1, d2): ((i32, i32), (i32, i32)) = if dy == 0 {
            ((dx, -1), (dx, 1))
        } else {
            ((-1, dy), (1, dy))
        };
        if self.is_obstacle(x + d1.0, y + d1.1) || self.is_obstacle(x + d2.0, y + d2.1) {
            CoverLevel::Partial
        } else {
            CoverLevel::NoCover
        }
    }

    fn compute_directional_cover(&self, x: i32, y: i32) -> (dc: DirectionalCover)
        requires
            self.wf(),
            i32::MIN < x < i32::MAX,
            i32::MIN < y < i32::MAX,
        ensures
            forall|d: Direction| #[trigger] dc.spec_get(d) == self.cover_from_obstacles(x as int, y as int, d),
    {
        let dc = DirectionalCover([
            self.cover_in_direction(x, y, Direction::North),
            self.cover_in_direction(x, y, Direction::South),
            self.cover_in_direction(x, y, Direction::East),
            self.cover_in_direction(x, y, Direction::West),
        ]);
        assert forall|d: Direction| #[trigger] dc.spec_get(d) == self.cover_from_obstacles(x as int, y as int, d) by {
            match d {
                Direction::North => {},
                Direction::South => {},
                Direction::East => {},
                Direction::West => {},
            }
        }
        dc
    }

    /// The cover table, as computed up to row `y`, column `x` (row-major), holds an
    /// entry exactly for every covered passable grid tile visited so far.
    spec fn cover_table_upto(&self, cov: Seq<((i32, i32), DirectionalCover)>, y: int, x: int) -> bool {
        &&& keys_distinct(cov)
        &&& forall|i: int| 0 <= i < cov.len() ==> ({
            let p = #[trigger] cov[i].0;
            p.1 < y || (p.1 == y && p.0 < x)
        })
        &&& forall|p: (i32, i32)| #[trigger] entries_map(cov).dom().contains(p) <==> ((p.1 < y || (p.1 == y
            && p.0 < x)) && self.in_grid(p.0 as int, p.1 as int) && self.passable_at(
            p.0 as int,
            p.1 as int,
        ) && self.has_some_cover(p.0 as int, p.1 as int))
        &&& forall|p: (i32, i32), d: Direction|
            entries_map(cov).dom().contains(p) ==> #[trigger] entries_map(cov)[p].spec_get(d)
                == self.cover_from_obstacles(p.0 as int, p.1 as int, d)
    }

    /// Recomputes directional cover for all passable tiles from the current obstacle layout.
    /// Call this after manually setting tiles to keep cover data consistent.
    pub fn recompute_cover(&mut self)
        requires
            old(self).wf(),
        ensures
            final(self).wf(),
            final(self).tiles == old(self).tiles,
            final(self).cols == old(self).cols,
            final(self).rows == old(self).rows,
            final(self).zone_kind == old(self).zone_kind,
            final(self).cover_consistent(),
    {
        let rows = self.rows as i32;
        let cols = self.cols as i32;
        let mut cover: Vec<((i32, i32), DirectionalCover)> = Vec::new();
        let mut y: i32 = 0;
        proof {
            assert forall|p: (i32, i32)| #[trigger] entries_map(cover@).dom().contains(p) <==> false by {}
        }
        while y < rows
            invariant
                self.wf(),
                rows == self.rows as i32,
                cols == self.cols as i32,
                0 <= y,
                y <= rows || rows < 0,
                self.cover_table_upto(cover@, y as int, 0),
            decreases rows - y,
        {
            let mut x: i32 = 0;
            while x < cols
                invariant
                    self.wf(),
                    rows == self.rows as i32,
                    cols == self.cols as i32,
                    0 <= y < rows,
                    0 <= x,
                    x <= cols || cols < 0,
                    self.cover_table_upto(cover@, y as int, x as int),
                decreases cols - x,
            {
                let ghost old_cov = cover@;
                if self.get(x, y).is_passable() {
                    let dc = self.compute_directional_cover(x, y);
                    let covered = dc.any_nonzero();
                    proof {
                        if covered {
                            let i = choose|i: int| 0 <= i < 4 && dc.0@[i] != CoverLevel::NoCover;
                            let d = if i == 0 {
                                Direction::North
                            } else if i == 1 {
                                Direction::South
                            } else if i == 2 {
                                Direction::East
                            } else {
                                Direction::West
                            };
                            assert(dc.spec_get(d) != CoverLevel::NoCover);
                            assert(self.has_some_cover(x as int, y as int));
                        } else {
                            assert forall|d: Direction| self.cover_from_obstacles(x as int, y as int, d)
                                == CoverLevel::NoCover by {
                                assert(dc.spec_get(d) == self.cover_from_obstacles(x as int, y as int, d));
                                assert(dc.0@[direction_index(d)] == CoverLevel::NoCover);
                            }
                        }
                    }
                    if covered {
                        cover.push(((x, y), dc));
                        proof {
                            assert(cover@.drop_last() =~= old_cov);
                            lemma_entries_map_dom(old_cov, (x, y));
                        }
                    }
                }
                x = x + 1;
            }
            y = y + 1;
            proof {
                assert forall|p: (i32, i32)| #[trigger] entries_map(cover@).dom().contains(p) <==> ((p.1 < y
                    || (p.1 == y && p.0 < 0)) && self.in_grid(p.0 as int, p.1 as int) && self.passable_at(
                    p.0 as int,
                    p.1 as int,
                ) && self.has_some_cover(p.0 as int, p.1 as int)) by {}
            }
        }
        proof {
            assert forall|p: (i32, i32)| #[trigger] entries_map(cover@).dom().contains(p) <==> (self.in_grid(p.0 as int, p.1 as int) && self.passable_at(
                    p.0 as int,
                    p.1 as int,
                ) && self.has_some_cover(p.0 as int, p.1 as int)) by {}
        }
        let ghost cv = cover@;
        self.cover = cover;
        proof {
            assert forall|x: i32, y: i32, d: Direction| #[trigger]
                self.stored_cover(x, y, d) == self.derived_cover(x as int, y as int, d) by {
                assert(self.cover_entries() == entries_map(cv));
                assert(entries_map(cv).dom().contains((x, y)) == self.cover_entries().dom().contains((x, y)));
                if !self.cover_entries().dom().contains((x, y)) && self.in_grid(x as int, y as int)
                    && self.passable_at(x as int, y as int) {
                    assert(!self.has_some_cover(x as int, y as int));
                    assert(self.cover_from_obstacles(x as int, y as int, d) == CoverLevel::NoCover) by {
                        match d {
                            Direction::North => {},
                            Direction::South => {},
                            Direction::East => {},
                            Direction::West => {},
                        }
                    }
                }
            }
        }
    }

    /// The stored tiles that are not `Open`.
    pub open spec fn non_open_entries(&self) -> Map<(i32, i32), Tile> {
        Map::new(
            |p: (i32, i32)| self.tile_entries().dom().contains(p) && self.tile_entries()[p] != Tile::Open,
            |p: (i32, i32)| self.tile_entries()[p],
        )
    }

    /// Returns all non-Open tiles as `(position, tile)` pairs, each position once.
    /// Used for serializing the map; only sparse (obstacle/door) tiles are stored.
    pub fn non_default_tiles(&self) -> (v: Vec<((i32, i32), Tile)>)
        requires
            self.wf(),
        ensures
            keys_distinct(v@),
            forall|k: int| 0 <= k < v@.len() ==> (#[trigger] v@[k]).1 != Tile::Open,
            entries_map(v@) == self.non_open_entries(),
    {
        let mut v: Vec<((i32, i32), Tile)> = Vec::new();
        let mut i: usize = 0;
        let ghost tl = self.tiles@;
        proof {
            assert(entries_map(v@) =~= Map::<(i32, i32), Tile>::empty());
        }
        while i < self.tiles.len()
            invariant
                tl == self.tiles@,
                keys_distinct(tl),
                i <= tl.len(),
                keys_distinct(v@),
                forall|k: int| 0 <= k < v@.len() ==> (#[trigger] v@[k]).1 != Tile::Open,
                forall|k: int| #![trigger v@[k]] 0 <= k < v@.len() ==> exists|j: int| 0 <= j < i && #[trigger] tl[j] == v@[k],
                forall|p: (i32, i32)| #[trigger] entries_map(v@).dom().contains(p) <==> exists|j: int|
                    0 <= j < i && tl[j].0 == p && tl[j].1 != Tile::Open,
                forall|j: int| 0 <= j < i && tl[j].1 != Tile::Open ==> entries_map(v@).dom().contains(tl[j].0)
                    && entries_map(v@)[tl[j].0] == tl[j].1,
            decreases tl.len() - i,
        {
            let e = self.tiles[i];
            if e.1 != Tile::Open {
                let ghost old_v = v@;
                proof {
                    assert forall|k: int| 0 <= k < old_v.len() implies old_v[k].0 != e.0 by {
                        let j = choose|j: int| 0 <= j < i && #[trigger] tl[j] == old_v[k];
                        assert(tl[j].0 != tl[i as int].0);
                    }
                    lemma_entries_map_dom(old_v, e.0);
                }
                v.push(e);
                proof {
                    assert(v@ == old_v.push(e));
                    assert(v@.drop_last() =~= old_v);
                    assert forall|a: int, b: int| 0 <= a < b < v@.len() implies v@[a].0 != v@[b].0 by {
                        if b == v@.len() - 1 {
                            assert(v@[a] == old_v[a]);
                        } else {
                            assert(v@[a] == old_v[a] && v@[b] == old_v[b]);
                        }
                    }
                    assert forall|k: int| #![trigger v@[k]] 0 <= k < v@.len() implies exists|j: int| 0 <= j < i + 1 && #[trigger] tl[j] == v@[k] by {
                        if k == v@.len() - 1 {
                            assert(tl[i as int] == v@[k]);
                        } else {
                            assert(v@[k] == old_v[k]);
                            let j = choose|j: int| 0 <= j < i && #[trigger] tl[j] == old_v[k];
                            assert(tl[j] == v@[k]);
                        }
                    }
                    assert forall|p: (i32, i32)| #[trigger] entries_map(v@).dom().contains(p) <==> exists|j: int|
                        0 <= j < i + 1 && tl[j].0 == p && tl[j].1 != Tile::Open by {
                        if p != e.0 && entries_map(v@).dom().contains(p) {
                            assert(entries_map(old_v).dom().contains(p));
                        }
                        if exists|j: int| 0 <= j < i + 1 && tl[j].0 == p && tl[j].1 != Tile::Open {
                            let j = choose|j: int| 0 <= j < i + 1 && tl[j].0 == p && tl[j].1 != Tile::Open;
                            if j < i {
                                assert(entries_map(old_v).dom().contains(p));
                            }
                        }
                    }
                    assert forall|j: int| 0 <= j < i + 1 && tl[j].1 != Tile::Open implies entries_map(v@).dom().contains(tl[j].0)
                        && entries_map(v@)[tl[j].0] == tl[j].1 by {
                        if j < i {
                            assert(tl[j].0 != tl[i as int].0);
                        }
                    }
                }
            } else {
                proof {
                    assert forall|p: (i32, i32)| #[trigger] entries_map(v@).dom().contains(p) <==> exists|j: int|
                        0 <= j < i + 1 && tl[j].0 == p && tl[j].1 != Tile::Open by {
                        if exists|j: int| 0 <= j < i + 1 && tl[j].0 == p && tl[j].1 != Tile::Open {
                            let j = choose|j: int| 0 <= j < i + 1 && tl[j].0 == p && tl[j].1 != Tile::Open;
                            assert(j != i);
                        }
                    }
                }
            }
            i = i + 1;
        }
        proof {
            assert forall|p: (i32, i32)| #[trigger] entries_map(v@).dom().contains(p) implies self.non_open_entries().dom().contains(p)
                && entries_map(v@)[p] == self.non_open_entries()[p] by {
                let j = choose|j: int| 0 <= j < tl.len() && tl[j].0 == p && tl[j].1 != Tile::Open;
                lemma_entries_map_index(tl, j);
            }
            assert forall|p: (i32, i32)| #[trigger] self.non_open_entries().dom().contains(p) implies entries_map(v@).dom().contains(p) by {
                lemma_entries_map_dom(tl, p);
                let j = choose|j: int| 0 <= j < tl.len() && tl[j].0 == p;
                lemma_entries_map_index(tl, j);
                assert(tl[j].1 != Tile::Open);
            }
            assert(entries_map(v@) =~= self.non_open_entries());
        }
        v
    }

    /// Construct a `LevelMap` from an explicit tile list, recomputing cover.
    /// `tiles` should contain only non-Open entries (Open is the default); when a
    /// position occurs more than once, the last entry wins.
    pub fn from_tile_map(cols: u32, rows: u32, zone_kind: ZoneKind, tiles: Vec<((i32, i32), Tile)>) -> (m:
        Self)
        ensures
            m.wf(),
            m.cols == cols,
            m.rows == rows,
            m.zone_kind == zone_kind,
            m.tile_entries() == entries_map(tiles@),
            m.cover_consistent(),
    {
        let mut map = Self::new(cols, rows, zone_kind);
        let mut i: usize = 0;
        while i < tiles.len()
            invariant
                i <= tiles@.len(),
                map.wf(),
                map.cols == cols,
                map.rows == rows,
                map.zone_kind == zone_kind,
                map.tile_entries() == entries_map(tiles@.subrange(0, i as int)),
            decreases tiles@.len() - i,
        {
            let (pos, tile) = tiles[i];
            map.set(pos.0, pos.1, tile);
            i = i + 1;
            proof {
                assert(tiles@.subrange(0, i as int).drop_last() =~= tiles@.subrange(0, i - 1));
            }
        }
        proof {
            assert(tiles@.subrange(0, i as int) =~= tiles@);
        }
        map.recompute_cover();
        map
    }

    /// The glyph [`LevelMap::display_glyph`] shows for `(x, y)`.
    pub open spec fn spec_display_glyph(&self, x: i32, y: i32) -> char {
        match self.tile_at(x as int, y as int) {
            Tile::Obstacle => '#',
            Tile::Door => '+',
            Tile::Open => if self.stored_cover(x, y, Direction::North) == CoverLevel::Full
                || self.stored_cover(x, y, Direction::South) == CoverLevel::Full || self.stored_cover(
                x,
                y,
                Direction::East,
            ) == CoverLevel::Full || self.stored_cover(x, y, Direction::West) == CoverLevel::Full {
                'C'
            } else if self.stored_cover(x, y, Direction::North) == CoverLevel::Partial
                || self.stored_cover(x, y, Direction::South) == CoverLevel::Partial
                || self.stored_cover(x, y, Direction::East) == CoverLevel::Partial
                || self.stored_cover(x, y, Direction::West) == CoverLevel::Partial {
                'c'
            } else {
                '.'
            },
        }
    }

    /// Terminal character for rendering, including cover hints:
    /// `'#'` obstacle, `'+'` door, `'C'` full cover any direction, `'c'` partial, `'.'` open.
    pub fn display_glyph(&self, x: i32, y: i32) -> (c: char)
        requires
            self.wf(),
        ensures
            c == self.spec_display_glyph(x, y),
    {
        match self.get(x, y) {
            Tile::Obstacle => return '#',
            Tile::Door => return '+',
            Tile::Open => {},
        }
        let n = self.get_cover(x, y, Direction::North);
        let s = self.get_cover(x, y, Direction::South);
        let e = self.get_cover(x, y, Direction::East);
        let w = self.get_cover(x, y, Direction::West);
        if n == CoverLevel::Full || s == CoverLevel::Full || e == CoverLevel::Full || w
            == CoverLevel::Full {
            'C'
        } else if n == CoverLevel::Partial || s == CoverLevel::Partial || e == CoverLevel::Partial
            || w == CoverLevel::Partial {
            'c'
        } else {
            '.'
        }
    }
}

/// Reading a tile gives back what was last written there, and writing one position
/// leaves every other position as it was: after `m.set(x, y, t)`, `m.get(x, y)` is `t`.
pub proof fn lemma_get_after_set(before: LevelMap, after: LevelMap, x: i32, y: i32, tile: Tile)
    requires
        before.wf(),
        after.tile_entries() == before.tile_entries().insert((x, y), tile),
    ensures
        after.tile_at(x as int, y as int) == tile,
        forall|a: int, b: int| (a, b) != (x as int, y as int) ==> #[trigger] after.tile_at(a, b) == before.tile_at(a, b),
{
    assert forall|a: int, b: int| (a, b) != (x as int, y as int) implies #[trigger] after.tile_at(a, b) == before.tile_at(a, b) by {
        if i32::MIN <= a <= i32::MAX && i32::MIN <= b <= i32::MAX {
            assert((a as i32, b as i32) != (x, y));
        }
    }
}

/// The stored tiles after `set(x, y, tile)` calls, in order, on stored tiles `base`.
pub open spec fn apply_sets(base: Map<(i32, i32), Tile>, sets: Seq<(i32, i32, Tile)>) -> Map<(i32, i32), Tile>
    decreases sets.len(),
{
    if sets.len() == 0 {
        base
    } else {
        apply_sets(base, sets.drop_last()).insert((sets.last().0, sets.last().1), sets.last().2)
    }
}

/// The tile that the last of the `set` calls aimed at `(x, y)` wrote, if any.
pub open spec fn last_set(sets: Seq<(i32, i32, Tile)>, x: int, y: int) -> Option<Tile>
    decreases sets.len(),
{
    if sets.len() == 0 {
        None
    } else if sets.last().0 as int == x && sets.last().1 as int == y {
        Some(sets.last().2)
    } else {
        last_set(sets.drop_last(), x, y)
    }
}

proof fn lemma_apply_sets_entry(sets: Seq<(i32, i32, Tile)>, x: i32, y: i32)
    ensures
        apply_sets(Map::empty(), sets).dom().contains((x, y)) <==> last_set(sets, x as int, y as int) is Some,
        last_set(sets, x as int, y as int) is Some ==> apply_sets(Map::empty(), sets)[(x, y)] == last_set(
            sets,
            x as int,
            y as int,
        )->0,
    decreases sets.len(),
{
    if sets.len() > 0 {
        lemma_apply_sets_entry(sets.drop_last(), x, y);
    }
}

proof fn lemma_last_set_in_range(sets: Seq<(i32, i32, Tile)>, x: int, y: int)
    ensures
        last_set(sets, x, y) is Some ==> i32::MIN <= x <= i32::MAX && i32::MIN <= y <= i32::MAX,
    decreases sets.len(),
{
    if sets.len() > 0 {
        lemma_last_set_in_range(sets.drop_last(), x, y);
    }
}

/// Reading a tile after any sequence of writes on a new map gives what the last write
/// to that position wrote, and `Open` where nothing was written: for
/// `m = LevelMap::new(..)` followed by `m.set(x1, y1, t1)`, …, `m.set(xn, yn, tn)`,
/// `m.get(x, y)` is the `tj` of the largest `j` with `(xj, yj) == (x, y)`, else `Open`.
pub proof fn lemma_get_after_sets(m: LevelMap, sets: Seq<(i32, i32, Tile)>)
    requires
        m.tile_entries() == apply_sets(Map::empty(), sets),
    ensures
        forall|x: int, y: int| #[trigger] m.tile_at(x, y) == match last_set(sets, x, y) {
            Some(t) => t,
            None => Tile::Open,
        },
{
    assert forall|x: int, y: int| #[trigger] m.tile_at(x, y) == match last_set(sets, x, y) {
        Some(t) => t,
        None => Tile::Open,
    } by {
        lemma_last_set_in_range(sets, x, y);
        if i32::MIN <= x <= i32::MAX && i32::MIN <= y <= i32::MAX {
            lemma_apply_sets_entry(sets, x as i32, y as i32);
        }
    }
}

/// Restoring a map from its exported tiles reproduces every tile: for a map `m`,
/// `LevelMap::from_tile_map(.., m.non_default_tiles())` has the same tile as `m`
/// at every position.
pub proof fn lemma_export_restore_tiles(m: LevelMap, exported: Seq<((i32, i32), Tile)>, restored: LevelMap)
    requires
        m.wf(),
        entries_map(exported) == m.non_open_entries(),
        restored.tile_entries() == entries_map(exported),
    ensures
        forall|x: int, y: int| #[trigger] restored.tile_at(x, y) == m.tile_at(x, y),
{
}

} // verus!
