use vstd::prelude::*;

use vstd::set_lib::{lemma_int_range, lemma_len_subset, set_int_range};

use crate::terrain::{abs_int, LevelMap};

verus! {

// ── Grid walks ────────────────────────────────────────────────────────────────

/// `a` and `b` are orthogonal neighbours.
pub open spec fn adjacent(a: (i32, i32), b: (i32, i32)) -> bool {
    abs_int(a.0 - b.0) + abs_int(a.1 - b.1) == 1
}

/// Manhattan distance between two cells.
pub open spec fn manhattan(a: (i32, i32), b: (i32, i32)) -> int {
    abs_int(a.0 - b.0) + abs_int(a.1 - b.1)
}

/// The cell a walk has reached after its first `i` steps.
pub open spec fn walk_pos(start: (i32, i32), w: Seq<(i32, i32)>, i: int) -> (i32, i32) {
    if i <= 0 {
        start
    } else {
        w[i - 1]
    }
}

/// The cell a walk ends on.
pub open spec fn walk_end(start: (i32, i32), w: Seq<(i32, i32)>) -> (i32, i32) {
    walk_pos(start, w, w.len() as int)
}

impl LevelMap {
    /// A cell a search may step onto. Pathfinding (`nearest == false`) needs a passable
    /// grid tile that is free unless it is the destination; the nearest-tile search
    /// (`nearest == true`) may cross any grid tile.
    pub open spec fn step_ok(
        &self,
        to: (i32, i32),
        occupied: Seq<(i32, i32)>,
        nearest: bool,
        n: (i32, i32),
    ) -> bool {
        if nearest {
            self.in_grid(n.0 as int, n.1 as int)
        } else {
            &&& self.in_grid(n.0 as int, n.1 as int)
            &&& self.passable_at(n.0 as int, n.1 as int)
            &&& (n == to || !occupied.contains(n))
        }
    }

    /// What a search is looking for: the destination, or any passable tile.
    pub open spec fn is_goal(&self, to: (i32, i32), nearest: bool, n: (i32, i32)) -> bool {
        if nearest {
            self.passable_at(n.0 as int, n.1 as int)
        } else {
            n == to
        }
    }

    /// `w` is a sequence of orthogonal steps from `start`, each onto a cell the search may enter.
    pub open spec fn is_walk(
        &self,
        to: (i32, i32),
        occupied: Seq<(i32, i32)>,
        nearest: bool,
        start: (i32, i32),
        w: Seq<(i32, i32)>,
    ) -> bool {
        forall|i: int|
            0 <= i < w.len() ==> adjacent(walk_pos(start, w, i), #[trigger] w[i]) && self.step_ok(
                to,
                occupied,
                nearest,
                w[i],
            )
    }

    /// `p` is a route for [`LevelMap::bfs_path`]: a non-empty walk from `from` that ends
    /// on `to`, crossing only passable, unoccupied grid tiles (the destination itself may
    /// be occupied).
    pub open spec fn is_route(
        &self,
        from: (i32, i32),
        to: (i32, i32),
        occupied: Seq<(i32, i32)>,
        p: Seq<(i32, i32)>,
    ) -> bool {
        &&& p.len() > 0
        &&& p.last() == to
        &&& self.is_walk(to, occupied, false, from, p)
    }
}


// ── Counting grid cells ───────────────────────────────────────────────────────

proof fn lemma_cell_index_injective(x1: int, y1: int, x2: int, y2: int, c: int)
    requires
        0 <= x1 < c,
        0 <= x2 < c,
        y1 * c + x1 == y2 * c + x2,
    ensures
        x1 == x2,
        y1 == y2,
{
    if y1 < y2 {
        assert(y1 * c + c <= y2 * c) by (nonlinear_arith)
            requires
                y1 < y2,
                c > 0,
        ;
    } else if y2 < y1 {
        assert(y2 * c + c <= y1 * c) by (nonlinear_arith)
            requires
                y2 < y1,
                c > 0,
        ;
    }
}

proof fn lemma_cell_index_range(x: int, y: int, c: int, r: int)
    requires
        0 <= x < c,
        0 <= y < r,
    ensures
        0 <= y * c + x < c * r,
{
    assert(0 <= y * c) by (nonlinear_arith)
        requires
            0 <= y,
            0 <= c,
    ;
    assert(y * c + c <= c * r) by (nonlinear_arith)
        requires
            y < r,
            0 <= c,
    ;
}

/// Distinct cells of a `c` by `r` grid number at most `c * r`.
proof fn lemma_grid_cells_bound(s: Seq<(i32, i32)>, c: int, r: int)
    requires
        0 <= c,
        0 <= r,
        forall|i: int, j: int| 0 <= i < j < s.len() ==> s[i] != s[j],
        forall|i: int| 0 <= i < s.len() ==> 0 <= #[trigger] s[i].0 < c && 0 <= s[i].1 < r,
    ensures
        s.len() <= c * r,
{
    assert(0 <= c * r) by (nonlinear_arith)
        requires
            0 <= c,
            0 <= r,
    ;
    if s.len() > 0 {
        let f = |p: (i32, i32)| p.1 as int * c + p.0 as int;
        let m = s.map_values(f);
        assert forall|i: int, j: int| 0 <= i < m.len() && 0 <= j < m.len() && i != j implies m[i]
            != m[j] by {
            if m[i] == m[j] {
                lemma_cell_index_injective(s[i].0 as int, s[i].1 as int, s[j].0 as int, s[j].1 as int, c);
                if i < j {
                    assert(s[i] != s[j]);
                } else {
                    assert(s[j] != s[i]);
                }
            }
        }
        assert(m.no_duplicates());
        m.unique_seq_to_set();
        assert forall|v: int| m.to_set().contains(v) implies set_int_range(0, c * r).contains(v) by {
            let i = choose|i: int| 0 <= i < m.len() && m[i] == v;
            lemma_cell_index_range(s[i].0 as int, s[i].1 as int, c, r);
        }
        assert(0 <= c * r) by {
            lemma_cell_index_range(s[0].0 as int, s[0].1 as int, c, r);
        }
        lemma_int_range(0, c * r);
        lemma_len_subset(m.to_set(), set_int_range(0, c * r));
        assert(m.len() == s.len());
        assert(m.to_set().len() <= c * r);
    }
}

// ── Breadth-first search ──────────────────────────────────────────────────────

/// Cell `order[i]` is one enterable step from its parent and one step further out.
pub open spec fn bfs_edge_ok(
    map: &LevelMap,
    to: (i32, i32),
    occ: Seq<(i32, i32)>,
    nearest: bool,
    order: Seq<(i32, i32)>,
    par: Seq<usize>,
    dist: Seq<nat>,
    i: int,
) -> bool {
    &&& (par[i] as int) < i
    &&& dist[i] == dist[par[i] as int] + 1
    &&& adjacent(order[par[i] as int], order[i])
    &&& map.step_ok(to, occ, nearest, order[i])
}

/// The walk recorded by the search from its start to `order[i]`, following parents.
pub open spec fn bfs_chain(order: Seq<(i32, i32)>, par: Seq<usize>, i: int) -> Seq<(i32, i32)>
    decreases i,
{
    if 0 < i < order.len() && i < par.len() && (par[i] as int) < i {
        bfs_chain(order, par, par[i] as int).push(order[i])
    } else {
        Seq::empty()
    }
}

impl LevelMap {
    /// The found cells form a tree rooted at `start`: each later cell is one enterable
    /// step from its parent, which was found earlier, and is one step further out.
    pub open spec fn bfs_tree(
        &self,
        start: (i32, i32),
        to: (i32, i32),
        occ: Seq<(i32, i32)>,
        nearest: bool,
        order: Seq<(i32, i32)>,
        par: Seq<usize>,
        dist: Seq<nat>,
    ) -> bool {
        &&& order.len() >= 1
        &&& par.len() == order.len()
        &&& dist.len() == order.len()
        &&& order[0] == start
        &&& dist[0] == 0
        &&& forall|i: int| 1 <= i < order.len() ==> #[trigger] bfs_edge_ok(self, to, occ, nearest, order, par, dist, i)
    }

    /// Cells are found in non-decreasing distance.
    pub open spec fn bfs_mono(dist: Seq<nat>) -> bool {
        forall|i: int, j: int| 0 <= i < j < dist.len() ==> #[trigger] dist[i] <= #[trigger] dist[j]
    }

    /// No found cell is more than one step further out than the next one to expand.
    pub open spec fn bfs_front(dist: Seq<nat>, head: int) -> bool {
        0 <= head < dist.len() ==> forall|j: int| 0 <= j < dist.len() ==> #[trigger] dist[j] <= dist[head] + 1
    }

    /// `ix` maps each found cell to its place in `order`, and nothing else.
    pub open spec fn bfs_index(order: Seq<(i32, i32)>, ix: Map<(i32, i32), int>) -> bool {
        &&& forall|j: int| 0 <= j < order.len() ==> ix.dom().contains(#[trigger] order[j]) && ix[order[j]] == j
        &&& forall|p: (i32, i32)| #[trigger]
            ix.dom().contains(p) ==> 0 <= ix[p] < order.len() && order[ix[p]] == p
    }

    /// Every enterable neighbour of an expanded cell has been found, at most one step further out.
    pub open spec fn bfs_closed(
        &self,
        to: (i32, i32),
        occ: Seq<(i32, i32)>,
        nearest: bool,
        order: Seq<(i32, i32)>,
        dist: Seq<nat>,
        ix: Map<(i32, i32), int>,
        head: int,
    ) -> bool {
        forall|i: int, n: (i32, i32)|
            #![trigger adjacent(order[i], n)]
            0 <= i < head && adjacent(order[i], n) && self.step_ok(to, occ, nearest, n)
                ==> ix.dom().contains(n) && dist[ix[n]] <= dist[i] + 1
    }

    /// No expanded cell is a goal.
    pub open spec fn bfs_no_goal(&self, to: (i32, i32), nearest: bool, order: Seq<(i32, i32)>, head: int) -> bool {
        forall|i: int| 0 <= i < head ==> !self.is_goal(to, nearest, #[trigger] order[i])
    }

    /// The state of a breadth-first search from `start`: `order` lists the cells found,
    /// in the order found; `par[i]` is the cell `order[i]` was reached from, `dist[i]`
    /// its number of steps from `start`, and `ix` finds a cell's place in `order`.
    /// Cells before `head` have been expanded (each of their enterable neighbours has
    /// been found) and none of them is a goal.
    pub open spec fn bfs_inv(
        &self,
        start: (i32, i32),
        to: (i32, i32),
        occ: Seq<(i32, i32)>,
        nearest: bool,
        order: Seq<(i32, i32)>,
        par: Seq<usize>,
        dist: Seq<nat>,
        ix: Map<(i32, i32), int>,
        head: int,
    ) -> bool {
        &&& self.bfs_tree(start, to, occ, nearest, order, par, dist)
        &&& Self::bfs_mono(dist)
        &&& 0 <= head <= order.len()
        &&& Self::bfs_front(dist, head)
        &&& Self::bfs_index(order, ix)
        &&& self.bfs_closed(to, occ, nearest, order, dist, ix, head)
        &&& self.bfs_no_goal(to, nearest, order, head)
    }

    /// The recorded chain to `order[i]` is a walk of `dist[i]` steps ending on `order[i]`.
    proof fn lemma_bfs_chain(
        &self,
        start: (i32, i32),
        to: (i32, i32),
        occ: Seq<(i32, i32)>,
        nearest: bool,
        order: Seq<(i32, i32)>,
        par: Seq<usize>,
        dist: Seq<nat>,
        ix: Map<(i32, i32), int>,
        head: int,
        i: int,
    )
        requires
            self.bfs_inv(start, to, occ, nearest, order, par, dist, ix, head),
            0 <= i < order.len(),
        ensures
            bfs_chain(order, par, i).len() == dist[i],
            self.is_walk(to, occ, nearest, start, bfs_chain(order, par, i)),
            walk_end(start, bfs_chain(order, par, i)) == order[i],
        decreases i,
    {
        if i > 0 {
            let pi = par[i] as int;
            assert(bfs_edge_ok(self, to, occ, nearest, order, par, dist, i));
            assert(adjacent(order[pi], order[i]));
            self.lemma_bfs_chain(start, to, occ, nearest, order, par, dist, ix, head, pi);
            let c = bfs_chain(order, par, pi);
            let c2 = bfs_chain(order, par, i);
            assert(c2 == c.push(order[i]));
            assert forall|k: int| 0 <= k < c2.len() implies adjacent(walk_pos(start, c2, k), #[trigger] c2[k])
                && self.step_ok(to, occ, nearest, c2[k]) by {
                if k < c.len() {
                    assert(c2[k] == c[k]);
                    assert(walk_pos(start, c2, k) == walk_pos(start, c, k));
                } else {
                    assert(walk_pos(start, c2, k) == walk_end(start, c));
                }
            }
        }
    }

    /// Every step of a walk lands on a found cell no further from `start` than the
    /// step count, as long as the cells it passes through have been expanded.
    proof fn lemma_bfs_walk_reach(
        &self,
        start: (i32, i32),
        to: (i32, i32),
        occ: Seq<(i32, i32)>,
        nearest: bool,
        order: Seq<(i32, i32)>,
        par: Seq<usize>,
        dist: Seq<nat>,
        ix: Map<(i32, i32), int>,
        head: int,
        w: Seq<(i32, i32)>,
        i: int,
        limit: int,
    )
        requires
            self.bfs_inv(start, to, occ, nearest, order, par, dist, ix, head),
            self.is_walk(to, occ, nearest, start, w),
            0 <= i <= w.len(),
            i <= limit,
            forall|j: int| 0 <= j < order.len() && #[trigger] dist[j] < limit ==> j < head,
        ensures
            ix.dom().contains(walk_pos(start, w, i)),
            dist[ix[walk_pos(start, w, i)]] <= i,
        decreases i,
    {
        if i == 0 {
            assert(ix.dom().contains(order[0]));
        } else {
            self.lemma_bfs_walk_reach(start, to, occ, nearest, order, par, dist, ix, head, w, i - 1, limit);
            let p = walk_pos(start, w, i - 1);
            let j = ix[p];
            assert(order[j] == p);
            assert(j < head);
            assert(adjacent(walk_pos(start, w, i - 1), w[i - 1]));
            assert(adjacent(order[j], w[i - 1]));
            assert(walk_pos(start, w, i) == w[i - 1]);
        }
    }

    /// When the search stops on goal `order[h]`, no walk reaches a goal in fewer steps.
    proof fn lemma_bfs_found_shortest(
        &self,
        start: (i32, i32),
        to: (i32, i32),
        occ: Seq<(i32, i32)>,
        nearest: bool,
        order: Seq<(i32, i32)>,
        par: Seq<usize>,
        dist: Seq<nat>,
        ix: Map<(i32, i32), int>,
        h: int,
        w: Seq<(i32, i32)>,
    )
        requires
            self.bfs_inv(start, to, occ, nearest, order, par, dist, ix, h),
            h < order.len(),
            self.is_walk(to, occ, nearest, start, w),
            self.is_goal(to, nearest, walk_end(start, w)),
        ensures
            w.len() >= dist[h],
    {
        if w.len() < dist[h] {
            assert forall|j: int| 0 <= j < order.len() && #[trigger] dist[j] < dist[h] implies j < h by {
                if j >= h {
                    if j > h {
                        assert(dist[h] <= dist[j]);
                    }
                }
            }
            self.lemma_bfs_walk_reach(start, to, occ, nearest, order, par, dist, ix, h, w, w.len() as int, dist[h] as int);
            let e = walk_end(start, w);
            let j = ix[e];
            if j >= h {
                if j > h {
                    assert(dist[h] <= dist[j]);
                }
            }
            assert(!self.is_goal(to, nearest, order[j]));
        }
    }

    /// When the search runs dry, no walk reaches a goal.
    proof fn lemma_bfs_exhausted(
        &self,
        start: (i32, i32),
        to: (i32, i32),
        occ: Seq<(i32, i32)>,
        nearest: bool,
        order: Seq<(i32, i32)>,
        par: Seq<usize>,
        dist: Seq<nat>,
        ix: Map<(i32, i32), int>,
        w: Seq<(i32, i32)>,
    )
        requires
            self.bfs_inv(start, to, occ, nearest, order, par, dist, ix, order.len() as int),
            self.is_walk(to, occ, nearest, start, w),
        ensures
            !self.is_goal(to, nearest, walk_end(start, w)),
    {
        self.lemma_bfs_walk_reach(
            start,
            to,
            occ,
            nearest,
            order,
            par,
            dist,
            ix,
            order.len() as int,
            w,
            w.len() as int,
            w.len() + 1int,
        );
        let e = walk_end(start, w);
        assert(!self.is_goal(to, nearest, order[ix[e]]));
    }
}


impl LevelMap {
    /// Recording a newly found neighbour of the cell being expanded keeps the search state.
    proof fn lemma_bfs_push(
        &self,
        start: (i32, i32),
        to: (i32, i32),
        occ: Seq<(i32, i32)>,
        nearest: bool,
        order: Seq<(i32, i32)>,
        par: Seq<usize>,
        dist: Seq<nat>,
        ix: Map<(i32, i32), int>,
        head: int,
        n: (i32, i32),
    )
        requires
            self.bfs_inv(start, to, occ, nearest, order, par, dist, ix, head),
            head < order.len(),
            head <= usize::MAX,
            adjacent(order[head], n),
            self.step_ok(to, occ, nearest, n),
            !ix.dom().contains(n),
        ensures
            self.bfs_inv(
                start,
                to,
                occ,
                nearest,
                order.push(n),
                par.push(head as usize),
                dist.push((dist[head] + 1) as nat),
                ix.insert(n, order.len() as int),
                head,
            ),
    {
        let o2 = order.push(n);
        let p2 = par.push(head as usize);
        let d2 = dist.push((dist[head] + 1) as nat);
        let ix2 = ix.insert(n, order.len() as int);
        let len = order.len() as int;
        assert forall|i: int| 1 <= i < o2.len() implies #[trigger] bfs_edge_ok(self, to, occ, nearest, o2, p2, d2, i) by {
            if i < len {
                assert(bfs_edge_ok(self, to, occ, nearest, order, par, dist, i));
                assert(o2[i] == order[i]);
                assert(p2[i] == par[i]);
                assert(adjacent(order[par[i] as int], order[i]));
                assert(o2[p2[i] as int] == order[par[i] as int]);
                assert(d2[i] == dist[i]);
                assert(d2[p2[i] as int] == dist[par[i] as int]);
            } else {
                assert(i == len);
                assert(o2[i] == n);
                assert(p2[i] as int == head);
                assert(o2[head] == order[head]);
                assert(d2[head] == dist[head]);
            }
        }
        assert forall|i: int, j: int| 0 <= i < j < o2.len() implies #[trigger] d2[i] <= #[trigger] d2[j] by {
            if j < len {
                assert(dist[i] <= dist[j]);
            } else {
                assert(dist[i] <= dist[head] + 1);
            }
        }
        assert forall|j: int| 0 <= j < o2.len() implies #[trigger] d2[j] <= d2[head] + 1 by {
            if j < len {
                assert(dist[j] <= dist[head] + 1);
            }
        }
        assert forall|j: int| 0 <= j < o2.len() implies ix2.dom().contains(#[trigger] o2[j]) && ix2[o2[j]]
            == j by {
            if j < len {
                assert(ix.dom().contains(order[j]));
                assert(order[j] != n);
            }
        }
        assert forall|p: (i32, i32)| #[trigger] ix2.dom().contains(p) implies 0 <= ix2[p] < o2.len()
            && o2[ix2[p]] == p by {
            if p != n {
                assert(ix.dom().contains(p));
            }
        }
        assert forall|i: int, m: (i32, i32)|
            #![trigger adjacent(o2[i], m)]
            0 <= i < head && adjacent(o2[i], m) && self.step_ok(to, occ, nearest, m) implies ix2.dom().contains(m)
                && d2[ix2[m]] <= d2[i] + 1 by {
            assert(o2[i] == order[i]);
            assert(adjacent(order[i], m));
            assert(ix.dom().contains(m));
            assert(m != n);
        }
        assert forall|i: int| 0 <= i < head implies !self.is_goal(to, nearest, #[trigger] o2[i]) by {
            assert(o2[i] == order[i]);
        }
        assert(o2[0] == order[0]);
        assert(d2[0] == dist[0]);
        assert(self.bfs_tree(start, to, occ, nearest, o2, p2, d2));
        assert(Self::bfs_mono(d2));
        assert(Self::bfs_front(d2, head));
        assert(Self::bfs_index(o2, ix2));
        assert(self.bfs_closed(to, occ, nearest, o2, d2, ix2, head));
        assert(self.bfs_no_goal(to, nearest, o2, head));
    }

    /// Once every enterable neighbour of `order[head]` is recorded, the cell counts as expanded.
    proof fn lemma_bfs_advance(
        &self,
        start: (i32, i32),
        to: (i32, i32),
        occ: Seq<(i32, i32)>,
        nearest: bool,
        order: Seq<(i32, i32)>,
        par: Seq<usize>,
        dist: Seq<nat>,
        ix: Map<(i32, i32), int>,
        head: int,
    )
        requires
            self.bfs_inv(start, to, occ, nearest, order, par, dist, ix, head),
            head < order.len(),
            !self.is_goal(to, nearest, order[head]),
            forall|n: (i32, i32)|
                #![trigger adjacent(order[head], n)]
                adjacent(order[head], n) && self.step_ok(to, occ, nearest, n) ==> ix.dom().contains(n)
                    && dist[ix[n]] <= dist[head] + 1,
        ensures
            self.bfs_inv(start, to, occ, nearest, order, par, dist, ix, head + 1),
    {
        if head + 1 < order.len() {
            assert forall|j: int| 0 <= j < order.len() implies #[trigger] dist[j] <= dist[head + 1] + 1 by {
                assert(dist[head] <= dist[head + 1]);
                assert(dist[j] <= dist[head] + 1);
            }
        }
        assert forall|i: int, n: (i32, i32)|
            #![trigger adjacent(order[i], n)]
            0 <= i < head + 1 && adjacent(order[i], n) && self.step_ok(to, occ, nearest, n) implies ix.dom().contains(n)
                && dist[ix[n]] <= dist[i] + 1 by {
            if i == head {
                assert(adjacent(order[head], n));
            }
        }
    }
}

/// Rank of an orthogonal offset in the order the search tries neighbours.
pub open spec fn delta_rank(dx: int, dy: int) -> int {
    if dx == 0 && dy == 1 {
        0
    } else if dx == 0 && dy == -1 {
        1
    } else if dx == 1 && dy == 0 {
        2
    } else {
        3
    }
}

/// Whether `v` holds the cell `p`.
pub(crate) fn contains_cell(v: &Vec<(i32, i32)>, p: (i32, i32)) -> (b: bool)
    ensures
        b == v@.contains(p),
{
    let mut i: usize = 0;
    while i < v.len()
        invariant
            i <= v@.len(),
            forall|j: int| 0 <= j < i ==> v@[j] != p,
        decreases v@.len() - i,
    {
        let q = v[i];
        if q.0 == p.0 && q.1 == p.1 {
            return true;
        }
        i = i + 1;
    }
    false
}

impl LevelMap {
    /// Breadth-first search from `start`, trying neighbours south, north, east, west.
    /// Stops on the first dequeued goal (`Some(h)`: `order[h]`), or `None` when every
    /// reachable cell has been expanded.
    #[verifier::spinoff_prover]
    fn bfs_search(&self, start: (i32, i32), to: (i32, i32), occupied: &Vec<(i32, i32)>, nearest: bool) -> (r: (
        Vec<(i32, i32)>,
        Vec<usize>,
        Option<usize>,
        Ghost<Seq<nat>>,
        Ghost<Map<(i32, i32), int>>,
    ))
        requires
            self.wf(),
            i32::MIN < start.0 < i32::MAX,
            i32::MIN < start.1 < i32::MAX,
        ensures
            match r.2 {
                Some(h) => h < r.0@.len() && self.bfs_inv(
                    start,
                    to,
                    occupied@,
                    nearest,
                    r.0@,
                    r.1@,
                    r.3@,
                    r.4@,
                    h as int,
                ) && self.is_goal(to, nearest, r.0@[h as int]),
                None => self.bfs_inv(
                    start,
                    to,
                    occupied@,
                    nearest,
                    r.0@,
                    r.1@,
                    r.3@,
                    r.4@,
                    r.0@.len() as int,
                ),
            },
    {
        let cols = self.cols as i32;
        let rows = self.rows as i32;
        let ghost gc: int = if cols > 0 {
            cols as int
        } else {
            0
        };
        let ghost gr: int = if rows > 0 {
            rows as int
        } else {
            0
        };
        let mut order: Vec<(i32, i32)> = Vec::new();
        order.push(start);
        let mut par: Vec<usize> = Vec::new();
        par.push(0);
        let ghost mut dist: Seq<nat> = seq![0nat];
        let ghost mut ix: Map<(i32, i32), int> = Map::empty().insert(start, 0int);
        let mut head: usize = 0;
        proof {
            assert(0 <= gc * gr) by (nonlinear_arith)
                requires
                    0 <= gc,
                    0 <= gr,
            ;
        }
        while head < order.len()
            invariant
                self.wf(),
                cols == self.cols as i32,
                rows == self.rows as i32,
                gc == (if cols > 0 {
                    cols as int
                } else {
                    0
                }),
                gr == (if rows > 0 {
                    rows as int
                } else {
                    0
                }),
                i32::MIN < start.0 < i32::MAX,
                i32::MIN < start.1 < i32::MAX,
                self.bfs_inv(start, to, occupied@, nearest, order@, par@, dist, ix, head as int),
                order@.len() <= gc * gr + 1,
            decreases gc * gr + 1 - head,
        {
            let cur = order[head];
            let found = if nearest {
                self.is_passable(cur.0, cur.1)
            } else {
                cur.0 == to.0 && cur.1 == to.1
            };
            if found {
                return (order, par, Some(head), Ghost(dist), Ghost(ix));
            }
            proof {
                if head > 0 {
                    assert(bfs_edge_ok(self, to, occupied@, nearest, order@, par@, dist, head as int));
                    assert(self.step_ok(to, occupied@, nearest, order@[head as int]));
                }
            }
            let mut k: usize = 0;
            while k < 4
                invariant
                    self.wf(),
                    cols == self.cols as i32,
                    rows == self.rows as i32,
                    gc == (if cols > 0 {
                        cols as int
                    } else {
                        0
                    }),
                    gr == (if rows > 0 {
                        rows as int
                    } else {
                        0
                    }),
                    i32::MIN < start.0 < i32::MAX,
                    i32::MIN < start.1 < i32::MAX,
                    i32::MIN < cur.0 < i32::MAX,
                    i32::MIN < cur.1 < i32::MAX,
                    k <= 4,
                    head < order@.len(),
                    order@[head as int] == cur,
                    !self.is_goal(to, nearest, cur),
                    self.bfs_inv(start, to, occupied@, nearest, order@, par@, dist, ix, head as int),
                    forall|n: (i32, i32)|
                        #![trigger adjacent(cur, n)]
                        adjacent(cur, n) && self.step_ok(to, occupied@, nearest, n) && delta_rank(
                            n.0 - cur.0,
                            n.1 - cur.1,
                        ) < k ==> ix.dom().contains(n) && dist[ix[n]] <= dist[head as int] + 1,
                    order@.len() <= gc * gr + 1,
                decreases 4 - k,
            {
                let (dx, dy): (i32, i32) = if k == 0 {
                    (0, 1)
                } else if k == 1 {
                    (0, -1)
                } else if k == 2 {
                    (1, 0)
                } else {
                    (-1, 0)
                };
                let nx = cur.0 + dx;
                let ny = cur.1 + dy;
                let ghost before_order = order@;
                if !(nx < 0 || ny < 0 || nx >= cols || ny >= rows) {
                    let n = (nx, ny);
                    if !contains_cell(&order, n) {
                        let ok = if nearest {
                            true
                        } else {
                            self.is_passable(nx, ny) && ((nx == to.0 && ny == to.1) || !contains_cell(
                                occupied,
                                n,
                            ))
                        };
                        if ok {
                            let ghost old_len = order@.len();
                            proof {
                                assert(!ix.dom().contains(n)) by {
                                    if ix.dom().contains(n) {
                                        assert(order@[ix[n]] == n);
                                    }
                                }
                                assert(adjacent(order@[head as int], n));
                                self.lemma_bfs_push(start, to, occupied@, nearest, order@, par@, dist, ix, head as int, n);
                            }
                            order.push(n);
                            par.push(head);
                            proof {
                                dist = dist.push((dist[head as int] + 1) as nat);
                                ix = ix.insert(n, old_len as int);
                                assert(adjacent(cur, n));
                                assert(order@[old_len as int] == n);
                                assert(forall|j: int| 0 <= j < old_len ==> order@[j] == before_order[j]);
                                let rest = order@.drop_first();
                                assert forall|i: int| 0 <= i < rest.len() implies 0 <= #[trigger] rest[i].0 < gc
                                    && 0 <= rest[i].1 < gr by {
                                    assert(rest[i] == order@[i + 1]);
                                    assert(bfs_edge_ok(self, to, occupied@, nearest, order@, par@, dist, i + 1));
                                    assert(self.step_ok(to, occupied@, nearest, order@[i + 1]));
                                }
                                assert forall|i: int, j: int| 0 <= i < j < rest.len() implies rest[i]
                                    != rest[j] by {
                                    assert(rest[i] == order@[i + 1]);
                                    assert(rest[j] == order@[j + 1]);
                                    assert(ix[order@[i + 1]] == i + 1);
                                    assert(ix[order@[j + 1]] == j + 1);
                                }
                                lemma_grid_cells_bound(rest, gc, gr);
                            }
                        }
                    }
                }
                proof {
                    assert forall|m: (i32, i32)|
                        #![trigger adjacent(cur, m)]
                        adjacent(cur, m) && self.step_ok(to, occupied@, nearest, m) && delta_rank(
                            m.0 - cur.0,
                            m.1 - cur.1,
                        ) < k + 1 implies ix.dom().contains(m) && dist[ix[m]] <= dist[head as int] + 1 by {
                        if delta_rank(m.0 - cur.0, m.1 - cur.1) == k {
                            assert(m.0 == nx && m.1 == ny);
                            if order@.contains(m) {
                                let j = choose|j: int| 0 <= j < order@.len() && order@[j] == m;
                                assert(ix.dom().contains(order@[j]));
                            }
                        }
                    }
                }
                k = k + 1;
            }
            proof {
                assert forall|m: (i32, i32)|
                    #![trigger adjacent(order@[head as int], m)]
                    adjacent(order@[head as int], m) && self.step_ok(to, occupied@, nearest, m) implies ix.dom().contains(m)
                        && dist[ix[m]] <= dist[head as int] + 1 by {
                    assert(adjacent(cur, m));
                    assert(delta_rank(m.0 - cur.0, m.1 - cur.1) < 4);
                }
                self.lemma_bfs_advance(start, to, occupied@, nearest, order@, par@, dist, ix, head as int);
            }
            head = head + 1;
        }
        (order, par, None, Ghost(dist), Ghost(ix))
    }
}


// ── Walk lemmas ───────────────────────────────────────────────────────────────

/// A walk of `n` orthogonal steps ends at most `n` cells (Manhattan) from its start.
proof fn lemma_walk_manhattan(map: &LevelMap, to: (i32, i32), occ: Seq<(i32, i32)>, nearest: bool, start: (i32, i32), w: Seq<(i32, i32)>)
    requires
        map.is_walk(to, occ, nearest, start, w),
    ensures
        manhattan(start, walk_end(start, w)) <= w.len(),
    decreases w.len(),
{
    if w.len() > 0 {
        let v = w.drop_last();
        assert forall|i: int| 0 <= i < v.len() implies adjacent(walk_pos(start, v, i), #[trigger] v[i])
            && map.step_ok(to, occ, nearest, v[i]) by {
            assert(v[i] == w[i]);
            assert(walk_pos(start, v, i) == walk_pos(start, w, i));
        }
        lemma_walk_manhattan(map, to, occ, nearest, start, v);
        assert(adjacent(walk_pos(start, w, w.len() - 1), w[w.len() - 1]));
        assert(walk_pos(start, w, w.len() - 1) == walk_end(start, v));
    }
}

/// The cell one step from `a` toward `b`, moving along x first.
pub open spec fn step_toward(a: (i32, i32), b: (i32, i32)) -> (i32, i32) {
    if a.0 < b.0 {
        ((a.0 + 1) as i32, a.1)
    } else if a.0 > b.0 {
        ((a.0 - 1) as i32, a.1)
    } else if a.1 < b.1 {
        (a.0, (a.1 + 1) as i32)
    } else {
        (a.0, (a.1 - 1) as i32)
    }
}

/// The L-shaped walk from `a` to `b`: along x first, then along y.
pub open spec fn l_walk(a: (i32, i32), b: (i32, i32)) -> Seq<(i32, i32)>
    decreases manhattan(a, b),
{
    if a == b || manhattan(a, b) <= 0 {
        Seq::empty()
    } else {
        let n = step_toward(a, b);
        if manhattan(n, b) < manhattan(a, b) {
            seq![n] + l_walk(n, b)
        } else {
            Seq::empty()
        }
    }
}

/// Between two grid cells the L-shaped walk stays on the grid and takes exactly
/// their Manhattan distance in steps.
proof fn lemma_l_walk(map: &LevelMap, to: (i32, i32), occ: Seq<(i32, i32)>, a: (i32, i32), b: (i32, i32))
    requires
        map.in_grid(a.0 as int, a.1 as int),
        map.in_grid(b.0 as int, b.1 as int),
    ensures
        l_walk(a, b).len() == manhattan(a, b),
        map.is_walk(to, occ, true, a, l_walk(a, b)),
        walk_end(a, l_walk(a, b)) == b,
    decreases manhattan(a, b),
{
    if a != b {
        let n = step_toward(a, b);
        assert(manhattan(n, b) < manhattan(a, b));
        assert(map.in_grid(n.0 as int, n.1 as int));
        lemma_l_walk(map, to, occ, n, b);
        let rest = l_walk(n, b);
        let w = l_walk(a, b);
        assert(w == seq![n] + rest);
        assert forall|i: int| 0 <= i < w.len() implies adjacent(walk_pos(a, w, i), #[trigger] w[i])
            && map.step_ok(to, occ, true, w[i]) by {
            if i > 0 {
                assert(w[i] == rest[i - 1]);
                assert(walk_pos(a, w, i) == walk_pos(n, rest, i - 1));
            }
        }
        if rest.len() > 0 {
            assert(walk_end(a, w) == rest.last());
        }
    }
}

proof fn lemma_reverse_push<A>(r: Seq<A>, x: A)
    ensures
        r.push(x).reverse() == seq![x] + r.reverse(),
{
    assert(r.push(x).reverse() =~= seq![x] + r.reverse());
}

/// Clamp `v` into `[lo, hi]`.
pub open spec fn clamp_int(v: int, lo: int, hi: int) -> int {
    if v < lo {
        lo
    } else if v > hi {
        hi
    } else {
        v
    }
}

impl LevelMap {
    /// Where [`LevelMap::nearest_open_tile`] starts looking: `(x, y)` clamped onto the grid.
    pub open spec fn clamped_cell(&self, x: i32, y: i32) -> (i32, i32) {
        (
            clamp_int(x as int, 0, self.cols as i32 - 1) as i32,
            clamp_int(y as int, 0, self.rows as i32 - 1) as i32,
        )
    }

    /// The grid holds at least one passable tile.
    pub open spec fn has_passable_tile(&self) -> bool {
        exists|v: (i32, i32)| self.in_grid(v.0 as int, v.1 as int) && self.passable_at(v.0 as int, v.1 as int)
    }

    /// BFS pathfinding from `from` to `to`, avoiding non-passable tiles and `occupied` positions.
    /// Returns the path (excluding `from`, including `to`) or an empty vec if unreachable.
    /// The destination may itself be occupied (the mover ends its move there).
    pub fn bfs_path(&self, from: (i32, i32), to: (i32, i32), occupied: &Vec<(i32, i32)>) -> (path: Vec<(i32, i32)>)
        requires
            self.wf(),
            i32::MIN < from.0 < i32::MAX,
            i32::MIN < from.1 < i32::MAX,
        ensures
            from == to ==> path@.len() == 0,
            path@.len() > 0 ==> self.is_route(from, to, occupied@, path@),
            path@.len() > 0 ==> forall|q: Seq<(i32, i32)>| #[trigger]
                self.is_route(from, to, occupied@, q) ==> path@.len() <= q.len(),
            from != to && path@.len() == 0 ==> forall|q: Seq<(i32, i32)>| !#[trigger]
                self.is_route(from, to, occupied@, q),
    {
        if from.0 == to.0 && from.1 == to.1 {
            return Vec::new();
        }
        let (order, par, found, Ghost(dist), Ghost(ix)) = self.bfs_search(from, to, occupied, false);
        match found {
            None => {
                proof {
                    assert forall|q: Seq<(i32, i32)>| !#[trigger] self.is_route(from, to, occupied@, q) by {
                        if self.is_route(from, to, occupied@, q) {
                            self.lemma_bfs_exhausted(from, to, occupied@, false, order@, par@, dist, ix, q);
                        }
                    }
                }
                Vec::new()
            },
            Some(h) => {
                proof {
                    assert(h > 0);
                    assert(bfs_edge_ok(self, to, occupied@, false, order@, par@, dist, h as int));
                }
                let mut rev: Vec<(i32, i32)> = Vec::new();
                rev.push(order[h]);
                let mut idx = h;
                proof {
                    assert(bfs_chain(order@, par@, h as int) == bfs_chain(order@, par@, par@[h as int] as int).push(
                        order@[h as int],
                    ));
                    assert(rev@.reverse() =~= seq![order@[h as int]]);
                    assert(bfs_chain(order@, par@, h as int) =~= bfs_chain(order@, par@, par@[idx as int] as int)
                        + rev@.reverse());
                }
                while par[idx] != 0
                    invariant
                        0 < idx < order@.len(),
                        self.bfs_inv(from, to, occupied@, false, order@, par@, dist, ix, h as int),
                        bfs_chain(order@, par@, h as int) == bfs_chain(order@, par@, par@[idx as int] as int)
                            + rev@.reverse(),
                    decreases idx,
                {
                    let pi = par[idx];
                    proof {
                        assert(bfs_edge_ok(self, to, occupied@, false, order@, par@, dist, idx as int));
                        assert(bfs_edge_ok(self, to, occupied@, false, order@, par@, dist, pi as int));
                        assert(bfs_chain(order@, par@, pi as int) == bfs_chain(order@, par@, par@[pi as int] as int).push(
                            order@[pi as int],
                        ));
                        lemma_reverse_push(rev@, order@[pi as int]);
                    }
                    let ghost old_rev = rev@;
                    rev.push(order[pi]);
                    idx = pi;
                    proof {
                        assert(bfs_chain(order@, par@, h as int) =~= bfs_chain(order@, par@, par@[idx as int] as int)
                            + rev@.reverse());
                    }
                }
                proof {
                    assert(bfs_chain(order@, par@, 0) =~= Seq::<(i32, i32)>::empty());
                    assert(bfs_chain(order@, par@, h as int) =~= rev@.reverse());
                }
                let mut path: Vec<(i32, i32)> = Vec::new();
                let mut i = rev.len();
                while i > 0
                    invariant
                        i <= rev@.len(),
                        path@ == rev@.reverse().subrange(0, rev@.len() - i),
                    decreases i,
                {
                    i = i - 1;
                    path.push(rev[i]);
                    proof {
                        assert(path@ =~= rev@.reverse().subrange(0, rev@.len() - i));
                    }
                }
                proof {
                    assert(path@ =~= rev@.reverse());
                    self.lemma_bfs_chain(from, to, occupied@, false, order@, par@, dist, ix, h as int, h as int);
                    assert(path@.len() > 0);
                    assert(walk_end(from, path@) == path@.last());
                    assert forall|q: Seq<(i32, i32)>| #[trigger] self.is_route(from, to, occupied@, q) implies path@.len()
                        <= q.len() by {
                        assert(walk_end(from, q) == q.last());
                        self.lemma_bfs_found_shortest(from, to, occupied@, false, order@, par@, dist, ix, h as int, q);
                    }
                }
                path
            },
        }
    }

    /// Returns the nearest passable tile to `(x, y)` using BFS.
    ///
    /// `(x, y)` is first clamped onto the grid; if that tile is already passable it is
    /// returned as-is. The search expands outward until an open or door tile is found.
    /// Falls back to `(0, 0)` only if the entire map contains no passable tile.
    pub fn nearest_open_tile(&self, x: i32, y: i32) -> (r: (i32, i32))
        requires
            self.wf(),
            1 <= self.cols as i32,
            1 <= self.rows as i32,
        ensures
            self.passable_at(self.clamped_cell(x, y).0 as int, self.clamped_cell(x, y).1 as int)
                ==> r == self.clamped_cell(x, y),
            self.has_passable_tile() ==> self.in_grid(r.0 as int, r.1 as int) && self.passable_at(
                r.0 as int,
                r.1 as int,
            ),
            forall|v: (i32, i32)|
                self.in_grid(v.0 as int, v.1 as int) && self.passable_at(v.0 as int, v.1 as int)
                    ==> #[trigger] manhattan(self.clamped_cell(x, y), v) >= manhattan(self.clamped_cell(x, y), r),
            !self.has_passable_tile() ==> r == (0i32, 0i32),
    {
        let cols = self.cols as i32;
        let rows = self.rows as i32;
        let sx = if x < 0 {
            0
        } else if x > cols - 1 {
            cols - 1
        } else {
            x
        };
        let sy = if y < 0 {
            0
        } else if y > rows - 1 {
            rows - 1
        } else {
            y
        };
        let start = (sx, sy);
        assert(start == self.clamped_cell(x, y));
        if self.is_passable(sx, sy) {
            return start;
        }
        let no_occupied: Vec<(i32, i32)> = Vec::new();
        let (order, par, found, Ghost(dist), Ghost(ix)) = self.bfs_search(start, start, &no_occupied, true);
        match found {
            Some(h) => {
                let r = order[h];
                proof {
                    assert(h > 0);
                    assert(bfs_edge_ok(self, start, no_occupied@, true, order@, par@, dist, h as int));
                    self.lemma_bfs_chain(start, start, no_occupied@, true, order@, par@, dist, ix, h as int, h as int);
                    lemma_walk_manhattan(self, start, no_occupied@, true, start, bfs_chain(order@, par@, h as int));
                    assert forall|v: (i32, i32)|
                        self.in_grid(v.0 as int, v.1 as int) && self.passable_at(v.0 as int, v.1 as int) implies #[trigger] manhattan(
                            start,
                            v,
                        ) >= manhattan(start, r) by {
                        lemma_l_walk(self, start, no_occupied@, start, v);
                        self.lemma_bfs_found_shortest(
                            start,
                            start,
                            no_occupied@,
                            true,
                            order@,
                            par@,
                            dist,
                            ix,
                            h as int,
                            l_walk(start, v),
                        );
                    }
                }
                r
            },
            None => {
                proof {
                    assert forall|v: (i32, i32)|
                        !(self.in_grid(v.0 as int, v.1 as int) && self.passable_at(v.0 as int, v.1 as int)) by {
                        if self.in_grid(v.0 as int, v.1 as int) && self.passable_at(v.0 as int, v.1 as int) {
                            lemma_l_walk(self, start, no_occupied@, start, v);
                            self.lemma_bfs_exhausted(
                                start,
                                start,
                                no_occupied@,
                                true,
                                order@,
                                par@,
                                dist,
                                ix,
                                l_walk(start, v),
                            );
                        }
                    }
                }
                (0, 0)
            },
        }
    }
}

} // verus!
