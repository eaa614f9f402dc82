use vstd::prelude::*;

use crate::ability::{
    action_fits, alive, alive_c, apply_action, occupied_by_other, occupied_c, spec_apply_action, Ability, AbilityEffect, AbilityKind,
    Action, Battle, Combatant,
};
use crate::pending_effects::PendingEffect;
use crate::combat::{abs_of, is_side_queue, of_party, refresh_listed, refreshed, side_queue, Turn};
use crate::player_input::{chebyshev, cover_on, cover_rank, hostile, manhattan};
use crate::terrain::{spec_from_attack, CoverLevel, Direction, LevelMap};
use crate::turn::{spec_move_range_per_ap, MOVE_AP_COST};

verus! {

// ── Kinds of ability ──────────────────────────────────────────────────────────

/// Effects that deal direct damage.
pub open spec fn deals_damage(e: AbilityEffect) -> bool {
    e is BonusDamage || e is ArmorPiercing || e is ArmorPiercingStrike
}

/// Effects that can be turned on an enemy to impair it: damage or AP drain.
pub open spec fn impairs(e: AbilityEffect) -> bool {
    deals_damage(e) || e is DrainAP
}

/// Returns `true` if the ability effect deals direct damage.
pub fn is_damage_ability(effect: &AbilityEffect) -> (b: bool)
    ensures
        b == deals_damage(*effect),
{
    match effect {
        AbilityEffect::BonusDamage { .. } | AbilityEffect::ArmorPiercing { .. } | AbilityEffect::ArmorPiercingStrike {
            ..
        } => true,
        _ => false,
    }
}

/// Returns `true` for abilities that can be directed at an enemy to impair them
/// (damage dealing or AP disruption).
pub fn is_offensive_ability(effect: &AbilityEffect) -> (b: bool)
    ensures
        b == impairs(*effect),
{
    match effect {
        AbilityEffect::BonusDamage { .. } | AbilityEffect::ArmorPiercing { .. } | AbilityEffect::ArmorPiercingStrike {
            ..
        } | AbilityEffect::DrainAP { .. } => true,
        _ => false,
    }
}

/// The cheapest damaging melee or ranged ability among the first `n`, by AP cost.
pub open spec fn cheapest_attack(abilities: Seq<Ability>, n: int) -> Option<i32>
    decreases n,
{
    if n <= 0 {
        None
    } else {
        let prev = cheapest_attack(abilities, n - 1);
        let ab = abilities[n - 1];
        if (ab.kind == AbilityKind::Melee || ab.kind == AbilityKind::Ranged) && deals_damage(ab.effect) {
            match prev {
                Some(c) => Some(if ab.ap_cost < c { ab.ap_cost } else { c }),
                None => Some(ab.ap_cost),
            }
        } else {
            prev
        }
    }
}

/// The AP cost of the cheapest damaging melee or ranged ability in `abilities`,
/// 2 when there is none.
pub open spec fn spec_min_offensive_ap_cost(abilities: Seq<Ability>) -> i32 {
    match cheapest_attack(abilities, abilities.len() as int) {
        Some(c) => c,
        None => 2,
    }
}

/// Returns the minimum AP cost of any offensive (melee or ranged damage) ability
/// among the actor's abilities, or 2 if there is none.
pub fn min_offensive_ap_cost(abilities: &Vec<Ability>) -> (c: i32)
    ensures
        c == spec_min_offensive_ap_cost(abilities@),
{
    let mut best: Option<i32> = None;
    let mut i: usize = 0;
    while i < abilities.len()
        invariant
            i <= abilities@.len(),
            best == cheapest_attack(abilities@, i as int),
        decreases abilities@.len() - i,
    {
        let ab = &abilities[i];
        if (ab.kind == AbilityKind::Melee || ab.kind == AbilityKind::Ranged) && is_damage_ability(&ab.effect) {
            best = match best {
                Some(c) => Some(if ab.ap_cost < c { ab.ap_cost } else { c }),
                None => Some(ab.ap_cost),
            };
        }
        i = i + 1;
    }
    match best {
        Some(c) => c,
        None => 2,
    }
}

// ── Opponents ─────────────────────────────────────────────────────────────────

/// Whether `c` is a living, placed opponent of side `turn`.
pub open spec fn opponent(c: Combatant, turn: Turn) -> bool {
    let side = match turn {
        Turn::Player => hostile(c),
        Turn::Enemy => of_party(c),
    };
    side && alive(c) && c.pos is Some
}

fn opponent_c(c: &Combatant, turn: Turn) -> (b: bool)
    ensures
        b == opponent(*c, turn),
{
    let side = match turn {
        Turn::Player => crate::player_input::hostile_c(c),
        Turn::Enemy => match c.character {
            Some((k, _)) => k.is_player(),
            None => false,
        },
    };
    side && alive_c(c) && c.pos.is_some()
}

/// The first of the opponents of `turn` among the first `n` combatants nearest to
/// `from`.
pub open spec fn nearest_opponent(cs: Seq<Combatant>, turn: Turn, from: (i32, i32), n: int) -> Option<int>
    decreases n,
{
    if n <= 0 {
        None
    } else {
        let prev = nearest_opponent(cs, turn, from, n - 1);
        if opponent(cs[n - 1], turn) && match prev {
            Some(p) => manhattan(cs[n - 1].pos.unwrap(), from) < manhattan(cs[p].pos.unwrap(), from),
            None => true,
        } {
            Some(n - 1)
        } else {
            prev
        }
    }
}

/// The first of the opponents of `turn` among the first `n` that stand next to
/// `from` (diagonals included, not on it) and are nearest by steps.
pub open spec fn best_adjacent(cs: Seq<Combatant>, turn: Turn, from: (i32, i32), n: int) -> Option<int>
    decreases n,
{
    if n <= 0 {
        None
    } else {
        let prev = best_adjacent(cs, turn, from, n - 1);
        let c = cs[n - 1];
        if opponent(c, turn) && 0 < chebyshev(from, c.pos.unwrap()) <= 1 && match prev {
            Some(p) => manhattan(c.pos.unwrap(), from) < manhattan(cs[p].pos.unwrap(), from),
            None => true,
        } {
            Some(n - 1)
        } else {
            prev
        }
    }
}

proof fn lemma_nearest_opponent(cs: Seq<Combatant>, turn: Turn, from: (i32, i32), n: int)
    ensures
        match nearest_opponent(cs, turn, from, n) {
            Some(e) => 0 <= e < n && opponent(cs[e], turn),
            None => true,
        },
    decreases n,
{
    if n > 0 {
        lemma_nearest_opponent(cs, turn, from, n - 1);
    }
}

proof fn lemma_best_adjacent(cs: Seq<Combatant>, turn: Turn, from: (i32, i32), n: int)
    ensures
        match best_adjacent(cs, turn, from, n) {
            Some(e) => 0 <= e < n && opponent(cs[e], turn),
            None => true,
        },
    decreases n,
{
    if n > 0 {
        lemma_best_adjacent(cs, turn, from, n - 1);
    }
}

fn manhattan_c(p: (i32, i32), q: (i32, i32)) -> (d: i64)
    ensures
        d == manhattan(p, q),
{
    let dx: i64 = p.0 as i64 - q.0 as i64;
    let dy: i64 = p.1 as i64 - q.1 as i64;
    (if dx < 0 { -dx } else { dx }) + (if dy < 0 { -dy } else { dy })
}

fn chebyshev_c(p: (i32, i32), q: (i32, i32)) -> (d: i64)
    ensures
        d == chebyshev(p, q),
{
    let dx: i64 = p.0 as i64 - q.0 as i64;
    let dy: i64 = p.1 as i64 - q.1 as i64;
    let adx: i64 = if dx < 0 { -dx } else { dx };
    let ady: i64 = if dy < 0 { -dy } else { dy };
    if adx >= ady { adx } else { ady }
}

fn nearest_opponent_c(cs: &Vec<Combatant>, turn: Turn, from: (i32, i32), adjacent_only: bool) -> (r: Option<usize>)
    ensures
        adjacent_only ==> match r {
            Some(e) => best_adjacent(cs@, turn, from, cs@.len() as int) == Some(e as int),
            None => best_adjacent(cs@, turn, from, cs@.len() as int) is None,
        },
        !adjacent_only ==> match r {
            Some(e) => nearest_opponent(cs@, turn, from, cs@.len() as int) == Some(e as int),
            None => nearest_opponent(cs@, turn, from, cs@.len() as int) is None,
        },
{
    let mut best: Option<usize> = None;
    let mut best_d: i64 = 0;
    let mut i: usize = 0;
    while i < cs.len()
        invariant
            i <= cs@.len(),
            match best {
                Some(e) => {
                    &&& (if adjacent_only { best_adjacent(cs@, turn, from, i as int) } else { nearest_opponent(cs@, turn, from, i as int) }) == Some(e as int)
                    &&& e < i
                    &&& cs@[e as int].pos is Some
                    &&& best_d == manhattan(cs@[e as int].pos.unwrap(), from)
                },
                None => (if adjacent_only { best_adjacent(cs@, turn, from, i as int) } else { nearest_opponent(cs@, turn, from, i as int) }) is None,
            },
        decreases cs@.len() - i,
    {
        let c = &cs[i];
        if opponent_c(c, turn) {
            let p = match c.pos {
                Some(p) => p,
                None => (0, 0),
            };
            let near = if adjacent_only {
                let ch = chebyshev_c(from, p);
                0 < ch && ch <= 1
            } else {
                true
            };
            if near {
                let d = manhattan_c(p, from);
                let take = match best {
                    Some(_) => d < best_d,
                    None => true,
                };
                if take {
                    best = Some(i);
                    best_d = d;
                }
            }
        }
        i = i + 1;
    }
    best
}

// ── Attacking ─────────────────────────────────────────────────────────────────

/// The first of the first `n` abilities of kind `kind` that impairs and costs at most `ap`.
pub open spec fn first_usable(abilities: Seq<Ability>, ap: int, kind: AbilityKind, n: int) -> Option<int>
    decreases n,
{
    if n <= 0 {
        None
    } else {
        match first_usable(abilities, ap, kind, n - 1) {
            Some(j) => Some(j),
            None => {
                let ab = abilities[n - 1];
                if ab.kind == kind && ab.ap_cost <= ap && impairs(ab.effect) {
                    Some(n - 1)
                } else {
                    None
                }
            },
        }
    }
}

/// The offensive action of combatant `a` on side `turn` with `ap` action points and
/// the abilities `abilities` its kind has at its level: the first affordable ranged
/// impairing ability on `ranged_target` (the target with the best expected damage),
/// else the first affordable melee one on the nearest adjacent opponent, else none.
/// Only characters on the board attack.
pub open spec fn spec_offensive_action(
    cs: Seq<Combatant>,
    a: int,
    turn: Turn,
    ap: int,
    abilities: Seq<Ability>,
    ranged_target: Option<usize>,
) -> Option<Action> {
    if cs[a].character is None || cs[a].pos is None {
        None
    } else {
        let n = abilities.len() as int;
        match (first_usable(abilities, ap, AbilityKind::Ranged, n), ranged_target) {
            (Some(j), Some(t)) => Some(Action::UseAbility { ability: abilities[j], target: Some(t) }),
            _ => match (first_usable(abilities, ap, AbilityKind::Melee, n), best_adjacent(cs, turn, cs[a].pos.unwrap(), cs.len() as int)) {
                (Some(j), Some(t)) => Some(Action::UseAbility { ability: abilities[j], target: Some(t as usize) }),
                _ => None,
            },
        }
    }
}

fn first_usable_c(abilities: &Vec<Ability>, ap: i32, kind: AbilityKind) -> (r: Option<usize>)
    ensures
        match r {
            Some(j) => first_usable(abilities@, ap as int, kind, abilities@.len() as int) == Some(j as int) && j < abilities@.len(),
            None => first_usable(abilities@, ap as int, kind, abilities@.len() as int) is None,
        },
{
    let mut i: usize = 0;
    while i < abilities.len()
        invariant
            i <= abilities@.len(),
            first_usable(abilities@, ap as int, kind, i as int) is None,
        decreases abilities@.len() - i,
    {
        let ab = &abilities[i];
        if ab.kind == kind && ab.ap_cost <= ap && is_offensive_ability(&ab.effect) {
            proof {
                assert(first_usable(abilities@, ap as int, kind, i + 1) == Some(i as int));
                lemma_first_usable_stays(abilities@, ap as int, kind, i + 1, abilities@.len() as int);
            }
            return Some(i);
        }
        i = i + 1;
    }
    None
}

proof fn lemma_first_usable_stays(abilities: Seq<Ability>, ap: int, kind: AbilityKind, m: int, n: int)
    requires
        0 <= m <= n,
        first_usable(abilities, ap, kind, m) is Some,
    ensures
        first_usable(abilities, ap, kind, n) == first_usable(abilities, ap, kind, m),
    decreases n - m,
{
    if m < n {
        lemma_first_usable_stays(abilities, ap, kind, m, n - 1);
    }
}

/// Chooses an offensive ability and target for the actor: ranged abilities first
/// (on `ranged_target`, chosen by expected damage), then melee on an adjacent target.
pub fn choose_offensive_ability_action(
    battle: &Battle,
    actor: usize,
    turn: Turn,
    ap: i32,
    abilities: &Vec<Ability>,
    ranged_target: Option<usize>,
) -> (r: Option<Action>)
    requires
        actor < battle.combatants@.len(),
    ensures
        r == spec_offensive_action(battle.combatants@, actor as int, turn, ap as int, abilities@, ranged_target),
{
    let me = &battle.combatants[actor];
    if me.character.is_none() {
        return None;
    }
    let from = match me.pos {
        Some(p) => p,
        None => return None,
    };
    match (first_usable_c(abilities, ap, AbilityKind::Ranged), ranged_target) {
        (Some(j), Some(t)) => {
            return Some(Action::UseAbility { ability: abilities[j], target: Some(t) });
        },
        _ => {},
    }
    match (first_usable_c(abilities, ap, AbilityKind::Melee), nearest_opponent_c(&battle.combatants, turn, from, true)) {
        (Some(j), Some(t)) => Some(Action::UseAbility { ability: abilities[j], target: Some(t) }),
        _ => None,
    }
}


// ── Seeking cover ─────────────────────────────────────────────────────────────

/// The AP cost of walking `d` tiles at `range` tiles per AP.
pub open spec fn walk_cost(d: int, range: int) -> int {
    MOVE_AP_COST * ((d + range - 1) / range)
}

/// The situation a cover search runs in: the roster, who searches, the map, where
/// the searcher stands, its AP and tiles per AP, the attack direction and its cover.
pub struct CoverSearch {
    pub cs: Seq<Combatant>,
    pub actor: int,
    pub map: LevelMap,
    pub from: (i32, i32),
    pub ap: int,
    pub range: int,
    pub dir: Direction,
    pub current: CoverLevel,
}

/// Whether `(x, y)` is a tile the searcher can move to within `budget` AP for better
/// cover: within `ap` tiles along each axis, on the map, passable, free of other
/// living combatants, and covered better than where it stands.
pub open spec fn seek_candidate(s: CoverSearch, budget: int, x: int, y: int) -> bool {
    let d = abs_of(x - s.from.0) + abs_of(y - s.from.1);
    &&& abs_of(x - s.from.0) <= s.ap
    &&& abs_of(y - s.from.1) <= s.ap
    &&& d != 0
    &&& walk_cost(d, s.range) <= s.ap
    &&& walk_cost(d, s.range) <= budget
    &&& 0 <= x < s.map.cols
    &&& 0 <= y < s.map.rows
    &&& s.map.passable_at(x, y)
    &&& !occupied_by_other(s.cs, s.actor, x, y)
    &&& cover_rank(s.map.stored_cover(x as i32, y as i32, s.dir)) > cover_rank(s.current)
}

/// `(x1, y1)` is preferred to `(x2, y2)`: better cover, or as good and cheaper, or
/// as cheap and earlier in row-major order.
pub open spec fn seek_preferred(s: CoverSearch, x1: int, y1: int, x2: int, y2: int) -> bool {
    let r1 = cover_rank(s.map.stored_cover(x1 as i32, y1 as i32, s.dir));
    let r2 = cover_rank(s.map.stored_cover(x2 as i32, y2 as i32, s.dir));
    let c1 = walk_cost(abs_of(x1 - s.from.0) + abs_of(y1 - s.from.1), s.range);
    let c2 = walk_cost(abs_of(x2 - s.from.0) + abs_of(y2 - s.from.1), s.range);
    r1 > r2 || (r1 == r2 && (c1 < c2 || (c1 == c2 && (y1 < y2 || (y1 == y2 && x1 < x2)))))
}

/// `(x, y)` is the preferred tile among those within `budget`.
pub open spec fn best_seek(s: CoverSearch, budget: int, x: int, y: int) -> bool {
    &&& seek_candidate(s, budget, x, y)
    &&& forall|x2: int, y2: int|
        #![trigger seek_candidate(s, budget, x2, y2)]
        seek_candidate(s, budget, x2, y2) && (x2 != x || y2 != y) ==> seek_preferred(s, x, y, x2, y2)
}

/// The preferred tile within `budget`, if any.
pub open spec fn seek_target(s: CoverSearch, budget: int) -> Option<(i32, i32)> {
    if exists|x: int, y: int| best_seek(s, budget, x, y) {
        let (x, y) = choose|x: int, y: int| best_seek(s, budget, x, y);
        Some((x as i32, y as i32))
    } else {
        None
    }
}

proof fn lemma_best_seek_unique(s: CoverSearch, budget: int, x1: int, y1: int, x2: int, y2: int)
    requires
        best_seek(s, budget, x1, y1),
        best_seek(s, budget, x2, y2),
    ensures
        x1 == x2 && y1 == y2,
{
    if x1 != x2 || y1 != y2 {
        assert(seek_candidate(s, budget, x2, y2));
        assert(seek_candidate(s, budget, x1, y1));
        assert(seek_preferred(s, x1, y1, x2, y2));
        assert(seek_preferred(s, x2, y2, x1, y1));
    }
}

/// The move combatant `a` of side `turn` makes toward better cover with `ap` action
/// points, keeping `min_attack_cost` AP for an attack when it can: against the
/// nearest opponent, the preferred tile (best cover, then cheapest, then row-major)
/// reachable within `ap - min_attack_cost` when that is positive and such a tile
/// exists, else the preferred tile within all its AP; none when it stands in full
/// cover already, has no AP, no place or no opponent.
pub open spec fn spec_seek_cover(cs: Seq<Combatant>, map: Option<LevelMap>, a: int, turn: Turn, ap: int, min_attack_cost: int) -> Option<Action> {
    if ap == 0 || cs[a].pos is None {
        None
    } else {
        let from = cs[a].pos.unwrap();
        match nearest_opponent(cs, turn, from, cs.len() as int) {
            None => None,
            Some(e) => {
                let dir = spec_from_attack(cs[e].pos.unwrap(), from);
                let current = cover_on(map, from.0, from.1, dir);
                if current == CoverLevel::Full {
                    None
                } else {
                    match map {
                        None => None,
                        Some(m) => {
                            let speed = match cs[a].stats {
                                Some(st) => st.speed,
                                None => 8,
                            };
                            let s = CoverSearch { cs, actor: a, map: m, from, ap, range: spec_move_range_per_ap(speed), dir, current };
                            let budget = ap - min_attack_cost;
                            let pick = if budget > 0 && seek_target(s, budget) is Some {
                                seek_target(s, budget)
                            } else {
                                seek_target(s, ap)
                            };
                            match pick {
                                Some(p) => Some(Action::Move { destination: p }),
                                None => None,
                            }
                        },
                    }
                }
            },
        }
    }
}

/// The preferred tile within `budget`, scanning rows then columns within reach.
#[verifier::spinoff_prover]
#[verifier::rlimit(40)]
fn best_seek_c(
    cs: &Vec<Combatant>,
    actor: usize,
    m: &LevelMap,
    from: (i32, i32),
    ap: i32,
    range: i32,
    dir: Direction,
    current: CoverLevel,
    budget: i32,
    Ghost(s): Ghost<CoverSearch>,
) -> (r: Option<(i32, i32)>)
    requires
        m.wf(),
        m.cols <= i32::MAX,
        m.rows <= i32::MAX,
        range >= 1,
        s == (CoverSearch { cs: cs@, actor: actor as int, map: *m, from, ap: ap as int, range: range as int, dir, current }),
    ensures
        r == seek_target(s, budget as int),
{
    if ap < 1 {
        proof {
            assert forall|x: int, y: int| !#[trigger] seek_candidate(s, budget as int, x, y) by {}
        }
        return None;
    }
    let cols: i64 = m.cols as i64;
    let rows: i64 = m.rows as i64;
    let fx: i64 = from.0 as i64;
    let fy: i64 = from.1 as i64;
    let r: i64 = ap as i64;
    let rg: i64 = range as i64;
    let mut best: Option<(i32, i32, u8, i64)> = None;
    let mut dy: i64 = -r;
    while dy <= r
        invariant
            1 <= r <= i32::MAX,
            r == ap,
            rg == range,
            range >= 1,
            -r <= dy <= r + 1,
            cols == m.cols,
            rows == m.rows,
            fx == from.0,
            fy == from.1,
            m.wf(),
            m.cols <= i32::MAX,
            m.rows <= i32::MAX,
            s == (CoverSearch { cs: cs@, actor: actor as int, map: *m, from, ap: ap as int, range: range as int, dir, current }),
            match best {
                Some((bx, by, br, bc)) => {
                    &&& seek_candidate(s, budget as int, bx as int, by as int)
                    &&& br == cover_rank(m.stored_cover(bx, by, dir))
                    &&& bc == walk_cost(abs_of(bx - fx) + abs_of(by - fy), range as int)
                    &&& by - fy < dy
                    &&& forall|x2: int, y2: int|
                        #![trigger seek_candidate(s, budget as int, x2, y2)]
                        seek_candidate(s, budget as int, x2, y2) && y2 - fy < dy && (x2 != bx || y2 != by) ==> seek_preferred(
                            s,
                            bx as int,
                            by as int,
                            x2,
                            y2,
                        )
                },
                None => forall|x2: int, y2: int|
                    #![trigger seek_candidate(s, budget as int, x2, y2)]
                    seek_candidate(s, budget as int, x2, y2) ==> y2 - fy >= dy,
            },
        decreases r + 1 - dy,
    {
        let mut dx: i64 = -r;
        while dx <= r
            invariant
                1 <= r <= i32::MAX,
                r == ap,
                rg == range,
                range >= 1,
                -r <= dy <= r,
                -r <= dx <= r + 1,
                cols == m.cols,
                rows == m.rows,
                fx == from.0,
                fy == from.1,
                m.wf(),
                m.cols <= i32::MAX,
                m.rows <= i32::MAX,
                s == (CoverSearch { cs: cs@, actor: actor as int, map: *m, from, ap: ap as int, range: range as int, dir, current }),
                match best {
                    Some((bx, by, br, bc)) => {
                        &&& seek_candidate(s, budget as int, bx as int, by as int)
                        &&& br == cover_rank(m.stored_cover(bx, by, dir))
                        &&& bc == walk_cost(abs_of(bx - fx) + abs_of(by - fy), range as int)
                        &&& (by - fy < dy || (by - fy == dy && bx - fx < dx))
                        &&& forall|x2: int, y2: int|
                            #![trigger seek_candidate(s, budget as int, x2, y2)]
                            seek_candidate(s, budget as int, x2, y2) && (y2 - fy < dy || (y2 - fy == dy && x2 - fx < dx))
                                && (x2 != bx || y2 != by) ==> seek_preferred(s, bx as int, by as int, x2, y2)
                    },
                    None => forall|x2: int, y2: int|
                        #![trigger seek_candidate(s, budget as int, x2, y2)]
                        seek_candidate(s, budget as int, x2, y2) ==> (y2 - fy > dy || (y2 - fy == dy && x2 - fx >= dx)),
                },
            decreases r + 1 - dx,
        {
            let tx: i64 = fx + dx;
            let ty: i64 = fy + dy;
            let adx: i64 = if dx < 0 { -dx } else { dx };
            let ady: i64 = if dy < 0 { -dy } else { dy };
            let d: i64 = adx + ady;
            let ghost gx: int = tx as int;
            let ghost gy: int = ty as int;
            let cost: i64 = (MOVE_AP_COST as i64) * ((d + rg - 1) / rg);
            proof {
                assert(cost == walk_cost(abs_of(gx - from.0) + abs_of(gy - from.1), range as int));
            }
            let mut is_candidate = false;
            let mut rank: u8 = 0;
            if d != 0 && cost <= r && cost <= budget as i64 && 0 <= tx && tx < cols && 0 <= ty && ty < rows {
                if m.is_passable(tx as i32, ty as i32) && !occupied_c(cs, actor, tx as i32, ty as i32) {
                    let cov = m.get_cover(tx as i32, ty as i32, dir);
                    rank = crate::player_input::rank_c(cov);
                    if rank > crate::player_input::rank_c(current) {
                        is_candidate = true;
                    }
                }
            }
            proof {
                assert(is_candidate == seek_candidate(s, budget as int, gx, gy));
            }
            if is_candidate {
                let better = match best {
                    Some((_, _, br, bc)) => rank > br || (rank == br && cost < bc),
                    None => true,
                };
                if better {
                    best = Some((tx as i32, ty as i32, rank, cost));
                }
            }
            dx = dx + 1;
        }
        dy = dy + 1;
    }
    proof {
        assert forall|x2: int, y2: int| seek_candidate(s, budget as int, x2, y2) implies y2 - fy < dy by {}
    }
    match best {
        Some((bx, by, _, _)) => {
            proof {
                assert(best_seek(s, budget as int, bx as int, by as int));
                let (cx, cy) = choose|cx: int, cy: int| best_seek(s, budget as int, cx, cy);
                lemma_best_seek_unique(s, budget as int, bx as int, by as int, cx, cy);
            }
            Some((bx, by))
        },
        None => {
            proof {
                assert(!exists|x: int, y: int| best_seek(s, budget as int, x, y));
            }
            None
        },
    }
}


/// Every offset from combatant `a` to another placed combatant fits in `i32`.
pub open spec fn offsets_fit(cs: Seq<Combatant>, a: int) -> bool {
    cs[a].pos is Some ==> forall|i: int|
        0 <= i < cs.len() && (#[trigger] cs[i]).pos is Some ==> {
            let p = cs[a].pos.unwrap();
            let q = cs[i].pos.unwrap();
            &&& -i32::MAX <= p.0 - q.0 <= i32::MAX
            &&& -i32::MAX <= p.1 - q.1 <= i32::MAX
        }
}

/// Returns a `Move` toward the best cover tile, or `None` (see `spec_seek_cover`).
pub fn seek_cover_action(battle: &Battle, actor: usize, turn: Turn, ap: i32, min_attack_cost: i32) -> (r: Option<Action>)
    requires
        battle.wf(),
        actor < battle.combatants@.len(),
        offsets_fit(battle.combatants@, actor as int),
        i32::MIN <= ap - min_attack_cost <= i32::MAX,
        match battle.map {
            Some(m) => m.cols <= i32::MAX && m.rows <= i32::MAX,
            None => true,
        },
    ensures
        r == spec_seek_cover(battle.combatants@, battle.map, actor as int, turn, ap as int, min_attack_cost as int),
{
    let ghost cs = battle.combatants@;
    if ap == 0 {
        return None;
    }
    let me = &battle.combatants[actor];
    let from = match me.pos {
        Some(p) => p,
        None => return None,
    };
    let e = match nearest_opponent_c(&battle.combatants, turn, from, false) {
        Some(e) => e,
        None => return None,
    };
    proof {
        lemma_nearest_opponent(cs, turn, from, cs.len() as int);
        assert(cs[e as int].pos is Some);
    }
    let epos = match battle.combatants[e].pos {
        Some(p) => p,
        None => (0, 0),
    };
    let dir = Direction::from_attack(epos, from);
    let current = crate::player_input::cover_on_c(&battle.map, from.0, from.1, dir);
    if current == CoverLevel::Full {
        return None;
    }
    let m = match &battle.map {
        Some(m) => m,
        None => return None,
    };
    let speed = match me.stats {
        Some(st) => st.speed,
        None => 8,
    };
    let range = crate::turn::move_range_per_ap(speed);
    let ghost s = CoverSearch {
        cs,
        actor: actor as int,
        map: *m,
        from,
        ap: ap as int,
        range: range as int,
        dir,
        current,
    };
    let budget = ap - min_attack_cost;
    if budget > 0 {
        match best_seek_c(&battle.combatants, actor, m, from, ap, range, dir, current, budget, Ghost(s)) {
            Some(p) => {
                return Some(Action::Move { destination: p });
            },
            None => {},
        }
    }
    match best_seek_c(&battle.combatants, actor, m, from, ap, range, dir, current, ap, Ghost(s)) {
        Some(p) => Some(Action::Move { destination: p }),
        None => None,
    }
}

// ── Scripted first actions ────────────────────────────────────────────────────

/// The first of the first `n` abilities named `name`.
pub open spec fn find_named(abilities: Seq<Ability>, name: Seq<char>, n: int) -> Option<int>
    decreases n,
{
    if n <= 0 {
        None
    } else {
        match find_named(abilities, name, n - 1) {
            Some(j) => Some(j),
            None => if abilities[n - 1].name@ == name {
                Some(n - 1)
            } else {
                None
            },
        }
    }
}

/// The scripted opening action of combatant `a`, if it has one not yet taken: its
/// named ability (looked up in `abilities`) on the nearest adjacent opponent for a
/// melee ability, on `ranged_target` for a ranged one, untargeted otherwise. None
/// while a melee or ranged ability has no target, so the opening waits.
pub open spec fn spec_scripted_action(
    cs: Seq<Combatant>,
    a: int,
    turn: Turn,
    abilities: Seq<Ability>,
    ranged_target: Option<usize>,
) -> Option<Action> {
    match cs[a].first_action {
        None => None,
        Some(sfa) => if sfa.executed || cs[a].character is None || cs[a].pos is None {
            None
        } else {
            match find_named(abilities, sfa.ability_name@, abilities.len() as int) {
                None => None,
                Some(j) => {
                    let ab = abilities[j];
                    let target = match ab.kind {
                        AbilityKind::Melee => match best_adjacent(cs, turn, cs[a].pos.unwrap(), cs.len() as int) {
                            Some(t) => Some(t as usize),
                            None => None,
                        },
                        AbilityKind::Ranged => ranged_target,
                        _ => None,
                    };
                    if (ab.kind == AbilityKind::Melee || ab.kind == AbilityKind::Ranged) && target is None {
                        None
                    } else {
                        Some(Action::UseAbility { ability: ab, target })
                    }
                },
            }
        },
    }
}

/// The roster after combatant `a` takes its scripted opening: marked as taken.
pub open spec fn mark_opened(cs: Seq<Combatant>, a: int) -> Seq<Combatant> {
    match cs[a].first_action {
        Some(sfa) => cs.update(
            a,
            Combatant {
                first_action: Some(crate::scripted_encounter::ScriptedFirstAction { ability_name: sfa.ability_name, executed: true }),
                ..cs[a]
            },
        ),
        None => cs,
    }
}

fn find_named_c(abilities: &Vec<Ability>, name: &'static str) -> (r: Option<usize>)
    ensures
        match r {
            Some(j) => find_named(abilities@, name@, abilities@.len() as int) == Some(j as int) && j < abilities@.len(),
            None => find_named(abilities@, name@, abilities@.len() as int) is None,
        },
{
    let want = crate::text::chars_of(name);
    let mut i: usize = 0;
    while i < abilities.len()
        invariant
            i <= abilities@.len(),
            want@ == name@,
            find_named(abilities@, name@, i as int) is None,
        decreases abilities@.len() - i,
    {
        let have = crate::text::chars_of(abilities[i].name);
        if crate::text::chars_eq(&have, &want) {
            proof {
                assert(find_named(abilities@, name@, i + 1) == Some(i as int));
                lemma_find_named_stays(abilities@, name@, i + 1, abilities@.len() as int);
            }
            return Some(i);
        }
        i = i + 1;
    }
    None
}

proof fn lemma_find_named_stays(abilities: Seq<Ability>, name: Seq<char>, m: int, n: int)
    requires
        0 <= m <= n,
        find_named(abilities, name, m) is Some,
    ensures
        find_named(abilities, name, n) == find_named(abilities, name, m),
    decreases n - m,
{
    if m < n {
        lemma_find_named_stays(abilities, name, m, n - 1);
    }
}

/// If the actor has a scripted opening not yet taken, use that ability and mark it
/// taken (see `spec_scripted_action`); otherwise leave the battle as it is.
pub fn choose_scripted_action(
    battle: &mut Battle,
    actor: usize,
    turn: Turn,
    abilities: &Vec<Ability>,
    ranged_target: Option<usize>,
) -> (r: Option<Action>)
    requires
        actor < old(battle).combatants@.len(),
    ensures
        r == spec_scripted_action(old(battle).combatants@, actor as int, turn, abilities@, ranged_target),
        final(battle).combatants@ == (if r is Some {
            mark_opened(old(battle).combatants@, actor as int)
        } else {
            old(battle).combatants@
        }),
        final(battle).pending@ == old(battle).pending@,
        final(battle).map == old(battle).map,
{
    let me = battle.combatants[actor];
    let sfa = match me.first_action {
        Some(f) => f,
        None => return None,
    };
    if sfa.executed || me.character.is_none() {
        return None;
    }
    let from = match me.pos {
        Some(p) => p,
        None => return None,
    };
    let j = match find_named_c(abilities, sfa.ability_name) {
        Some(j) => j,
        None => return None,
    };
    let ab = abilities[j];
    let target = match ab.kind {
        AbilityKind::Melee => nearest_opponent_c(&battle.combatants, turn, from, true),
        AbilityKind::Ranged => ranged_target,
        _ => None,
    };
    if (ab.kind == AbilityKind::Melee || ab.kind == AbilityKind::Ranged) && target.is_none() {
        return None;
    }
    let marked = Combatant {
        first_action: Some(crate::scripted_encounter::ScriptedFirstAction { ability_name: sfa.ability_name, executed: true }),
        ..me
    };
    battle.combatants.set(actor, marked);
    Some(Action::UseAbility { ability: ab, target })
}

/// What combatant `a` of side `turn` does next: pass with no AP left; otherwise its
/// scripted opening if it has one due, else seek cover (keeping AP for its cheapest
/// attack), else attack, else pass. `abilities` are the abilities its kind has at
/// its level (the cheapest attack is read from them too) and `ranged_target` the
/// target with the best expected damage. None for a combatant without action points.
pub open spec fn spec_choose_action(
    cs: Seq<Combatant>,
    map: Option<LevelMap>,
    a: int,
    turn: Turn,
    abilities: Seq<Ability>,
    ranged_target: Option<usize>,
) -> Option<Action> {
    match cs[a].ap {
        None => None,
        Some(p) => if p.current == 0 {
            Some(Action::Pass)
        } else {
            let ap = p.current as int;
            match spec_scripted_action(cs, a, turn, abilities, ranged_target) {
                Some(act) => Some(act),
                None => match spec_seek_cover(cs, map, a, turn, ap, spec_min_offensive_ap_cost(abilities) as int) {
                    Some(mv) => Some(mv),
                    None => match spec_offensive_action(cs, a, turn, ap, abilities, ranged_target) {
                        Some(act) => Some(act),
                        None => Some(Action::Pass),
                    },
                },
            }
        },
    }
}

/// AI entry point: take a scripted opening if one is due, else seek cover, then
/// choose an ability by normal tactics, else pass. Only a scripted opening changes
/// the battle (it is marked as taken).
pub fn choose_action(
    battle: &mut Battle,
    actor: usize,
    turn: Turn,
    abilities: &Vec<Ability>,
    ranged_target: Option<usize>,
) -> (r: Option<Action>)
    requires
        old(battle).wf(),
        actor < old(battle).combatants@.len(),
        offsets_fit(old(battle).combatants@, actor as int),
        match old(battle).combatants@[actor as int].ap {
            Some(p) => i32::MIN <= p.current - spec_min_offensive_ap_cost(abilities@) <= i32::MAX,
            None => true,
        },
        match old(battle).map {
            Some(m) => m.cols <= i32::MAX && m.rows <= i32::MAX,
            None => true,
        },
    ensures
        r == spec_choose_action(old(battle).combatants@, old(battle).map, actor as int, turn, abilities@, ranged_target),
        final(battle).combatants@ == (if r is Some && old(battle).combatants@[actor as int].ap.unwrap().current != 0
            && spec_scripted_action(old(battle).combatants@, actor as int, turn, abilities@, ranged_target) is Some {
            mark_opened(old(battle).combatants@, actor as int)
        } else {
            old(battle).combatants@
        }),
        final(battle).pending@ == old(battle).pending@,
        final(battle).map == old(battle).map,
{
    let ap = match battle.combatants[actor].ap {
        Some(p) => p.current,
        None => return None,
    };
    if ap == 0 {
        return Some(Action::Pass);
    }
    match choose_scripted_action(battle, actor, turn, abilities, ranged_target) {
        Some(act) => {
            return Some(act);
        },
        None => {},
    }
    let min_cost = min_offensive_ap_cost(abilities);
    match seek_cover_action(battle, actor, turn, ap, min_cost) {
        Some(mv) => {
            return Some(mv);
        },
        None => {},
    }
    match choose_offensive_ability_action(battle, actor, turn, ap, abilities, ranged_target) {
        Some(act) => Some(act),
        None => Some(Action::Pass),
    }
}

// ── A side's turn ─────────────────────────────────────────────────────────────

/// A side taking its turn under the AI: who is still to act, front first, and the
/// action the front combatant has chosen and waits to roll for, if any.
pub struct SideTurn {
    pub turn: Turn,
    pub round: u32,
    /// Roster positions of the combatants still to act, front first.
    pub queue: Vec<usize>,
    /// The action the front combatant chose, awaiting its hit roll.
    pub awaiting: Option<Action>,
}

/// What the front end hands the side's turn: the target with the best expected
/// damage for the front combatant (asked before it decides), or the hit roll of the
/// action it chose.
#[derive(Debug, Clone, Copy)]
pub enum SideInput {
    Target(Option<usize>),
    Hit(bool),
}

/// What the side's turn needs next.
#[derive(Debug, Clone, Copy, PartialEq, Eq, Structural)]
pub enum SideRequest {
    /// The best expected-damage target for combatant `actor`.
    Target { actor: usize },
    /// The hit roll for `actor`'s chosen action on `target`.
    Roll { actor: usize, target: Option<usize> },
    /// Everyone on the side has acted.
    Done,
}

/// The target an action is aimed at, if any.
pub open spec fn target_of(a: Action) -> Option<usize> {
    match a {
        Action::UseAbility { target, .. } => target,
        _ => None,
    }
}

/// What the side's turn asks for with queue `q` and nothing awaiting a roll.
pub open spec fn next_request(q: Seq<usize>) -> SideRequest {
    if q.len() == 0 {
        SideRequest::Done
    } else {
        SideRequest::Target { actor: q[0] }
    }
}

/// Every combatant on the roster `cs` is within the limits the AI and the rules
/// compute in, for each ability of `abilities` and each hit roll.
pub open spec fn side_fits(cs: Seq<Combatant>, map: Option<LevelMap>, a: int, abilities: Seq<Ability>, act: Option<Action>, round: u32) -> bool {
    &&& offsets_fit(cs, a)
    &&& match cs[a].ap {
        Some(p) => i32::MIN <= p.current - spec_min_offensive_ap_cost(abilities) <= i32::MAX,
        None => true,
    }
    &&& match act {
        Some(x) => action_fits(cs, map, a, x, true, round) && action_fits(cs, map, a, x, false, round),
        None => true,
    }
}

/// One step of a side's turn from `s` on roster `cs` with input `input`, giving the
/// turn `t`, the roster `cs2` and pending effects `pending2`, and the request `out`.
/// The front combatant, given a target, decides: on a pass (or no decision) it is
/// done and leaves the queue; otherwise its action awaits a roll. Given the roll,
/// the action is carried out; if it was refused (nothing spent) the combatant is
/// done. Any other input changes nothing.
pub open spec fn spec_side_step(
    s: SideTurn,
    cs: Seq<Combatant>,
    pending: Seq<PendingEffect>,
    map: Option<LevelMap>,
    abilities: Seq<Ability>,
    input: SideInput,
    t: SideTurn,
    cs2: Seq<Combatant>,
    pending2: Seq<PendingEffect>,
    out: SideRequest,
) -> bool {
    let q = s.queue@;
    &&& t.turn == s.turn
    &&& t.round == s.round
    &&& if q.len() == 0 {
        t.queue@ == q && t.awaiting == s.awaiting && cs2 == cs && pending2 == pending && out == SideRequest::Done
    } else {
        let a = q[0] as int;
        match (s.awaiting, input) {
            (Some(act), SideInput::Hit(h)) => {
                let o = spec_apply_action(cs, pending, map, a, act, h, s.round);
                &&& cs2 == o.cs
                &&& pending2 == o.pending
                &&& t.awaiting is None
                &&& t.queue@ == (if o.action is None { q.drop_first() } else { q })
                &&& out == next_request(t.queue@)
            },
            (None, SideInput::Target(tg)) => {
                let r = spec_choose_action(cs, map, a, s.turn, abilities, tg);
                &&& pending2 == pending
                &&& cs2 == (if r is Some && cs[a].ap.unwrap().current != 0 && spec_scripted_action(cs, a, s.turn, abilities, tg) is Some {
                    mark_opened(cs, a)
                } else {
                    cs
                })
                &&& match r {
                    Some(Action::Pass) | None => t.awaiting is None && t.queue@ == q.drop_first() && out == next_request(q.drop_first()),
                    Some(act) => t.awaiting == Some(act) && t.queue@ == q && out == SideRequest::Roll { actor: q[0], target: target_of(act) },
                }
            },
            _ => {
                &&& t.queue@ == q
                &&& t.awaiting == s.awaiting
                &&& cs2 == cs
                &&& pending2 == pending
                &&& out == match s.awaiting {
                    Some(act) => SideRequest::Roll { actor: q[0], target: target_of(act) },
                    None => next_request(q),
                }
            },
        }
    }
}

impl SideTurn {
    /// Open side `turn`'s turn in round `round`: its acting combatants queue up,
    /// fastest first, with their action points refilled.
    pub fn open(battle: &mut Battle, turn: Turn, round: u32) -> (s: SideTurn)
        ensures
            s.turn == turn,
            s.round == round,
            s.awaiting is None,
            is_side_queue(old(battle).combatants@, turn, s.queue@),
            refreshed(old(battle).combatants@, s.queue@, final(battle).combatants@),
            final(battle).pending@ == old(battle).pending@,
            final(battle).map == old(battle).map,
    {
        let q = side_queue(&battle.combatants, turn);
        refresh_listed(&mut battle.combatants, &q);
        SideTurn { turn, round, queue: q, awaiting: None }
    }

    /// Advance the side's turn with `input`; `abilities` are the front combatant's.
    pub fn step(&mut self, battle: &mut Battle, abilities: &Vec<Ability>, input: SideInput) -> (out: SideRequest)
        requires
            old(battle).wf(),
            forall|k: int| 0 <= k < old(self).queue@.len() ==> #[trigger] old(self).queue@[k] < old(battle).combatants@.len(),
            old(self).queue@.len() > 0 ==> side_fits(
                old(battle).combatants@,
                old(battle).map,
                old(self).queue@[0] as int,
                abilities@,
                old(self).awaiting,
                old(self).round,
            ),
            match old(battle).map {
                Some(m) => m.cols <= i32::MAX && m.rows <= i32::MAX,
                None => true,
            },
        ensures
            spec_side_step(
                *old(self),
                old(battle).combatants@,
                old(battle).pending@,
                old(battle).map,
                abilities@,
                input,
                *final(self),
                final(battle).combatants@,
                final(battle).pending@,
                out,
            ),
            final(battle).map == old(battle).map,
            final(battle).wf(),
    {
        if self.queue.len() == 0 {
            return SideRequest::Done;
        }
        let a = self.queue[0];
        match (self.awaiting, input) {
            (Some(act), SideInput::Hit(h)) => {
                let done = apply_action(battle, a, &act, h, self.round).is_none();
                self.awaiting = None;
                if done {
                    self.queue.remove(0);
                }
                if self.queue.len() == 0 {
                    SideRequest::Done
                } else {
                    SideRequest::Target { actor: self.queue[0] }
                }
            },
            (None, SideInput::Target(tg)) => {
                let r = choose_action(battle, a, self.turn, abilities, tg);
                match r {
                    Some(Action::Pass) | None => {
                        self.queue.remove(0);
                        if self.queue.len() == 0 {
                            SideRequest::Done
                        } else {
                            SideRequest::Target { actor: self.queue[0] }
                        }
                    },
                    Some(act) => {
                        self.awaiting = Some(act);
                        let target = match act {
                            Action::UseAbility { target, .. } => target,
                            _ => None,
                        };
                        SideRequest::Roll { actor: a, target }
                    },
                }
            },
            _ => {
                match self.awaiting {
                    Some(act) => {
                        let target = match act {
                            Action::UseAbility { target, .. } => target,
                            _ => None,
                        };
                        SideRequest::Roll { actor: a, target }
                    },
                    None => SideRequest::Target { actor: a },
                }
            },
        }
    }
}

// ── Laws ──────────────────────────────────────────────────────────────────────

/// A move the AI makes toward cover always ends on a passable map tile that no other
/// living combatant holds, with better cover than where it stood, within the AP the
/// combatant has (and within `ap` tiles along each axis).
pub proof fn lemma_seek_cover_stays_in_reach(
    cs: Seq<Combatant>,
    map: Option<LevelMap>,
    a: int,
    turn: Turn,
    ap: int,
    min_attack_cost: int,
    dest: (i32, i32),
)
    requires
        0 <= a < cs.len(),
        match map {
            Some(m) => m.cols <= i32::MAX && m.rows <= i32::MAX,
            None => true,
        },
        spec_seek_cover(cs, map, a, turn, ap, min_attack_cost) == Some(Action::Move { destination: dest }),
    ensures
        map is Some,
        cs[a].pos is Some,
        ({
            let m = map.unwrap();
            let from = cs[a].pos.unwrap();
            let speed = match cs[a].stats {
                Some(st) => st.speed,
                None => 8,
            };
            let d = abs_of(dest.0 - from.0) + abs_of(dest.1 - from.1);
            &&& 0 <= dest.0 < m.cols
            &&& 0 <= dest.1 < m.rows
            &&& m.passable_at(dest.0 as int, dest.1 as int)
            &&& !occupied_by_other(cs, a, dest.0 as int, dest.1 as int)
            &&& d != 0
            &&& walk_cost(d, spec_move_range_per_ap(speed)) <= ap
        }),
{
    let from = cs[a].pos.unwrap();
    let e = nearest_opponent(cs, turn, from, cs.len() as int).unwrap();
    let m = map.unwrap();
    let dir = spec_from_attack(cs[e].pos.unwrap(), from);
    let current = cover_on(map, from.0, from.1, dir);
    let speed = match cs[a].stats {
        Some(st) => st.speed,
        None => 8,
    };
    let s = CoverSearch { cs, actor: a, map: m, from, ap, range: spec_move_range_per_ap(speed), dir, current };
    let budget = ap - min_attack_cost;
    let b = if budget > 0 && seek_target(s, budget) is Some { budget } else { ap };
    assert(seek_target(s, b) is Some);
    let (x, y) = choose|x: int, y: int| best_seek(s, b, x, y);
    assert(best_seek(s, b, x, y));
    assert(seek_candidate(s, b, x, y));
    assert(dest == (x as i32, y as i32));
    assert(x as i32 as int == x && y as i32 as int == y);
}

} // verus!
