use vstd::prelude::*;

use crate::ability::{
    Action, alive, alive_c, attack_c, attack_or, defense_c, defense_of, pierced, pierced_c, Ability, AbilityEffect,
    AbilityKind, Battle, Combatant,
};
use crate::character::{Aggression, CharacterKind};
use crate::combat::{abs_of, calc_damage, half_toward_zero, spec_calc_damage};
use crate::terrain::{spec_from_attack, CoverLevel, Direction, LevelMap};
use crate::turn::MOVE_AP_COST;

verus! {

/// A fully described action a player can choose for one of their combatants.
#[derive(Debug, Clone, Copy)]
pub enum PlayerActionChoice {
    /// Use an ability, offensive (on a living enemy) or utility (no target).
    UseAbility {
        ability: Ability,
        /// Index of the target among the battle's combatants.
        target: Option<usize>,
        /// Damage the ability deals, for damage-dealing abilities.
        damage: Option<i32>,
        /// The target's cover against this attack, for damage-dealing abilities; the
        /// hit chance follows from it.
        cover: Option<CoverLevel>,
    },
    /// Move to a tile offering better cover than the current one.
    MoveToCover {
        destination: (i32, i32),
        /// Cover the destination gives against the nearest enemy.
        cover: CoverLevel,
        /// Total AP cost (Manhattan distance × `MOVE_AP_COST`).
        ap_cost: i32,
    },
    /// End this actor's turn without spending more AP.
    Pass,
}

/// The low-level action a choice stands for.
pub open spec fn spec_to_action(c: PlayerActionChoice) -> Action {
    match c {
        PlayerActionChoice::UseAbility { ability, target, .. } => Action::UseAbility { ability, target },
        PlayerActionChoice::MoveToCover { destination, .. } => Action::Move { destination },
        PlayerActionChoice::Pass => Action::Pass,
    }
}

impl PlayerActionChoice {
    /// Convert to the low-level [`Action`] that `apply_action` carries out.
    pub fn to_action(&self) -> (a: Action)
        ensures
            a == spec_to_action(*self),
    {
        match self {
            PlayerActionChoice::UseAbility { ability, target, .. } => Action::UseAbility { ability: *ability, target: *target },
            PlayerActionChoice::MoveToCover { destination, .. } => Action::Move { destination: *destination },
            PlayerActionChoice::Pass => Action::Pass,
        }
    }
}

// ── Who can be attacked ───────────────────────────────────────────────────────

/// A hostile character: not of the party's kinds and not friendly.
pub open spec fn hostile(c: Combatant) -> bool {
    match c.character {
        Some((k, agg)) => !k.spec_is_player() && agg != Aggression::Friendly,
        None => false,
    }
}

/// A living hostile character on the board, with stats: a target for abilities.
pub open spec fn is_enemy(c: Combatant) -> bool {
    hostile(c) && alive(c) && c.stats is Some && c.pos is Some
}

/// A living hostile character on the board: one whose attacks cover is sought from.
pub open spec fn is_threat(c: Combatant) -> bool {
    hostile(c) && alive(c) && c.pos is Some
}

/// The larger of the two axis distances between `p` and `q`.
pub open spec fn chebyshev(p: (i32, i32), q: (i32, i32)) -> int {
    let dx = abs_of(p.0 - q.0);
    let dy = abs_of(p.1 - q.1);
    if dx >= dy {
        dx
    } else {
        dy
    }
}

/// The number of steps between `p` and `q` along the grid.
pub open spec fn manhattan(p: (i32, i32), q: (i32, i32)) -> int {
    abs_of(p.0 - q.0) + abs_of(p.1 - q.1)
}

/// The cover of `(x, y)` against an attack from `dir` (none without a map).
pub open spec fn cover_on(map: Option<LevelMap>, x: i32, y: i32, dir: Direction) -> CoverLevel {
    match map {
        Some(m) => m.stored_cover(x, y, dir),
        None => CoverLevel::NoCover,
    }
}

// ── Ability choices ───────────────────────────────────────────────────────────

/// Damage shown for ability `ab` by an attacker with `attack` on a defender with
/// `defense`; none for abilities that deal no direct damage.
pub open spec fn shown_damage(ab: Ability, attack: i32, defense: i32) -> Option<int> {
    match ab.effect {
        AbilityEffect::BonusDamage { bonus } => Some(spec_calc_damage(attack, defense) + bonus),
        AbilityEffect::ArmorPiercing { pierce_percent } => Some(spec_calc_damage(attack, pierced(defense, pierce_percent) as i32)),
        AbilityEffect::ArmorPiercingStrike { pierce_percent, bonus } => Some(
            spec_calc_damage(attack, pierced(defense, pierce_percent) as i32) + bonus,
        ),
        _ => None,
    }
}

/// The damage shown for `ab` can be computed in `i32`.
pub open spec fn shown_damage_fits(ab: Ability, attack: i32, defense: i32) -> bool {
    let def = match ab.effect {
        AbilityEffect::ArmorPiercing { pierce_percent } => pierced(defense, pierce_percent) as i32,
        AbilityEffect::ArmorPiercingStrike { pierce_percent, .. } => pierced(defense, pierce_percent) as i32,
        _ => defense,
    };
    &&& i32::MIN <= attack - half_toward_zero(def as int) <= i32::MAX
    &&& match shown_damage(ab, attack, defense) {
        Some(d) => i32::MIN <= d <= i32::MAX,
        None => true,
    }
}

/// The choice of using `ab` from combatant `a` on combatant `t`.
pub open spec fn target_choice(cs: Seq<Combatant>, map: Option<LevelMap>, a: int, ab: Ability, t: int) -> PlayerActionChoice {
    let from = cs[a].pos.unwrap();
    let to = cs[t].pos.unwrap();
    let cover = cover_on(map, to.0, to.1, spec_from_attack(from, to));
    let dmg = shown_damage(ab, attack_or(cs[a], 0), defense_of(cs[t]));
    PlayerActionChoice::UseAbility {
        ability: ab,
        target: Some(t as usize),
        damage: match dmg {
            Some(d) => Some(d as i32),
            None => None,
        },
        cover: if dmg is Some {
            Some(cover)
        } else {
            None
        },
    }
}

/// Whether `ab` from `a` may be aimed at `t`: a living enemy, next to `a` (diagonals
/// included) for a melee ability.
pub open spec fn aimable(cs: Seq<Combatant>, a: int, melee: bool, t: int) -> bool {
    is_enemy(cs[t]) && (!melee || chebyshev(cs[a].pos.unwrap(), cs[t].pos.unwrap()) <= 1)
}

/// The choices of `ab` from `a` on the aimable combatants among the first `n`.
pub open spec fn target_choices(cs: Seq<Combatant>, map: Option<LevelMap>, a: int, ab: Ability, melee: bool, n: int) -> Seq<
    PlayerActionChoice,
>
    decreases n,
{
    if n <= 0 {
        Seq::empty()
    } else {
        let prev = target_choices(cs, map, a, ab, melee, n - 1);
        if aimable(cs, a, melee, n - 1) {
            prev.push(target_choice(cs, map, a, ab, n - 1))
        } else {
            prev
        }
    }
}

/// The choices one ability gives combatant `a` with `ap` action points.
pub open spec fn ability_option(cs: Seq<Combatant>, map: Option<LevelMap>, a: int, ap: int, ab: Ability) -> Seq<PlayerActionChoice> {
    if ab.ap_cost > ap {
        Seq::empty()
    } else {
        match ab.kind {
            AbilityKind::Ranged => target_choices(cs, map, a, ab, false, cs.len() as int),
            AbilityKind::Melee => target_choices(cs, map, a, ab, true, cs.len() as int),
            AbilityKind::Utility => seq![
                PlayerActionChoice::UseAbility { ability: ab, target: None, damage: None, cover: None },
            ],
            _ => Seq::empty(),
        }
    }
}

/// The choices the first `n` abilities give combatant `a`, in ability order.
pub open spec fn ability_options(cs: Seq<Combatant>, map: Option<LevelMap>, a: int, ap: int, abilities: Seq<Ability>, n: int) -> Seq<
    PlayerActionChoice,
>
    decreases n,
{
    if n <= 0 {
        Seq::empty()
    } else {
        ability_options(cs, map, a, ap, abilities, n - 1) + ability_option(cs, map, a, ap, abilities[n - 1])
    }
}

/// Every damage figure that would be shown fits in `i32`, and every offset from the
/// actor to another combatant does too.
pub open spec fn choices_fit(cs: Seq<Combatant>, a: int, abilities: Seq<Ability>) -> bool {
    &&& cs[a].pos is Some ==> forall|i: int|
        0 <= i < cs.len() && (#[trigger] cs[i]).pos is Some ==> {
            let p = cs[a].pos.unwrap();
            let q = cs[i].pos.unwrap();
            &&& -i32::MAX <= p.0 - q.0 <= i32::MAX
            &&& -i32::MAX <= p.1 - q.1 <= i32::MAX
        }
    &&& forall|j: int, i: int|
        0 <= j < abilities.len() && 0 <= i < cs.len() && is_enemy(#[trigger] cs[i]) ==> shown_damage_fits(
            #[trigger] abilities[j],
            attack_or(cs[a], 0),
            defense_of(cs[i]),
        )
}

fn shown_damage_c(ab: &Ability, attack: i32, defense: i32) -> (r: Option<i32>)
    requires
        shown_damage_fits(*ab, attack, defense),
    ensures
        match r {
            Some(d) => shown_damage(*ab, attack, defense) == Some(d as int),
            None => shown_damage(*ab, attack, defense) is None,
        },
{
    match ab.effect {
        AbilityEffect::BonusDamage { bonus } => Some(calc_damage(attack, defense) + bonus),
        AbilityEffect::ArmorPiercing { pierce_percent } => {
            let def = pierced_c(defense, pierce_percent) as i32;
            Some(calc_damage(attack, def))
        },
        AbilityEffect::ArmorPiercingStrike { pierce_percent, bonus } => {
            let def = pierced_c(defense, pierce_percent) as i32;
            Some(calc_damage(attack, def) + bonus)
        },
        _ => None,
    }
}

pub(crate) fn hostile_c(c: &Combatant) -> (b: bool)
    ensures
        b == hostile(*c),
{
    match c.character {
        Some((k, agg)) => !k.is_player() && agg != Aggression::Friendly,
        None => false,
    }
}

fn is_enemy_c(c: &Combatant) -> (b: bool)
    ensures
        b == is_enemy(*c),
{
    hostile_c(c) && alive_c(c) && c.stats.is_some() && c.pos.is_some()
}

pub(crate) fn cover_on_c(map: &Option<LevelMap>, x: i32, y: i32, dir: Direction) -> (c: CoverLevel)
    requires
        match *map {
            Some(m) => m.wf(),
            None => true,
        },
    ensures
        c == cover_on(*map, x, y, dir),
{
    match map {
        Some(m) => m.get_cover(x, y, dir),
        None => CoverLevel::NoCover,
    }
}

fn push_target_choices(b: &Battle, a: usize, ab: &Ability, melee: bool, out: &mut Vec<PlayerActionChoice>)
    requires
        b.wf(),
        a < b.combatants@.len(),
        b.combatants@[a as int].pos is Some,
        choices_fit(b.combatants@, a as int, seq![*ab]),
    ensures
        final(out)@ == old(out)@ + target_choices(b.combatants@, b.map, a as int, *ab, melee, b.combatants@.len() as int),
{
    let ghost cs = b.combatants@;
    let from = match b.combatants[a].pos {
        Some(p) => p,
        None => (0, 0),
    };
    let attack = attack_c(&b.combatants[a], 0);
    let mut i: usize = 0;
    while i < b.combatants.len()
        invariant
            cs == b.combatants@,
            i <= cs.len(),
            b.wf(),
            a < cs.len(),
            cs[a as int].pos is Some,
            from == cs[a as int].pos.unwrap(),
            attack == attack_or(cs[a as int], 0),
            choices_fit(cs, a as int, seq![*ab]),
            out@ == old(out)@ + target_choices(cs, b.map, a as int, *ab, melee, i as int),
        decreases cs.len() - i,
    {
        let c = &b.combatants[i];
        if is_enemy_c(c) {
            let to = match c.pos {
                Some(p) => p,
                None => (0, 0),
            };
            proof {
                assert(cs[i as int].pos is Some);
            }
            let dx: i64 = from.0 as i64 - to.0 as i64;
            let dy: i64 = from.1 as i64 - to.1 as i64;
            let adx: i64 = if dx < 0 { -dx } else { dx };
            let ady: i64 = if dy < 0 { -dy } else { dy };
            let cheb: i64 = if adx >= ady { adx } else { ady };
            if !melee || cheb <= 1 {
                let dir = Direction::from_attack(from, to);
                let cover = cover_on_c(&b.map, to.0, to.1, dir);
                proof {
                    assert(seq![*ab][0] == *ab);
                }
                let dmg = shown_damage_c(ab, attack, defense_c(c));
                let choice = PlayerActionChoice::UseAbility {
                    ability: *ab,
                    target: Some(i),
                    damage: dmg,
                    cover: if dmg.is_some() { Some(cover) } else { None },
                };
                proof {
                    assert(choice == target_choice(cs, b.map, a as int, *ab, i as int));
                }
                out.push(choice);
            }
        }
        i = i + 1;
        proof {
            assert(out@ =~= old(out)@ + target_choices(cs, b.map, a as int, *ab, melee, i as int));
        }
    }
}


// ── Moving to cover ───────────────────────────────────────────────────────────

/// The first of the threats among the first `n` combatants that is nearest to
/// `from` (by steps along the grid).
pub open spec fn nearest_threat(cs: Seq<Combatant>, from: (i32, i32), n: int) -> Option<int>
    decreases n,
{
    if n <= 0 {
        None
    } else {
        let prev = nearest_threat(cs, from, n - 1);
        if is_threat(cs[n - 1]) && match prev {
            Some(p) => manhattan(cs[n - 1].pos.unwrap(), from) < manhattan(cs[p].pos.unwrap(), from),
            None => true,
        } {
            Some(n - 1)
        } else {
            prev
        }
    }
}

/// Rank of a cover level: none, partial, full.
pub open spec fn cover_rank(c: CoverLevel) -> int {
    match c {
        CoverLevel::NoCover => 0,
        CoverLevel::Partial => 1,
        CoverLevel::Full => 2,
    }
}

/// Whether moving from `from` to `(x, y)` with `ap` action points reaches a passable
/// tile on the map whose cover against `dir` is `level`, better than `current`.
pub open spec fn move_candidate(
    m: LevelMap,
    from: (i32, i32),
    ap: int,
    dir: Direction,
    current: CoverLevel,
    level: CoverLevel,
    x: int,
    y: int,
) -> bool {
    let d = abs_of(x - from.0) + abs_of(y - from.1);
    &&& 1 <= d
    &&& d * MOVE_AP_COST <= ap
    &&& 0 <= x < m.cols
    &&& 0 <= y < m.rows
    &&& m.passable_at(x, y)
    &&& m.stored_cover(x as i32, y as i32, dir) == level
    &&& cover_rank(level) > cover_rank(current)
}

/// `(x1, y1)` comes before `(x2, y2)` as a destination from `from`: nearer, or as
/// near and earlier in row-major order.
pub open spec fn preferred(from: (i32, i32), x1: int, y1: int, x2: int, y2: int) -> bool {
    let d1 = abs_of(x1 - from.0) + abs_of(y1 - from.1);
    let d2 = abs_of(x2 - from.0) + abs_of(y2 - from.1);
    d1 < d2 || (d1 == d2 && (y1 < y2 || (y1 == y2 && x1 < x2)))
}

/// `(x, y)` is the preferred destination among those giving cover `level`.
pub open spec fn best_move(
    m: LevelMap,
    from: (i32, i32),
    ap: int,
    dir: Direction,
    current: CoverLevel,
    level: CoverLevel,
    x: int,
    y: int,
) -> bool {
    &&& move_candidate(m, from, ap, dir, current, level, x, y)
    &&& forall|x2: int, y2: int|
        #![trigger move_candidate(m, from, ap, dir, current, level, x2, y2)]
        move_candidate(m, from, ap, dir, current, level, x2, y2) && (x2 != x || y2 != y) ==> preferred(
            from,
            x,
            y,
            x2,
            y2,
        )
}

/// The choice of moving to the preferred tile with cover `level`, if there is one.
pub open spec fn move_choice(m: LevelMap, from: (i32, i32), ap: int, dir: Direction, current: CoverLevel, level: CoverLevel) -> Seq<
    PlayerActionChoice,
> {
    if exists|x: int, y: int| best_move(m, from, ap, dir, current, level, x, y) {
        let (x, y) = choose|x: int, y: int| best_move(m, from, ap, dir, current, level, x, y);
        seq![
            PlayerActionChoice::MoveToCover {
                destination: (x as i32, y as i32),
                cover: level,
                ap_cost: ((abs_of(x - from.0) + abs_of(y - from.1)) * MOVE_AP_COST) as i32,
            },
        ]
    } else {
        Seq::empty()
    }
}

/// The moves to cover offered to combatant `a` with `ap` action points: against the
/// nearest threat, the preferred tile for full cover, then for partial cover, each
/// only when better than the cover where `a` stands.
pub open spec fn cover_choices(cs: Seq<Combatant>, map: Option<LevelMap>, a: int, ap: int) -> Seq<PlayerActionChoice> {
    let from = cs[a].pos.unwrap();
    match map {
        Some(m) => if m.cols == 0 || m.rows == 0 {
            Seq::empty()
        } else {
            match nearest_threat(cs, from, cs.len() as int) {
                Some(e) => {
                    let dir = spec_from_attack(cs[e].pos.unwrap(), from);
                    let current = m.stored_cover(from.0, from.1, dir);
                    move_choice(m, from, ap, dir, current, CoverLevel::Full) + move_choice(
                        m,
                        from,
                        ap,
                        dir,
                        current,
                        CoverLevel::Partial,
                    )
                },
                None => Seq::empty(),
            }
        },
        None => Seq::empty(),
    }
}

/// There is at most one preferred destination per cover level.
proof fn lemma_best_move_unique(
    m: LevelMap,
    from: (i32, i32),
    ap: int,
    dir: Direction,
    current: CoverLevel,
    level: CoverLevel,
    x1: int,
    y1: int,
    x2: int,
    y2: int,
)
    requires
        best_move(m, from, ap, dir, current, level, x1, y1),
        best_move(m, from, ap, dir, current, level, x2, y2),
    ensures
        x1 == x2 && y1 == y2,
{
    if x1 != x2 || y1 != y2 {
        assert(move_candidate(m, from, ap, dir, current, level, x2, y2));
        assert(move_candidate(m, from, ap, dir, current, level, x1, y1));
        assert(preferred(from, x1, y1, x2, y2));
        assert(preferred(from, x2, y2, x1, y1));
    }
}

pub(crate) fn rank_c(c: CoverLevel) -> (r: u8)
    ensures
        r == cover_rank(c),
{
    match c {
        CoverLevel::NoCover => 0,
        CoverLevel::Partial => 1,
        CoverLevel::Full => 2,
    }
}

/// The preferred destination with cover `level`, scanning rows and columns within
/// reach in order.
#[verifier::spinoff_prover]
#[verifier::rlimit(40)]
fn best_cover_move(m: &LevelMap, from: (i32, i32), ap: i32, dir: Direction, current: CoverLevel, level: CoverLevel) -> (r: Option<(i32, i32)>)
    requires
        m.wf(),
        m.cols <= i32::MAX,
        m.rows <= i32::MAX,
    ensures
        match r {
            Some((x, y)) => best_move(*m, from, ap as int, dir, current, level, x as int, y as int),
            None => forall|x: int, y: int| !move_candidate(*m, from, ap as int, dir, current, level, x, y),
        },
{
    if ap < 1 || rank_c(level) <= rank_c(current) {
        return None;
    }
    let cols: i64 = m.cols as i64;
    let rows: i64 = m.rows as i64;
    let fx: i64 = from.0 as i64;
    let fy: i64 = from.1 as i64;
    let r: i64 = ap as i64;
    let mut best: Option<(i32, i32)> = None;
    let mut dy: i64 = -r;
    while dy <= r
        invariant
            1 <= r <= i32::MAX,
            r == ap,
            -r <= dy <= r + 1,
            cols == m.cols,
            rows == m.rows,
            fx == from.0,
            fy == from.1,
            m.wf(),
            m.cols <= i32::MAX,
            m.rows <= i32::MAX,
            cover_rank(level) > cover_rank(current),
            match best {
                Some((bx, by)) => {
                    &&& move_candidate(*m, from, ap as int, dir, current, level, bx as int, by as int)
                    &&& by - fy < dy
                    &&& forall|x2: int, y2: int|
                        #![trigger move_candidate(*m, from, ap as int, dir, current, level, x2, y2)]
                        move_candidate(*m, from, ap as int, dir, current, level, x2, y2) && y2 - fy < dy && (x2 != bx || y2
                            != by) ==> preferred(from, bx as int, by as int, x2, y2)
                },
                None => forall|x2: int, y2: int|
                    #![trigger move_candidate(*m, from, ap as int, dir, current, level, x2, y2)]
                    move_candidate(*m, from, ap as int, dir, current, level, x2, y2) ==> y2 - fy >= dy,
            },
        decreases r + 1 - dy,
    {
        let mut dx: i64 = -r;
        while dx <= r
            invariant
                1 <= r <= i32::MAX,
                r == ap,
                -r <= dy <= r,
                -r <= dx <= r + 1,
                cols == m.cols,
                rows == m.rows,
                fx == from.0,
                fy == from.1,
                m.wf(),
                m.cols <= i32::MAX,
                m.rows <= i32::MAX,
                cover_rank(level) > cover_rank(current),
                match best {
                    Some((bx, by)) => {
                        &&& move_candidate(*m, from, ap as int, dir, current, level, bx as int, by as int)
                        &&& (by - fy < dy || (by - fy == dy && bx - fx < dx))
                        &&& forall|x2: int, y2: int|
                            #![trigger move_candidate(*m, from, ap as int, dir, current, level, x2, y2)]
                            move_candidate(*m, from, ap as int, dir, current, level, x2, y2) && (y2 - fy < dy || (y2 - fy
                                == dy && x2 - fx < dx)) && (x2 != bx || y2 != by) ==> preferred(from, bx as int, by as int, x2, y2)
                    },
                    None => forall|x2: int, y2: int|
                        #![trigger move_candidate(*m, from, ap as int, dir, current, level, x2, y2)]
                        move_candidate(*m, from, ap as int, dir, current, level, x2, y2) ==> (y2 - fy > dy || (y2 - fy == dy
                            && x2 - fx >= dx)),
                },
            decreases r + 1 - dx,
        {
            let tx: i64 = fx + dx;
            let ty: i64 = fy + dy;
            let adx: i64 = if dx < 0 { -dx } else { dx };
            let ady: i64 = if dy < 0 { -dy } else { dy };
            let d: i64 = adx + ady;
            let ghost gx: int = tx as int;
            let ghost gy: int = ty as int;
            if d != 0 && d * (MOVE_AP_COST as i64) <= r && 0 <= tx && tx < cols && 0 <= ty && ty < rows {
                if m.is_passable(tx as i32, ty as i32) && m.get_cover(tx as i32, ty as i32, dir) == level {
                    proof {
                        assert(move_candidate(*m, from, ap as int, dir, current, level, gx, gy));
                    }
                    let better = match best {
                        Some((bx, by)) => {
                            let bdx: i64 = if (bx as i64) < fx { fx - bx as i64 } else { bx as i64 - fx };
                            let bdy: i64 = if (by as i64) < fy { fy - by as i64 } else { by as i64 - fy };
                            d < bdx + bdy
                        },
                        None => true,
                    };
                    if better {
                        best = Some((tx as i32, ty as i32));
                    }
                }
            }
            proof {
                if !move_candidate(*m, from, ap as int, dir, current, level, gx, gy) {
                    assert(!(d != 0 && d * (MOVE_AP_COST as i64) <= r && 0 <= tx && tx < cols && 0 <= ty && ty < rows
                        && m.passable_at(gx, gy) && m.stored_cover(tx as i32, ty as i32, dir) == level));
                }
            }
            dx = dx + 1;
        }
        dy = dy + 1;
    }
    proof {
        assert forall|x2: int, y2: int| move_candidate(*m, from, ap as int, dir, current, level, x2, y2) implies y2 - fy < dy by {
            assert(abs_of(y2 - from.1) <= ap);
        }
    }
    best
}


fn is_threat_c(c: &Combatant) -> (b: bool)
    ensures
        b == is_threat(*c),
{
    hostile_c(c) && alive_c(c) && c.pos.is_some()
}

fn manhattan_c(p: (i32, i32), q: (i32, i32)) -> (d: i64)
    ensures
        d == manhattan(p, q),
{
    let dx: i64 = p.0 as i64 - q.0 as i64;
    let dy: i64 = p.1 as i64 - q.1 as i64;
    (if dx < 0 { -dx } else { dx }) + (if dy < 0 { -dy } else { dy })
}

fn nearest_threat_c(cs: &Vec<Combatant>, from: (i32, i32)) -> (r: Option<usize>)
    ensures
        match r {
            Some(e) => nearest_threat(cs@, from, cs@.len() as int) == Some(e as int),
            None => nearest_threat(cs@, from, cs@.len() as int) is None,
        },
{
    let mut best: Option<usize> = None;
    let mut best_d: i64 = 0;
    let mut i: usize = 0;
    while i < cs.len()
        invariant
            i <= cs@.len(),
            match best {
                Some(e) => {
                    &&& nearest_threat(cs@, from, i as int) == Some(e as int)
                    &&& e < i
                    &&& cs@[e as int].pos is Some
                    &&& best_d == manhattan(cs@[e as int].pos.unwrap(), from)
                },
                None => nearest_threat(cs@, from, i as int) is None,
            },
        decreases cs@.len() - i,
    {
        let c = &cs[i];
        if is_threat_c(c) {
            let p = match c.pos {
                Some(p) => p,
                None => (0, 0),
            };
            let d = manhattan_c(p, from);
            let take = match best {
                Some(_) => d < best_d,
                None => true,
            };
            if take {
                best = Some(i);
                best_d = d;
            }
        }
        i = i + 1;
    }
    best
}

fn push_move_choice(
    m: &LevelMap,
    from: (i32, i32),
    ap: i32,
    dir: Direction,
    current: CoverLevel,
    level: CoverLevel,
    out: &mut Vec<PlayerActionChoice>,
)
    requires
        m.wf(),
        m.cols <= i32::MAX,
        m.rows <= i32::MAX,
    ensures
        final(out)@ == old(out)@ + move_choice(*m, from, ap as int, dir, current, level),
{
    match best_cover_move(m, from, ap, dir, current, level) {
        Some((x, y)) => {
            proof {
                let (cx, cy) = choose|cx: int, cy: int| best_move(*m, from, ap as int, dir, current, level, cx, cy);
                lemma_best_move_unique(*m, from, ap as int, dir, current, level, x as int, y as int, cx, cy);
            }
            let d = manhattan_c((x, y), from);
            let choice = PlayerActionChoice::MoveToCover {
                destination: (x, y),
                cover: level,
                ap_cost: (d * (MOVE_AP_COST as i64)) as i32,
            };
            out.push(choice);
            proof {
                assert(out@ =~= old(out)@ + move_choice(*m, from, ap as int, dir, current, level));
            }
        },
        None => {
            proof {
                assert(out@ =~= old(out)@ + move_choice(*m, from, ap as int, dir, current, level));
            }
        },
    }
}

/// All choices open to combatant `a` of the battle with the abilities `abilities`:
/// nothing when it has no action points or no place on the board; otherwise its
/// ability choices (a character's only), its moves to cover, and passing last.
pub open spec fn spec_available_player_actions(cs: Seq<Combatant>, map: Option<LevelMap>, a: int, abilities: Seq<Ability>) -> Seq<
    PlayerActionChoice,
> {
    match (cs[a].ap, cs[a].pos) {
        (Some(p), Some(_)) => {
            let uses = if cs[a].character is Some {
                ability_options(cs, map, a, p.current as int, abilities, abilities.len() as int)
            } else {
                Seq::empty()
            };
            uses + cover_choices(cs, map, a, p.current as int) + seq![PlayerActionChoice::Pass]
        },
        _ => Seq::empty(),
    }
}

/// Returns every valid action for `actor` this turn given its remaining AP, in order:
/// each affordable ability on each valid target (ranged: every living enemy; melee:
/// every living enemy next to it, diagonals included; utility: once, untargeted),
/// then at most one move per cover level better than where it stands (full cover
/// first; the nearest such tile, ties broken row by row), then Pass. `abilities` are
/// the abilities the actor's kind has at its level.
pub fn available_player_actions(battle: &Battle, actor: usize, abilities: &Vec<Ability>) -> (v: Vec<PlayerActionChoice>)
    requires
        battle.wf(),
        actor < battle.combatants@.len(),
        choices_fit(battle.combatants@, actor as int, abilities@),
        match battle.map {
            Some(m) => m.cols <= i32::MAX && m.rows <= i32::MAX,
            None => true,
        },
    ensures
        v@ == spec_available_player_actions(battle.combatants@, battle.map, actor as int, abilities@),
{
    let ghost cs = battle.combatants@;
    let mut choices: Vec<PlayerActionChoice> = Vec::new();
    let me = &battle.combatants[actor];
    let ap = match me.ap {
        Some(p) => p.current,
        None => return choices,
    };
    let from = match me.pos {
        Some(p) => p,
        None => return choices,
    };
    if me.character.is_some() {
        let mut j: usize = 0;
        while j < abilities.len()
            invariant
                j <= abilities@.len(),
                cs == battle.combatants@,
                battle.wf(),
                actor < cs.len(),
                cs[actor as int].pos == Some(from),
                cs[actor as int].ap is Some,
                cs[actor as int].ap.unwrap().current == ap,
                choices_fit(cs, actor as int, abilities@),
                choices@ == ability_options(cs, battle.map, actor as int, ap as int, abilities@, j as int),
            decreases abilities@.len() - j,
        {
            let ab = &abilities[j];
            proof {
                assert forall|jj: int, i: int|
                    0 <= jj < 1 && 0 <= i < cs.len() && is_enemy(#[trigger] cs[i]) implies shown_damage_fits(
                    #[trigger] seq![*ab][jj],
                    attack_or(cs[actor as int], 0),
                    defense_of(cs[i]),
                ) by {
                    assert(seq![*ab][jj] == abilities@[j as int]);
                }
            }
            let ghost before = choices@;
            if ab.ap_cost <= ap {
                match ab.kind {
                    AbilityKind::Ranged => push_target_choices(battle, actor, ab, false, &mut choices),
                    AbilityKind::Melee => push_target_choices(battle, actor, ab, true, &mut choices),
                    AbilityKind::Utility => {
                        choices.push(PlayerActionChoice::UseAbility { ability: *ab, target: None, damage: None, cover: None });
                    },
                    _ => {},
                }
            }
            j = j + 1;
            proof {
                assert(choices@ =~= before + ability_option(cs, battle.map, actor as int, ap as int, abilities@[j - 1]));
            }
        }
    }
    let ghost uses = choices@;
    match &battle.map {
        Some(m) => {
            if m.cols > 0 && m.rows > 0 {
                match nearest_threat_c(&battle.combatants, from) {
                    Some(e) => {
                        proof {
                            lemma_nearest_is_threat(cs, from, cs.len() as int);
                            assert(cs[e as int].pos is Some);
                        }
                        let epos = match battle.combatants[e].pos {
                            Some(p) => p,
                            None => (0, 0),
                        };
                        let dir = Direction::from_attack(epos, from);
                        let current = m.get_cover(from.0, from.1, dir);
                        push_move_choice(m, from, ap, dir, current, CoverLevel::Full, &mut choices);
                        push_move_choice(m, from, ap, dir, current, CoverLevel::Partial, &mut choices);
                    },
                    None => {},
                }
            }
        },
        None => {},
    }
    proof {
        assert(choices@ =~= uses + cover_choices(cs, battle.map, actor as int, ap as int));
    }
    choices.push(PlayerActionChoice::Pass);
    proof {
        assert(choices@ =~= spec_available_player_actions(cs, battle.map, actor as int, abilities@));
    }
    choices
}

/// The nearest threat is a threat, found among the combatants.
proof fn lemma_nearest_is_threat(cs: Seq<Combatant>, from: (i32, i32), n: int)
    ensures
        match nearest_threat(cs, from, n) {
            Some(e) => 0 <= e < n && is_threat(cs[e]),
            None => true,
        },
    decreases n,
{
    if n > 0 {
        lemma_nearest_is_threat(cs, from, n - 1);
    }
}


// ── Laws ──────────────────────────────────────────────────────────────────────

/// Every ability choice aimed at a target among the first `n` aims at a living
/// enemy, a melee one only at an enemy next to the actor.
proof fn lemma_target_choices_valid(cs: Seq<Combatant>, map: Option<LevelMap>, a: int, ab: Ability, melee: bool, n: int)
    requires
        n <= cs.len() <= usize::MAX,
    ensures
        forall|k: int|
            0 <= k < target_choices(cs, map, a, ab, melee, n).len() ==> match #[trigger] target_choices(cs, map, a, ab, melee, n)[k] {
                PlayerActionChoice::UseAbility { ability, target: Some(t), .. } => ability == ab && t < cs.len() && aimable(cs, a, melee, t as int),
                _ => false,
            },
    decreases n,
{
    if n > 0 {
        lemma_target_choices_valid(cs, map, a, ab, melee, n - 1);
        let t = n - 1;
        assert(t as usize as int == t);
        let prev = target_choices(cs, map, a, ab, melee, n - 1);
        let all = target_choices(cs, map, a, ab, melee, n);
        assert forall|k: int| 0 <= k < all.len() implies match #[trigger] all[k] {
            PlayerActionChoice::UseAbility { ability, target: Some(t), .. } => ability == ab && t < cs.len() && aimable(cs, a, melee, t as int),
            _ => false,
        } by {
            if k < prev.len() {
                assert(all[k] == prev[k]);
            }
        }
    }
}

/// Every ability offered to a player's combatant is affordable with the AP it has;
/// a targeted one aims at a living enemy, and a melee one only at an enemy next to
/// the actor (diagonals included).
pub proof fn lemma_offered_abilities_are_usable(cs: Seq<Combatant>, map: Option<LevelMap>, a: int, abilities: Seq<Ability>)
    requires
        0 <= a < cs.len() <= usize::MAX,
    ensures
        forall|k: int|
            0 <= k < spec_available_player_actions(cs, map, a, abilities).len() ==> match #[trigger] spec_available_player_actions(
                cs,
                map,
                a,
                abilities,
            )[k] {
                PlayerActionChoice::UseAbility { ability, target, .. } => {
                    &&& ability.ap_cost <= cs[a].ap.unwrap().current
                    &&& match target {
                        Some(t) => t < cs.len() && is_enemy(cs[t as int]) && (ability.kind == AbilityKind::Melee ==> chebyshev(
                            cs[a].pos.unwrap(),
                            cs[t as int].pos.unwrap(),
                        ) <= 1),
                        None => ability.kind == AbilityKind::Utility,
                    }
                },
                _ => true,
            },
{
    match (cs[a].ap, cs[a].pos) {
        (Some(p), Some(_)) => {
            let ap = p.current as int;
            lemma_ability_options_valid(cs, map, a, ap, abilities, abilities.len() as int);
            let uses = if cs[a].character is Some {
                ability_options(cs, map, a, ap, abilities, abilities.len() as int)
            } else {
                Seq::empty()
            };
            let cover = cover_choices(cs, map, a, ap);
            assert forall|k: int| 0 <= k < cover.len() implies (#[trigger] cover[k]) is MoveToCover by {
                lemma_cover_choices_are_moves(cs, map, a, ap);
            }
            let all = spec_available_player_actions(cs, map, a, abilities);
            assert(all == uses + cover + seq![PlayerActionChoice::Pass]);
            assert forall|k: int| 0 <= k < all.len() implies match #[trigger] all[k] {
                PlayerActionChoice::UseAbility { ability, target, .. } => {
                    &&& ability.ap_cost <= cs[a].ap.unwrap().current
                    &&& match target {
                        Some(t) => t < cs.len() && is_enemy(cs[t as int]) && (ability.kind == AbilityKind::Melee ==> chebyshev(
                            cs[a].pos.unwrap(),
                            cs[t as int].pos.unwrap(),
                        ) <= 1),
                        None => ability.kind == AbilityKind::Utility,
                    }
                },
                _ => true,
            } by {
                if k < uses.len() {
                    assert(all[k] == uses[k]);
                } else if k < uses.len() + cover.len() {
                    assert(all[k] == cover[k - uses.len()]);
                } else {
                    assert(all[k] == PlayerActionChoice::Pass);
                }
            }
        },
        _ => {},
    }
}

proof fn lemma_cover_choices_are_moves(cs: Seq<Combatant>, map: Option<LevelMap>, a: int, ap: int)
    ensures
        forall|k: int| 0 <= k < cover_choices(cs, map, a, ap).len() ==> (#[trigger] cover_choices(cs, map, a, ap)[k]) is MoveToCover,
{
}

proof fn lemma_ability_options_valid(cs: Seq<Combatant>, map: Option<LevelMap>, a: int, ap: int, abilities: Seq<Ability>, n: int)
    requires
        0 <= a < cs.len() <= usize::MAX,
    ensures
        forall|k: int|
            0 <= k < ability_options(cs, map, a, ap, abilities, n).len() ==> match #[trigger] ability_options(cs, map, a, ap, abilities, n)[k] {
                PlayerActionChoice::UseAbility { ability, target, .. } => {
                    &&& ability.ap_cost <= ap
                    &&& match target {
                        Some(t) => t < cs.len() && is_enemy(cs[t as int]) && (ability.kind == AbilityKind::Melee ==> chebyshev(
                            cs[a].pos.unwrap(),
                            cs[t as int].pos.unwrap(),
                        ) <= 1),
                        None => ability.kind == AbilityKind::Utility,
                    }
                },
                _ => false,
            },
    decreases n,
{
    if n > 0 {
        lemma_ability_options_valid(cs, map, a, ap, abilities, n - 1);
        let prev = ability_options(cs, map, a, ap, abilities, n - 1);
        let ab = abilities[n - 1];
        let opt = ability_option(cs, map, a, ap, ab);
        lemma_target_choices_valid(cs, map, a, ab, false, cs.len() as int);
        lemma_target_choices_valid(cs, map, a, ab, true, cs.len() as int);
        let all = ability_options(cs, map, a, ap, abilities, n);
        assert forall|k: int| 0 <= k < all.len() implies match #[trigger] all[k] {
            PlayerActionChoice::UseAbility { ability, target, .. } => {
                &&& ability.ap_cost <= ap
                &&& match target {
                    Some(t) => t < cs.len() && is_enemy(cs[t as int]) && (ability.kind == AbilityKind::Melee ==> chebyshev(
                        cs[a].pos.unwrap(),
                        cs[t as int].pos.unwrap(),
                    ) <= 1),
                    None => ability.kind == AbilityKind::Utility,
                }
            },
            _ => false,
        } by {
            if k < prev.len() {
                assert(all[k] == prev[k]);
            } else {
                assert(all[k] == opt[k - prev.len()]);
            }
        }
    }
}

} // verus!
