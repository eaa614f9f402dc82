use vstd::prelude::*;

use crate::action_points::ActionPoints;
use crate::character::{Aggression, CharacterKind};
use crate::save::CombatantRole;
use crate::scripted_encounter::ScriptedFirstAction;
use crate::combat::{calc_damage, spec_calc_damage};
use crate::entity::Entity;
use crate::turn::{spec_move_ap_cost, spec_move_range_per_ap};
use crate::pending_effects::PendingEffect;
use crate::stats::Stats;
use crate::terrain::LevelMap;

verus! {

// ── Abilities ─────────────────────────────────────────────────────────────────

/// How an ability reaches its target.
#[derive(Debug, Clone, Copy, PartialEq, Eq, Structural)]
pub enum AbilityKind {
    /// Needs the target next to the user (Chebyshev distance 1).
    Melee,
    /// Any enemy in sight.
    Ranged,
    /// An ally at range.
    RangedAlly,
    /// Any combatant at range.
    RangedAny,
    /// No target, or the user itself.
    Utility,
}

/// What an ability does.
#[derive(Debug, Clone, Copy, PartialEq, Eq, Structural)]
pub enum AbilityEffect {
    /// Normal damage plus a flat bonus.
    BonusDamage { bonus: i32 },
    /// Damage that ignores `pierce_percent` percent of the target's defense.
    ArmorPiercing { pierce_percent: u8 },
    /// Armor-piercing damage plus a flat bonus.
    ArmorPiercingStrike { pierce_percent: u8, bonus: i32 },
    /// Restores hit points to the target (the user when there is none).
    Heal { amount: i32 },
    /// Takes up to `amount` AP from the target.
    DrainAP { amount: i32 },
    /// Gives the user extra AP, beyond its maximum if need be.
    GrantAP { amount: i32 },
    /// Pushes the target back and deals heavy damage `delay_rounds` rounds later.
    Displacement { delay_rounds: u32 },
    /// A burst of AP now, paid back by a drain next round.
    Acceleration { bonus_ap: i32, drain_ap_next: i32 },
    /// Unconditional damage equal to the user's attack, ignoring defense and cover.
    EntropicRounds,
    /// Repeats the target's last ability at no cost, or strikes normally.
    EchoStrike,
    /// Snaps the target back to where it stood before its last move.
    TemporalRecall,
}

/// A class ability.
#[derive(Debug, Clone, Copy)]
pub struct Ability {
    pub name: &'static str,
    pub ap_cost: i32,
    pub kind: AbilityKind,
    pub effect: AbilityEffect,
}

/// Hit points of a combatant.
#[derive(Debug, Clone, Copy, PartialEq, Eq, Structural)]
pub struct Health {
    pub current: i32,
    pub max: i32,
}

/// Everything a battle knows about one combatant; a part it lacks is `None`.
#[derive(Debug, Clone, Copy)]
pub struct Combatant {
    pub entity: Entity,
    pub ap: Option<ActionPoints>,
    pub pos: Option<(i32, i32)>,
    pub health: Option<Health>,
    pub stats: Option<Stats>,
    /// Where the combatant stood before its last move, if it has moved since.
    pub last_pos: Option<(i32, i32)>,
    /// The last ability the combatant used successfully.
    pub last_used: Option<Ability>,
    /// Who the combatant is and how it stands toward the party, when it is a character.
    pub character: Option<(CharacterKind, Aggression)>,
    /// The ability a scripted encounter has it open with, if any.
    pub first_action: Option<ScriptedFirstAction>,
    /// The character's level.
    pub level: u32,
    /// The part it plays in the battle.
    pub role: CombatantRole,
}

/// The state of a battle: its combatants, the effects waiting for a later round,
/// and the level map when there is one.
#[derive(Debug, Clone)]
pub struct Battle {
    pub combatants: Vec<Combatant>,
    pub pending: Vec<PendingEffect>,
    pub map: Option<LevelMap>,
}

/// One action that occurred during a combatant's turn; combatants are given by index.
#[derive(Debug, Clone, Copy)]
pub enum TurnAction {
    Move { to: (i32, i32) },
    /// `value` is the primary numeric result (damage, HP restored, AP drained or gained).
    UseAbility { ability_name: &'static str, target: Option<usize>, value: i32, hit: bool },
    /// Displacement hit: the target was pushed and delayed damage is pending.
    DisplacementQueued {
        target: usize,
        pending_damage: i32,
        resolve_round: u32,
        pushed_to: Option<(i32, i32)>,
    },
    /// Acceleration AP burst applied to the actor.
    AccelerationApplied { actor: usize, bonus_ap: i32 },
    /// Temporal Recall: the target snapped back to a previous position.
    TemporalRecalled { target: usize, from: (i32, i32), to: (i32, i32) },
}

// ── Reading and changing combatants ───────────────────────────────────────────

/// Whether the combatant has hit points left.
pub open spec fn alive(c: Combatant) -> bool {
    match c.health {
        Some(h) => h.current > 0,
        None => false,
    }
}

/// Current AP, 0 without an AP pool.
pub open spec fn ap_now(c: Combatant) -> int {
    match c.ap {
        Some(a) => a.current as int,
        None => 0,
    }
}

/// Attack stat, `d` without stats.
pub open spec fn attack_or(c: Combatant, d: i32) -> i32 {
    match c.stats {
        Some(s) => s.attack,
        None => d,
    }
}

/// Defense stat, 0 without stats.
pub open spec fn defense_of(c: Combatant) -> i32 {
    match c.stats {
        Some(s) => s.defense,
        None => 0,
    }
}

/// The combatant with another AP pool.
pub open spec fn with_ap(c: Combatant, ap: Option<ActionPoints>) -> Combatant {
    Combatant { entity: c.entity, ap, pos: c.pos, health: c.health, stats: c.stats, last_pos: c.last_pos, last_used: c.last_used, character: c.character, first_action: c.first_action, level: c.level, role: c.role }
}

/// The combatant with other hit points.
pub open spec fn with_health(c: Combatant, health: Option<Health>) -> Combatant {
    Combatant { entity: c.entity, ap: c.ap, pos: c.pos, health, stats: c.stats, last_pos: c.last_pos, last_used: c.last_used, character: c.character, first_action: c.first_action, level: c.level, role: c.role }
}

/// The combatant at another position, with another last position.
pub open spec fn with_pos(c: Combatant, pos: Option<(i32, i32)>, last_pos: Option<(i32, i32)>) -> Combatant {
    Combatant { entity: c.entity, ap: c.ap, pos, health: c.health, stats: c.stats, last_pos, last_used: c.last_used, character: c.character, first_action: c.first_action, level: c.level, role: c.role }
}

/// The combatant with another last used ability.
pub open spec fn with_last_used(c: Combatant, a: Option<Ability>) -> Combatant {
    Combatant { entity: c.entity, ap: c.ap, pos: c.pos, health: c.health, stats: c.stats, last_pos: c.last_pos, last_used: a, character: c.character, first_action: c.first_action, level: c.level, role: c.role }
}

/// `ActionPoints::spend`: `cost` is taken when the pool holds that much.
pub open spec fn spend_ap(c: Combatant, cost: i32) -> Combatant {
    match c.ap {
        Some(a) => if a.current >= cost {
            with_ap(c, Some(ActionPoints { current: (a.current - cost) as i32, max: a.max }))
        } else {
            c
        },
        None => c,
    }
}

/// AP added on top of the pool (it may exceed the maximum).
pub open spec fn add_ap(c: Combatant, amount: i32) -> Combatant {
    match c.ap {
        Some(a) => with_ap(c, Some(ActionPoints { current: (a.current + amount) as i32, max: a.max })),
        None => c,
    }
}

/// Damage taken: hit points drop by `d`, not below 0.
pub open spec fn hurt(c: Combatant, d: i32) -> Combatant {
    match c.health {
        Some(h) => with_health(
            c,
            Some(Health { current: if h.current - d > 0 { (h.current - d) as i32 } else { 0 }, max: h.max }),
        ),
        None => c,
    }
}

/// Healing: hit points rise by `amount`, not above the maximum.
pub open spec fn healed(c: Combatant, amount: i32) -> Combatant {
    match c.health {
        Some(h) => with_health(
            c,
            Some(Health { current: if h.current + amount < h.max { (h.current + amount) as i32 } else { h.max }, max: h.max }),
        ),
        None => c,
    }
}

/// Defense left after ignoring `pct` percent of it (rounded toward zero).
pub open spec fn pierced(defense: i32, pct: u8) -> int {
    let v = defense * (100 - pct);
    if v >= 0 { v / 100 } else { -((-v) / 100) }
}

/// Damage of a normal hit on `t` by `a`, on defense `def`.
pub open spec fn hit_damage(a: Combatant, def: i32) -> int {
    spec_calc_damage(attack_or(a, 0), def)
}

// ── The board ─────────────────────────────────────────────────────────────────

/// Whether a living combatant other than number `skip` stands at `(x, y)`.
pub open spec fn occupied_by_other(cs: Seq<Combatant>, skip: int, x: int, y: int) -> bool {
    exists|i: int| 0 <= i < cs.len() && i != skip && alive(#[trigger] cs[i]) && cs[i].pos == Some((x as i32, y as i32))
        && i32::MIN <= x <= i32::MAX && i32::MIN <= y <= i32::MAX
}

/// Whether `(x, y)` is on the map (any non-negative cell without a map).
pub open spec fn on_board(map: Option<LevelMap>, x: int, y: int) -> bool {
    match map {
        Some(m) => 0 <= x < m.cols as i32 && 0 <= y < m.rows as i32,
        None => 0 <= x < i32::MAX && 0 <= y < i32::MAX,
    }
}

/// Whether `(x, y)` can be walked on (anything without a map).
pub open spec fn walkable(map: Option<LevelMap>, x: int, y: int) -> bool {
    match map {
        Some(m) => m.passable_at(x, y),
        None => true,
    }
}

/// Sign of an integer.
pub open spec fn sign(v: int) -> int {
    if v > 0 { 1 } else if v < 0 { -1 } else { 0 }
}

/// Whether a push of the target at `tp` away from `ap` by `dist` tiles lands on a free
/// walkable cell of the board.
pub open spec fn push_ok(cs: Seq<Combatant>, map: Option<LevelMap>, t: int, ap: (i32, i32), tp: (i32, i32), dist: int) -> bool {
    let x = tp.0 + sign(tp.0 - ap.0) * dist;
    let y = tp.1 + sign(tp.1 - ap.1) * dist;
    on_board(map, x, y) && !occupied_by_other(cs, t, x, y) && walkable(map, x, y)
}

/// Where a Displacement pushes its target: two tiles away from the user if that cell
/// is free, else one, else nowhere.
pub open spec fn push_dest(cs: Seq<Combatant>, map: Option<LevelMap>, t: int, a: int) -> Option<(i32, i32)> {
    match (cs[a].pos, cs[t].pos) {
        (Some(ap), Some(tp)) => if push_ok(cs, map, t, ap, tp, 2) {
            Some(((tp.0 + sign(tp.0 - ap.0) * 2) as i32, (tp.1 + sign(tp.1 - ap.1) * 2) as i32))
        } else if push_ok(cs, map, t, ap, tp, 1) {
            Some(((tp.0 + sign(tp.0 - ap.0)) as i32, (tp.1 + sign(tp.1 - ap.1)) as i32))
        } else {
            None
        },
        _ => None,
    }
}

/// The result of an ability: the combatants, the pending effects and what happened
/// (`None` when the ability was refused).
pub struct Outcome {
    pub cs: Seq<Combatant>,
    pub pending: Seq<PendingEffect>,
    pub action: Option<TurnAction>,
}

/// Nothing happened beyond the given combatants.
pub open spec fn refused(cs: Seq<Combatant>, pending: Seq<PendingEffect>) -> Outcome {
    Outcome { cs, pending, action: None }
}

/// A damaging strike on `t` with damage `dmg` when it hits.
pub open spec fn strike(cs: Seq<Combatant>, pending: Seq<PendingEffect>, ab: Ability, t: int, dmg: int, hit: bool) -> Outcome {
    let d = if hit { dmg } else { 0 };
    Outcome {
        cs: if hit { cs.update(t, hurt(cs[t], d as i32)) } else { cs },
        pending,
        action: Some(TurnAction::UseAbility { ability_name: ab.name, target: Some(t as usize), value: d as i32, hit }),
    }
}

/// The effect of ability `ab` (other than Echo Strike) used by `a` on `target`, once its
/// AP and range have been checked; `hit` is the hit roll.
pub open spec fn effect_outcome(
    cs: Seq<Combatant>,
    pending: Seq<PendingEffect>,
    map: Option<LevelMap>,
    a: int,
    ab: Ability,
    target: Option<usize>,
    hit: bool,
    round: u32,
) -> Outcome {
    let sp = cs.update(a, spend_ap(cs[a], ab.ap_cost));
    match ab.effect {
        AbilityEffect::BonusDamage { bonus } => match target {
            Some(t) => if !alive(cs[t as int]) || cs[a].ap is None {
                refused(cs, pending)
            } else {
                strike(sp, pending, ab, t as int, hit_damage(sp[a], defense_of(sp[t as int])) + bonus, hit)
            },
            None => refused(cs, pending),
        },
        AbilityEffect::ArmorPiercing { pierce_percent } => match target {
            Some(t) => if !alive(cs[t as int]) || cs[a].ap is None {
                refused(cs, pending)
            } else {
                strike(sp, pending, ab, t as int, hit_damage(sp[a], pierced(defense_of(sp[t as int]), pierce_percent) as i32), hit)
            },
            None => refused(cs, pending),
        },
        AbilityEffect::ArmorPiercingStrike { pierce_percent, bonus } => match target {
            Some(t) => if !alive(cs[t as int]) || cs[a].ap is None {
                refused(cs, pending)
            } else {
                strike(
                    sp,
                    pending,
                    ab,
                    t as int,
                    hit_damage(sp[a], pierced(defense_of(sp[t as int]), pierce_percent) as i32) + bonus,
                    hit,
                )
            },
            None => refused(cs, pending),
        },
        AbilityEffect::Heal { amount } => {
            let te = match target {
                Some(t) => t as int,
                None => a,
            };
            if cs[a].ap is None {
                refused(cs, pending)
            } else if sp[te].health is None {
                refused(sp, pending)
            } else {
                Outcome {
                    cs: sp.update(te, healed(sp[te], amount)),
                    pending,
                    action: Some(TurnAction::UseAbility { ability_name: ab.name, target: Some(te as usize), value: amount, hit: true }),
                }
            }
        },
        AbilityEffect::DrainAP { amount } => match target {
            Some(t) => if cs[a].ap is None {
                refused(cs, pending)
            } else {
                let avail = ap_now(sp[t as int]);
                let drained = if amount < avail { amount as int } else { avail };
                if sp[t as int].ap is None {
                    refused(sp, pending)
                } else {
                    Outcome {
                        cs: sp.update(t as int, spend_ap(sp[t as int], drained as i32)),
                        pending,
                        action: Some(TurnAction::UseAbility { ability_name: ab.name, target: target, value: drained as i32, hit: true }),
                    }
                }
            },
            None => refused(cs, pending),
        },
        AbilityEffect::GrantAP { amount } => if cs[a].ap is None {
            refused(cs, pending)
        } else {
            Outcome {
                cs: sp.update(a, add_ap(sp[a], amount)),
                pending,
                action: Some(TurnAction::UseAbility { ability_name: ab.name, target: None, value: amount, hit: true }),
            }
        },
        AbilityEffect::Displacement { delay_rounds } => match target {
            Some(t) => if !alive(cs[t as int]) || cs[a].ap is None {
                refused(cs, pending)
            } else if !hit {
                Outcome {
                    cs: sp,
                    pending,
                    action: Some(TurnAction::UseAbility { ability_name: ab.name, target: target, value: 0, hit: false }),
                }
            } else {
                let dmg = (hit_damage(sp[a], defense_of(sp[t as int])) + 15) as i32;
                let resolve = (round + delay_rounds) as u32;
                let dest = push_dest(sp, map, t as int, a);
                Outcome {
                    cs: match dest {
                        Some(d) => sp.update(t as int, with_pos(sp[t as int], Some(d), sp[t as int].last_pos)),
                        None => sp,
                    },
                    pending: pending.push(PendingEffect::DelayedDamage { target: sp[t as int].entity, damage: dmg, resolve_on_round: resolve }),
                    action: Some(TurnAction::DisplacementQueued { target: t, pending_damage: dmg, resolve_round: resolve, pushed_to: dest }),
                }
            },
            None => refused(cs, pending),
        },
        AbilityEffect::Acceleration { bonus_ap, drain_ap_next } => if cs[a].ap is None {
            refused(cs, pending)
        } else {
            Outcome {
                cs: sp.update(a, add_ap(sp[a], bonus_ap)),
                pending: pending.push(PendingEffect::DrainAP { target: cs[a].entity, amount: drain_ap_next, resolve_on_round: (round + 1) as u32 }),
                action: Some(TurnAction::AccelerationApplied { actor: a as usize, bonus_ap }),
            }
        },
        AbilityEffect::EntropicRounds => match target {
            Some(t) => if !alive(cs[t as int]) || cs[a].ap is None {
                refused(cs, pending)
            } else {
                let atk = attack_or(sp[a], 1);
                let dmg: i32 = if atk > 1 { atk } else { 1 };
                Outcome {
                    cs: sp.update(t as int, hurt(sp[t as int], dmg)),
                    pending,
                    action: Some(TurnAction::UseAbility { ability_name: ab.name, target: target, value: dmg, hit: true }),
                }
            },
            None => refused(cs, pending),
        },
        AbilityEffect::TemporalRecall => match target {
            Some(t) => if !alive(cs[t as int]) {
                refused(cs, pending)
            } else {
                match (cs[t as int].last_pos, cs[t as int].pos) {
                    (Some(lp), Some(from)) => if occupied_by_other(cs, t as int, lp.0 as int, lp.1 as int)
                        || !walkable(map, lp.0 as int, lp.1 as int) || cs[a].ap is None {
                        refused(cs, pending)
                    } else {
                        Outcome {
                            cs: sp.update(t as int, with_pos(sp[t as int], Some(lp), None)),
                            pending,
                            action: Some(TurnAction::TemporalRecalled { target: t, from, to: lp }),
                        }
                    },
                    _ => refused(cs, pending),
                }
            },
            None => refused(cs, pending),
        },
        AbilityEffect::EchoStrike => refused(cs, pending),
    }
}

/// Whether a melee ability from `a` cannot reach `target` (both placed, more than one
/// tile apart in either direction).
pub open spec fn out_of_melee_range(cs: Seq<Combatant>, a: int, ab: Ability, target: Option<usize>) -> bool {
    ab.kind == AbilityKind::Melee && match target {
        Some(t) => match (cs[a].pos, cs[t as int].pos) {
            (Some(p), Some(q)) => {
                let dx = if p.0 - q.0 >= 0 { p.0 - q.0 } else { q.0 - p.0 };
                let dy = if p.1 - q.1 >= 0 { p.1 - q.1 } else { q.1 - p.1 };
                dx > 1 || dy > 1
            },
            _ => false,
        },
        None => false,
    }
}

/// Records the ability as the user's last one when it was carried out.
pub open spec fn recorded(o: Outcome, a: int, ab: Ability) -> Outcome {
    if o.action is Some {
        Outcome { cs: o.cs.update(a, with_last_used(o.cs[a], Some(ab))), pending: o.pending, action: o.action }
    } else {
        o
    }
}

/// A non-echo ability in full: refused without enough AP or out of melee range, else
/// its effect, recorded as the user's last ability when carried out.
pub open spec fn plain_outcome(
    cs: Seq<Combatant>,
    pending: Seq<PendingEffect>,
    map: Option<LevelMap>,
    a: int,
    ab: Ability,
    target: Option<usize>,
    hit: bool,
    round: u32,
) -> Outcome {
    if ap_now(cs[a]) < ab.ap_cost || out_of_melee_range(cs, a, ab, target) {
        refused(cs, pending)
    } else {
        recorded(effect_outcome(cs, pending, map, a, ab, target, hit, round), a, ab)
    }
}

/// The ability the target used last, at no cost, when Echo Strike can repeat it.
pub open spec fn echo_of(c: Combatant) -> Option<Ability> {
    match c.last_used {
        Some(l) => if l.effect == AbilityEffect::EchoStrike {
            None
        } else {
            Some(Ability { name: l.name, ap_cost: 0, kind: l.kind, effect: l.effect })
        },
        None => None,
    }
}

/// Using ability `ab` by combatant `a` on `target`, with hit roll `hit` in round `round`.
/// Echo Strike spends its AP and then repeats the target's last ability at no cost, or,
/// when there is none to repeat, strikes with plain damage.
pub open spec fn spec_apply_ability(
    cs: Seq<Combatant>,
    pending: Seq<PendingEffect>,
    map: Option<LevelMap>,
    a: int,
    ab: Ability,
    target: Option<usize>,
    hit: bool,
    round: u32,
) -> Outcome {
    if ab.effect != AbilityEffect::EchoStrike {
        plain_outcome(cs, pending, map, a, ab, target, hit, round)
    } else if ap_now(cs[a]) < ab.ap_cost || out_of_melee_range(cs, a, ab, target) {
        refused(cs, pending)
    } else {
        match target {
            Some(t) => if !alive(cs[t as int]) || cs[a].ap is None {
                refused(cs, pending)
            } else {
                let sp = cs.update(a, spend_ap(cs[a], ab.ap_cost));
                let inner = match echo_of(sp[t as int]) {
                    Some(e) => plain_outcome(sp, pending, map, a, e, target, hit, round),
                    None => strike(sp, pending, ab, t as int, hit_damage(sp[a], defense_of(sp[t as int])), hit),
                };
                recorded(inner, a, ab)
            },
            None => refused(cs, pending),
        }
    }
}


// ── When the arithmetic fits ──────────────────────────────────────────────────

/// `ActionPoints::spend` on `c` stays within `i32`.
pub open spec fn spend_fits(c: Combatant, cost: int) -> bool {
    match c.ap {
        Some(p) => p.current >= cost ==> i32::MIN <= p.current - cost <= i32::MAX,
        None => true,
    }
}

/// Adding `amount` AP to `c` stays within `i32`.
pub open spec fn add_fits(c: Combatant, amount: int) -> bool {
    match c.ap {
        Some(p) => i32::MIN <= p.current + amount <= i32::MAX,
        None => true,
    }
}

/// `d` damage to `c` stays within `i32`.
pub open spec fn hurt_fits(c: Combatant, d: int) -> bool {
    match c.health {
        Some(h) => i32::MIN <= h.current - d <= i32::MAX,
        None => true,
    }
}

/// Healing `c` by `amount` stays within `i32`.
pub open spec fn heal_fits(c: Combatant, amount: int) -> bool {
    match c.health {
        Some(h) => i32::MIN <= h.current + amount <= i32::MAX,
        None => true,
    }
}

/// A normal hit of `a` on defense `def`, plus `bonus`, stays within `i32`.
pub open spec fn damage_fits(a: Combatant, def: int, bonus: int) -> bool {
    &&& i32::MIN <= def <= i32::MAX
    &&& i32::MIN <= attack_or(a, 0) - crate::combat::half_toward_zero(def) <= i32::MAX
    &&& i32::MIN <= spec_calc_damage(attack_or(a, 0), def as i32) + bonus <= i32::MAX
}

/// A strike of `dmg` on `t` when it hits stays within `i32`.
pub open spec fn strike_fits(cs: Seq<Combatant>, t: int, def: int, bonus: int, a: int, hit: bool) -> bool {
    &&& damage_fits(cs[a], def, bonus)
    &&& hit ==> hurt_fits(cs[t], spec_calc_damage(attack_or(cs[a], 0), def as i32) + bonus)
}

/// The push of a Displacement stays within `i32`.
pub open spec fn push_fits(cs: Seq<Combatant>, t: int, a: int) -> bool {
    match (cs[a].pos, cs[t].pos) {
        (Some(ap), Some(tp)) => {
            &&& i32::MIN <= tp.0 - ap.0 <= i32::MAX
            &&& i32::MIN <= tp.1 - ap.1 <= i32::MAX
            &&& i32::MIN <= tp.0 - 2 && tp.0 + 2 <= i32::MAX
            &&& i32::MIN <= tp.1 - 2 && tp.1 + 2 <= i32::MAX
        },
        _ => true,
    }
}

/// The arithmetic of a non-echo ability's effect stays within its integer types.
pub open spec fn effect_fits(
    cs: Seq<Combatant>,
    a: int,
    ab: Ability,
    target: Option<usize>,
    hit: bool,
    round: u32,
) -> bool {
    let sp = cs.update(a, spend_ap(cs[a], ab.ap_cost));
    &&& spend_fits(cs[a], ab.ap_cost as int)
    &&& match ab.effect {
        AbilityEffect::BonusDamage { bonus } => match target {
            Some(t) => strike_fits(sp, t as int, defense_of(sp[t as int]) as int, bonus as int, a, hit),
            None => true,
        },
        AbilityEffect::ArmorPiercing { pierce_percent } => match target {
            Some(t) => strike_fits(sp, t as int, pierced(defense_of(sp[t as int]), pierce_percent), 0, a, hit),
            None => true,
        },
        AbilityEffect::ArmorPiercingStrike { pierce_percent, bonus } => match target {
            Some(t) => strike_fits(sp, t as int, pierced(defense_of(sp[t as int]), pierce_percent), bonus as int, a, hit),
            None => true,
        },
        AbilityEffect::Heal { amount } => heal_fits(
            sp[match target {
                Some(t) => t as int,
                None => a,
            }],
            amount as int,
        ),
        AbilityEffect::DrainAP { amount } => match target {
            Some(t) => spend_fits(sp[t as int], if amount < ap_now(sp[t as int]) { amount as int } else { ap_now(sp[t as int]) }),
            None => true,
        },
        AbilityEffect::GrantAP { amount } => add_fits(sp[a], amount as int),
        AbilityEffect::Displacement { delay_rounds } => match target {
            Some(t) => hit ==> {
                &&& damage_fits(sp[a], defense_of(sp[t as int]) as int, 15)
                &&& round + delay_rounds <= u32::MAX
                &&& push_fits(sp, t as int, a)
            },
            None => true,
        },
        AbilityEffect::Acceleration { bonus_ap, drain_ap_next } => add_fits(sp[a], bonus_ap as int) && round + 1 <= u32::MAX,
        AbilityEffect::EntropicRounds => match target {
            Some(t) => hurt_fits(sp[t as int], if attack_or(sp[a], 1) > 1 { attack_or(sp[a], 1) as int } else { 1 }),
            None => true,
        },
        _ => true,
    }
}

/// The melee range check stays within `i32`.
pub open spec fn range_fits(cs: Seq<Combatant>, a: int, target: Option<usize>) -> bool {
    match target {
        Some(t) => match (cs[a].pos, cs[t as int].pos) {
            (Some(p), Some(q)) => i32::MIN < p.0 - q.0 <= i32::MAX && i32::MIN < p.1 - q.1 <= i32::MAX,
            _ => true,
        },
        None => true,
    }
}

/// The arithmetic of using `ab` stays within its integer types, as the game needs.
pub open spec fn apply_fits(
    cs: Seq<Combatant>,
    a: int,
    ab: Ability,
    target: Option<usize>,
    hit: bool,
    round: u32,
) -> bool {
    &&& ab.kind == AbilityKind::Melee ==> range_fits(cs, a, target)
    &&& if ab.effect != AbilityEffect::EchoStrike {
        effect_fits(cs, a, ab, target, hit, round)
    } else {
        let sp = cs.update(a, spend_ap(cs[a], ab.ap_cost));
        &&& spend_fits(cs[a], ab.ap_cost as int)
        &&& match target {
            Some(t) => match echo_of(sp[t as int]) {
                Some(e) => (e.kind == AbilityKind::Melee ==> range_fits(sp, a, target)) && effect_fits(sp, a, e, target, hit, round),
                None => strike_fits(sp, t as int, defense_of(sp[t as int]) as int, 0, a, hit),
            },
            None => true,
        }
    }
}

// ── Carrying abilities out ────────────────────────────────────────────────────

impl Battle {
    /// The level map, when present, is consistent.
    pub open spec fn wf(&self) -> bool {
        match self.map {
            Some(m) => m.wf(),
            None => true,
        }
    }
}

fn spend_c(c: Combatant, cost: i32) -> (r: Combatant)
    requires
        spend_fits(c, cost as int),
    ensures
        r == spend_ap(c, cost),
{
    match c.ap {
        Some(p) => if p.current >= cost {
            Combatant { ap: Some(ActionPoints { current: p.current - cost, max: p.max }), ..c }
        } else {
            c
        },
        None => c,
    }
}

fn add_c(c: Combatant, amount: i32) -> (r: Combatant)
    requires
        add_fits(c, amount as int),
    ensures
        r == add_ap(c, amount),
{
    match c.ap {
        Some(p) => Combatant { ap: Some(ActionPoints { current: p.current + amount, max: p.max }), ..c },
        None => c,
    }
}

fn hurt_c(c: Combatant, d: i32) -> (r: Combatant)
    requires
        hurt_fits(c, d as int),
    ensures
        r == hurt(c, d),
{
    match c.health {
        Some(h) => {
            let v = h.current - d;
            Combatant { health: Some(Health { current: if v > 0 { v } else { 0 }, max: h.max }), ..c }
        },
        None => c,
    }
}

fn heal_c(c: Combatant, amount: i32) -> (r: Combatant)
    requires
        heal_fits(c, amount as int),
    ensures
        r == healed(c, amount),
{
    match c.health {
        Some(h) => {
            let v = h.current + amount;
            Combatant { health: Some(Health { current: if v < h.max { v } else { h.max }, max: h.max }), ..c }
        },
        None => c,
    }
}

pub(crate) fn alive_c(c: &Combatant) -> (b: bool)
    ensures
        b == alive(*c),
{
    match c.health {
        Some(h) => h.current > 0,
        None => false,
    }
}

pub(crate) fn ap_now_c(c: &Combatant) -> (r: i32)
    ensures
        r == ap_now(*c),
{
    match c.ap {
        Some(p) => p.current,
        None => 0,
    }
}

pub(crate) fn attack_c(c: &Combatant, d: i32) -> (r: i32)
    ensures
        r == attack_or(*c, d),
{
    match c.stats {
        Some(s) => s.attack,
        None => d,
    }
}

pub(crate) fn defense_c(c: &Combatant) -> (r: i32)
    ensures
        r == defense_of(*c),
{
    match c.stats {
        Some(s) => s.defense,
        None => 0,
    }
}

pub(crate) fn pierced_c(def: i32, pct: u8) -> (r: i64)
    ensures
        r == pierced(def, pct),
{
    let f: i64 = 100 - pct as i64;
    assert(-0x1_0000_0000_0000 <= (def as i64) * f <= 0x1_0000_0000_0000) by (nonlinear_arith)
        requires
            -0x8000_0000 <= def <= 0x7fff_ffff,
            -155 <= f <= 100,
    ;
    let v: i64 = (def as i64) * f;
    if v >= 0 {
        v / 100
    } else {
        -((-v) / 100)
    }
}

pub(crate) fn occupied_c(cs: &Vec<Combatant>, skip: usize, x: i32, y: i32) -> (b: bool)
    ensures
        b == occupied_by_other(cs@, skip as int, x as int, y as int),
{
    let mut i: usize = 0;
    while i < cs.len()
        invariant
            i <= cs@.len(),
            forall|j: int|
                0 <= j < i ==> !(j != skip && alive(#[trigger] cs@[j]) && cs@[j].pos == Some((x, y))),
        decreases cs@.len() - i,
    {
        let c = &cs[i];
        if i != skip && alive_c(c) {
            match c.pos {
                Some(p) => {
                    if p.0 == x && p.1 == y {
                        return true;
                    }
                },
                None => {},
            }
        }
        i = i + 1;
    }
    false
}

fn on_board_c(map: &Option<LevelMap>, x: i32, y: i32) -> (b: bool)
    ensures
        b == on_board(*map, x as int, y as int),
{
    match map {
        Some(m) => 0 <= x && x < m.cols as i32 && 0 <= y && y < m.rows as i32,
        None => 0 <= x && x < i32::MAX && 0 <= y && y < i32::MAX,
    }
}

fn walkable_c(map: &Option<LevelMap>, x: i32, y: i32) -> (b: bool)
    requires
        match *map {
            Some(m) => m.wf(),
            None => true,
        },
    ensures
        b == walkable(*map, x as int, y as int),
{
    match map {
        Some(m) => m.is_passable(x, y),
        None => true,
    }
}

fn sign_c(v: i32) -> (r: i32)
    ensures
        r == sign(v as int),
{
    if v > 0 {
        1
    } else if v < 0 {
        -1
    } else {
        0
    }
}

fn push_dest_c(b: &Battle, t: usize, a: usize) -> (r: Option<(i32, i32)>)
    requires
        b.wf(),
        t < b.combatants@.len(),
        a < b.combatants@.len(),
        push_fits(b.combatants@, t as int, a as int),
    ensures
        r == push_dest(b.combatants@, b.map, t as int, a as int),
{
    match (b.combatants[a].pos, b.combatants[t].pos) {
        (Some(ap), Some(tp)) => {
            let sx = sign_c(tp.0 - ap.0);
            let sy = sign_c(tp.1 - ap.1);
            let x2 = tp.0 + sx * 2;
            let y2 = tp.1 + sy * 2;
            if on_board_c(&b.map, x2, y2) && !occupied_c(&b.combatants, t, x2, y2) && walkable_c(&b.map, x2, y2) {
                return Some((x2, y2));
            }
            let x1 = tp.0 + sx;
            let y1 = tp.1 + sy;
            if on_board_c(&b.map, x1, y1) && !occupied_c(&b.combatants, t, x1, y1) && walkable_c(&b.map, x1, y1) {
                return Some((x1, y1));
            }
            None
        },
        _ => None,
    }
}

/// A damaging strike: `dmg` on `t` when it hits.
fn strike_c(b: &mut Battle, ab: &Ability, t: usize, dmg: i32, hit: bool) -> (r: Option<TurnAction>)
    requires
        t < old(b).combatants@.len(),
        hit ==> hurt_fits(old(b).combatants@[t as int], dmg as int),
    ensures
        ({
            let o = strike(old(b).combatants@, old(b).pending@, *ab, t as int, dmg as int, hit);
            &&& final(b).combatants@ == o.cs
            &&& final(b).pending@ == o.pending
            &&& r == o.action
        }),
        final(b).map == old(b).map,
{
    let d = if hit { dmg } else { 0 };
    if hit {
        let c = hurt_c(b.combatants[t], d);
        b.combatants.set(t, c);
    }
    Some(TurnAction::UseAbility { ability_name: ab.name, target: Some(t), value: d, hit })
}

/// Normal damage of `a` on defense `def`, plus `bonus`.
fn damage_c(b: &Battle, a: usize, def: i32, bonus: i32) -> (r: i32)
    requires
        a < b.combatants@.len(),
        damage_fits(b.combatants@[a as int], def as int, bonus as int),
    ensures
        r == hit_damage(b.combatants@[a as int], def) + bonus,
{
    calc_damage(attack_c(&b.combatants[a], 0), def) + bonus
}

/// Carry out the effect of ability `ab` (not Echo Strike) by `a` on `target`.
fn effect_c(b: &mut Battle, a: usize, ab: &Ability, target: Option<usize>, hit: bool, round: u32) -> (r: Option<TurnAction>)
    requires
        old(b).wf(),
        a < old(b).combatants@.len(),
        match target {
            Some(t) => t < old(b).combatants@.len(),
            None => true,
        },
        effect_fits(old(b).combatants@, a as int, *ab, target, hit, round),
    ensures
        ({
            let o = effect_outcome(old(b).combatants@, old(b).pending@, old(b).map, a as int, *ab, target, hit, round);
            &&& final(b).combatants@ == o.cs
            &&& final(b).pending@ == o.pending
            &&& r == o.action
        }),
        final(b).map == old(b).map,
        final(b).wf(),
{
    let has_ap = b.combatants[a].ap.is_some();
    match ab.effect {
        AbilityEffect::BonusDamage { bonus } => match target {
            Some(t) => {
                if !alive_c(&b.combatants[t]) || !has_ap {
                    return None;
                }
                let c = spend_c(b.combatants[a], ab.ap_cost);
                b.combatants.set(a, c);
                let def = defense_c(&b.combatants[t]);
                let dmg = damage_c(b, a, def, bonus);
                strike_c(b, ab, t, dmg, hit)
            },
            None => None,
        },
        AbilityEffect::ArmorPiercing { pierce_percent } => match target {
            Some(t) => {
                if !alive_c(&b.combatants[t]) || !has_ap {
                    return None;
                }
                let c = spend_c(b.combatants[a], ab.ap_cost);
                b.combatants.set(a, c);
                let def = pierced_c(defense_c(&b.combatants[t]), pierce_percent) as i32;
                let dmg = damage_c(b, a, def, 0);
                strike_c(b, ab, t, dmg, hit)
            },
            None => None,
        },
        AbilityEffect::ArmorPiercingStrike { pierce_percent, bonus } => match target {
            Some(t) => {
                if !alive_c(&b.combatants[t]) || !has_ap {
                    return None;
                }
                let c = spend_c(b.combatants[a], ab.ap_cost);
                b.combatants.set(a, c);
                let def = pierced_c(defense_c(&b.combatants[t]), pierce_percent) as i32;
                let dmg = damage_c(b, a, def, bonus);
                strike_c(b, ab, t, dmg, hit)
            },
            None => None,
        },
        AbilityEffect::Heal { amount } => {
            let te = match target {
                Some(t) => t,
                None => a,
            };
            if !has_ap {
                return None;
            }
            let c = spend_c(b.combatants[a], ab.ap_cost);
            b.combatants.set(a, c);
            if b.combatants[te].health.is_none() {
                return None;
            }
            let h = heal_c(b.combatants[te], amount);
            b.combatants.set(te, h);
            Some(TurnAction::UseAbility { ability_name: ab.name, target: Some(te), value: amount, hit: true })
        },
        AbilityEffect::DrainAP { amount } => match target {
            Some(t) => {
                if !has_ap {
                    return None;
                }
                let c = spend_c(b.combatants[a], ab.ap_cost);
                b.combatants.set(a, c);
                let avail = ap_now_c(&b.combatants[t]);
                let drained = if amount < avail { amount } else { avail };
                if b.combatants[t].ap.is_none() {
                    return None;
                }
                let d = spend_c(b.combatants[t], drained);
                b.combatants.set(t, d);
                Some(TurnAction::UseAbility { ability_name: ab.name, target, value: drained, hit: true })
            },
            None => None,
        },
        AbilityEffect::GrantAP { amount } => {
            if !has_ap {
                return None;
            }
            let c = spend_c(b.combatants[a], ab.ap_cost);
            b.combatants.set(a, c);
            let g = add_c(b.combatants[a], amount);
            b.combatants.set(a, g);
            Some(TurnAction::UseAbility { ability_name: ab.name, target: None, value: amount, hit: true })
        },
        AbilityEffect::Displacement { delay_rounds } => match target {
            Some(t) => {
                if !alive_c(&b.combatants[t]) || !has_ap {
                    return None;
                }
                let c = spend_c(b.combatants[a], ab.ap_cost);
                b.combatants.set(a, c);
                if !hit {
                    return Some(TurnAction::UseAbility { ability_name: ab.name, target, value: 0, hit: false });
                }
                let def = defense_c(&b.combatants[t]);
                let dmg = damage_c(b, a, def, 15);
                let resolve = round + delay_rounds;
                let dest = push_dest_c(b, t, a);
                let victim = b.combatants[t].entity;
                b.pending.push(PendingEffect::DelayedDamage { target: victim, damage: dmg, resolve_on_round: resolve });
                match dest {
                    Some(d) => {
                        let moved = Combatant { pos: Some(d), ..b.combatants[t] };
                        b.combatants.set(t, moved);
                    },
                    None => {},
                }
                Some(TurnAction::DisplacementQueued { target: t, pending_damage: dmg, resolve_round: resolve, pushed_to: dest })
            },
            None => None,
        },
        AbilityEffect::Acceleration { bonus_ap, drain_ap_next } => {
            if !has_ap {
                return None;
            }
            let me = b.combatants[a].entity;
            let c = spend_c(b.combatants[a], ab.ap_cost);
            b.combatants.set(a, c);
            let g = add_c(b.combatants[a], bonus_ap);
            b.combatants.set(a, g);
            b.pending.push(PendingEffect::DrainAP { target: me, amount: drain_ap_next, resolve_on_round: round + 1 });
            Some(TurnAction::AccelerationApplied { actor: a, bonus_ap })
        },
        AbilityEffect::EntropicRounds => match target {
            Some(t) => {
                if !alive_c(&b.combatants[t]) || !has_ap {
                    return None;
                }
                let c = spend_c(b.combatants[a], ab.ap_cost);
                b.combatants.set(a, c);
                let atk = attack_c(&b.combatants[a], 1);
                let dmg = if atk > 1 { atk } else { 1 };
                let h = hurt_c(b.combatants[t], dmg);
                b.combatants.set(t, h);
                Some(TurnAction::UseAbility { ability_name: ab.name, target, value: dmg, hit: true })
            },
            None => None,
        },
        AbilityEffect::TemporalRecall => match target {
            Some(t) => {
                if !alive_c(&b.combatants[t]) {
                    return None;
                }
                let (lp, from) = match (b.combatants[t].last_pos, b.combatants[t].pos) {
                    (Some(lp), Some(from)) => (lp, from),
                    _ => return None,
                };
                if occupied_c(&b.combatants, t, lp.0, lp.1) || !walkable_c(&b.map, lp.0, lp.1) || !has_ap {
                    return None;
                }
                let c = spend_c(b.combatants[a], ab.ap_cost);
                b.combatants.set(a, c);
                let moved = Combatant { pos: Some(lp), last_pos: None, ..b.combatants[t] };
                b.combatants.set(t, moved);
                Some(TurnAction::TemporalRecalled { target: t, from, to: lp })
            },
            None => None,
        },
        AbilityEffect::EchoStrike => None,
    }
}

/// Whether a melee ability from `a` cannot reach `target`.
fn out_of_range_c(b: &Battle, a: usize, ab: &Ability, target: Option<usize>) -> (r: bool)
    requires
        a < b.combatants@.len(),
        match target {
            Some(t) => t < b.combatants@.len(),
            None => true,
        },
        ab.kind == AbilityKind::Melee ==> range_fits(b.combatants@, a as int, target),
    ensures
        r == out_of_melee_range(b.combatants@, a as int, *ab, target),
{
    match ab.kind {
        AbilityKind::Melee => match target {
            Some(t) => match (b.combatants[a].pos, b.combatants[t].pos) {
                (Some(p), Some(q)) => {
                    let dx = p.0 - q.0;
                    let dy = p.1 - q.1;
                    let adx = if dx >= 0 { dx } else { -dx };
                    let ady = if dy >= 0 { dy } else { -dy };
                    adx > 1 || ady > 1
                },
                _ => false,
            },
            None => false,
        },
        _ => false,
    }
}

/// Record `ab` as the user's last ability.
fn record_c(b: &mut Battle, a: usize, ab: &Ability)
    requires
        a < old(b).combatants@.len(),
    ensures
        final(b).combatants@ == old(b).combatants@.update(a as int, with_last_used(old(b).combatants@[a as int], Some(*ab))),
        final(b).pending@ == old(b).pending@,
        final(b).map == old(b).map,
{
    let c = Combatant { last_used: Some(*ab), ..b.combatants[a] };
    b.combatants.set(a, c);
}

/// A non-echo ability in full (see [`plain_outcome`]).
fn plain_c(b: &mut Battle, a: usize, ab: &Ability, target: Option<usize>, hit: bool, round: u32) -> (r: Option<TurnAction>)
    requires
        old(b).wf(),
        a < old(b).combatants@.len(),
        match target {
            Some(t) => t < old(b).combatants@.len(),
            None => true,
        },
        ab.kind == AbilityKind::Melee ==> range_fits(old(b).combatants@, a as int, target),
        effect_fits(old(b).combatants@, a as int, *ab, target, hit, round),
    ensures
        ({
            let o = plain_outcome(old(b).combatants@, old(b).pending@, old(b).map, a as int, *ab, target, hit, round);
            &&& final(b).combatants@ == o.cs
            &&& final(b).pending@ == o.pending
            &&& r == o.action
        }),
        final(b).map == old(b).map,
        final(b).wf(),
{
    if ap_now_c(&b.combatants[a]) < ab.ap_cost || out_of_range_c(b, a, ab, target) {
        return None;
    }
    let r = effect_c(b, a, ab, target, hit, round);
    if r.is_some() {
        record_c(b, a, ab);
    }
    r
}

/// Use ability `ability` by combatant `actor` on `target` (or on itself, for abilities
/// that need none). `hit` is the hit roll for the abilities that roll one; `round` is
/// the current battle round. Returns what happened, or `None` when the ability was
/// refused (not enough AP, out of melee range, a dead or missing target, …).
pub fn apply_ability(
    battle: &mut Battle,
    actor: usize,
    ability: &Ability,
    target: Option<usize>,
    hit: bool,
    round: u32,
) -> (r: Option<TurnAction>)
    requires
        old(battle).wf(),
        actor < old(battle).combatants@.len(),
        match target {
            Some(t) => t < old(battle).combatants@.len(),
            None => true,
        },
        apply_fits(old(battle).combatants@, actor as int, *ability, target, hit, round),
    ensures
        ({
            let o = spec_apply_ability(
                old(battle).combatants@,
                old(battle).pending@,
                old(battle).map,
                actor as int,
                *ability,
                target,
                hit,
                round,
            );
            &&& final(battle).combatants@ == o.cs
            &&& final(battle).pending@ == o.pending
            &&& r == o.action
        }),
        final(battle).map == old(battle).map,
        final(battle).wf(),
{
    let is_echo = match ability.effect {
        AbilityEffect::EchoStrike => true,
        _ => false,
    };
    if !is_echo {
        return plain_c(battle, actor, ability, target, hit, round);
    }
    if ap_now_c(&battle.combatants[actor]) < ability.ap_cost || out_of_range_c(battle, actor, ability, target) {
        return None;
    }
    let t = match target {
        Some(t) => t,
        None => return None,
    };
    if !alive_c(&battle.combatants[t]) || battle.combatants[actor].ap.is_none() {
        return None;
    }
    let c = spend_c(battle.combatants[actor], ability.ap_cost);
    battle.combatants.set(actor, c);
    let echo = match battle.combatants[t].last_used {
        Some(l) => match l.effect {
            AbilityEffect::EchoStrike => None,
            _ => Some(Ability { name: l.name, ap_cost: 0, kind: l.kind, effect: l.effect }),
        },
        None => None,
    };
    let r = match echo {
        Some(e) => plain_c(battle, actor, &e, target, hit, round),
        None => {
            let def = defense_c(&battle.combatants[t]);
            let dmg = damage_c(battle, actor, def, 0);
            strike_c(battle, ability, t, dmg, hit)
        },
    };
    if r.is_some() {
        record_c(battle, actor, ability);
    }
    r
}

// ── Actions ───────────────────────────────────────────────────────────────────

/// An action a combatant can take on their turn, each costing AP.
#[derive(Debug, Clone, Copy)]
pub enum Action {
    /// Move to a destination, paying for the path walked.
    Move { destination: (i32, i32) },
    /// Use a class ability; `target` is `None` for self-targeted abilities.
    UseAbility { ability: Ability, target: Option<usize> },
    /// End the turn without spending AP.
    Pass,
}

/// Positions of the living placed combatants other than number `skip`, in order.
pub open spec fn occupied_seq(cs: Seq<Combatant>, skip: int) -> Seq<(i32, i32)>
    decreases cs.len(),
{
    if cs.len() == 0 {
        seq![]
    } else {
        let prev = occupied_seq(cs.drop_last(), skip);
        let c = cs.last();
        if cs.len() - 1 != skip && alive(c) && c.pos is Some {
            prev.push(c.pos->0)
        } else {
            prev
        }
    }
}

/// `n` is the length of the shortest route from `from` to `to` on `m`.
pub open spec fn shortest_route_len(m: LevelMap, from: (i32, i32), to: (i32, i32), occ: Seq<(i32, i32)>, n: int) -> bool {
    &&& exists|q: Seq<(i32, i32)>| #[trigger] m.is_route(from, to, occ, q) && q.len() == n
    &&& forall|q: Seq<(i32, i32)>| #[trigger] m.is_route(from, to, occ, q) ==> n <= q.len()
}

/// Tiles a move walks: the shortest route's length on the map (none when there is no
/// route), or the Manhattan distance without a map.
pub open spec fn move_steps(map: Option<LevelMap>, from: (i32, i32), to: (i32, i32), occ: Seq<(i32, i32)>) -> Option<int> {
    match map {
        Some(m) => if exists|n: int| shortest_route_len(m, from, to, occ, n) {
            Some(choose|n: int| shortest_route_len(m, from, to, occ, n))
        } else {
            None
        },
        None => Some(crate::combat::abs_of(to.0 - from.0) + crate::combat::abs_of(to.1 - from.1)),
    }
}

/// Speed stat, 8 without stats.
pub open spec fn speed_of(c: Combatant) -> i32 {
    match c.stats {
        Some(s) => s.speed,
        None => 8,
    }
}

/// A move of `a` to `dest`: refused onto another living combatant, without a position,
/// in place, without a route, or without the AP for the walk; else the AP is paid, the
/// old position remembered and the combatant placed at `dest`.
pub open spec fn spec_move(cs: Seq<Combatant>, pending: Seq<PendingEffect>, map: Option<LevelMap>, a: int, dest: (i32, i32)) -> Outcome {
    let occ = occupied_seq(cs, a);
    if occ.contains(dest) {
        refused(cs, pending)
    } else {
        match cs[a].pos {
            Some(from) => if from == dest {
                refused(cs, pending)
            } else {
                match move_steps(map, from, dest, occ) {
                    Some(s) => {
                        let cost = spec_move_ap_cost(s as i32, speed_of(cs[a]));
                        if ap_now(cs[a]) < cost {
                            refused(cs, pending)
                        } else {
                            Outcome {
                                cs: cs.update(a, with_pos(spend_ap(cs[a], cost as i32), Some(dest), Some(from))),
                                pending,
                                action: Some(TurnAction::Move { to: dest }),
                            }
                        }
                    },
                    None => refused(cs, pending),
                }
            },
            None => refused(cs, pending),
        }
    }
}

/// The arithmetic of a move stays within its integer types.
pub open spec fn move_fits(cs: Seq<Combatant>, map: Option<LevelMap>, a: int, dest: (i32, i32)) -> bool {
    match cs[a].pos {
        Some(from) => {
            &&& i32::MIN < from.0 < i32::MAX && i32::MIN < from.1 < i32::MAX
            &&& (map is None ==> {
                &&& i32::MIN < dest.0 - from.0 <= i32::MAX && i32::MIN < dest.1 - from.1 <= i32::MAX
                &&& crate::combat::abs_of(dest.0 - from.0) + crate::combat::abs_of(dest.1 - from.1) <= i32::MAX
            })
            &&& match move_steps(map, from, dest, occupied_seq(cs, a)) {
                Some(s) => {
                    &&& (s as i32) + spec_move_range_per_ap(speed_of(cs[a])) <= i32::MAX
                    &&& spend_fits(cs[a], spec_move_ap_cost(s as i32, speed_of(cs[a])))
                },
                None => true,
            }
        },
        None => true,
    }
}

/// What an action does (see [`spec_move`] and [`spec_apply_ability`]); `Pass` does nothing.
pub open spec fn spec_apply_action(
    cs: Seq<Combatant>,
    pending: Seq<PendingEffect>,
    map: Option<LevelMap>,
    a: int,
    action: Action,
    hit: bool,
    round: u32,
) -> Outcome {
    match action {
        Action::Move { destination } => spec_move(cs, pending, map, a, destination),
        Action::UseAbility { ability, target } => spec_apply_ability(cs, pending, map, a, ability, target, hit, round),
        Action::Pass => refused(cs, pending),
    }
}

/// Grid positions occupied by every living combatant except number `skip`.
fn occupied_tiles(cs: &Vec<Combatant>, skip: usize) -> (v: Vec<(i32, i32)>)
    ensures
        v@ == occupied_seq(cs@, skip as int),
{
    let mut v: Vec<(i32, i32)> = Vec::new();
    let mut i: usize = 0;
    proof {
        assert(cs@.take(0) =~= Seq::<Combatant>::empty());
    }
    while i < cs.len()
        invariant
            i <= cs@.len(),
            v@ == occupied_seq(cs@.take(i as int), skip as int),
        decreases cs@.len() - i,
    {
        let c = cs[i];
        proof {
            assert(cs@.take(i + 1).drop_last() =~= cs@.take(i as int));
            assert(cs@.take(i + 1).last() == c);
        }
        if i != skip && alive_c(&c) {
            match c.pos {
                Some(p) => {
                    v.push(p);
                },
                None => {},
            }
        }
        i = i + 1;
    }
    proof {
        assert(cs@.take(cs@.len() as int) =~= cs@);
    }
    v
}

proof fn lemma_shortest_unique(m: LevelMap, from: (i32, i32), to: (i32, i32), occ: Seq<(i32, i32)>, n1: int, n2: int)
    requires
        shortest_route_len(m, from, to, occ, n1),
        shortest_route_len(m, from, to, occ, n2),
    ensures
        n1 == n2,
{
    let q1 = choose|q: Seq<(i32, i32)>| #[trigger] m.is_route(from, to, occ, q) && q.len() == n1;
    let q2 = choose|q: Seq<(i32, i32)>| #[trigger] m.is_route(from, to, occ, q) && q.len() == n2;
}

/// The tiles a move walks (see [`move_steps`]), as an `i32`.
fn steps_c(map: &Option<LevelMap>, from: (i32, i32), dest: (i32, i32), occ: &Vec<(i32, i32)>) -> (r: Option<i32>)
    requires
        match *map {
            Some(m) => m.wf(),
            None => {
                &&& i32::MIN < dest.0 - from.0 <= i32::MAX && i32::MIN < dest.1 - from.1 <= i32::MAX
                &&& crate::combat::abs_of(dest.0 - from.0) + crate::combat::abs_of(dest.1 - from.1) <= i32::MAX
            },
        },
        i32::MIN < from.0 < i32::MAX,
        i32::MIN < from.1 < i32::MAX,
        from != dest,
    ensures
        match move_steps(*map, from, dest, occ@) {
            Some(s) => r == Some(s as i32),
            None => r is None,
        },
{
    match map {
        Some(m) => {
            let path = m.bfs_path(from, dest, occ);
            if path.len() == 0 {
                return None;
            }
            proof {
                assert(shortest_route_len(*m, from, dest, occ@, path@.len() as int));
                let n = choose|n: int| shortest_route_len(*m, from, dest, occ@, n);
                lemma_shortest_unique(*m, from, dest, occ@, n, path@.len() as int);
            }
            Some(path.len() as i32)
        },
        None => {
            let dx = dest.0 - from.0;
            let dy = dest.1 - from.1;
            let adx = if dx >= 0 { dx } else { -dx };
            let ady = if dy >= 0 { dy } else { -dy };
            Some(adx + ady)
        },
    }
}

/// Move combatant `a` to `dest` (see [`spec_move`]).
fn move_c(b: &mut Battle, a: usize, dest: (i32, i32)) -> (r: Option<TurnAction>)
    requires
        old(b).wf(),
        a < old(b).combatants@.len(),
        move_fits(old(b).combatants@, old(b).map, a as int, dest),
    ensures
        ({
            let o = spec_move(old(b).combatants@, old(b).pending@, old(b).map, a as int, dest);
            &&& final(b).combatants@ == o.cs
            &&& final(b).pending@ == o.pending
            &&& r == o.action
        }),
        final(b).map == old(b).map,
        final(b).wf(),
{
    let occ = occupied_tiles(&b.combatants, a);
    if crate::pathfinding::contains_cell(&occ, dest) {
        return None;
    }
    let from = match b.combatants[a].pos {
        Some(p) => p,
        None => return None,
    };
    if from.0 == dest.0 && from.1 == dest.1 {
        return None;
    }
    let steps = match steps_c(&b.map, from, dest, &occ) {
        Some(s) => s,
        None => return None,
    };
    let speed = match b.combatants[a].stats {
        Some(s) => s.speed,
        None => 8,
    };
    let cost = crate::turn::move_ap_cost(steps, speed);
    if ap_now_c(&b.combatants[a]) < cost {
        return None;
    }
    let paid = spend_c(b.combatants[a], cost);
    let moved = Combatant { pos: Some(dest), last_pos: Some(from), ..paid };
    b.combatants.set(a, moved);
    Some(TurnAction::Move { to: dest })
}


/// Action `action` of combatant `a` names a combatant that exists and its arithmetic
/// stays within `i32`.
pub open spec fn action_fits(cs: Seq<Combatant>, map: Option<LevelMap>, a: int, action: Action, hit: bool, round: u32) -> bool {
    match action {
        Action::Move { destination } => move_fits(cs, map, a, destination),
        Action::UseAbility { ability, target } => {
            &&& match target {
                Some(t) => t < cs.len(),
                None => true,
            }
            &&& apply_fits(cs, a, ability, target, hit, round)
        },
        Action::Pass => true,
    }
}
/// Execute an action for combatant `actor`: `hit` is the hit roll for abilities that
/// roll one, `round` the current battle round. Returns what happened, or `None` when
/// the action was refused or was a pass.
pub fn apply_action(battle: &mut Battle, actor: usize, action: &Action, hit: bool, round: u32) -> (r: Option<TurnAction>)
    requires
        old(battle).wf(),
        actor < old(battle).combatants@.len(),
        action_fits(old(battle).combatants@, old(battle).map, actor as int, *action, hit, round),
    ensures
        ({
            let o = spec_apply_action(old(battle).combatants@, old(battle).pending@, old(battle).map, actor as int, *action, hit, round);
            &&& final(battle).combatants@ == o.cs
            &&& final(battle).pending@ == o.pending
            &&& r == o.action
        }),
        final(battle).map == old(battle).map,
        final(battle).wf(),
{
    match action {
        Action::Move { destination } => move_c(battle, actor, *destination),
        Action::UseAbility { ability, target } => apply_ability(battle, actor, ability, *target, hit, round),
        Action::Pass => None,
    }
}

// ── Laws ──────────────────────────────────────────────────────────────────────

/// AP is never spent on an ability that is refused: when every combatant has hit
/// points and an AP pool, a refused ability (other than Echo Strike, whose own cost is
/// paid before it picks what to repeat) leaves the battle as it was.
pub proof fn lemma_refused_ability_changes_nothing(
    cs: Seq<Combatant>,
    pending: Seq<PendingEffect>,
    map: Option<LevelMap>,
    a: int,
    ab: Ability,
    target: Option<usize>,
    hit: bool,
    round: u32,
)
    requires
        0 <= a < cs.len(),
        match target {
            Some(t) => t < cs.len(),
            None => true,
        },
        ab.effect != AbilityEffect::EchoStrike,
        forall|i: int| 0 <= i < cs.len() ==> (#[trigger] cs[i]).health is Some && cs[i].ap is Some,
    ensures
        spec_apply_ability(cs, pending, map, a, ab, target, hit, round).action is None ==> {
            &&& spec_apply_ability(cs, pending, map, a, ab, target, hit, round).cs == cs
            &&& spec_apply_ability(cs, pending, map, a, ab, target, hit, round).pending == pending
        },
{
    let sp = cs.update(a, spend_ap(cs[a], ab.ap_cost));
    assert(forall|i: int| 0 <= i < sp.len() ==> (#[trigger] sp[i]).health is Some && sp[i].ap is Some);
}

/// A melee ability is only ever carried out on a target next to its user: when both
/// stand on the board, they are at most one tile apart in each direction.
pub proof fn lemma_melee_reach(
    cs: Seq<Combatant>,
    pending: Seq<PendingEffect>,
    map: Option<LevelMap>,
    a: int,
    ab: Ability,
    t: usize,
    hit: bool,
    round: u32,
)
    requires
        0 <= a < cs.len(),
        t < cs.len(),
        ab.kind == AbilityKind::Melee,
        cs[a].pos is Some,
        cs[t as int].pos is Some,
        spec_apply_ability(cs, pending, map, a, ab, Some(t), hit, round).action is Some,
    ensures
        crate::combat::abs_of(cs[a].pos.unwrap().0 - cs[t as int].pos.unwrap().0) <= 1,
        crate::combat::abs_of(cs[a].pos.unwrap().1 - cs[t as int].pos.unwrap().1) <= 1,
{
}

/// Acting never adds or removes combatants.
pub proof fn lemma_apply_action_keeps_roster(
    cs: Seq<Combatant>,
    pending: Seq<PendingEffect>,
    map: Option<LevelMap>,
    a: int,
    action: Action,
    hit: bool,
    round: u32,
)
    requires
        0 <= a < cs.len(),
        action_fits(cs, map, a, action, hit, round),
    ensures
        spec_apply_action(cs, pending, map, a, action, hit, round).cs.len() == cs.len(),
{
    match action {
        Action::Move { destination } => {},
        Action::UseAbility { ability, target } => {
            lemma_apply_ability_keeps_roster(cs, pending, map, a, ability, target, hit, round);
        },
        Action::Pass => {},
    }
}

proof fn lemma_apply_ability_keeps_roster(
    cs: Seq<Combatant>,
    pending: Seq<PendingEffect>,
    map: Option<LevelMap>,
    a: int,
    ab: Ability,
    target: Option<usize>,
    hit: bool,
    round: u32,
)
    requires
        0 <= a < cs.len(),
        match target {
            Some(t) => t < cs.len(),
            None => true,
        },
    ensures
        spec_apply_ability(cs, pending, map, a, ab, target, hit, round).cs.len() == cs.len(),
{
    let sp = cs.update(a, spend_ap(cs[a], ab.ap_cost));
    lemma_effect_keeps_roster(cs, pending, map, a, ab, target, hit, round);
    lemma_effect_keeps_roster(sp, pending, map, a, ab, target, hit, round);
    match echo_of(sp[a]) {
        Some(e) => {
            lemma_effect_keeps_roster(sp, pending, map, a, e, target, hit, round);
        },
        None => {},
    }
    match target {
        Some(t) => match echo_of(sp[t as int]) {
            Some(e) => {
                lemma_effect_keeps_roster(sp, pending, map, a, e, target, hit, round);
            },
            None => {},
        },
        None => {},
    }
}

proof fn lemma_effect_keeps_roster(
    cs: Seq<Combatant>,
    pending: Seq<PendingEffect>,
    map: Option<LevelMap>,
    a: int,
    ab: Ability,
    target: Option<usize>,
    hit: bool,
    round: u32,
)
    requires
        0 <= a < cs.len(),
        match target {
            Some(t) => t < cs.len(),
            None => true,
        },
    ensures
        effect_outcome(cs, pending, map, a, ab, target, hit, round).cs.len() == cs.len(),
        plain_outcome(cs, pending, map, a, ab, target, hit, round).cs.len() == cs.len(),
{
}

/// Spending AP moves nobody and revives or fells nobody: whether a tile is held by a
/// living combatant other than `skip` is the same before and after.
proof fn lemma_spend_keeps_board(cs: Seq<Combatant>, a: int, cost: i32, skip: int, x: int, y: int)
    requires
        0 <= a < cs.len(),
    ensures
        occupied_by_other(cs.update(a, spend_ap(cs[a], cost)), skip, x, y) == occupied_by_other(cs, skip, x, y),
{
    let sp = cs.update(a, spend_ap(cs[a], cost));
    assert forall|i: int| 0 <= i < cs.len() implies (#[trigger] sp[i]).pos == cs[i].pos && alive(sp[i])
        == alive(cs[i]) by {}
    if occupied_by_other(cs, skip, x, y) {
        let i = choose|i: int| 0 <= i < cs.len() && i != skip && alive(#[trigger] cs[i]) && cs[i].pos == Some((x as i32, y as i32))
            && i32::MIN <= x <= i32::MAX && i32::MIN <= y <= i32::MAX;
        assert(alive(sp[i]));
    }
    if occupied_by_other(sp, skip, x, y) {
        let i = choose|i: int| 0 <= i < sp.len() && i != skip && alive(#[trigger] sp[i]) && sp[i].pos == Some((x as i32, y as i32))
            && i32::MIN <= x <= i32::MAX && i32::MIN <= y <= i32::MAX;
        assert(alive(cs[i]));
    }
}

/// Whether `(x, y)` can take a pushed combatant: on the board, walkable, and not held
/// by a living combatant other than `t`.
pub open spec fn landing_free(cs: Seq<Combatant>, map: Option<LevelMap>, t: int, x: int, y: int) -> bool {
    on_board(map, x, y) && walkable(map, x, y) && !occupied_by_other(cs, t, x, y)
}

/// Displacement pushes its target straight away from the user: two tiles when that
/// cell can take it, else one tile when that cell can, else not at all; the target
/// ends where the push put it, and the push is reported as it happened.
pub proof fn lemma_displacement_push(
    cs: Seq<Combatant>,
    pending: Seq<PendingEffect>,
    map: Option<LevelMap>,
    a: int,
    ab: Ability,
    t: usize,
    round: u32,
)
    requires
        0 <= a < cs.len(),
        t < cs.len(),
        ab.effect is Displacement,
        ap_now(cs[a]) >= ab.ap_cost,
        !out_of_melee_range(cs, a, ab, Some(t)),
        alive(cs[t as int]),
        cs[a].ap is Some,
        cs[a].pos is Some,
        cs[t as int].pos is Some,
    ensures
        ({
            let r = spec_apply_ability(cs, pending, map, a, ab, Some(t), true, round);
            let (ux, uy) = cs[a].pos.unwrap();
            let (tx, ty) = cs[t as int].pos.unwrap();
            let dx = sign(tx - ux);
            let dy = sign(ty - uy);
            let far = landing_free(cs, map, t as int, tx + 2 * dx, ty + 2 * dy);
            let near = landing_free(cs, map, t as int, tx + dx, ty + dy);
            r.action matches Some(TurnAction::DisplacementQueued { target, pushed_to, .. })
                && target == t
                && (far ==> pushed_to == Some(((tx + 2 * dx) as i32, (ty + 2 * dy) as i32)))
                && (!far && near ==> pushed_to == Some(((tx + dx) as i32, (ty + dy) as i32)))
                && (!far && !near ==> pushed_to is None)
                && r.cs[t as int].pos == match pushed_to {
                    Some(d) => Some(d),
                    None => cs[t as int].pos,
                }
        }),
{
    let sp = cs.update(a, spend_ap(cs[a], ab.ap_cost));
    let (ux, uy) = cs[a].pos.unwrap();
    let (tx, ty) = cs[t as int].pos.unwrap();
    let dx = sign(tx - ux);
    let dy = sign(ty - uy);
    lemma_spend_keeps_board(cs, a, ab.ap_cost, t as int, tx + 2 * dx, ty + 2 * dy);
    lemma_spend_keeps_board(cs, a, ab.ap_cost, t as int, tx + dx, ty + dy);
    assert(sp[a].pos == cs[a].pos);
    assert(sp[t as int].pos == cs[t as int].pos);
    let dest = push_dest(sp, map, t as int, a);
    assert(push_ok(sp, map, t as int, (ux, uy), (tx, ty), 2) == landing_free(cs, map, t as int, tx + 2 * dx, ty + 2 * dy));
    assert(push_ok(sp, map, t as int, (ux, uy), (tx, ty), 1) == landing_free(cs, map, t as int, tx + dx, ty + dy));
    let e = effect_outcome(cs, pending, map, a, ab, Some(t), true, round);
    assert(e.action matches Some(TurnAction::DisplacementQueued { target, pushed_to, .. }) && target == t && pushed_to == dest);
    assert(e.cs[t as int].pos == match dest {
        Some(d) => Some(d),
        None => cs[t as int].pos,
    });
    let r = spec_apply_ability(cs, pending, map, a, ab, Some(t), true, round);
    assert(r == recorded(e, a, ab));
    assert(r.cs[t as int].pos == e.cs[t as int].pos);
}

/// Temporal Recall never stacks two combatants: when the target's last position is
/// held by another living combatant the recall is refused and nothing changes; when it
/// is carried out, the target goes from where it stands back to its last position, a
/// walkable tile that no other living combatant holds.
pub proof fn lemma_temporal_recall(
    cs: Seq<Combatant>,
    pending: Seq<PendingEffect>,
    map: Option<LevelMap>,
    a: int,
    ab: Ability,
    t: usize,
    hit: bool,
    round: u32,
)
    requires
        0 <= a < cs.len(),
        t < cs.len(),
        ab.effect == AbilityEffect::TemporalRecall,
    ensures
        ({
            let r = spec_apply_ability(cs, pending, map, a, ab, Some(t), hit, round);
            &&& (cs[t as int].last_pos matches Some(lp) && occupied_by_other(cs, t as int, lp.0 as int, lp.1 as int))
                ==> r.action is None && r.cs == cs && r.pending == pending
            &&& r.action is Some ==> {
                &&& cs[t as int].last_pos is Some
                &&& cs[t as int].pos is Some
                &&& r.action == Some(TurnAction::TemporalRecalled {
                    target: t,
                    from: cs[t as int].pos.unwrap(),
                    to: cs[t as int].last_pos.unwrap(),
                })
                &&& r.cs[t as int].pos == cs[t as int].last_pos
                &&& walkable(map, cs[t as int].last_pos.unwrap().0 as int, cs[t as int].last_pos.unwrap().1 as int)
                &&& forall|i: int| 0 <= i < r.cs.len() && i != t && alive(#[trigger] r.cs[i]) ==> r.cs[i].pos != r.cs[t as int].pos
            }
        }),
{
    let r = spec_apply_ability(cs, pending, map, a, ab, Some(t), hit, round);
    lemma_effect_keeps_roster(cs, pending, map, a, ab, Some(t), hit, round);
    if r.action is Some {
        let lp = cs[t as int].last_pos.unwrap();
        assert(!occupied_by_other(cs, t as int, lp.0 as int, lp.1 as int));
        assert forall|i: int| 0 <= i < r.cs.len() && i != t && alive(#[trigger] r.cs[i]) implies r.cs[i].pos != r.cs[t as int].pos by {
            assert(r.cs[i].pos == cs[i].pos);
            assert(alive(cs[i]));
            if r.cs[i].pos == r.cs[t as int].pos {
                assert(cs[i].pos == Some((lp.0 as int as i32, lp.1 as int as i32)));
                assert(occupied_by_other(cs, t as int, lp.0 as int, lp.1 as int));
            }
        }
    }
}

} // verus!
