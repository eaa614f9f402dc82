use vstd::prelude::*;

use crate::ability::{Action, action_fits, alive, alive_c, ap_now, apply_action, spec_apply_action, Battle, Combatant, TurnAction};
use crate::action_points::ActionPoints;
use crate::entity::Entity;
use crate::player_input::{
    available_player_actions, choices_fit, hostile, hostile_c, spec_available_player_actions, spec_to_action,
    PlayerActionChoice,
};

verus! {

// ── Pure combat math ─────────────────────────────────────────────────────────

/// Integer division by two rounding toward zero, as `i32` division does.
pub open spec fn half_toward_zero(v: int) -> int {
    if v >= 0 {
        v / 2
    } else {
        -((-v) / 2)
    }
}

/// Damage of an attack: attack minus half the defense (rounded toward zero), at least 1.
pub open spec fn spec_calc_damage(attack: i32, defense: i32) -> int {
    let raw = attack - half_toward_zero(defense as int);
    if raw > 1 {
        raw
    } else {
        1
    }
}

/// Calculates physical damage dealt, factoring in attacker's attack and defender's defense.
/// Minimum of 1 damage always applies.
pub fn calc_damage(attack: i32, defense: i32) -> (d: i32)
    requires
        i32::MIN <= attack - half_toward_zero(defense as int) <= i32::MAX,
    ensures
        d == spec_calc_damage(attack, defense),
{
    let half: i32 = if defense >= 0 {
        defense / 2
    } else {
        -((-(defense as i64) / 2) as i32)
    };
    let raw = attack - half;
    if raw > 1 {
        raw
    } else {
        1
    }
}

// ── Melee targeting ───────────────────────────────────────────────────────────

/// Absolute value.
pub open spec fn abs_of(v: int) -> int {
    if v < 0 {
        -v
    } else {
        v
    }
}

/// Whether a target at `(tx, ty)` stands next to `actor` (Chebyshev distance 1,
/// diagonals included).
pub open spec fn is_adjacent_to(actor: (i32, i32), tx: i32, ty: i32) -> bool {
    let dx = abs_of(actor.0 - tx);
    let dy = abs_of(actor.1 - ty);
    let cheb = if dx >= dy {
        dx
    } else {
        dy
    };
    0 < cheb <= 1
}

/// The best adjacent target among the first `n` targets with its Manhattan distance:
/// the nearest, the earliest among equally near ones.
pub open spec fn best_adjacent_upto(targets: Seq<(Entity, i32, i32)>, actor: (i32, i32), n: int) -> Option<
    (Entity, int),
>
    decreases n,
{
    if n <= 0 {
        None
    } else {
        let prev = best_adjacent_upto(targets, actor, n - 1);
        let t = targets[n - 1];
        if is_adjacent_to(actor, t.1, t.2) {
            let d = abs_of(actor.0 - t.1) + abs_of(actor.1 - t.2);
            match prev {
                Some((e, bd)) => if d < bd {
                    Some((t.0, d))
                } else {
                    prev
                },
                None => Some((t.0, d)),
            }
        } else {
            prev
        }
    }
}

/// Whether `actor`'s offsets to every target fit in `i32` and can be negated.
pub open spec fn offsets_fit(targets: Seq<(Entity, i32, i32)>, actor: (i32, i32)) -> bool {
    forall|i: int|
        0 <= i < targets.len() ==> i32::MIN < actor.0 - (#[trigger] targets[i]).1 <= i32::MAX
            && i32::MIN < actor.1 - targets[i].2 <= i32::MAX
}

/// The best adjacent target (Chebyshev distance 1) for a melee attack: the nearest
/// by Manhattan distance, the first listed among equally near ones.
pub fn best_adjacent_target(targets: &[(Entity, i32, i32)], actor_pos: (i32, i32)) -> (r: Option<Entity>)
    requires
        offsets_fit(targets@, actor_pos),
    ensures
        r == match best_adjacent_upto(targets@, actor_pos, targets@.len() as int) {
            Some((e, _)) => Some(e),
            None => None::<Entity>,
        },
{
    let mut best: Option<(Entity, i32)> = None;
    let mut i: usize = 0;
    while i < targets.len()
        invariant
            i <= targets@.len(),
            offsets_fit(targets@, actor_pos),
            match best_adjacent_upto(targets@, actor_pos, i as int) {
                Some((e, d)) => best == Some((e, d as i32)) && 1 <= d <= 2,
                None => best.is_none(),
            },
        decreases targets@.len() - i,
    {
        let (e, tx, ty) = targets[i];
        proof {
            assert(targets@[i as int] == (e, tx, ty));
        }
        let ddx = actor_pos.0 - tx;
        let ddy = actor_pos.1 - ty;
        let dx = if ddx < 0 {
            -ddx
        } else {
            ddx
        };
        let dy = if ddy < 0 {
            -ddy
        } else {
            ddy
        };
        let cheb = if dx >= dy {
            dx
        } else {
            dy
        };
        if cheb <= 1 && cheb > 0 {
            let dist = dx + dy;
            match best {
                Some((_, bd)) => {
                    if dist < bd {
                        best = Some((e, dist));
                    }
                },
                None => {
                    best = Some((e, dist));
                },
            }
        }
        i = i + 1;
    }
    match best {
        Some((e, _)) => Some(e),
        None => None,
    }
}

/// Turn-order key comparison: `a` acts before `b` when it is faster, or equally fast
/// and listed earlier.
pub open spec fn acts_before(speeds: Seq<i32>, a: int, b: int) -> bool {
    speeds[a] > speeds[b] || (speeds[a] == speeds[b] && a < b)
}

/// `order` lists every index of `speeds` exactly once, fastest first, ties in list order.
pub open spec fn is_turn_order(speeds: Seq<i32>, order: Seq<usize>) -> bool {
    &&& order.len() == speeds.len()
    &&& forall|k: int| 0 <= k < order.len() ==> #[trigger] order[k] < speeds.len()
    &&& forall|k: int, l: int| 0 <= k < l < order.len() ==> acts_before(speeds, #[trigger] order[k] as int, #[trigger] order[l] as int)
}

/// Determines turn order by speed (highest speed acts first; equal speeds keep their
/// order). Returns indices into the provided speed slice.
pub fn turn_order(speeds: &[i32]) -> (order: Vec<usize>)
    ensures
        is_turn_order(speeds@, order@),
{
    let mut order: Vec<usize> = Vec::new();
    let mut n: usize = 0;
    while n < speeds.len()
        invariant
            n <= speeds@.len(),
            order@.len() == n,
            forall|k: int| 0 <= k < order@.len() ==> #[trigger] order@[k] < n,
            forall|k: int, l: int| 0 <= k < l < order@.len() ==> acts_before(speeds@, #[trigger] order@[k] as int, #[trigger] order@[l] as int),
        decreases speeds@.len() - n,
    {
        // Insert `n` after every index that acts before it: those at least as fast.
        let mut pos: usize = 0;
        while pos < order.len() && speeds[order[pos]] >= speeds[n]
            invariant
                pos <= order@.len(),
                order@.len() == n,
                n < speeds@.len(),
                forall|k: int| 0 <= k < order@.len() ==> #[trigger] order@[k] < n,
                forall|k: int| 0 <= k < pos ==> speeds@[#[trigger] order@[k] as int] >= speeds@[n as int],
            decreases order@.len() - pos,
        {
            pos = pos + 1;
        }
        let ghost old_order = order@;
        proof {
            // everything from `pos` on is slower than `n`
            assert forall|k: int| pos <= k < old_order.len() implies speeds@[#[trigger] old_order[k] as int] < speeds@[n as int] by {
                if k > pos {
                    assert(acts_before(speeds@, old_order[pos as int] as int, old_order[k] as int));
                }
            }
        }
        order.insert(pos, n);
        proof {
            let o = order@;
            assert(o =~= old_order.insert(pos as int, n));
            assert forall|k: int, l: int| 0 <= k < l < o.len() implies acts_before(speeds@, #[trigger] o[k] as int, #[trigger] o[l] as int) by {
                if l < pos {
                    assert(o[k] == old_order[k] && o[l] == old_order[l]);
                } else if l == pos {
                    assert(o[k] == old_order[k]);
                } else if k < pos {
                    assert(o[k] == old_order[k] && o[l] == old_order[l - 1]);
                } else if k == pos {
                    assert(o[l] == old_order[l - 1]);
                } else {
                    assert(o[k] == old_order[k - 1] && o[l] == old_order[l - 1]);
                }
            }
        }
        n = n + 1;
    }
    order
}

/// A turn order is a permutation: every combatant index appears exactly once.
pub proof fn lemma_turn_order_is_permutation(speeds: Seq<i32>, order: Seq<usize>)
    requires
        is_turn_order(speeds, order),
    ensures
        forall|i: int| 0 <= i < speeds.len() ==> #[trigger] order.contains(i as usize),
        order.no_duplicates(),
{
    assert forall|k: int, l: int| 0 <= k < order.len() && 0 <= l < order.len() && k != l implies order[k] != order[l] by {
        if k < l {
            assert(acts_before(speeds, order[k] as int, order[l] as int));
        } else {
            assert(acts_before(speeds, order[l] as int, order[k] as int));
        }
    }
    assert forall|i: int| 0 <= i < speeds.len() implies #[trigger] order.contains(i as usize) by {
        let s = order.map_values(|v: usize| v as int);
        assert(s.no_duplicates()) by {
            assert forall|k: int, l: int| 0 <= k < s.len() && 0 <= l < s.len() && k != l implies s[k] != s[l] by {
                assert(order[k] != order[l]);
            }
        }
        if !order.contains(i as usize) {
            // `order` would be `speeds.len()` distinct values below `speeds.len()`, missing `i`
            s.unique_seq_to_set();
            assert(s.to_set().subset_of(vstd::set_lib::set_int_range(0, speeds.len() as int).remove(i))) by {
                assert forall|v: int| s.to_set().contains(v) implies vstd::set_lib::set_int_range(0, speeds.len() as int).remove(i).contains(v) by {
                    let k = choose|k: int| 0 <= k < s.len() && s[k] == v;
                    assert(order[k] as int == v);
                    if v == i {
                        assert(order[k] == i as usize);
                        assert(order.contains(i as usize));
                    }
                }
            }
            vstd::set_lib::lemma_int_range(0, speeds.len() as int);
            vstd::set_lib::lemma_len_subset(s.to_set(), vstd::set_lib::set_int_range(0, speeds.len() as int).remove(i));
        }
    }
}

// ── Battle types ─────────────────────────────────────────────────────────────

/// Hard cap on rounds to prevent infinite loops.
pub const MAX_ROUNDS: u32 = 1000;

/// Whose turn it is in the current combat round.
#[derive(Debug, Clone, Copy, PartialEq, Eq, Structural)]
pub enum Turn {
    Player,
    Enemy,
}

/// How a battle ended.
#[derive(Debug, Clone, Copy, PartialEq, Eq, Structural)]
pub enum BattleOutcome {
    PlayerVictory,
    PlayerDefeated,
    /// Neither side was eliminated within `MAX_ROUNDS`.
    Draw,
}

/// Incremental battle driver state: the round, whose side is acting, and the queue
/// of combatants still to act on that side (front = currently active).
#[derive(Debug, Clone)]
pub struct BattleStep {
    pub round: u32,
    pub turn: Turn,
    /// Combatants still to act on the current side, front first.
    pub actor_queue: Vec<Entity>,
}

impl BattleStep {
    /// The combatants still queued to act, front first.
    pub open spec fn queue(&self) -> Seq<Entity> {
        self.actor_queue@
    }

    /// Rebuild a battle driver from saved state.
    pub fn restore(round: u32, turn: Turn, actor_queue: Vec<Entity>) -> (b: Self)
        ensures
            b.round == round,
            b.turn == turn,
            b.queue() == actor_queue@,
    {
        BattleStep { round, turn, actor_queue }
    }

    /// The next entity waiting to act this turn, if any.
    pub fn next_actor(&self) -> (e: Option<Entity>)
        ensures
            e == (if self.queue().len() > 0 {
                Some(self.queue()[0])
            } else {
                None::<Entity>
            }),
    {
        if self.actor_queue.len() > 0 {
            Some(self.actor_queue[0])
        } else {
            None
        }
    }

    /// Returns the entity that is currently acting (front of the queue), if any.
    pub fn current_actor(&self) -> (e: Option<Entity>)
        ensures
            e == (if self.queue().len() > 0 {
                Some(self.queue()[0])
            } else {
                None::<Entity>
            }),
    {
        self.next_actor()
    }

    /// All entities still queued to act this round (front = currently active).
    pub fn player_queue(&self) -> (q: &Vec<Entity>)
        ensures
            q@ == self.queue(),
    {
        &self.actor_queue
    }

    /// Move `entity` to the front of the player queue so they act next.
    /// Only meaningful when `self.turn == Turn::Player` and `entity` is in the queue.
    /// Returns `true` if the entity was found and moved.
    pub fn set_active_player(&mut self, entity: Entity) -> (moved: bool)
        ensures
            moved == (old(self).turn == Turn::Player && old(self).queue().contains(entity)),
            final(self).round == old(self).round,
            final(self).turn == old(self).turn,
            !moved ==> final(self).queue() == old(self).queue(),
            moved ==> ({
                let q = old(self).queue();
                let p = choose|p: int| 0 <= p < q.len() && q[p] == entity && forall|j: int| 0 <= j < p ==> q[j] != entity;
                final(self).queue() == seq![entity] + q.remove(p)
            }),
    {
        if self.turn != Turn::Player {
            return false;
        }
        let ghost q = self.actor_queue@;
        let mut pos: usize = 0;
        while pos < self.actor_queue.len() && self.actor_queue[pos] != entity
            invariant
                self.actor_queue@ == q,
                pos <= q.len(),
                forall|j: int| 0 <= j < pos ==> q[j] != entity,
            decreases q.len() - pos,
        {
            pos = pos + 1;
        }
        if pos == self.actor_queue.len() {
            return false;
        }
        let e = self.actor_queue.remove(pos);
        self.actor_queue.insert(0, e);
        proof {
            let p = choose|p: int| 0 <= p < q.len() && q[p] == entity && forall|j: int| 0 <= j < p ==> q[j] != entity;
            assert(0 <= pos < q.len() && q[pos as int] == entity && forall|j: int| 0 <= j < pos ==> q[j] != entity);
            if p < pos {
                assert(q[p] != entity);
            } else if p > pos {
                assert(q[pos as int] != entity);
            }
            assert(self.actor_queue@ =~= seq![entity] + q.remove(pos as int));
        }
        true
    }
}


// ── Sides and outcome ─────────────────────────────────────────────────────────

/// Whether `c` is a character of the party's kinds.
pub open spec fn of_party(c: Combatant) -> bool {
    match c.character {
        Some((k, _)) => k.spec_is_player(),
        None => false,
    }
}

/// Whether `c` fights on side `turn`: the party's kinds for the player side, hostile
/// characters for the enemy side.
pub open spec fn on_side(c: Combatant, turn: Turn) -> bool {
    match turn {
        Turn::Player => of_party(c),
        Turn::Enemy => hostile(c),
    }
}

/// Whether `c` takes turns for side `turn`: on that side, alive, with stats.
pub open spec fn acts_for(c: Combatant, turn: Turn) -> bool {
    on_side(c, turn) && alive(c) && c.stats is Some
}

/// The battle's result so far: won when no hostile character lives, lost when no
/// party character lives, else undecided.
pub open spec fn spec_check_outcome(cs: Seq<Combatant>) -> Option<BattleOutcome> {
    if !exists|i: int| 0 <= i < cs.len() && hostile(#[trigger] cs[i]) && alive(cs[i]) {
        Some(BattleOutcome::PlayerVictory)
    } else if !exists|i: int| 0 <= i < cs.len() && of_party(#[trigger] cs[i]) && alive(cs[i]) {
        Some(BattleOutcome::PlayerDefeated)
    } else {
        None
    }
}

/// Speed of combatant `i` (0 without stats).
pub open spec fn speed_of(cs: Seq<Combatant>, i: int) -> i32 {
    match cs[i].stats {
        Some(s) => s.speed,
        None => 0,
    }
}

/// The number of combatants among the first `n` that act for side `turn`.
pub open spec fn count_acting(cs: Seq<Combatant>, turn: Turn, n: int) -> nat
    decreases n,
{
    if n <= 0 {
        0
    } else {
        count_acting(cs, turn, n - 1) + if acts_for(cs[n - 1], turn) { 1nat } else { 0nat }
    }
}

/// `q` lists every combatant acting for side `turn` once, fastest first, equally fast
/// ones in roster order.
pub open spec fn is_side_queue(cs: Seq<Combatant>, turn: Turn, q: Seq<usize>) -> bool {
    &&& q.len() == count_acting(cs, turn, cs.len() as int)
    &&& forall|k: int| 0 <= k < q.len() ==> #[trigger] q[k] < cs.len() && acts_for(cs[q[k] as int], turn)
    &&& forall|k: int, l: int|
        0 <= k < l < q.len() ==> {
            let a = #[trigger] q[k] as int;
            let b = #[trigger] q[l] as int;
            speed_of(cs, a) > speed_of(cs, b) || (speed_of(cs, a) == speed_of(cs, b) && a < b)
        }
}

/// `after` is `before` with the action points of the combatants in `q` refilled.
pub open spec fn refreshed(before: Seq<Combatant>, q: Seq<usize>, after: Seq<Combatant>) -> bool {
    &&& after.len() == before.len()
    &&& forall|i: int|
        0 <= i < before.len() ==> #[trigger] after[i] == (if q.contains(i as usize) {
            match before[i].ap {
                Some(p) => Combatant { ap: Some(ActionPoints { current: p.max, max: p.max }), ..before[i] },
                None => before[i],
            }
        } else {
            before[i]
        })
}

/// The entities of the combatants listed in `q`.
pub open spec fn entities_of(cs: Seq<Combatant>, q: Seq<usize>) -> Seq<Entity> {
    q.map_values(|i: usize| cs[i as int].entity)
}

fn of_party_c(c: &Combatant) -> (b: bool)
    ensures
        b == of_party(*c),
{
    match c.character {
        Some((k, _)) => k.is_player(),
        None => false,
    }
}

fn acts_for_c(c: &Combatant, turn: Turn) -> (b: bool)
    ensures
        b == acts_for(*c, turn),
{
    let side = match turn {
        Turn::Player => of_party_c(c),
        Turn::Enemy => hostile_c(c),
    };
    side && alive_c(c) && c.stats.is_some()
}

/// Who has won, if anyone.
pub fn check_outcome(cs: &Vec<Combatant>) -> (o: Option<BattleOutcome>)
    ensures
        o == spec_check_outcome(cs@),
{
    let mut enemy_alive = false;
    let mut party_alive = false;
    let mut i: usize = 0;
    while i < cs.len()
        invariant
            i <= cs@.len(),
            enemy_alive == exists|j: int| 0 <= j < i && hostile(#[trigger] cs@[j]) && alive(cs@[j]),
            party_alive == exists|j: int| 0 <= j < i && of_party(#[trigger] cs@[j]) && alive(cs@[j]),
        decreases cs@.len() - i,
    {
        let c = &cs[i];
        if alive_c(c) {
            if hostile_c(c) {
                enemy_alive = true;
            }
            if of_party_c(c) {
                party_alive = true;
            }
        }
        i = i + 1;
    }
    if !enemy_alive {
        Some(BattleOutcome::PlayerVictory)
    } else if !party_alive {
        Some(BattleOutcome::PlayerDefeated)
    } else {
        None
    }
}

/// The combatants acting for side `turn`, fastest first (ties in roster order).
pub fn side_queue(cs: &Vec<Combatant>, turn: Turn) -> (q: Vec<usize>)
    ensures
        is_side_queue(cs@, turn, q@),
{
    let mut members: Vec<usize> = Vec::new();
    let mut speeds: Vec<i32> = Vec::new();
    let mut i: usize = 0;
    while i < cs.len()
        invariant
            i <= cs@.len(),
            members@.len() == speeds@.len(),
            members@.len() == count_acting(cs@, turn, i as int),
            forall|k: int| 0 <= k < members@.len() ==> #[trigger] members@[k] < i && acts_for(cs@[members@[k] as int], turn),
            forall|k: int| 0 <= k < members@.len() ==> #[trigger] speeds@[k] == speed_of(cs@, members@[k] as int),
            forall|k: int, l: int| 0 <= k < l < members@.len() ==> #[trigger] members@[k] < #[trigger] members@[l],
        decreases cs@.len() - i,
    {
        let c = &cs[i];
        if acts_for_c(c, turn) {
            let sp = match c.stats {
                Some(s) => s.speed,
                None => 0,
            };
            members.push(i);
            speeds.push(sp);
        }
        i = i + 1;
    }
    let order = turn_order(speeds.as_slice());
    let mut q: Vec<usize> = Vec::new();
    let mut k: usize = 0;
    while k < order.len()
        invariant
            k <= order@.len(),
            is_turn_order(speeds@, order@),
            members@.len() == speeds@.len(),
            q@.len() == k,
            forall|j: int| 0 <= j < k ==> #[trigger] q@[j] == members@[order@[j] as int],
        decreases order@.len() - k,
    {
        q.push(members[order[k]]);
        k = k + 1;
    }
    proof {
        assert forall|a: int, b: int| 0 <= a < b < q@.len() implies {
            let x = #[trigger] q@[a] as int;
            let y = #[trigger] q@[b] as int;
            speed_of(cs@, x) > speed_of(cs@, y) || (speed_of(cs@, x) == speed_of(cs@, y) && x < y)
        } by {
            let oa = order@[a] as int;
            let ob = order@[b] as int;
            assert(acts_before(speeds@, oa, ob));
            assert(speeds@[oa] == speed_of(cs@, members@[oa] as int));
            assert(speeds@[ob] == speed_of(cs@, members@[ob] as int));
            if oa < ob {
                assert(members@[oa] < members@[ob]);
            }
        }
        assert forall|j: int| 0 <= j < q@.len() implies #[trigger] q@[j] < cs@.len() && acts_for(cs@[q@[j] as int], turn) by {
            assert(order@[j] < speeds@.len());
        }
    }
    q
}

/// Refill the action points of the combatants listed in `q`.
pub(crate) fn refresh_listed(cs: &mut Vec<Combatant>, q: &Vec<usize>)
    requires
        forall|k: int| 0 <= k < q@.len() ==> #[trigger] q@[k] < old(cs)@.len(),
    ensures
        refreshed(old(cs)@, q@, final(cs)@),
{
    let ghost before = cs@;
    let mut i: usize = 0;
    while i < cs.len()
        invariant
            cs@.len() == before.len(),
            i <= before.len(),
            forall|j: int| 0 <= j < before.len() ==> #[trigger] cs@[j] == (if j < i && q@.contains(j as usize) {
                match before[j].ap {
                    Some(p) => Combatant { ap: Some(ActionPoints { current: p.max, max: p.max }), ..before[j] },
                    None => before[j],
                }
            } else {
                before[j]
            }),
        decreases before.len() - i,
    {
        let mut listed = false;
        let mut k: usize = 0;
        while k < q.len()
            invariant
                k <= q@.len(),
                listed == exists|m: int| 0 <= m < k && q@[m] == i,
            decreases q@.len() - k,
        {
            if q[k] == i {
                listed = true;
            }
            k = k + 1;
        }
        proof {
            if listed {
                let m = choose|m: int| 0 <= m < q@.len() && q@[m] == i;
                assert(q@.contains(i));
            }
            if q@.contains(i) {
                let m = choose|m: int| 0 <= m < q@.len() && q@[m] == i;
                assert(listed);
            }
        }
        if listed {
            let c = cs[i];
            match c.ap {
                Some(p) => {
                    let r = Combatant { ap: Some(ActionPoints { current: p.max, max: p.max }), ..c };
                    cs.set(i, r);
                },
                None => {},
            }
        }
        i = i + 1;
    }
}


// ── Driving a battle ──────────────────────────────────────────────────────────

/// What one step of the battle driver did.
#[derive(Debug, Clone, Copy)]
pub enum StepEvent {
    /// The battle is decided.
    Finished(BattleOutcome),
    /// The other side's turn began (and, after the enemy side, a new round); nobody acted.
    SideChanged,
    /// This combatant takes its full turn now.
    Act(Entity),
}

/// The driver opening the next side's turn: its acting combatants queue up, fastest
/// first, with their action points refilled.
pub open spec fn opened_side(cs: Seq<Combatant>, turn: Turn, queue: Seq<Entity>, after: Seq<Combatant>) -> bool {
    exists|q: Seq<usize>| is_side_queue(cs, turn, q) && refreshed(cs, q, after) && queue == entities_of(cs, q)
}

/// What stepping driver `s` over roster `cs` gives: the driver `t`, the roster
/// `after` and the event `ev`.
pub open spec fn spec_step(s: BattleStep, cs: Seq<Combatant>, t: BattleStep, after: Seq<Combatant>, ev: StepEvent) -> bool {
    match spec_check_outcome(cs) {
        Some(o) => t.round == s.round && t.turn == s.turn && t.queue() == s.queue() && after == cs && ev == StepEvent::Finished(o),
        None => if s.queue().len() > 0 {
            &&& t.round == s.round
            &&& t.turn == s.turn
            &&& t.queue() == s.queue().drop_first()
            &&& after == cs
            &&& ev == StepEvent::Act(s.queue()[0])
        } else if s.turn == Turn::Enemy && s.round + 1 > MAX_ROUNDS {
            &&& t.round == s.round + 1
            &&& t.turn == s.turn
            &&& t.queue() == s.queue()
            &&& after == cs
            &&& ev == StepEvent::Finished(BattleOutcome::Draw)
        } else {
            let next = if s.turn == Turn::Player { Turn::Enemy } else { Turn::Player };
            &&& t.round == (if s.turn == Turn::Enemy { s.round + 1 } else { s.round as int })
            &&& t.turn == next
            &&& opened_side(cs, next, t.queue(), after)
            &&& ev == match spec_check_outcome(after) {
                Some(o) => StepEvent::Finished(o),
                None => StepEvent::SideChanged,
            }
        },
    }
}

fn entities_c(cs: &Vec<Combatant>, q: &Vec<usize>) -> (v: Vec<Entity>)
    requires
        forall|k: int| 0 <= k < q@.len() ==> #[trigger] q@[k] < cs@.len(),
    ensures
        v@ == entities_of(cs@, q@),
{
    let mut v: Vec<Entity> = Vec::new();
    let mut k: usize = 0;
    while k < q.len()
        invariant
            k <= q@.len(),
            forall|j: int| 0 <= j < q@.len() ==> #[trigger] q@[j] < cs@.len(),
            v@ == entities_of(cs@, q@.subrange(0, k as int)),
        decreases q@.len() - k,
    {
        v.push(cs[q[k]].entity);
        k = k + 1;
        proof {
            assert(v@ =~= entities_of(cs@, q@.subrange(0, k as int)));
        }
    }
    proof {
        assert(q@.subrange(0, k as int) =~= q@);
    }
    v
}

/// Queue side `turn` and refill its action points.
fn open_side(battle: &mut Battle, turn: Turn) -> (queue: Vec<Entity>)
    ensures
        opened_side(old(battle).combatants@, turn, queue@, final(battle).combatants@),
        final(battle).pending@ == old(battle).pending@,
        final(battle).map == old(battle).map,
{
    let q = side_queue(&battle.combatants, turn);
    let queue = entities_c(&battle.combatants, &q);
    refresh_listed(&mut battle.combatants, &q);
    queue
}

impl BattleStep {
    /// Start a battle: the party's living characters queue up, fastest first, with
    /// their action points refilled; round 1, the player side first.
    pub fn new(battle: &mut Battle) -> (b: Self)
        ensures
            b.round == 1,
            b.turn == Turn::Player,
            opened_side(old(battle).combatants@, Turn::Player, b.queue(), final(battle).combatants@),
            final(battle).pending@ == old(battle).pending@,
            final(battle).map == old(battle).map,
    {
        let queue = open_side(battle, Turn::Player);
        BattleStep { round: 1, turn: Turn::Player, actor_queue: queue }
    }

    /// Advance the battle by one step: report the outcome once it is decided; when
    /// the acting side has no one left to act, open the other side's turn (a new
    /// round after the enemy side, a draw past `MAX_ROUNDS`); otherwise hand the turn
    /// to the next queued combatant, which then spends its action points.
    pub fn step(&mut self, battle: &mut Battle) -> (ev: StepEvent)
        requires
            old(self).round < u32::MAX,
        ensures
            spec_step(*old(self), old(battle).combatants@, *final(self), final(battle).combatants@, ev),
            final(battle).pending@ == old(battle).pending@,
            final(battle).map == old(battle).map,
    {
        if let Some(o) = check_outcome(&battle.combatants) {
            return StepEvent::Finished(o);
        }
        if self.actor_queue.len() > 0 {
            let actor = self.actor_queue.remove(0);
            proof {
                assert(self.actor_queue@ =~= old(self).queue().drop_first());
            }
            return StepEvent::Act(actor);
        }
        let next = match self.turn {
            Turn::Player => Turn::Enemy,
            Turn::Enemy => {
                self.round = self.round + 1;
                if self.round > MAX_ROUNDS {
                    return StepEvent::Finished(BattleOutcome::Draw);
                }
                Turn::Player
            },
        };
        self.turn = next;
        self.actor_queue = open_side(battle, next);
        match check_outcome(&battle.combatants) {
            Some(o) => StepEvent::Finished(o),
            None => StepEvent::SideChanged,
        }
    }
}


/// What one player action did.
#[derive(Debug, Clone, Copy)]
pub struct PlayerTurnStep {
    /// The combatant that acted (none when nobody was queued).
    pub actor: Option<Entity>,
    /// The logged action (none for a pass or an action that was refused).
    pub action: Option<TurnAction>,
    /// Whether the actor's turn has ended (pass chosen or AP exhausted).
    pub turn_ended: bool,
    /// Set when the battle is decided after this action.
    pub outcome: Option<BattleOutcome>,
}

/// The roster position of the first combatant that is entity `e`.
pub open spec fn position_of(cs: Seq<Combatant>, e: Entity, n: int) -> Option<int>
    decreases n,
{
    if n <= 0 {
        None
    } else {
        match position_of(cs, e, n - 1) {
            Some(i) => Some(i),
            None => if cs[n - 1].entity == e {
                Some(n - 1)
            } else {
                None
            },
        }
    }
}

/// The player's chosen action for the front of the queue can be carried out within
/// the arithmetic limits.
pub open spec fn player_action_fits(s: BattleStep, b: Battle, choice: PlayerActionChoice, hit: bool) -> bool {
    s.queue().len() > 0 ==> match position_of(b.combatants@, s.queue()[0], b.combatants@.len() as int) {
        Some(i) => action_fits(b.combatants@, b.map, i, spec_to_action(choice), hit, s.round),
        None => true,
    }
}

/// Carrying out `choice` for entity `e` in round `round`: the outcome of applying
/// its action to the first combatant that is `e`, with the AP that combatant has
/// left (nothing happens, with no AP left, when no combatant is `e`).
#[verifier::opaque]
pub open spec fn acted(
    cs: Seq<Combatant>,
    pending: Seq<crate::pending_effects::PendingEffect>,
    map: Option<crate::terrain::LevelMap>,
    e: Entity,
    choice: PlayerActionChoice,
    hit: bool,
    round: u32,
) -> (crate::ability::Outcome, int) {
    match position_of(cs, e, cs.len() as int) {
        Some(i) => {
            let o = spec_apply_action(cs, pending, map, i, spec_to_action(choice), hit, round);
            (o, ap_now(o.cs[i]))
        },
        None => (crate::ability::Outcome { cs, pending, action: None }, 0int),
    }
}

/// What carrying out `choice` for the front of the queue of `s` does: the action is
/// applied to its combatant (found by entity); the turn ends on a pass or when its AP
/// is spent, and when the last player has acted the enemy side's turn opens.
pub open spec fn spec_player_action(
    s: BattleStep,
    cs: Seq<Combatant>,
    pending: Seq<crate::pending_effects::PendingEffect>,
    map: Option<crate::terrain::LevelMap>,
    choice: PlayerActionChoice,
    hit: bool,
    t: BattleStep,
    cs2: Seq<Combatant>,
    pending2: Seq<crate::pending_effects::PendingEffect>,
    r: PlayerTurnStep,
) -> bool {
    if s.queue().len() == 0 {
        &&& t.round == s.round && t.turn == s.turn && t.queue() == s.queue()
        &&& cs2 == cs && pending2 == pending
        &&& r == PlayerTurnStep { actor: None, action: None, turn_ended: true, outcome: spec_check_outcome(cs) }
    } else {
        let e = s.queue()[0];
        let (o, ap_left) = acted(cs, pending, map, e, choice, hit, s.round);
        let ended = choice is Pass || ap_left == 0;
        &&& t.round == s.round
        &&& pending2 == o.pending
        &&& r.actor == Some(e)
        &&& r.action == o.action
        &&& r.turn_ended == ended
        &&& r.outcome == spec_check_outcome(cs2)
        &&& if !ended {
            t.turn == s.turn && t.queue() == s.queue() && cs2 == o.cs
        } else if s.queue().len() > 1 {
            t.turn == s.turn && t.queue() == s.queue().drop_first() && cs2 == o.cs
        } else {
            t.turn == Turn::Enemy && opened_side(o.cs, Turn::Enemy, t.queue(), cs2)
        }
    }
}

fn position_of_c(cs: &Vec<Combatant>, e: Entity) -> (r: Option<usize>)
    ensures
        match r {
            Some(i) => position_of(cs@, e, cs@.len() as int) == Some(i as int) && i < cs@.len(),
            None => position_of(cs@, e, cs@.len() as int) is None,
        },
{
    let mut i: usize = 0;
    while i < cs.len()
        invariant
            i <= cs@.len(),
            position_of(cs@, e, i as int) is None,
        decreases cs@.len() - i,
    {
        if cs[i].entity == e {
            proof {
                lemma_position_of_stays(cs@, e, i + 1, cs@.len() as int);
            }
            return Some(i);
        }
        i = i + 1;
    }
    None
}

proof fn lemma_position_of_stays(cs: Seq<Combatant>, e: Entity, m: int, n: int)
    requires
        0 <= m <= n,
        position_of(cs, e, m) is Some,
    ensures
        position_of(cs, e, n) == position_of(cs, e, m),
    decreases n - m,
{
    if m < n {
        lemma_position_of_stays(cs, e, m, n - 1);
    }
}

fn act(battle: &mut Battle, e: Entity, action: &Action, hit: bool, round: u32) -> (r: (Option<TurnAction>, i32))
    requires
        old(battle).wf(),
        match position_of(old(battle).combatants@, e, old(battle).combatants@.len() as int) {
            Some(i) => action_fits(old(battle).combatants@, old(battle).map, i, *action, hit, round),
            None => true,
        },
    ensures
        match position_of(old(battle).combatants@, e, old(battle).combatants@.len() as int) {
            Some(i) => {
                let o = spec_apply_action(old(battle).combatants@, old(battle).pending@, old(battle).map, i, *action, hit, round);
                &&& final(battle).combatants@ == o.cs
                &&& final(battle).pending@ == o.pending
                &&& r.0 == o.action
                &&& r.1 == ap_now(o.cs[i])
            },
            None => final(battle).combatants@ == old(battle).combatants@ && final(battle).pending@ == old(battle).pending@ && r.0 is None && r.1 == 0,
        },
        final(battle).map == old(battle).map,
        final(battle).wf(),
{
    match position_of_c(&battle.combatants, e) {
        Some(i) => {
            proof {
                crate::ability::lemma_apply_action_keeps_roster(
                    battle.combatants@, battle.pending@, battle.map, i as int, *action, hit, round);
            }
            let logged = apply_action(battle, i, action, hit, round);
            let left = match battle.combatants[i].ap {
                Some(p) => p.current,
                None => 0,
            };
            (logged, left)
        },
        None => (None, 0),
    }
}

impl BattleStep {
    /// Carry out one player-chosen action for the combatant at the front of the
    /// queue, `hit` being the hit roll for an attack. When its turn ends it leaves the
    /// queue, and once every player has acted the enemy side's turn opens.
    pub fn step_player_action(&mut self, battle: &mut Battle, choice: &PlayerActionChoice, hit: bool) -> (r: PlayerTurnStep)
        requires
            old(battle).wf(),
            player_action_fits(*old(self), *old(battle), *choice, hit),
        ensures
            spec_player_action(
                *old(self),
                old(battle).combatants@,
                old(battle).pending@,
                old(battle).map,
                *choice,
                hit,
                *final(self),
                final(battle).combatants@,
                final(battle).pending@,
                r,
            ),
            final(battle).map == old(battle).map,
    {
        if self.actor_queue.len() == 0 {
            return PlayerTurnStep { actor: None, action: None, turn_ended: true, outcome: check_outcome(&battle.combatants) };
        }
        let e = self.actor_queue[0];
        let action = choice.to_action();
        let (logged, ap_left) = act(battle, e, &action, hit, self.round);
        proof {
            reveal(acted);
        }
        let is_pass = match choice {
            PlayerActionChoice::Pass => true,
            _ => false,
        };
        let turn_ended = is_pass || ap_left == 0;
        if turn_ended {
            self.actor_queue.remove(0);
            proof {
                assert(self.actor_queue@ =~= old(self).queue().drop_first());
            }
            if self.actor_queue.len() == 0 {
                self.turn = Turn::Enemy;
                self.actor_queue = open_side(battle, Turn::Enemy);
            }
        }
        PlayerTurnStep { actor: Some(e), action: logged, turn_ended, outcome: check_outcome(&battle.combatants) }
    }
}

/// The choices offered to the player for the front of the queue: none on the enemy
/// side's turn, once the battle is decided, or with nobody queued (or the queued
/// entity gone from the roster).
pub open spec fn spec_player_choices(s: BattleStep, b: Battle, abilities: Seq<crate::ability::Ability>) -> Seq<PlayerActionChoice> {
    if s.turn != Turn::Player || spec_check_outcome(b.combatants@) is Some || s.queue().len() == 0 {
        Seq::empty()
    } else {
        match position_of(b.combatants@, s.queue()[0], b.combatants@.len() as int) {
            Some(i) => spec_available_player_actions(b.combatants@, b.map, i, abilities),
            None => Seq::empty(),
        }
    }
}

impl BattleStep {
    /// Returns the available actions for the next queued player combatant, whose
    /// abilities are `abilities`.
    pub fn player_choices(&self, battle: &Battle, abilities: &Vec<crate::ability::Ability>) -> (v: Vec<PlayerActionChoice>)
        requires
            battle.wf(),
            match battle.map {
                Some(m) => m.cols <= i32::MAX && m.rows <= i32::MAX,
                None => true,
            },
            self.queue().len() > 0 ==> match position_of(battle.combatants@, self.queue()[0], battle.combatants@.len() as int) {
                Some(i) => choices_fit(battle.combatants@, i, abilities@),
                None => true,
            },
        ensures
            v@ == spec_player_choices(*self, *battle, abilities@),
    {
        if self.turn != Turn::Player || check_outcome(&battle.combatants).is_some() || self.actor_queue.len() == 0 {
            return Vec::new();
        }
        match position_of_c(&battle.combatants, self.actor_queue[0]) {
            Some(i) => available_player_actions(battle, i, abilities),
            None => Vec::new(),
        }
    }
}

/// Stepping the driver only ever refills action points: every combatant keeps its
/// place, health, stats and side, so a step never decides a battle by itself.
pub proof fn lemma_step_changes_only_ap(s: BattleStep, cs: Seq<Combatant>, t: BattleStep, after: Seq<Combatant>, ev: StepEvent)
    requires
        spec_step(s, cs, t, after, ev),
    ensures
        after.len() == cs.len(),
        forall|i: int|
            0 <= i < cs.len() ==> {
                &&& (#[trigger] after[i]).health == cs[i].health
                &&& after[i].pos == cs[i].pos
                &&& after[i].stats == cs[i].stats
                &&& after[i].character == cs[i].character
                &&& after[i].entity == cs[i].entity
            },
        spec_check_outcome(after) == spec_check_outcome(cs),
{
    if after != cs {
        let next = if s.turn == Turn::Player { Turn::Enemy } else { Turn::Player };
        assert(opened_side(cs, next, t.queue(), after));
        let q = choose|q: Seq<usize>| is_side_queue(cs, next, q) && refreshed(cs, q, after) && t.queue() == entities_of(cs, q);
        assert(refreshed(cs, q, after));
        assert forall|i: int| 0 <= i < cs.len() implies {
            &&& (#[trigger] after[i]).health == cs[i].health
            &&& after[i].pos == cs[i].pos
            &&& after[i].stats == cs[i].stats
            &&& after[i].character == cs[i].character
            &&& after[i].entity == cs[i].entity
        } by {
            assert(after[i] == (if q.contains(i as usize) {
                match cs[i].ap {
                    Some(p) => Combatant { ap: Some(ActionPoints { current: p.max, max: p.max }), ..cs[i] },
                    None => cs[i],
                }
            } else {
                cs[i]
            }));
        }
        assert((exists|i: int| 0 <= i < after.len() && hostile(#[trigger] after[i]) && alive(after[i])) == (exists|i: int|
            0 <= i < cs.len() && hostile(#[trigger] cs[i]) && alive(cs[i]))) by {
            if exists|i: int| 0 <= i < after.len() && hostile(#[trigger] after[i]) && alive(after[i]) {
                let i = choose|i: int| 0 <= i < after.len() && hostile(#[trigger] after[i]) && alive(after[i]);
                assert(hostile(cs[i]) && alive(cs[i]));
            }
            if exists|i: int| 0 <= i < cs.len() && hostile(#[trigger] cs[i]) && alive(cs[i]) {
                let i = choose|i: int| 0 <= i < cs.len() && hostile(#[trigger] cs[i]) && alive(cs[i]);
                assert(hostile(after[i]) && alive(after[i]));
            }
        }
        assert((exists|i: int| 0 <= i < after.len() && of_party(#[trigger] after[i]) && alive(after[i])) == (exists|i: int|
            0 <= i < cs.len() && of_party(#[trigger] cs[i]) && alive(cs[i]))) by {
            if exists|i: int| 0 <= i < after.len() && of_party(#[trigger] after[i]) && alive(after[i]) {
                let i = choose|i: int| 0 <= i < after.len() && of_party(#[trigger] after[i]) && alive(after[i]);
                assert(of_party(cs[i]) && alive(cs[i]));
            }
            if exists|i: int| 0 <= i < cs.len() && of_party(#[trigger] cs[i]) && alive(cs[i]) {
                let i = choose|i: int| 0 <= i < cs.len() && of_party(#[trigger] cs[i]) && alive(cs[i]);
                assert(of_party(after[i]) && alive(after[i]));
            }
        }
    }
}

} // verus!
