use vstd::prelude::*;

use crate::ability::{Battle, Combatant};
use crate::character::{Aggression, CharacterKind};
use crate::combat::{BattleStep, Turn};
use crate::entity::Entity;
use crate::terrain::{entries_map, keys_distinct, LevelMap};
use crate::game::EndingKind;
use crate::terrain::Tile;
use crate::zone::ZoneKind;

verus! {

/// Role a combatant plays in the battle, used to route save/restore logic.
#[derive(Debug, Clone, Copy, PartialEq, Eq, Structural)]
pub enum CombatantRole {
    /// The main player character (Researcher).
    Player,
    /// A persistent party companion.
    Companion,
    /// An enemy entity (despawned after combat).
    Enemy,
    /// A scripted temporary ally (despawned after combat).
    ScriptedAlly,
}

/// Full state of one combatant during a battle.
#[derive(Debug, Clone)]
pub struct CombatantSnapshot {
    pub role: CombatantRole,
    pub kind: CharacterKind,
    pub level: u32,
    pub current_hp: i32,
    pub max_hp: i32,
    pub current_ap: i32,
    pub max_ap: i32,
    pub x: i32,
    pub y: i32,
    pub aggression: Aggression,
    /// Ability name of the scripted first action, if present.
    pub scripted_first_action_name: Option<String>,
    /// Whether the scripted first action has already been executed.
    pub scripted_first_action_executed: bool,
}

/// Complete battle state: map, combatants, and turn order.
#[derive(Debug, Clone)]
pub struct BattleSnapshot {
    pub round: u32,
    pub turn: Turn,
    /// Indices into `combatants` for the remaining actor queue (front = currently active).
    pub actor_queue: Vec<usize>,
    pub combatants: Vec<CombatantSnapshot>,
    pub map_cols: u32,
    pub map_rows: u32,
    pub zone_kind: ZoneKind,
    /// Non-Open tiles only (Open is the default; omitting it keeps the list compact).
    pub map_tiles: Vec<((i32, i32), Tile)>,
}

/// Minimal persistent state needed to reconstruct a game session.
///
/// Everything else (zone terrain, enemy positions, dialog scenes) is procedural
/// and regenerated on load.
#[derive(Debug, Clone)]
pub struct SaveData {
    /// Current loop number (1–5).
    pub loop_number: u32,
    /// All raised dialog flags, sorted for deterministic output.
    pub flags: Vec<String>,
    /// Active companion name, if chosen ("orin", "doss", or "kaleo").
    pub active_companion: Option<String>,
    /// Zone the player was in when they saved.
    pub current_zone: ZoneKind,
    /// Kind of each party member (drives stat reconstruction).
    pub party_kinds: Vec<CharacterKind>,
    /// Current HP per party member (parallel to `party_kinds`).
    pub party_hp: Vec<i32>,
    /// Level per party member (parallel to `party_kinds`).
    pub party_levels: Vec<u32>,
    /// Scripted encounter ids the player has already fought.
    pub fought_scripted_encounters: Vec<String>,
    /// Story ending reached (if the game has ended).
    pub ending: Option<EndingKind>,
    /// Full battle state (present only when saved mid-battle).
    pub battle_snapshot: Option<BattleSnapshot>,
}


// ── Taking a battle snapshot ──────────────────────────────────────────────────

/// Whether `c` can be recorded: a character with health, action points and a place.
pub open spec fn recordable(c: Combatant) -> bool {
    c.character is Some && c.health is Some && c.ap is Some && c.pos is Some
}

/// Which block of the snapshot a role is recorded in: the player, then companions,
/// then everyone else.
pub open spec fn role_block(r: CombatantRole) -> int {
    match r {
        CombatantRole::Player => 0,
        CombatantRole::Companion => 1,
        _ => 2,
    }
}

/// The recordable combatants among the first `n` whose role falls in `block`, in
/// roster order.
pub open spec fn block_indices(cs: Seq<Combatant>, block: int, n: int) -> Seq<int>
    decreases n,
{
    if n <= 0 {
        Seq::empty()
    } else {
        let prev = block_indices(cs, block, n - 1);
        if recordable(cs[n - 1]) && role_block(cs[n - 1].role) == block {
            prev.push(n - 1)
        } else {
            prev
        }
    }
}

/// The order combatants are recorded in.
pub open spec fn snapshot_order(cs: Seq<Combatant>) -> Seq<int> {
    let n = cs.len() as int;
    block_indices(cs, 0, n) + block_indices(cs, 1, n) + block_indices(cs, 2, n)
}

/// `s` records combatant `c`; a scripted opening is recorded for non-party roles only.
pub open spec fn records(s: CombatantSnapshot, c: Combatant) -> bool {
    let (kind, aggression) = c.character.unwrap();
    let h = c.health.unwrap();
    let ap = c.ap.unwrap();
    let p = c.pos.unwrap();
    let opening = if role_block(c.role) == 2 { c.first_action } else { None };
    &&& s.role == c.role
    &&& s.kind == kind
    &&& s.level == c.level
    &&& s.current_hp == h.current
    &&& s.max_hp == h.max
    &&& s.current_ap == ap.current
    &&& s.max_ap == ap.max
    &&& s.x == p.0
    &&& s.y == p.1
    &&& s.aggression == aggression
    &&& match (s.scripted_first_action_name, opening) {
        (Some(name), Some(f)) => name@ == f.ability_name@,
        (None, None) => true,
        _ => false,
    }
    &&& s.scripted_first_action_executed == match opening {
        Some(f) => f.executed,
        None => false,
    }
}

/// The position in `order` of the last recorded combatant that is entity `e`.
pub open spec fn recorded_index(cs: Seq<Combatant>, order: Seq<int>, e: Entity, n: int) -> Option<int>
    decreases n,
{
    if n <= 0 {
        None
    } else if cs[order[n - 1]].entity == e {
        Some(n - 1)
    } else {
        recorded_index(cs, order, e, n - 1)
    }
}

/// The queue as positions in the snapshot: each queued entity that was recorded, in
/// queue order.
pub open spec fn queue_positions(cs: Seq<Combatant>, order: Seq<int>, queue: Seq<Entity>) -> Seq<usize>
    decreases queue.len(),
{
    if queue.len() == 0 {
        Seq::empty()
    } else {
        let prev = queue_positions(cs, order, queue.drop_last());
        match recorded_index(cs, order, queue.last(), order.len() as int) {
            Some(k) => prev.push(k as usize),
            None => prev,
        }
    }
}

/// `snap` records battle `b` driven by `step`: its combatants in snapshot order, the
/// queue as snapshot positions, and the map's non-open tiles (or the given zone and
/// size when there is no map).
pub open spec fn spec_battle_snapshot(
    b: Battle,
    step: BattleStep,
    zone: ZoneKind,
    cols: u32,
    rows: u32,
    snap: BattleSnapshot,
) -> bool {
    let cs = b.combatants@;
    let order = snapshot_order(cs);
    &&& snap.round == step.round
    &&& snap.turn == step.turn
    &&& snap.combatants@.len() == order.len()
    &&& forall|k: int| 0 <= k < order.len() ==> records(#[trigger] snap.combatants@[k], cs[order[k]])
    &&& snap.actor_queue@ == queue_positions(cs, order, step.queue())
    &&& match b.map {
        Some(m) => {
            &&& snap.map_cols == m.cols
            &&& snap.map_rows == m.rows
            &&& snap.zone_kind == m.zone_kind
            &&& keys_distinct(snap.map_tiles@)
            &&& entries_map(snap.map_tiles@) == m.non_open_entries()
        },
        None => snap.map_cols == cols && snap.map_rows == rows && snap.zone_kind == zone && snap.map_tiles@.len() == 0,
    }
}

fn recordable_c(c: &Combatant) -> (b: bool)
    ensures
        b == recordable(*c),
{
    c.character.is_some() && c.health.is_some() && c.ap.is_some() && c.pos.is_some()
}

fn role_block_c(r: CombatantRole) -> (b: u8)
    ensures
        b == role_block(r),
{
    match r {
        CombatantRole::Player => 0,
        CombatantRole::Companion => 1,
        _ => 2,
    }
}

fn record(c: &Combatant) -> (s: CombatantSnapshot)
    requires
        recordable(*c),
    ensures
        records(s, *c),
{
    let (kind, aggression) = match c.character {
        Some(x) => x,
        None => (CharacterKind::Researcher, Aggression::Friendly),
    };
    let (hp, max_hp) = match c.health {
        Some(h) => (h.current, h.max),
        None => (0, 0),
    };
    let (ap, max_ap) = match c.ap {
        Some(a) => (a.current, a.max),
        None => (0, 0),
    };
    let (x, y) = match c.pos {
        Some(p) => p,
        None => (0, 0),
    };
    let opening = if role_block_c(c.role) == 2 { c.first_action } else { None };
    let (name, executed) = match opening {
        Some(f) => (Some(String::from_str(f.ability_name)), f.executed),
        None => (None, false),
    };
    CombatantSnapshot {
        role: c.role,
        kind,
        level: c.level,
        current_hp: hp,
        max_hp,
        current_ap: ap,
        max_ap,
        x,
        y,
        aggression,
        scripted_first_action_name: name,
        scripted_first_action_executed: executed,
    }
}

/// Build a full battle snapshot from battle `b` driven by `step`. `zone`, `cols` and
/// `rows` stand for the map when the battle has none.
pub fn build_battle_snapshot(b: &Battle, step: &BattleStep, zone: ZoneKind, cols: u32, rows: u32) -> (snap: BattleSnapshot)
    requires
        b.wf(),
    ensures
        spec_battle_snapshot(*b, *step, zone, cols, rows, snap),
{
    let ghost cs = b.combatants@;
    let mut combatants: Vec<CombatantSnapshot> = Vec::new();
    let mut order: Vec<usize> = Vec::new();
    let mut block: u8 = 0;
    while block < 3
        invariant
            block <= 3,
            cs == b.combatants@,
            combatants@.len() == order@.len(),
            order@.len() <= cs.len() * block,
            forall|k: int| 0 <= k < order@.len() ==> (#[trigger] order@[k]) < cs.len(),
            forall|k: int| 0 <= k < order@.len() ==> records(#[trigger] combatants@[k], cs[order@[k] as int]),
            order@.map_values(|i: usize| i as int) == (if block == 0 {
                Seq::<int>::empty()
            } else if block == 1 {
                block_indices(cs, 0, cs.len() as int)
            } else if block == 2 {
                block_indices(cs, 0, cs.len() as int) + block_indices(cs, 1, cs.len() as int)
            } else {
                snapshot_order(cs)
            }),
        decreases 3 - block,
    {
        let ghost base = order@.map_values(|i: usize| i as int);
        let mut i: usize = 0;
        while i < b.combatants.len()
            invariant
                block < 3,
                i <= cs.len(),
                cs == b.combatants@,
                combatants@.len() == order@.len(),
                order@.len() <= cs.len() * block + i,
                forall|k: int| 0 <= k < order@.len() ==> (#[trigger] order@[k]) < cs.len(),
                forall|k: int| 0 <= k < order@.len() ==> records(#[trigger] combatants@[k], cs[order@[k] as int]),
                order@.map_values(|i: usize| i as int) == base + block_indices(cs, block as int, i as int),
            decreases cs.len() - i,
        {
            let c = &b.combatants[i];
            if recordable_c(c) && role_block_c(c.role) == block {
                let ghost before = order@;
                combatants.push(record(c));
                order.push(i);
                proof {
                    assert(order@.map_values(|i: usize| i as int) =~= before.map_values(|i: usize| i as int).push(i as int));
                }
            }
            i = i + 1;
        }
        proof {
            assert(order@.map_values(|i: usize| i as int) =~= base + block_indices(cs, block as int, cs.len() as int));
        }
        block = block + 1;
    }
    let ghost ord = snapshot_order(cs);
    // The queue, as positions in the snapshot.
    let mut queue: Vec<usize> = Vec::new();
    let mut q: usize = 0;
    while q < step.actor_queue.len()
        invariant
            q <= step.actor_queue@.len(),
            cs == b.combatants@,
            order@.len() <= cs.len() * 3,
            forall|k: int| 0 <= k < order@.len() ==> (#[trigger] order@[k]) < cs.len(),
            order@.map_values(|i: usize| i as int) == ord,
            queue@ == queue_positions(cs, ord, step.queue().subrange(0, q as int)),
        decreases step.actor_queue@.len() - q,
    {
        let e = step.actor_queue[q];
        let mut found: Option<usize> = None;
        let mut k: usize = 0;
        while k < order.len()
            invariant
                k <= order@.len(),
                cs == b.combatants@,
                forall|j: int| 0 <= j < order@.len() ==> (#[trigger] order@[j]) < cs.len(),
                order@.map_values(|i: usize| i as int) == ord,
                match found {
                    Some(f) => recorded_index(cs, ord, e, k as int) == Some(f as int),
                    None => recorded_index(cs, ord, e, k as int) is None,
                },
            decreases order@.len() - k,
        {
            proof {
                assert(ord[k as int] == order@[k as int] as int);
            }
            if b.combatants[order[k]].entity == e {
                found = Some(k);
            }
            k = k + 1;
        }
        proof {
            let sub = step.queue().subrange(0, q + 1);
            assert(sub.drop_last() =~= step.queue().subrange(0, q as int));
            assert(sub.last() == e);
        }
        match found {
            Some(f) => queue.push(f),
            None => {},
        }
        q = q + 1;
    }
    proof {
        assert(step.queue().subrange(0, q as int) =~= step.queue());
    }
    let (map_cols, map_rows, zone_kind, map_tiles) = match &b.map {
        Some(m) => (m.cols, m.rows, m.zone_kind, m.non_default_tiles()),
        None => (cols, rows, zone, Vec::new()),
    };
    let snap = BattleSnapshot {
        round: step.round,
        turn: step.turn,
        actor_queue: queue,
        combatants,
        map_cols,
        map_rows,
        zone_kind,
        map_tiles,
    };
    proof {
        assert forall|k: int| 0 <= k < ord.len() implies records(#[trigger] snap.combatants@[k], cs[ord[k]]) by {
            assert(ord[k] == order@[k] as int);
        }
    }
    snap
}

} // verus!
