use vstd::prelude::*;

use crate::character::{
    character_fits, spec_base_xp, spec_default_aggression, spec_default_name, spec_scaled_stats,
    Aggression, Character, CharacterKind,
};
use crate::dialog::{string_views, strictly_sorted, DialogFlags};
use crate::npc_population::{derive_companion, spec_derive_companion};
use crate::save::{BattleSnapshot, SaveData};
use crate::terrain::LevelMap;
use crate::zone::{CardinalDir, TravelState, ZoneConnections, ZoneKind};

verus! {

/// Which story ending the player reached in loop 5.
#[derive(Debug, Clone, Copy, PartialEq, Eq, Structural)]
pub enum EndingKind {
    /// Anomaly contained; timeline unchanged. War happens as-is.
    Default,
    /// Player helped Orin destroy the program. Orin doesn't survive.
    SableDestroyed,
    /// Player stopped Orin. Program persists; timeline preserved.
    SableStopped,
    /// Player sided with Kaleo. Anomaly redirected; loop folds harmlessly.
    KaleoCompromise,
    /// Player sided with Doss. Timeline accepted as-is.
    DossPreserved,
}

/// Result of moving the player during exploration.
#[derive(Debug, Clone, Copy, PartialEq, Eq, Structural)]
pub enum MoveResult {
    /// The player did not move (blocked by an obstacle or not in exploration phase).
    Blocked,
    /// The player moved to an open tile with no door.
    Moved,
    /// The player stepped onto a named-zone door and entered a hallway.
    EnteredHallway,
    /// The player exited a hallway and entered another hallway (arrival roll failed).
    ContinuedHallway,
    /// The player exited a hallway and arrived at the destination zone.
    ArrivedAtDestination,
    /// The player stepped onto the hallway backtrack door and returned to the origin zone.
    Backtracked,
}

/// A non-player character standing in the current zone.
#[derive(Debug, Clone, Copy)]
pub struct NpcData {
    pub pos: (i32, i32),
    pub name: &'static str,
    pub glyph: char,
    pub kind: CharacterKind,
    pub aggression: Aggression,
}

/// The ending reached with the flag set `flags` in loop `loop_number`, if any.
/// Endings only resolve in loop 5; the first matching choice wins, in the order
/// Doss, Kaleo, Orin helped, Orin stopped (the last one only without the convergence).
pub open spec fn spec_resolve_ending(flags: Set<Seq<char>>, loop_number: u32) -> Option<EndingKind> {
    if loop_number < 5 {
        None
    } else if flags.contains("ending_doss"@) {
        Some(EndingKind::DossPreserved)
    } else if flags.contains("ending_kaleo"@) {
        Some(EndingKind::KaleoCompromise)
    } else if flags.contains("orin_helped"@) {
        Some(EndingKind::SableDestroyed)
    } else if flags.contains("orin_stopped"@) && !flags.contains("convergence_triggered"@) {
        Some(EndingKind::SableStopped)
    } else {
        None
    }
}

/// Determine if a story ending has been reached based on flags set by dialog.
/// Returns `None` if the game should continue normally.
pub fn resolve_ending(flags: &DialogFlags, loop_number: u32) -> (e: Option<EndingKind>)
    ensures
        e == spec_resolve_ending(flags@, loop_number),
{
    if loop_number < 5 {
        return None;
    }
    if flags.is_flag_set("ending_doss") {
        return Some(EndingKind::DossPreserved);
    }
    if flags.is_flag_set("ending_kaleo") {
        return Some(EndingKind::KaleoCompromise);
    }
    if flags.is_flag_set("orin_helped") {
        return Some(EndingKind::SableDestroyed);
    }
    if flags.is_flag_set("orin_stopped") && !flags.is_flag_set("convergence_triggered") {
        return Some(EndingKind::SableStopped);
    }
    None
}


// ── Game session ──────────────────────────────────────────────────────────────

/// Where the session stands.
#[derive(Debug, Clone, Copy, PartialEq, Eq, Structural)]
pub enum GamePhase {
    Exploration,
    Battle,
    /// A story ending has been reached.
    Ended(EndingKind),
}

/// Which dialog scene the front end should start next at the current zone.
#[derive(Debug, Clone, Copy, PartialEq, Eq, Structural)]
pub enum DialogTrigger {
    /// `loop{N}_{location}_on_enter`.
    Enter,
    /// `loop{N}_{location}_on_combat_end`.
    CombatEnd,
}

/// The state that the session's decisions read and write: phase, loop, story flags,
/// party and pending dialog or battle. The front end owns the world it renders
/// (terrain, positions, the battle board) and keeps it in step with this record.
pub struct GameSession {
    pub phase: GamePhase,
    /// Current loop number (1–5).
    pub loop_number: u32,
    /// Dialog flags raised so far.
    pub flags: DialogFlags,
    /// Which companion is currently travelling with the player ("orin", "doss", "kaleo").
    pub active_companion: Option<String>,
    /// The zone the party is in.
    pub zone: ZoneKind,
    /// The party, the Researcher first.
    pub party: Vec<Character>,
    /// Whether a dialog scene is showing (movement and battles wait for it).
    pub in_dialog: bool,
    /// The dialog scene the front end should start next, if any.
    pub pending_dialog: Option<DialogTrigger>,
    /// A combat encounter waits to start once no dialog is showing.
    pub pending_battle: bool,
    /// Ids of the scripted encounters already fought, kept as a sorted set of names.
    pub fought_scripted_encounters: DialogFlags,
    /// Set while the party travels between named zones through hallways.
    pub travel: Option<TravelState>,
}

/// The text of an optional string.
pub open spec fn opt_string_view(o: Option<String>) -> Option<Seq<char>> {
    match o {
        Some(s) => Some(s@),
        None => None,
    }
}

/// Whether a party member of kind `k` is in `p`.
pub open spec fn has_kind(p: Seq<Character>, k: CharacterKind) -> bool {
    exists|i: int| 0 <= i < p.len() && #[trigger] p[i].kind == k
}

/// The companions that `flags` recruit and that are not in party `p` yet, in the
/// order Orin, Doss, Kaleo.
pub open spec fn spec_recruits(flags: Set<Seq<char>>, p: Seq<Character>) -> Seq<CharacterKind> {
    let orin = if flags.contains("companion_orin"@) && !has_kind(p, CharacterKind::Orin) {
        seq![CharacterKind::Orin]
    } else {
        Seq::empty()
    };
    let doss = if flags.contains("companion_doss"@) && !has_kind(p, CharacterKind::Doss) {
        seq![CharacterKind::Doss]
    } else {
        Seq::empty()
    };
    let kaleo = if flags.contains("kaleo_recruited"@) && !has_kind(p, CharacterKind::Kaleo) {
        seq![CharacterKind::Kaleo]
    } else {
        Seq::empty()
    };
    orin + doss + kaleo
}

/// The Researcher's level, which recruits join at (1 for an empty party).
pub open spec fn party_level(p: Seq<Character>) -> u32 {
    if p.len() > 0 {
        p[0].level
    } else {
        1
    }
}

/// Every companion that `flags` would recruit into `p` can be made at the party level.
pub open spec fn recruits_fit(flags: Set<Seq<char>>, p: Seq<Character>) -> bool {
    forall|i: int| 0 <= i < spec_recruits(flags, p).len() ==> character_fits(#[trigger] spec_recruits(flags, p)[i], party_level(p))
}

/// `c` is a newly made character of `kind` at `level`, at full hit points.
pub open spec fn is_fresh(c: Character, kind: CharacterKind, level: u32) -> bool {
    &&& c.name@ == spec_default_name(kind)
    &&& c.kind == kind
    &&& c.level == level
    &&& c.stats == spec_scaled_stats(kind, level)
    &&& c.current_hp == c.stats.max_hp
    &&& c.xp_reward == spec_base_xp(kind) * level
    &&& c.aggression == spec_default_aggression(kind)
}

/// `after` is `before` followed by one newly made character at `level` per kind in `kinds`.
pub open spec fn recruited(before: Seq<Character>, kinds: Seq<CharacterKind>, level: u32, after: Seq<Character>) -> bool {
    &&& after.len() == before.len() + kinds.len()
    &&& after.subrange(0, before.len() as int) == before
    &&& forall|i: int| 0 <= i < kinds.len() ==> is_fresh(#[trigger] after[before.len() + i], kinds[i], level)
}

fn contains_kind(party: &Vec<Character>, k: CharacterKind) -> (b: bool)
    ensures
        b == has_kind(party@, k),
{
    let mut i: usize = 0;
    while i < party.len()
        invariant
            i <= party@.len(),
            forall|j: int| 0 <= j < i ==> party@[j].kind != k,
        decreases party@.len() - i,
    {
        if party[i].kind == k {
            return true;
        }
        i = i + 1;
    }
    false
}

/// Appends the companions that `flags` recruit and the party lacks, at the
/// Researcher's level.
fn recruit(party: &mut Vec<Character>, flags: &DialogFlags)
    requires
        recruits_fit(flags@, old(party)@),
    ensures
        recruited(old(party)@, spec_recruits(flags@, old(party)@), party_level(old(party)@), final(party)@),
{
    let ghost before = party@;
    let ghost kinds = spec_recruits(flags@, before);
    let level = if party.len() > 0 { party[0].level } else { 1 };
    let orin = flags.is_flag_set("companion_orin") && !contains_kind(party, CharacterKind::Orin);
    let doss = flags.is_flag_set("companion_doss") && !contains_kind(party, CharacterKind::Doss);
    let kaleo = flags.is_flag_set("kaleo_recruited") && !contains_kind(party, CharacterKind::Kaleo);
    let ghost n1: int = if orin { 1int } else { 0int };
    let ghost n2: int = n1 + if doss { 1int } else { 0int };
    proof {
        assert(kinds.len() == n2 + if kaleo { 1int } else { 0int });
    }
    if orin {
        proof { assert(kinds[0] == CharacterKind::Orin); }
        party.push(Character::new_character(CharacterKind::Orin, level));
    }
    if doss {
        proof { assert(kinds[n1] == CharacterKind::Doss); }
        party.push(Character::new_character(CharacterKind::Doss, level));
    }
    if kaleo {
        proof { assert(kinds[n2] == CharacterKind::Kaleo); }
        party.push(Character::new_character(CharacterKind::Kaleo, level));
    }
    proof {
        assert(party@.subrange(0, before.len() as int) =~= before);
    }
}


/// The id of the scripted encounter set in `zone` during loop `loop_number`, if any:
/// the tutorial in the Research Wing in loop 1, the Archon in the Military Annex from
/// loop 4 on.
pub open spec fn spec_scripted_encounter_id(zone: ZoneKind, loop_number: u32) -> Option<Seq<char>> {
    if zone == ZoneKind::ResearchWing && loop_number == 1 {
        Some("tutorial_opening"@)
    } else if zone == ZoneKind::MilitaryAnnex && loop_number >= 4 {
        Some("archon_encounter"@)
    } else {
        None
    }
}

/// The id of the scripted encounter registered for `zone` in loop `loop_number`.
pub fn scripted_encounter_id(zone: ZoneKind, loop_number: u32) -> (r: Option<&'static str>)
    ensures
        match r {
            Some(id) => spec_scripted_encounter_id(zone, loop_number) == Some(id@),
            None => spec_scripted_encounter_id(zone, loop_number) is None,
        },
{
    if zone == ZoneKind::ResearchWing && loop_number == 1 {
        Some("tutorial_opening")
    } else if zone == ZoneKind::MilitaryAnnex && loop_number >= 4 {
        Some("archon_encounter")
    } else {
        None
    }
}

/// Whether a battle waits on arrival: the zone rolled an encounter, or its scripted
/// encounter for this loop has not been fought yet.
pub open spec fn spec_pending_on_arrival(zone: ZoneKind, loop_number: u32, fought: Set<Seq<char>>, rolled: bool) -> bool {
    rolled || match spec_scripted_encounter_id(zone, loop_number) {
        Some(id) => !fought.contains(id),
        None => false,
    }
}

/// `t` is `s` with the waiting battle started, when one waits and no dialog shows.
pub open spec fn spec_maybe_start(s: GameSession, t: GameSession) -> bool {
    if s.phase == GamePhase::Exploration && s.pending_battle && !s.in_dialog {
        t == GameSession { phase: GamePhase::Battle, pending_battle: false, ..s }
    } else {
        t == s
    }
}

/// Ending a dialog on `s` with the flags `new` raised during it gives `t`: the flags
/// are merged, the active companion re-derived, recruits join, and then either an
/// ending is reached or a waiting battle starts. Outside exploration nothing changes.
pub open spec fn spec_end_dialog(s: GameSession, new: Set<Seq<char>>, t: GameSession) -> bool {
    if s.phase != GamePhase::Exploration {
        t == s
    } else {
        let flags = s.flags@.union(new);
        &&& t.flags@ == flags
        &&& opt_string_view(t.active_companion) == spec_derive_companion(flags)
        &&& recruited(s.party@, spec_recruits(flags, s.party@), party_level(s.party@), t.party@)
        &&& !t.in_dialog
        &&& t.pending_dialog is None
        &&& t.loop_number == s.loop_number
        &&& t.zone == s.zone
        &&& t.fought_scripted_encounters == s.fought_scripted_encounters
        &&& t.travel == s.travel
        &&& match spec_resolve_ending(flags, s.loop_number) {
            Some(k) => t.phase == GamePhase::Ended(k) && t.pending_battle == s.pending_battle,
            None => if s.pending_battle {
                t.phase == GamePhase::Battle && !t.pending_battle
            } else {
                t.phase == GamePhase::Exploration && !t.pending_battle
            },
        }
    }
}

/// Dismissing the dialog on `s` gives `t`: no dialog shows and a waiting battle
/// starts. Outside exploration nothing changes.
pub open spec fn spec_dismiss_dialog(s: GameSession, t: GameSession) -> bool {
    if s.phase != GamePhase::Exploration {
        t == s
    } else {
        spec_maybe_start(GameSession { in_dialog: false, pending_dialog: None, ..s }, t)
    }
}

impl GameSession {
    fn maybe_start_battle(&mut self)
        ensures
            spec_maybe_start(*old(self), *final(self)),
    {
        if self.phase == GamePhase::Exploration && self.pending_battle && !self.in_dialog {
            self.pending_battle = false;
            self.phase = GamePhase::Battle;
        }
    }

    /// Transition from exploration into a battle.
    pub fn transition_to_battle(&mut self)
        ensures
            *final(self) == (if old(self).phase == GamePhase::Exploration {
                GameSession { phase: GamePhase::Battle, ..*old(self) }
            } else {
                *old(self)
            }),
    {
        if self.phase == GamePhase::Exploration {
            self.phase = GamePhase::Battle;
        }
    }

    /// Called when a dialog scene completes, with the boolean flags set to true
    /// during it. Flags are merged, the active companion is re-derived, companions
    /// are recruited, and ending resolution is attempted; if a battle was pending,
    /// it starts.
    pub fn end_dialog(&mut self, new_flags: Vec<String>)
        requires
            old(self).phase == GamePhase::Exploration ==> recruits_fit(
                old(self).flags@.union(string_views(new_flags@).to_set()),
                old(self).party@,
            ),
        ensures
            spec_end_dialog(*old(self), string_views(new_flags@).to_set(), *final(self)),
    {
        if self.phase != GamePhase::Exploration {
            return;
        }
        self.flags.import_flags(new_flags);
        self.active_companion = derive_companion(&self.flags);
        self.in_dialog = false;
        self.pending_dialog = None;
        recruit(&mut self.party, &self.flags);
        match resolve_ending(&self.flags, self.loop_number) {
            Some(k) => {
                self.phase = GamePhase::Ended(k);
            },
            None => {
                self.maybe_start_battle();
            },
        }
    }

    /// Dismiss the pending dialog without processing it; a pending battle starts.
    pub fn dismiss_dialog(&mut self)
        ensures
            spec_dismiss_dialog(*old(self), *final(self)),
    {
        if self.phase != GamePhase::Exploration {
            return;
        }
        self.in_dialog = false;
        self.pending_dialog = None;
        self.maybe_start_battle();
    }
}


/// `c` back at full hit points.
pub open spec fn healed_member(c: Character) -> Character {
    Character { current_hp: c.stats.max_hp, ..c }
}

/// Every member of `p` back at full hit points.
pub open spec fn healed(p: Seq<Character>) -> Seq<Character> {
    p.map_values(|c: Character| healed_member(c))
}

/// Healing changes neither who is in the party nor the Researcher's level, so it
/// recruits the same companions.
proof fn lemma_healed_recruits(flags: Set<Seq<char>>, p: Seq<Character>)
    ensures
        spec_recruits(flags, healed(p)) == spec_recruits(flags, p),
        party_level(healed(p)) == party_level(p),
{
    assert forall|k: CharacterKind| has_kind(healed(p), k) == has_kind(p, k) by {
        if has_kind(p, k) {
            let i = choose|i: int| 0 <= i < p.len() && #[trigger] p[i].kind == k;
            assert(healed(p)[i].kind == k);
        }
        if has_kind(healed(p), k) {
            let i = choose|i: int| 0 <= i < healed(p).len() && #[trigger] healed(p)[i].kind == k;
            assert(p[i].kind == k);
        }
    }
}

fn heal(party: &mut Vec<Character>)
    ensures
        final(party)@ == healed(old(party)@),
{
    let mut rest: Vec<Character> = Vec::new();
    std::mem::swap(&mut rest, party);
    let ghost orig = rest@;
    while rest.len() > 0
        invariant
            party@.len() + rest@.len() == orig.len(),
            party@ == healed(orig).subrange(0, party@.len() as int),
            rest@ == orig.subrange(party@.len() as int, orig.len() as int),
        decreases rest@.len(),
    {
        let ghost k = party@.len();
        let mut c = rest.remove(0);
        proof {
            assert(c == orig[k as int]);
        }
        c.current_hp = c.stats.max_hp;
        party.push(c);
        proof {
            assert(party@ =~= healed(orig).subrange(0, party@.len() as int));
            assert(rest@ =~= orig.subrange(party@.len() as int, orig.len() as int));
        }
    }
    proof {
        assert(party@ =~= healed(orig));
    }
}

/// Starting loop `loop_number` from `s`, the zone having rolled an encounter when
/// `rolled`: the party is healed; in exploration the party wakes in the Research Wing
/// with its opening scene pending, recruits join and the arrival battle is set up.
/// In a battle only the hit points and the loop number change.
pub open spec fn spec_enter_loop_start(s: GameSession, loop_number: u32, rolled: bool, t: GameSession) -> bool {
    let party = healed(s.party@);
    &&& t.loop_number == loop_number
    &&& t.flags == s.flags
    &&& t.active_companion == s.active_companion
    &&& t.fought_scripted_encounters == s.fought_scripted_encounters
    &&& if s.phase != GamePhase::Exploration {
        &&& t.party@ == party
        &&& t.phase == s.phase
        &&& t.zone == s.zone
        &&& t.in_dialog == s.in_dialog
        &&& t.pending_dialog == s.pending_dialog
        &&& t.pending_battle == s.pending_battle
        &&& t.travel == s.travel
    } else {
        &&& recruited(party, spec_recruits(s.flags@, party), party_level(party), t.party@)
        &&& t.phase == GamePhase::Exploration
        &&& t.zone == ZoneKind::ResearchWing
        &&& t.travel is None
        &&& t.in_dialog
        &&& t.pending_dialog == Some(DialogTrigger::Enter)
        &&& t.pending_battle == spec_pending_on_arrival(
            ZoneKind::ResearchWing,
            loop_number,
            s.fought_scripted_encounters@,
            rolled,
        )
    }
}

/// The next loop's number: one more, but never past 5.
pub open spec fn spec_next_loop(loop_number: u32) -> u32 {
    if loop_number + 1 < 5 {
        (loop_number + 1) as u32
    } else {
        5
    }
}

/// Advancing `s` to the next loop gives `t`; an ended game stays as it is.
pub open spec fn spec_reset_loop(s: GameSession, rolled: bool, t: GameSession) -> bool {
    if s.phase is Ended {
        t == s
    } else {
        spec_enter_loop_start(s, spec_next_loop(s.loop_number), rolled, t)
    }
}

/// Jumping `s` to loop `target`, clamped to 1–5, gives `t`; an ended game stays.
pub open spec fn spec_goto_loop(s: GameSession, target: u32, rolled: bool, t: GameSession) -> bool {
    if s.phase is Ended {
        t == s
    } else {
        spec_enter_loop_start(s, if target < 1 { 1 } else if target > 5 { 5 } else { target }, rolled, t)
    }
}

impl GameSession {
    /// Whether a battle waits on arrival in the current zone.
    fn pending_on_arrival(&self, rolled: bool) -> (b: bool)
        ensures
            b == spec_pending_on_arrival(self.zone, self.loop_number, self.fought_scripted_encounters@, rolled),
    {
        if rolled {
            return true;
        }
        match scripted_encounter_id(self.zone, self.loop_number) {
            Some(id) => !self.fought_scripted_encounters.is_flag_set(id),
            None => false,
        }
    }

    fn enter_loop_start(&mut self, rolled: bool)
        requires
            old(self).phase == GamePhase::Exploration ==> recruits_fit(old(self).flags@, old(self).party@),
        ensures
            spec_enter_loop_start(*old(self), old(self).loop_number, rolled, *final(self)),
    {
        proof {
            lemma_healed_recruits(self.flags@, self.party@);
        }
        heal(&mut self.party);
        if self.phase != GamePhase::Exploration {
            return;
        }
        self.zone = ZoneKind::ResearchWing;
        self.travel = None;
        self.in_dialog = true;
        self.pending_dialog = Some(DialogTrigger::Enter);
        recruit(&mut self.party, &self.flags);
        self.pending_battle = self.pending_on_arrival(rolled);
    }

    /// Advance to the next loop (never past 5): heal the party and restart in the
    /// Research Wing with the loop's opening scene. `rolled` says whether the
    /// Research Wing rolled a random encounter on entry.
    pub fn reset_loop(&mut self, rolled: bool)
        requires
            old(self).phase == GamePhase::Exploration ==> recruits_fit(old(self).flags@, old(self).party@),
        ensures
            spec_reset_loop(*old(self), rolled, *final(self)),
    {
        if let GamePhase::Ended(_) = self.phase {
            return;
        }
        self.loop_number = if self.loop_number < 4 { self.loop_number + 1 } else { 5 };
        self.enter_loop_start(rolled);
    }

    /// Jump to loop `target`, clamped to 1–5, and restart it as `reset_loop` does.
    pub fn goto_loop(&mut self, target: u32, rolled: bool)
        requires
            old(self).phase == GamePhase::Exploration ==> recruits_fit(old(self).flags@, old(self).party@),
        ensures
            spec_goto_loop(*old(self), target, rolled, *final(self)),
    {
        if let GamePhase::Ended(_) = self.phase {
            return;
        }
        self.loop_number = if target < 1 { 1 } else if target > 5 { 5 } else { target };
        self.enter_loop_start(rolled);
    }
}


/// `c` with its hit points taken from the battle: `hp`, but at least 1.
pub open spec fn synced_member(c: Character, hp: i32) -> Character {
    Character { current_hp: if hp > 1 { hp } else { 1 }, ..c }
}

/// Leaving the battle on `s`, with `hp` the party's hit points as the battle left
/// them, gives `t`: nobody is left below 1 hit point, the zone's scripted encounter
/// counts as fought, and the combat-end scene is pending. Outside a battle nothing
/// changes.
pub open spec fn spec_transition_to_exploration(s: GameSession, hp: Seq<i32>, t: GameSession) -> bool {
    if s.phase != GamePhase::Battle {
        t == s
    } else {
        &&& t.party@ == Seq::new(s.party@.len(), |i: int| synced_member(s.party@[i], hp[i]))
        &&& t.fought_scripted_encounters@ == match spec_scripted_encounter_id(s.zone, s.loop_number) {
            Some(id) => s.fought_scripted_encounters@.insert(id),
            None => s.fought_scripted_encounters@,
        }
        &&& t.phase == GamePhase::Exploration
        &&& t.in_dialog
        &&& t.pending_dialog == Some(DialogTrigger::CombatEnd)
        &&& t.loop_number == s.loop_number
        &&& t.flags == s.flags
        &&& t.active_companion == s.active_companion
        &&& t.zone == s.zone
        &&& t.pending_battle == s.pending_battle
        &&& t.travel == s.travel
    }
}

fn sync_hp(party: &mut Vec<Character>, hp: &Vec<i32>)
    requires
        hp@.len() == old(party)@.len(),
    ensures
        final(party)@ == Seq::new(old(party)@.len(), |i: int| synced_member(old(party)@[i], hp@[i])),
{
    let mut rest: Vec<Character> = Vec::new();
    std::mem::swap(&mut rest, party);
    let ghost orig = rest@;
    let ghost goal = Seq::new(orig.len(), |i: int| synced_member(orig[i], hp@[i]));
    let n = rest.len();
    let mut k: usize = 0;
    while rest.len() > 0
        invariant
            k == party@.len(),
            n == orig.len(),
            goal == Seq::new(orig.len(), |i: int| synced_member(orig[i], hp@[i])),
            hp@.len() == orig.len(),
            party@.len() + rest@.len() == orig.len(),
            party@ == goal.subrange(0, k as int),
            rest@ == orig.subrange(k as int, orig.len() as int),
        decreases rest@.len(),
    {
        let mut c = rest.remove(0);
        proof {
            assert(c == orig[k as int]);
        }
        let h = hp[k];
        c.current_hp = if h > 1 { h } else { 1 };
        proof {
            assert(c == goal[k as int]);
        }
        party.push(c);
        k = k + 1;
        proof {
            assert(party@ =~= goal.subrange(0, k as int));
            assert(rest@ =~= orig.subrange(k as int, orig.len() as int));
        }
    }
    proof {
        assert(party@ =~= goal);
    }
}

/// The record saved for session `s`, with `snapshot` the battle board when it is in
/// a battle. An ended game saves only its loop and ending.
pub open spec fn spec_saved(s: GameSession, snapshot: Option<BattleSnapshot>, d: SaveData) -> bool {
    match s.phase {
        GamePhase::Ended(k) => {
            &&& d.loop_number == s.loop_number
            &&& d.flags@.len() == 0
            &&& d.active_companion is None
            &&& d.current_zone == ZoneKind::ResearchWing
            &&& d.party_kinds@ == seq![CharacterKind::Researcher]
            &&& d.party_hp@.len() == 0
            &&& d.party_levels@.len() == 0
            &&& d.fought_scripted_encounters@.len() == 0
            &&& d.ending == Some(k)
            &&& d.battle_snapshot is None
        },
        _ => {
            &&& d.loop_number == s.loop_number
            &&& strictly_sorted(string_views(d.flags@))
            &&& string_views(d.flags@).to_set() == s.flags@
            &&& opt_string_view(d.active_companion) == opt_string_view(s.active_companion)
            &&& d.current_zone == s.zone
            &&& d.party_kinds@ == s.party@.map_values(|c: Character| c.kind)
            &&& d.party_hp@ == s.party@.map_values(|c: Character| if c.current_hp > 1 { c.current_hp } else { 1i32 })
            &&& d.party_levels@ == s.party@.map_values(|c: Character| c.level)
            &&& strictly_sorted(string_views(d.fought_scripted_encounters@))
            &&& string_views(d.fought_scripted_encounters@).to_set() == s.fought_scripted_encounters@
            &&& d.ending is None
            &&& d.battle_snapshot == (if s.phase == GamePhase::Battle { snapshot } else { None })
        },
    }
}

/// The level saved for party member `i` (1 when none was saved).
pub open spec fn saved_level(levels: Seq<u32>, i: int) -> u32 {
    if i < levels.len() {
        levels[i]
    } else {
        1
    }
}

/// `c` is rebuilt from a saved kind, level and optional hit points; a saved
/// `i32::MAX` stands for "not saved" and keeps full hit points.
pub open spec fn restored_member(c: Character, kind: CharacterKind, level: u32, hp: Option<i32>) -> bool {
    &&& c.name@ == spec_default_name(kind)
    &&& c.kind == kind
    &&& c.level == level
    &&& c.stats == spec_scaled_stats(kind, level)
    &&& c.xp_reward == spec_base_xp(kind) * level
    &&& c.aggression == spec_default_aggression(kind)
    &&& c.current_hp == match hp {
        Some(h) => if h != i32::MAX { h } else { c.stats.max_hp },
        None => c.stats.max_hp,
    }
}

/// `p` is the party rebuilt from the saved kinds, hit points and levels; an empty
/// save gives a level-1 Researcher.
pub open spec fn restored_party(kinds: Seq<CharacterKind>, hps: Seq<i32>, levels: Seq<u32>, p: Seq<Character>) -> bool {
    if kinds.len() == 0 {
        p.len() == 1 && is_fresh(p[0], CharacterKind::Researcher, 1)
    } else {
        &&& p.len() == kinds.len()
        &&& forall|i: int|
            0 <= i < kinds.len() ==> restored_member(
                #[trigger] p[i],
                kinds[i],
                saved_level(levels, i),
                if i < hps.len() { Some(hps[i]) } else { None },
            )
    }
}

/// Every saved party member can be rebuilt at its saved level.
pub open spec fn save_fits(d: SaveData) -> bool {
    forall|i: int| 0 <= i < d.party_kinds@.len() ==> character_fits(#[trigger] d.party_kinds@[i], saved_level(d.party_levels@, i))
}

/// The session rebuilt from `d`, the zone having rolled an encounter when `rolled`.
pub open spec fn spec_restored(d: SaveData, rolled: bool, s: GameSession) -> bool {
    &&& s.loop_number == d.loop_number
    &&& s.flags@ == string_views(d.flags@).to_set()
    &&& opt_string_view(s.active_companion) == match d.active_companion {
        Some(c) => Some(c@),
        None => spec_derive_companion(s.flags@),
    }
    &&& s.zone == d.current_zone
    &&& restored_party(d.party_kinds@, d.party_hp@, d.party_levels@, s.party@)
    &&& s.in_dialog
    &&& s.pending_dialog == Some(DialogTrigger::Enter)
    &&& s.fought_scripted_encounters@ == string_views(d.fought_scripted_encounters@).to_set()
    &&& s.travel is None
    &&& s.pending_battle == (d.battle_snapshot is None && spec_pending_on_arrival(
        d.current_zone,
        d.loop_number,
        s.fought_scripted_encounters@,
        rolled,
    ))
    &&& s.phase == match d.ending {
        Some(k) => GamePhase::Ended(k),
        None => if d.battle_snapshot is Some {
            GamePhase::Battle
        } else {
            GamePhase::Exploration
        },
    }
}

impl GameSession {
    /// Transition from battle back to exploration. `party_hp` holds each party
    /// member's hit points as the battle left them.
    pub fn transition_to_exploration(&mut self, party_hp: &Vec<i32>)
        requires
            party_hp@.len() == old(self).party@.len(),
        ensures
            spec_transition_to_exploration(*old(self), party_hp@, *final(self)),
    {
        if self.phase != GamePhase::Battle {
            return;
        }
        sync_hp(&mut self.party, party_hp);
        match scripted_encounter_id(self.zone, self.loop_number) {
            Some(id) => self.fought_scripted_encounters.set_flag(id),
            None => {},
        }
        self.in_dialog = true;
        self.pending_dialog = Some(DialogTrigger::CombatEnd);
        self.phase = GamePhase::Exploration;
    }

    /// Capture the state needed to reconstruct this session later; `battle_snapshot`
    /// is the battle board, kept when the session is in a battle.
    pub fn to_save_data(&self, battle_snapshot: Option<BattleSnapshot>) -> (d: SaveData)
        ensures
            spec_saved(*self, battle_snapshot, d),
    {
        if let GamePhase::Ended(k) = self.phase {
            let mut party_kinds: Vec<CharacterKind> = Vec::new();
            party_kinds.push(CharacterKind::Researcher);
            proof {
                assert(party_kinds@ =~= seq![CharacterKind::Researcher]);
            }
            return SaveData {
                loop_number: self.loop_number,
                flags: Vec::new(),
                active_companion: None,
                current_zone: ZoneKind::ResearchWing,
                party_kinds,
                party_hp: Vec::new(),
                party_levels: Vec::new(),
                fought_scripted_encounters: Vec::new(),
                ending: Some(k),
                battle_snapshot: None,
            };
        }
        let mut party_kinds: Vec<CharacterKind> = Vec::new();
        let mut party_hp: Vec<i32> = Vec::new();
        let mut party_levels: Vec<u32> = Vec::new();
        let mut i: usize = 0;
        while i < self.party.len()
            invariant
                i <= self.party@.len(),
                party_kinds@ == self.party@.subrange(0, i as int).map_values(|c: Character| c.kind),
                party_hp@ == self.party@.subrange(0, i as int).map_values(
                    |c: Character| if c.current_hp > 1 { c.current_hp } else { 1i32 },
                ),
                party_levels@ == self.party@.subrange(0, i as int).map_values(|c: Character| c.level),
            decreases self.party@.len() - i,
        {
            let c = &self.party[i];
            party_kinds.push(c.kind);
            party_hp.push(if c.current_hp > 1 { c.current_hp } else { 1 });
            party_levels.push(c.level);
            i = i + 1;
            proof {
                let sub = self.party@.subrange(0, i as int);
                assert(party_kinds@ =~= sub.map_values(|c: Character| c.kind));
                assert(party_hp@ =~= sub.map_values(|c: Character| if c.current_hp > 1 { c.current_hp } else { 1i32 }));
                assert(party_levels@ =~= sub.map_values(|c: Character| c.level));
            }
        }
        proof {
            assert(self.party@.subrange(0, i as int) =~= self.party@);
        }
        let active_companion = match &self.active_companion {
            Some(c) => Some(c.clone()),
            None => None,
        };
        let snapshot = if self.phase == GamePhase::Battle { battle_snapshot } else { None };
        SaveData {
            loop_number: self.loop_number,
            flags: self.flags.export_flags(),
            active_companion,
            current_zone: self.zone,
            party_kinds,
            party_hp,
            party_levels,
            fought_scripted_encounters: self.fought_scripted_encounters.export_flags(),
            ending: None,
            battle_snapshot: snapshot,
        }
    }
}


impl GameSession {
    /// Reconstruct a session from saved data; `rolled` says whether the saved zone
    /// rolled a random encounter on entry. A saved battle resumes as a battle, and a
    /// saved ending stays ended.
    pub fn from_save_data(data: SaveData, rolled: bool) -> (s: GameSession)
        requires
            save_fits(data),
        ensures
            spec_restored(data, rolled, s),
    {
        let mut party: Vec<Character> = Vec::new();
        let mut i: usize = 0;
        while i < data.party_kinds.len()
            invariant
                i <= data.party_kinds@.len(),
                save_fits(data),
                party@.len() == i,
                forall|j: int|
                    0 <= j < i ==> restored_member(
                        #[trigger] party@[j],
                        data.party_kinds@[j],
                        saved_level(data.party_levels@, j),
                        if j < data.party_hp@.len() { Some(data.party_hp@[j]) } else { None },
                    ),
            decreases data.party_kinds@.len() - i,
        {
            let kind = data.party_kinds[i];
            let level = if i < data.party_levels.len() { data.party_levels[i] } else { 1 };
            proof {
                assert(character_fits(data.party_kinds@[i as int], saved_level(data.party_levels@, i as int)));
            }
            let mut ch = Character::new_character(kind, level);
            if i < data.party_hp.len() && data.party_hp[i] != i32::MAX {
                ch.current_hp = data.party_hp[i];
            }
            party.push(ch);
            i = i + 1;
        }
        if party.len() == 0 {
            proof {
                assert(character_fits(CharacterKind::Researcher, 1));
            }
            party.push(Character::new_character(CharacterKind::Researcher, 1));
        }
        let mut flags = DialogFlags::new();
        flags.import_flags(data.flags);
        let active_companion = match data.active_companion {
            Some(c) => Some(c),
            None => derive_companion(&flags),
        };
        let mut fought = DialogFlags::new();
        fought.import_flags(data.fought_scripted_encounters);
        proof {
            assert(flags@ =~= string_views(data.flags@).to_set());
            assert(fought@ =~= string_views(data.fought_scripted_encounters@).to_set());
        }
        let mut s = GameSession {
            phase: GamePhase::Exploration,
            loop_number: data.loop_number,
            flags,
            active_companion,
            zone: data.current_zone,
            party,
            in_dialog: true,
            pending_dialog: Some(DialogTrigger::Enter),
            pending_battle: false,
            fought_scripted_encounters: fought,
            travel: None,
        };
        match data.battle_snapshot {
            Some(_) => {
                s.phase = GamePhase::Battle;
            },
            None => {
                s.pending_battle = s.pending_on_arrival(rolled);
            },
        }
        match data.ending {
            Some(k) => {
                s.phase = GamePhase::Ended(k);
            },
            None => {},
        }
        s
    }
}

/// A new game: loop 1, the level-1 Researcher alone in the Research Wing with the
/// opening scene pending; `rolled` says whether the Research Wing rolled a random
/// encounter on entry.
pub open spec fn spec_new_session(rolled: bool, s: GameSession) -> bool {
    &&& s.phase == GamePhase::Exploration
    &&& s.loop_number == 1
    &&& s.flags@ == Set::<Seq<char>>::empty()
    &&& s.active_companion is None
    &&& s.zone == ZoneKind::ResearchWing
    &&& s.party@.len() == 1
    &&& is_fresh(s.party@[0], CharacterKind::Researcher, 1)
    &&& s.in_dialog
    &&& s.pending_dialog == Some(DialogTrigger::Enter)
    &&& s.fought_scripted_encounters@ == Set::<Seq<char>>::empty()
    &&& s.pending_battle == spec_pending_on_arrival(ZoneKind::ResearchWing, 1, Set::empty(), rolled)
    &&& s.travel is None
}

impl GameSession {
    /// Start a new game.
    pub fn new(rolled: bool) -> (s: GameSession)
        ensures
            spec_new_session(rolled, s),
    {
        let mut party: Vec<Character> = Vec::new();
        proof {
            assert(character_fits(CharacterKind::Researcher, 1));
        }
        party.push(Character::new_character(CharacterKind::Researcher, 1));
        let mut s = GameSession {
            phase: GamePhase::Exploration,
            loop_number: 1,
            flags: DialogFlags::new(),
            active_companion: None,
            zone: ZoneKind::ResearchWing,
            party,
            in_dialog: true,
            pending_dialog: Some(DialogTrigger::Enter),
            pending_battle: false,
            fought_scripted_encounters: DialogFlags::new(),
            travel: None,
        };
        s.pending_battle = s.pending_on_arrival(rolled);
        s
    }

    /// Recruit the companions whose flags are raised and who are not in the party
    /// yet (exploration only).
    pub fn sync_and_recruit_companions(&mut self)
        requires
            old(self).phase == GamePhase::Exploration ==> recruits_fit(old(self).flags@, old(self).party@),
        ensures
            old(self).phase == GamePhase::Exploration ==> recruited(
                old(self).party@,
                spec_recruits(old(self).flags@, old(self).party@),
                party_level(old(self).party@),
                final(self).party@,
            ),
            old(self).phase != GamePhase::Exploration ==> final(self).party@ == old(self).party@,
            final(self).phase == old(self).phase,
            final(self).loop_number == old(self).loop_number,
            final(self).flags == old(self).flags,
            final(self).active_companion == old(self).active_companion,
            final(self).zone == old(self).zone,
            final(self).in_dialog == old(self).in_dialog,
            final(self).pending_dialog == old(self).pending_dialog,
            final(self).pending_battle == old(self).pending_battle,
            final(self).fought_scripted_encounters == old(self).fought_scripted_encounters,
            final(self).travel == old(self).travel,
    {
        if self.phase == GamePhase::Exploration {
            recruit(&mut self.party, &self.flags);
        }
    }
}

/// Restarting the current loop from `s` after a defeat gives `t`: any battle is left
/// and the loop starts over (same number) as `reset_loop` starts one; an ended game
/// stays.
pub open spec fn spec_restart_current_loop(s: GameSession, rolled: bool, t: GameSession) -> bool {
    if s.phase is Ended {
        t == s
    } else {
        spec_enter_loop_start(GameSession { phase: GamePhase::Exploration, ..s }, s.loop_number, rolled, t)
    }
}

impl GameSession {
    /// Restart the current loop after the party's defeat: leave the battle, heal the
    /// party and restart in the Research Wing without advancing the loop number.
    pub fn restart_current_loop(&mut self, rolled: bool)
        requires
            old(self).phase !is Ended ==> recruits_fit(old(self).flags@, old(self).party@),
        ensures
            spec_restart_current_loop(*old(self), rolled, *final(self)),
    {
        if let GamePhase::Ended(_) = self.phase {
            return;
        }
        self.phase = GamePhase::Exploration;
        self.enter_loop_start(rolled);
    }
}

// ── Travel ────────────────────────────────────────────────────────────────────

/// The direction of the first door (north, south, east, west) that leads to
/// `destination`; south when none does.
pub open spec fn spec_travel_dir(connections: ZoneConnections, destination: ZoneKind) -> CardinalDir {
    if connections.north == Some(destination) {
        CardinalDir::North
    } else if connections.south == Some(destination) {
        CardinalDir::South
    } else if connections.east == Some(destination) {
        CardinalDir::East
    } else if connections.west == Some(destination) {
        CardinalDir::West
    } else {
        CardinalDir::South
    }
}

/// Arriving from `s` in the named zone `zone`: travel ends, the zone's opening scene
/// is pending, recruits join and the arrival battle is set up (it waits behind the
/// scene).
pub open spec fn spec_arrive(s: GameSession, zone: ZoneKind, rolled: bool, t: GameSession) -> bool {
    &&& t.zone == zone
    &&& t.travel is None
    &&& t.in_dialog
    &&& t.pending_dialog == Some(DialogTrigger::Enter)
    &&& recruited(s.party@, spec_recruits(s.flags@, s.party@), party_level(s.party@), t.party@)
    &&& t.pending_battle == spec_pending_on_arrival(zone, s.loop_number, s.fought_scripted_encounters@, rolled)
    &&& t.phase == s.phase
    &&& t.loop_number == s.loop_number
    &&& t.flags == s.flags
    &&& t.active_companion == s.active_companion
    &&& t.fought_scripted_encounters == s.fought_scripted_encounters
}

/// Setting out from `s` toward `destination` gives `t`: the party stands in a
/// hallway, travelling through the door that leads there. Only in exploration and
/// when not travelling already; otherwise nothing changes.
pub open spec fn spec_initiate_travel(s: GameSession, destination: ZoneKind, connections: ZoneConnections, t: GameSession) -> bool {
    if s.phase != GamePhase::Exploration || s.travel is Some {
        t == s
    } else {
        t == GameSession {
            travel: Some(
                TravelState {
                    origin: s.zone,
                    destination,
                    travel_dir: spec_travel_dir(connections, destination),
                    hallways_traversed: 0,
                },
            ),
            zone: ZoneKind::Hallway,
            ..s
        }
    }
}

/// Leaving a hallway from `s` gives `t`: when `arrived`, the party reaches the
/// destination; otherwise it enters another hallway. Only while travelling in
/// exploration; otherwise nothing changes.
pub open spec fn spec_exit_hallway(s: GameSession, arrived: bool, rolled: bool, t: GameSession) -> bool {
    match s.travel {
        Some(tr) => if s.phase != GamePhase::Exploration {
            t == s
        } else if arrived {
            spec_arrive(s, tr.destination, rolled, t)
        } else {
            t == GameSession {
                travel: Some(TravelState { hallways_traversed: (tr.hallways_traversed + 1) as u32, ..tr }),
                zone: ZoneKind::Hallway,
                ..s
            }
        },
        None => t == s,
    }
}

/// Turning back from `s` gives `t`: the party returns to the zone it set out from.
/// Only while travelling in exploration; otherwise nothing changes.
pub open spec fn spec_backtrack(s: GameSession, rolled: bool, t: GameSession) -> bool {
    match s.travel {
        Some(tr) => if s.phase != GamePhase::Exploration {
            t == s
        } else {
            spec_arrive(s, tr.origin, rolled, t)
        },
        None => t == s,
    }
}

/// What a step of the player from `s` leads to, given whether it `moved` and the
/// door it stepped on, the doors of the zone, and the arrival and encounter rolls.
pub open spec fn spec_move_result(s: GameSession, moved: bool, door: Option<CardinalDir>, connections: ZoneConnections) -> MoveResult {
    if s.phase != GamePhase::Exploration || !moved {
        MoveResult::Blocked
    } else {
        match door {
            None => MoveResult::Moved,
            Some(dir) => if s.zone == ZoneKind::Hallway {
                if s.travel is Some && s.travel.unwrap().travel_dir == dir {
                    MoveResult::ContinuedHallway
                } else {
                    MoveResult::Backtracked
                }
            } else if connections.spec_get(dir) is Some {
                MoveResult::EnteredHallway
            } else {
                MoveResult::Moved
            },
        }
    }
}

impl GameSession {
    /// Begin travelling toward `destination` through the door of the current zone
    /// that leads there (`connections` lists them). Returns the travel direction, for
    /// laying out the hallway, when travel began.
    pub fn initiate_travel(&mut self, destination: ZoneKind, connections: ZoneConnections) -> (d: Option<CardinalDir>)
        ensures
            spec_initiate_travel(*old(self), destination, connections, *final(self)),
            d == (if final(self).travel != old(self).travel {
                Some(spec_travel_dir(connections, destination))
            } else {
                None
            }),
    {
        if self.phase != GamePhase::Exploration || self.travel.is_some() {
            return None;
        }
        let dir = if connections.north == Some(destination) {
            CardinalDir::North
        } else if connections.south == Some(destination) {
            CardinalDir::South
        } else if connections.east == Some(destination) {
            CardinalDir::East
        } else if connections.west == Some(destination) {
            CardinalDir::West
        } else {
            CardinalDir::South
        };
        self.travel = Some(TravelState { origin: self.zone, destination, travel_dir: dir, hallways_traversed: 0 });
        self.zone = ZoneKind::Hallway;
        Some(dir)
    }

    fn arrive(&mut self, zone: ZoneKind, rolled: bool)
        requires
            recruits_fit(old(self).flags@, old(self).party@),
        ensures
            spec_arrive(*old(self), zone, rolled, *final(self)),
    {
        self.zone = zone;
        self.travel = None;
        self.in_dialog = true;
        self.pending_dialog = Some(DialogTrigger::Enter);
        recruit(&mut self.party, &self.flags);
        self.pending_battle = self.pending_on_arrival(rolled);
    }

    /// Leave the current hallway: `arrived` is the outcome of the arrival roll for
    /// this loop, `rolled` whether the destination rolls an encounter. Returns
    /// whether the party arrived.
    pub fn exit_hallway(&mut self, arrived: bool, rolled: bool) -> (r: bool)
        requires
            old(self).phase == GamePhase::Exploration ==> recruits_fit(old(self).flags@, old(self).party@),
            old(self).travel is Some ==> old(self).travel.unwrap().hallways_traversed < u32::MAX,
        ensures
            spec_exit_hallway(*old(self), arrived, rolled, *final(self)),
            r == (old(self).travel is Some && old(self).phase == GamePhase::Exploration && arrived),
    {
        let tr = match self.travel {
            Some(tr) => tr,
            None => return false,
        };
        if self.phase != GamePhase::Exploration {
            return false;
        }
        if arrived {
            self.arrive(tr.destination, rolled);
            true
        } else {
            self.travel = Some(TravelState { hallways_traversed: tr.hallways_traversed + 1, ..tr });
            self.zone = ZoneKind::Hallway;
            false
        }
    }

    /// Cancel travel and return to the zone the party set out from.
    pub fn backtrack_to_origin(&mut self, rolled: bool)
        requires
            old(self).phase == GamePhase::Exploration ==> recruits_fit(old(self).flags@, old(self).party@),
        ensures
            spec_backtrack(*old(self), rolled, *final(self)),
    {
        let tr = match self.travel {
            Some(tr) => tr,
            None => return,
        };
        if self.phase != GamePhase::Exploration {
            return;
        }
        self.arrive(tr.origin, rolled);
    }

    /// The player's step, once the front end has tried it: `moved` says whether the
    /// player moved and `door` which door it stepped on. A door of a named zone sets
    /// out toward the zone behind it; in a hallway, the door ahead leaves the hallway
    /// (`arrived` being the arrival roll) and any other door turns back. `rolled` says
    /// whether a zone reached rolls an encounter.
    pub fn move_player(
        &mut self,
        moved: bool,
        door: Option<CardinalDir>,
        connections: ZoneConnections,
        arrived: bool,
        rolled: bool,
    ) -> (r: MoveResult)
        requires
            old(self).phase == GamePhase::Exploration ==> recruits_fit(old(self).flags@, old(self).party@),
            old(self).travel is Some ==> old(self).travel.unwrap().hallways_traversed < u32::MAX,
        ensures
            r == (if spec_move_result(*old(self), moved, door, connections) == MoveResult::ContinuedHallway && arrived {
                MoveResult::ArrivedAtDestination
            } else {
                spec_move_result(*old(self), moved, door, connections)
            }),
            r == MoveResult::ArrivedAtDestination || r == MoveResult::ContinuedHallway ==> spec_exit_hallway(
                *old(self),
                arrived,
                rolled,
                *final(self),
            ),
            r == MoveResult::Backtracked ==> spec_backtrack(*old(self), rolled, *final(self)),
            r == MoveResult::EnteredHallway ==> spec_initiate_travel(
                *old(self),
                connections.spec_get(door.unwrap()).unwrap(),
                connections,
                *final(self),
            ),
            r == MoveResult::Moved || r == MoveResult::Blocked ==> *final(self) == *old(self),
    {
        if self.phase != GamePhase::Exploration || !moved {
            return MoveResult::Blocked;
        }
        let dir = match door {
            Some(d) => d,
            None => return MoveResult::Moved,
        };
        if self.zone == ZoneKind::Hallway {
            let ahead = match self.travel {
                Some(tr) => tr.travel_dir == dir,
                None => false,
            };
            if ahead {
                if self.exit_hallway(arrived, rolled) {
                    MoveResult::ArrivedAtDestination
                } else {
                    MoveResult::ContinuedHallway
                }
            } else {
                self.backtrack_to_origin(rolled);
                MoveResult::Backtracked
            }
        } else {
            match connections.get(dir) {
                Some(dest) => {
                    self.initiate_travel(dest, connections);
                    MoveResult::EnteredHallway
                },
                None => MoveResult::Moved,
            }
        }
    }
}

// ── Walking around a zone ─────────────────────────────────────────────────────

/// The first NPC among the first `n` one step (along the grid) from `player`.
pub open spec fn spec_adjacent_npc(npcs: Seq<NpcData>, player: (i32, i32), n: int) -> Option<int>
    decreases n,
{
    if n <= 0 {
        None
    } else {
        match spec_adjacent_npc(npcs, player, n - 1) {
            Some(i) => Some(i),
            None => if crate::player_input::manhattan(npcs[n - 1].pos, player) == 1 {
                Some(n - 1)
            } else {
                None
            },
        }
    }
}

/// The first NPC adjacent (Manhattan distance 1) to the player, if any.
pub fn adjacent_npc(npcs: &Vec<NpcData>, player: (i32, i32)) -> (r: Option<usize>)
    ensures
        match r {
            Some(i) => spec_adjacent_npc(npcs@, player, npcs@.len() as int) == Some(i as int) && i < npcs@.len(),
            None => spec_adjacent_npc(npcs@, player, npcs@.len() as int) is None,
        },
{
    let mut i: usize = 0;
    while i < npcs.len()
        invariant
            i <= npcs@.len(),
            spec_adjacent_npc(npcs@, player, i as int) is None,
        decreases npcs@.len() - i,
    {
        let p = npcs[i].pos;
        let dx: i64 = p.0 as i64 - player.0 as i64;
        let dy: i64 = p.1 as i64 - player.1 as i64;
        let d: i64 = (if dx < 0 { -dx } else { dx }) + (if dy < 0 { -dy } else { dy });
        if d == 1 {
            proof {
                lemma_adjacent_npc_stays(npcs@, player, i + 1, npcs@.len() as int);
            }
            return Some(i);
        }
        i = i + 1;
    }
    None
}

proof fn lemma_adjacent_npc_stays(npcs: Seq<NpcData>, player: (i32, i32), m: int, n: int)
    requires
        0 <= m <= n,
        spec_adjacent_npc(npcs, player, m) is Some,
    ensures
        spec_adjacent_npc(npcs, player, n) == spec_adjacent_npc(npcs, player, m),
    decreases n - m,
{
    if m < n {
        lemma_adjacent_npc_stays(npcs, player, m, n - 1);
    }
}

/// `v` clamped to `[0, hi]`.
pub open spec fn clamp_to(v: int, hi: int) -> int {
    if v < 0 {
        0
    } else if v > hi {
        hi
    } else {
        v
    }
}

/// Where a step by `(dx, dy)` from `pos` would land: clamped to the zone's grid.
pub open spec fn step_target(pos: (i32, i32), dx: i32, dy: i32, cols: u32, rows: u32) -> (int, int) {
    (clamp_to(pos.0 + dx, cols - 1), clamp_to(pos.1 + dy, rows - 1))
}

/// The door at `p` among `doors`: the first listed there.
pub open spec fn door_at(doors: Seq<((i32, i32), CardinalDir)>, p: (i32, i32), n: int) -> Option<CardinalDir>
    decreases n,
{
    if n <= 0 {
        None
    } else {
        match door_at(doors, p, n - 1) {
            Some(d) => Some(d),
            None => if doors[n - 1].0 == p {
                Some(doors[n - 1].1)
            } else {
                None
            },
        }
    }
}

/// Try to move the player from `pos` by `(dx, dy)` in a zone of `cols` × `rows`
/// tiles with terrain `map`, NPCs `npcs` and doors `doors`. The step is clamped to
/// the grid and blocked by obstacles, by NPCs and while a dialog shows. Returns the
/// new position when the player moved, with the door it stepped on, if any.
pub fn try_move(
    map: &LevelMap,
    npcs: &Vec<NpcData>,
    doors: &Vec<((i32, i32), CardinalDir)>,
    in_dialog: bool,
    pos: (i32, i32),
    dx: i32,
    dy: i32,
    cols: u32,
    rows: u32,
) -> (r: Option<((i32, i32), Option<CardinalDir>)>)
    requires
        map.wf(),
        1 <= cols <= i32::MAX,
        1 <= rows <= i32::MAX,
        i32::MIN <= pos.0 + dx <= i32::MAX,
        i32::MIN <= pos.1 + dy <= i32::MAX,
    ensures
        ({
            let (nx, ny) = step_target(pos, dx, dy, cols, rows);
            let free = !in_dialog && map.passable_at(nx, ny) && !(exists|i: int|
                0 <= i < npcs@.len() && (#[trigger] npcs@[i]).pos == (nx as i32, ny as i32));
            match r {
                Some((p, door)) => free && p == (nx as i32, ny as i32) && door == door_at(doors@, p, doors@.len() as int),
                None => !free,
            }
        }),
{
    if in_dialog {
        return None;
    }
    let hx: i32 = (cols - 1) as i32;
    let hy: i32 = (rows - 1) as i32;
    let tx = pos.0 + dx;
    let ty = pos.1 + dy;
    let nx = if tx < 0 { 0 } else if tx > hx { hx } else { tx };
    let ny = if ty < 0 { 0 } else if ty > hy { hy } else { ty };
    proof {
        assert(step_target(pos, dx, dy, cols, rows) == (nx as int, ny as int));
        assert((nx as int) as i32 == nx && (ny as int) as i32 == ny);
    }
    if !map.is_passable(nx, ny) {
        return None;
    }
    let mut i: usize = 0;
    while i < npcs.len()
        invariant
            i <= npcs@.len(),
            forall|j: int| 0 <= j < i ==> npcs@[j].pos != (nx, ny),
            step_target(pos, dx, dy, cols, rows) == (nx as int, ny as int),
            (nx as int) as i32 == nx && (ny as int) as i32 == ny,
            !in_dialog,
        decreases npcs@.len() - i,
    {
        if npcs[i].pos.0 == nx && npcs[i].pos.1 == ny {
            proof {
                assert(npcs@[i as int].pos == (nx, ny));
            }
            return None;
        }
        i = i + 1;
    }
    let mut door: Option<CardinalDir> = None;
    let mut k: usize = 0;
    while k < doors.len()
        invariant
            k <= doors@.len(),
            door == door_at(doors@, (nx, ny), k as int),
            door is Some ==> door_at(doors@, (nx, ny), k as int) is Some,
        decreases doors@.len() - k,
    {
        if door.is_none() && doors[k].0.0 == nx && doors[k].0.1 == ny {
            door = Some(doors[k].1);
        }
        k = k + 1;
    }
    Some(((nx, ny), door))
}

// ── Laws ──────────────────────────────────────────────────────────────────────

/// The loop number never passes 5 and never goes back: advancing from a loop in
/// 1–5 lands on the next one, or stays at 5.
pub proof fn lemma_reset_loop_clamps(s: GameSession, rolled: bool, t: GameSession)
    requires
        1 <= s.loop_number <= 5,
        spec_reset_loop(s, rolled, t),
    ensures
        s.loop_number <= t.loop_number <= 5,
        s.phase !is Ended && s.loop_number < 5 ==> t.loop_number == s.loop_number + 1,
{
}

/// Endings only happen in loop 5: ending a dialog in an earlier loop never ends the
/// game, whatever flags it raised.
pub proof fn lemma_no_ending_before_loop5(s: GameSession, new: Set<Seq<char>>, t: GameSession)
    requires
        s.loop_number < 5,
        s.phase !is Ended,
        spec_end_dialog(s, new, t),
    ensures
        t.phase !is Ended,
{
}

/// An ended game is final: ending or dismissing a dialog, or advancing or jumping
/// the loop, leaves it as it is.
pub proof fn lemma_ended_is_final(s: GameSession, new: Set<Seq<char>>, target: u32, rolled: bool, t1: GameSession, t2: GameSession, t3: GameSession, t4: GameSession)
    requires
        s.phase is Ended,
        spec_end_dialog(s, new, t1),
        spec_dismiss_dialog(s, t2),
        spec_reset_loop(s, rolled, t3),
        spec_goto_loop(s, target, rolled, t4),
    ensures
        t1 == s,
        t2 == s,
        t3 == s,
        t4 == s,
{
}

/// Saving and loading gives back the session: loop, flags, zone, fought encounters,
/// phase and every party member's kind, level and hit points (which are at least 1
/// and below `i32::MAX`, the value that stands for "not saved"). The active companion
/// comes back as saved, or re-derived from the flags when none was set.
pub proof fn lemma_save_round_trip(s: GameSession, snapshot: Option<BattleSnapshot>, d: SaveData, rolled: bool, r: GameSession)
    requires
        s.phase !is Ended,
        s.phase == GamePhase::Battle ==> snapshot is Some,
        s.party@.len() > 0,
        forall|i: int| 0 <= i < s.party@.len() ==> 1 <= #[trigger] s.party@[i].current_hp < i32::MAX,
        spec_saved(s, snapshot, d),
        spec_restored(d, rolled, r),
    ensures
        r.phase == s.phase,
        r.loop_number == s.loop_number,
        r.flags@ == s.flags@,
        r.zone == s.zone,
        r.fought_scripted_encounters@ == s.fought_scripted_encounters@,
        opt_string_view(r.active_companion) == (if s.active_companion is Some {
            opt_string_view(s.active_companion)
        } else {
            spec_derive_companion(s.flags@)
        }),
        r.party@.len() == s.party@.len(),
        forall|i: int|
            0 <= i < s.party@.len() ==> {
                &&& (#[trigger] r.party@[i]).kind == s.party@[i].kind
                &&& r.party@[i].level == s.party@[i].level
                &&& r.party@[i].current_hp == s.party@[i].current_hp
            },
{
    assert forall|i: int| 0 <= i < s.party@.len() implies {
        &&& (#[trigger] r.party@[i]).kind == s.party@[i].kind
        &&& r.party@[i].level == s.party@[i].level
        &&& r.party@[i].current_hp == s.party@[i].current_hp
    } by {
        assert(d.party_kinds@[i] == s.party@[i].kind);
        assert(d.party_levels@[i] == s.party@[i].level);
        assert(d.party_hp@[i] == s.party@[i].current_hp);
    }
}


/// Setting out and turning straight back brings the party home: it stands in the
/// zone it left, no longer travelling, with that zone's opening scene pending.
pub proof fn lemma_backtrack_returns_home(
    s: GameSession,
    destination: ZoneKind,
    connections: ZoneConnections,
    rolled: bool,
    t1: GameSession,
    t2: GameSession,
)
    requires
        s.phase == GamePhase::Exploration,
        s.travel is None,
        spec_initiate_travel(s, destination, connections, t1),
        spec_backtrack(t1, rolled, t2),
    ensures
        t2.zone == s.zone,
        t2.travel is None,
        t2.in_dialog,
        t2.pending_dialog == Some(DialogTrigger::Enter),
        t2.loop_number == s.loop_number,
        t2.flags == s.flags,
{
}

} // verus!
