use vstd::prelude::*;

use crate::character::{character_fits, spec_base_xp, spec_default_name, spec_scaled_stats, Aggression, Character, CharacterKind};
use crate::game::spec_scripted_encounter_id;
use crate::zone::ZoneKind;

verus! {

/// Marker for temporary scripted allies: spawned for a single scripted encounter
/// and removed when combat ends, even when their kind belongs to the party.
#[derive(Debug, Clone, Copy)]
pub struct ScriptedAlly;

/// Marker for a permanent party companion, present through exploration and
/// battle. Distinct from [`ScriptedAlly`] (one-off temporary combatants).
#[derive(Debug, Clone, Copy)]
pub struct PartyCompanion;

/// Instructs the AI to use the named ability on this combatant's first combat
/// turn before switching to normal tactics.
///
/// Once the scripted turn has been taken, `executed` is set to `true` and
/// subsequent turns use normal AI logic.
#[derive(Debug, Clone, Copy)]
pub struct ScriptedFirstAction {
    /// Name of the ability to use.
    pub ability_name: &'static str,
    /// Set to `true` once the scripted action has been executed.
    pub executed: bool,
}


// ── Scripted encounters ───────────────────────────────────────────────────────

/// Where on the map a scripted combatant is placed.
#[derive(Debug, Clone, Copy, PartialEq, Eq, Structural)]
pub enum SpawnLocation {
    NorthWall,
    SouthWall,
    EastWall,
    WestWall,
    Center,
    /// Spot number `n` of the encounter's layout, given as fractions of the map by
    /// the front end.
    Marked(u32),
}

/// Fixed placement for one combatant within a scripted encounter.
#[derive(Debug, Clone, Copy)]
pub struct CombatantPlacement {
    pub kind: CharacterKind,
    pub level: u32,
    pub location: SpawnLocation,
    /// Override of the default aggression for this kind.
    pub aggression: Option<Aggression>,
    /// Ability the AI tries on the combatant's very first turn.
    pub first_ability: Option<&'static str>,
}

/// A fully scripted combat encounter that overrides random enemy generation.
#[derive(Debug, Clone)]
pub struct ScriptedEncounter {
    pub id: &'static str,
    pub enemies: Vec<CombatantPlacement>,
    pub allies: Vec<CombatantPlacement>,
}

/// The plain content of a placement.
pub open spec fn placement_view(p: CombatantPlacement) -> (CharacterKind, u32, SpawnLocation, Option<Aggression>, Option<Seq<char>>) {
    (p.kind, p.level, p.location, p.aggression, match p.first_ability {
        Some(a) => Some(a@),
        None => None,
    })
}

/// The plain content of a list of placements.
pub open spec fn placements_view(v: Seq<CombatantPlacement>) -> Seq<(CharacterKind, u32, SpawnLocation, Option<Aggression>, Option<Seq<char>>)> {
    v.map_values(|p: CombatantPlacement| placement_view(p))
}

/// The tutorial's attackers: two Zealots at the breach points of the north wall
/// (the first opens with Zealot Strike) and a Purifier in the doorway opening with
/// Purifying Round.
pub open spec fn tutorial_enemies() -> Seq<(CharacterKind, u32, SpawnLocation, Option<Aggression>, Option<Seq<char>>)> {
    seq![
        (CharacterKind::Zealot, 1u32, SpawnLocation::Marked(0), None, Some("Zealot Strike"@)),
        (CharacterKind::Zealot, 1u32, SpawnLocation::Marked(1), None, None),
        (CharacterKind::Purifier, 1u32, SpawnLocation::Marked(2), None, Some("Purifying Round"@)),
    ]
}

/// The tutorial's allies: Orin, who heals first, and Doss, who opens with Power
/// Strike, both friendly.
pub open spec fn tutorial_allies() -> Seq<(CharacterKind, u32, SpawnLocation, Option<Aggression>, Option<Seq<char>>)> {
    seq![
        (CharacterKind::Orin, 1u32, SpawnLocation::Marked(3), Some(Aggression::Friendly), Some("Heal"@)),
        (CharacterKind::Doss, 1u32, SpawnLocation::Marked(4), Some(Aggression::Friendly), Some("Power Strike"@)),
    ]
}

/// The Archon at the north wall, opening with Temporal Suppression, and a level-3
/// Shock Trooper on the right flank.
pub open spec fn archon_enemies() -> Seq<(CharacterKind, u32, SpawnLocation, Option<Aggression>, Option<Seq<char>>)> {
    seq![
        (CharacterKind::Archon, 4u32, SpawnLocation::NorthWall, None, Some("Temporal Suppression"@)),
        (CharacterKind::ShockTrooper, 3u32, SpawnLocation::Marked(0), None, None),
    ]
}

fn placement(
    kind: CharacterKind,
    level: u32,
    location: SpawnLocation,
    aggression: Option<Aggression>,
    first_ability: Option<&'static str>,
) -> (p: CombatantPlacement)
    ensures
        p == (CombatantPlacement { kind, level, location, aggression, first_ability }),
{
    CombatantPlacement { kind, level, location, aggression, first_ability }
}

/// The scripted encounter for a zone and loop, or `None` when the zone's encounter
/// is generated randomly: the tutorial in the Research Wing in loop 1, the Archon in
/// the Military Annex from loop 4 on.
pub fn scripted_encounter_for(zone: ZoneKind, loop_number: u32) -> (e: Option<ScriptedEncounter>)
    ensures
        match e {
            Some(enc) => {
                &&& spec_scripted_encounter_id(zone, loop_number) == Some(enc.id@)
                &&& placements_view(enc.enemies@) == (if enc.id@ == "tutorial_opening"@ {
                    tutorial_enemies()
                } else {
                    archon_enemies()
                })
                &&& placements_view(enc.allies@) == (if enc.id@ == "tutorial_opening"@ {
                    tutorial_allies()
                } else {
                    Seq::empty()
                })
            },
            None => spec_scripted_encounter_id(zone, loop_number) is None,
        },
{
    if zone == ZoneKind::ResearchWing && loop_number == 1 {
        let mut enemies: Vec<CombatantPlacement> = Vec::new();
        enemies.push(placement(CharacterKind::Zealot, 1, SpawnLocation::Marked(0), None, Some("Zealot Strike")));
        enemies.push(placement(CharacterKind::Zealot, 1, SpawnLocation::Marked(1), None, None));
        enemies.push(placement(CharacterKind::Purifier, 1, SpawnLocation::Marked(2), None, Some("Purifying Round")));
        let mut allies: Vec<CombatantPlacement> = Vec::new();
        allies.push(placement(CharacterKind::Orin, 1, SpawnLocation::Marked(3), Some(Aggression::Friendly), Some("Heal")));
        allies.push(placement(CharacterKind::Doss, 1, SpawnLocation::Marked(4), Some(Aggression::Friendly), Some("Power Strike")));
        proof {
            assert(placements_view(enemies@) =~= tutorial_enemies());
            assert(placements_view(allies@) =~= tutorial_allies());
        }
        Some(ScriptedEncounter { id: "tutorial_opening", enemies, allies })
    } else if zone == ZoneKind::MilitaryAnnex && loop_number >= 4 {
        let mut enemies: Vec<CombatantPlacement> = Vec::new();
        enemies.push(placement(CharacterKind::Archon, 4, SpawnLocation::NorthWall, None, Some("Temporal Suppression")));
        enemies.push(placement(CharacterKind::ShockTrooper, 3, SpawnLocation::Marked(0), None, None));
        let allies: Vec<CombatantPlacement> = Vec::new();
        proof {
            assert(placements_view(enemies@) =~= archon_enemies());
            assert(placements_view(allies@) =~= Seq::empty());
            reveal_strlit("archon_encounter");
            reveal_strlit("tutorial_opening");
            assert("archon_encounter"@[0] != "tutorial_opening"@[0]);
            assert("archon_encounter"@ != "tutorial_opening"@);
        }
        Some(ScriptedEncounter { id: "archon_encounter", enemies, allies })
    } else {
        None
    }
}

/// The grid cell of a wall or centre location on a map of `cols` × `rows` tiles;
/// a marked spot has none here.
pub open spec fn spec_fixed_spot(loc: SpawnLocation, cols: u32, rows: u32) -> Option<(i32, i32)> {
    let c = cols as int;
    let r = rows as int;
    match loc {
        SpawnLocation::NorthWall => Some(((c / 2) as i32, 1i32)),
        SpawnLocation::SouthWall => Some(((c / 2) as i32, (if r - 2 > 0 { r - 2 } else { 0 }) as i32)),
        SpawnLocation::EastWall => Some(((if c - 2 > 0 { c - 2 } else { 0 }) as i32, (r / 2) as i32)),
        SpawnLocation::WestWall => Some((1i32, (r / 2) as i32)),
        SpawnLocation::Center => Some(((c / 2) as i32, (r / 2) as i32)),
        SpawnLocation::Marked(_) => None,
    }
}

/// The grid cell of a wall or centre location (`None` for a marked spot).
pub fn fixed_spot(loc: SpawnLocation, cols: u32, rows: u32) -> (p: Option<(i32, i32)>)
    requires
        cols <= i32::MAX,
        rows <= i32::MAX,
    ensures
        p == spec_fixed_spot(loc, cols, rows),
{
    let c = cols as i32;
    let r = rows as i32;
    match loc {
        SpawnLocation::NorthWall => Some((c / 2, 1)),
        SpawnLocation::SouthWall => Some((c / 2, if r - 2 > 0 { r - 2 } else { 0 })),
        SpawnLocation::EastWall => Some((if c - 2 > 0 { c - 2 } else { 0 }, r / 2)),
        SpawnLocation::WestWall => Some((1, r / 2)),
        SpawnLocation::Center => Some((c / 2, r / 2)),
        SpawnLocation::Marked(_) => None,
    }
}

impl CombatantPlacement {
    /// The character this placement stands for: a new character of its kind and
    /// level, with the placement's aggression when it overrides the default.
    pub fn to_character(&self) -> (c: Character)
        requires
            character_fits(self.kind, self.level),
        ensures
            c.name@ == spec_default_name(self.kind),
            c.kind == self.kind,
            c.level == self.level,
            c.stats == spec_scaled_stats(self.kind, self.level),
            c.current_hp == c.stats.max_hp,
            c.xp_reward == spec_base_xp(self.kind) * self.level,
            c.aggression == match self.aggression {
                Some(a) => a,
                None => crate::character::spec_default_aggression(self.kind),
            },
    {
        let mut ch = Character::new_character(self.kind, self.level);
        match self.aggression {
            Some(a) => {
                ch.aggression = a;
            },
            None => {},
        }
        ch
    }
}

} // verus!
