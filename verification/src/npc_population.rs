use vstd::prelude::*;
use vstd::string::*;

use crate::character::{loop_aggression, spec_loop_aggression, Aggression, CharacterKind};
use crate::dialog::DialogFlags;
use crate::game::NpcData;
use crate::zone::ZoneKind;

verus! {

/// The Yarn node slug of the non-companion NPCs that have their own dialog trees.
pub open spec fn spec_npc_interact_slug(kind: CharacterKind) -> Option<Seq<char>> {
    match kind {
        CharacterKind::SalvageOperative => Some("salvage_operative"@),
        CharacterKind::GunForHire => Some("gun_for_hire"@),
        CharacterKind::StationGuard => Some("station_guard"@),
        _ => None,
    }
}

/// Return the Yarn node slug for non-companion NPCs, or `None` for companion kinds.
///
/// Companion NPCs (Orin, Doss, Kaleo) share the zone-level interact node
/// (`loop{N}_{location}_on_interact`). Non-companion NPCs use a per-character slug so
/// multi-NPC zones can have independent dialog trees.
pub fn npc_interact_slug(kind: &CharacterKind) -> (r: Option<&'static str>)
    ensures
        match r {
            Some(s) => spec_npc_interact_slug(*kind) == Some(s@),
            None => spec_npc_interact_slug(*kind) == None::<Seq<char>>,
        },
{
    match kind {
        CharacterKind::SalvageOperative => Some("salvage_operative"),
        CharacterKind::GunForHire => Some("gun_for_hire"),
        CharacterKind::StationGuard => Some("station_guard"),
        _ => None,
    }
}

/// What a caller can observe of an NPC record: position, name, glyph, kind, disposition.
pub open spec fn npc_view(n: NpcData) -> ((i32, i32), Seq<char>, char, CharacterKind, Aggression) {
    (n.pos, n.name@, n.glyph, n.kind, n.aggression)
}

/// An NPC of `kind` at `pos`, with its disposition for loop `loop_number`.
pub open spec fn npc_spec(kind: CharacterKind, pos: (i32, i32), name: Seq<char>, glyph: char, loop_number: u32) -> (
    (i32, i32),
    Seq<char>,
    char,
    CharacterKind,
    Aggression,
) {
    (pos, name, glyph, kind, spec_loop_aggression(kind, loop_number))
}

/// `v` pulled at least one tile in from every edge of a grid `ci` wide
/// (first raised to 1, then capped at `ci - 2`).
pub open spec fn inset(v: int, ci: int) -> i32 {
    let lo = if v < 1 {
        1
    } else {
        v
    };
    (if lo < ci - 2 {
        lo
    } else {
        ci - 2
    }) as i32
}

/// Half the grid size, at least 1.
pub open spec fn half_at_least_one(n: int) -> int {
    if n / 2 < 1 {
        1
    } else {
        n / 2
    }
}

/// The NPCs that stand in zone `kind` in loop `loop_number`, given the raised flags
/// (the Medical Bay holds a Salvage Operative in loops 1-4 and a Station Guard in
/// loops 1-2).
pub open spec fn spec_zone_npcs(kind: ZoneKind, cols: u32, rows: u32, loop_number: u32, flags: Set<Seq<char>>) -> Seq<
    ((i32, i32), Seq<char>, char, CharacterKind, Aggression),
> {
    let ci = cols as i32 as int;
    let ri = rows as i32 as int;
    let cx = half_at_least_one(ci);
    let cy = half_at_least_one(ri);
    let at = |x: int, y: int| (inset(x, ci), inset(y, ri));
    match kind {
        ZoneKind::ResearchWing => if loop_number <= 2 {
            seq![npc_spec(CharacterKind::SalvageOperative, at(cx + 2, cy), "Salvage Operative"@, 'S', loop_number)]
        } else {
            seq![]
        },
        ZoneKind::CommandDeck => if !flags.contains("companion_orin"@) {
            seq![npc_spec(CharacterKind::Orin, at(cx, cy - 2), "Dr. Orin"@, 'O', loop_number)]
        } else {
            seq![]
        },
        ZoneKind::MilitaryAnnex => if !flags.contains("companion_doss"@) {
            seq![npc_spec(CharacterKind::Doss, at(cx - 2, cy), "Recruiter Doss"@, 'D', loop_number)]
        } else {
            seq![]
        },
        ZoneKind::SystemsCore => if loop_number >= 2 && !flags.contains("kaleo_recruited"@) {
            seq![npc_spec(CharacterKind::Kaleo, at(cx, cy + 2), "Unit Kaleo"@, 'K', loop_number)]
        } else {
            seq![]
        },
        ZoneKind::MedicalBay => {
            let operative = npc_spec(CharacterKind::SalvageOperative, at(cx + 2, cy), "Salvage Operative"@, 'S', loop_number);
            if loop_number <= 2 {
                seq![operative, npc_spec(CharacterKind::StationGuard, at(cx - 2, cy + 1), "Station Guard"@, 'G', loop_number)]
            } else if loop_number <= 4 {
                seq![operative]
            } else {
                seq![]
            }
        },
        ZoneKind::DockingBay => if loop_number <= 4 {
            seq![npc_spec(CharacterKind::GunForHire, at(cx, cy - 2), "Gun-for-Hire"@, 'H', loop_number)]
        } else {
            seq![]
        },
        ZoneKind::StationExterior => if loop_number == 3 {
            seq![npc_spec(CharacterKind::SalvageOperative, at(cx + 3, cy + 3), "Salvage Operative"@, 'S', loop_number)]
        } else {
            seq![]
        },
        _ => seq![],
    }
}

/// The NPC records of a list, as observed.
pub open spec fn npc_views(v: Seq<NpcData>) -> Seq<((i32, i32), Seq<char>, char, CharacterKind, Aggression)> {
    v.map_values(|n: NpcData| npc_view(n))
}

fn clamp_inset(v: i32, ci: i32) -> (r: i32)
    requires
        ci > i32::MIN + 1,
    ensures
        r == inset(v as int, ci as int),
{
    let lo = if v < 1 {
        1
    } else {
        v
    };
    if lo < ci - 2 {
        lo
    } else {
        ci - 2
    }
}

fn make_npc(kind: CharacterKind, pos: (i32, i32), name: &'static str, glyph: char, loop_number: u32) -> (n: NpcData)
    ensures
        npc_view(n) == npc_spec(kind, pos, name@, glyph, loop_number),
{
    let aggression = loop_aggression(&kind, loop_number);
    NpcData { pos, name, glyph, kind, aggression }
}

/// Return the NPCs that should populate zone `kind` given the current `loop_number` and flag state.
///
/// Positions are relative to the zone centre and kept one tile in from every edge.
/// Aggression is derived from [`loop_aggression`].
pub fn zone_npcs(kind: ZoneKind, cols: u32, rows: u32, loop_number: u32, flags: &DialogFlags) -> (v: Vec<NpcData>)
    requires
        cols as i32 > i32::MIN + 1,
        rows as i32 > i32::MIN + 1,
    ensures
        npc_views(v@) == spec_zone_npcs(kind, cols, rows, loop_number, flags@),
{
    let ci = cols as i32;
    let ri = rows as i32;
    let cx = if ci / 2 < 1 {
        1
    } else {
        ci / 2
    };
    let cy = if ri / 2 < 1 {
        1
    } else {
        ri / 2
    };
    let mut v: Vec<NpcData> = Vec::new();
    match kind {
        ZoneKind::ResearchWing => {
            if loop_number <= 2 {
                v.push(make_npc(CharacterKind::SalvageOperative, (clamp_inset(cx + 2, ci), clamp_inset(cy, ri)), "Salvage Operative", 'S', loop_number));
            }
        },
        ZoneKind::CommandDeck => {
            if !flags.is_flag_set("companion_orin") {
                v.push(make_npc(CharacterKind::Orin, (clamp_inset(cx, ci), clamp_inset(cy - 2, ri)), "Dr. Orin", 'O', loop_number));
            }
        },
        ZoneKind::MilitaryAnnex => {
            if !flags.is_flag_set("companion_doss") {
                v.push(make_npc(CharacterKind::Doss, (clamp_inset(cx - 2, ci), clamp_inset(cy, ri)), "Recruiter Doss", 'D', loop_number));
            }
        },
        ZoneKind::SystemsCore => {
            if loop_number >= 2 && !flags.is_flag_set("kaleo_recruited") {
                v.push(make_npc(CharacterKind::Kaleo, (clamp_inset(cx, ci), clamp_inset(cy + 2, ri)), "Unit Kaleo", 'K', loop_number));
            }
        },
        ZoneKind::MedicalBay => {
            if loop_number <= 4 {
                v.push(make_npc(CharacterKind::SalvageOperative, (clamp_inset(cx + 2, ci), clamp_inset(cy, ri)), "Salvage Operative", 'S', loop_number));
            }
            if loop_number <= 2 {
                v.push(make_npc(CharacterKind::StationGuard, (clamp_inset(cx - 2, ci), clamp_inset(cy + 1, ri)), "Station Guard", 'G', loop_number));
            }
        },
        ZoneKind::DockingBay => {
            if loop_number <= 4 {
                v.push(make_npc(CharacterKind::GunForHire, (clamp_inset(cx, ci), clamp_inset(cy - 2, ri)), "Gun-for-Hire", 'H', loop_number));
            }
        },
        ZoneKind::StationExterior => {
            if loop_number == 3 {
                v.push(make_npc(CharacterKind::SalvageOperative, (clamp_inset(cx + 3, ci), clamp_inset(cy + 3, ri)), "Salvage Operative", 'S', loop_number));
            }
        },
        _ => {},
    }
    proof {
        assert(npc_views(v@) =~= spec_zone_npcs(kind, cols, rows, loop_number, flags@));
    }
    v
}

/// The companion named by the flags, if any: Orin, then Doss, then Kaleo.
pub open spec fn spec_derive_companion(flags: Set<Seq<char>>) -> Option<Seq<char>> {
    if flags.contains("companion_orin"@) {
        Some("orin"@)
    } else if flags.contains("companion_doss"@) {
        Some("doss"@)
    } else if flags.contains("kaleo_recruited"@) {
        Some("kaleo"@)
    } else {
        None
    }
}

/// Derive the active companion name from the current flag state.
pub fn derive_companion(flags: &DialogFlags) -> (c: Option<String>)
    ensures
        match c {
            Some(s) => spec_derive_companion(flags@) == Some(s@),
            None => spec_derive_companion(flags@) == None::<Seq<char>>,
        },
{
    if flags.is_flag_set("companion_orin") {
        Some(String::from_str("orin"))
    } else if flags.is_flag_set("companion_doss") {
        Some(String::from_str("doss"))
    } else if flags.is_flag_set("kaleo_recruited") {
        Some(String::from_str("kaleo"))
    } else {
        None
    }
}

/// Every NPC stands at least one tile in from each edge of the zone, for zones at
/// least three tiles wide and tall.
pub proof fn lemma_zone_npcs_inside(kind: ZoneKind, cols: u32, rows: u32, loop_number: u32, flags: Set<Seq<char>>)
    requires
        3 <= cols <= i32::MAX,
        3 <= rows <= i32::MAX,
    ensures
        forall|i: int|
            0 <= i < spec_zone_npcs(kind, cols, rows, loop_number, flags).len() ==> {
                let p = (#[trigger] spec_zone_npcs(kind, cols, rows, loop_number, flags)[i]).0;
                &&& 1 <= p.0 <= cols - 2
                &&& 1 <= p.1 <= rows - 2
            },
{
    assert(cols as i32 as int == cols);
    assert(rows as i32 as int == rows);
    assert forall|v: int, c: int| 3 <= c <= i32::MAX implies 1 <= #[trigger] inset(v, c) <= c - 2 by {}
}

} // verus!
