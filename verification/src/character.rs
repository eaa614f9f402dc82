use vstd::prelude::*;
use vstd::string::*;

use crate::stats::Stats;

verus! {

/// Every kind of character: the player party and the station's factions.
#[derive(Debug, Clone, Copy, PartialEq, Eq, Structural)]
pub enum CharacterKind {
    /// The player character, a temporal mage: high magic, fragile, fast.
    Researcher,
    /// Dr. Sable Orin, a cleric: support healer, high defense, low offense.
    Orin,
    /// Recruiter Doss, a warrior: heavy armor, high HP, strong melee.
    Doss,
    /// Unit Kaleo, a ranger: precision attacks, system hacking, very fast.
    Kaleo,
    /// Constancy fast melee; glass cannon; the first enemies met.
    Zealot,
    /// Constancy support; its aura suppresses flux generation.
    Preacher,
    /// Constancy ranged; anti-temporal rounds.
    Purifier,
    /// Constancy boss; heavily armored; zone-wide flux suppression.
    Archon,
    /// Drifter light melee; glass cannon.
    Scavenger,
    /// Drifter ranged gunslinger; balanced.
    VoidRaider,
    /// Drifter heavy bruiser; pack leader.
    DrifterBoss,
    /// Confused maintenance robot; erratic melee.
    MaintenanceDrone,
    /// Ranged patrol robot.
    SecurityUnit,
    /// Military-grade mech; boss tier.
    CombatFrame,
    /// Fastest native creature; pack melee; dies easily.
    MoonCrawler,
    /// Ranged bio attack; magic-adjacent.
    VoidSpitter,
    /// Slow, tanky apex predator.
    AbyssalBrute,
    /// Lightly armed mercenary; friendly by default.
    SalvageOperative,
    /// Armed contractor; neutral by default.
    GunForHire,
    /// Station security; friendly early, hostile late.
    StationGuard,
    /// Military enforcer; always aggressive.
    ShockTrooper,
}

impl CharacterKind {
    /// Whether this kind belongs to the player party.
    pub open spec fn spec_is_player(&self) -> bool {
        ||| *self == CharacterKind::Researcher
        ||| *self == CharacterKind::Orin
        ||| *self == CharacterKind::Doss
        ||| *self == CharacterKind::Kaleo
    }

    /// `true` for the player party's kinds (Researcher, Orin, Doss, Kaleo).
    #[verifier::when_used_as_spec(spec_is_player)]
    pub fn is_player(&self) -> (b: bool)
        ensures
            b == self.spec_is_player(),
    {
        match self {
            CharacterKind::Researcher | CharacterKind::Orin | CharacterKind::Doss
            | CharacterKind::Kaleo => true,
            _ => false,
        }
    }
}

/// Level-1 stats of each kind.
pub open spec fn spec_base_stats(kind: CharacterKind) -> Stats {
    match kind {
        CharacterKind::Researcher => Stats { max_hp: 75, attack: 9, defense: 4, speed: 16 },
        CharacterKind::Orin => Stats { max_hp: 90, attack: 8, defense: 8, speed: 9 },
        CharacterKind::Doss => Stats { max_hp: 120, attack: 15, defense: 12, speed: 8 },
        CharacterKind::Kaleo => Stats { max_hp: 85, attack: 12, defense: 7, speed: 15 },
        CharacterKind::Zealot => Stats { max_hp: 45, attack: 13, defense: 4, speed: 14 },
        CharacterKind::Preacher => Stats { max_hp: 50, attack: 8, defense: 6, speed: 9 },
        CharacterKind::Purifier => Stats { max_hp: 55, attack: 14, defense: 5, speed: 10 },
        CharacterKind::Archon => Stats { max_hp: 220, attack: 20, defense: 18, speed: 8 },
        CharacterKind::Scavenger => Stats { max_hp: 40, attack: 9, defense: 3, speed: 15 },
        CharacterKind::VoidRaider => Stats { max_hp: 55, attack: 12, defense: 5, speed: 11 },
        CharacterKind::DrifterBoss => Stats { max_hp: 95, attack: 17, defense: 8, speed: 7 },
        CharacterKind::MaintenanceDrone => Stats { max_hp: 65, attack: 8, defense: 10, speed: 7 },
        CharacterKind::SecurityUnit => Stats { max_hp: 80, attack: 13, defense: 11, speed: 9 },
        CharacterKind::CombatFrame => Stats { max_hp: 280, attack: 24, defense: 20, speed: 10 },
        CharacterKind::MoonCrawler => Stats { max_hp: 35, attack: 11, defense: 2, speed: 18 },
        CharacterKind::VoidSpitter => Stats { max_hp: 55, attack: 14, defense: 4, speed: 10 },
        CharacterKind::AbyssalBrute => Stats { max_hp: 160, attack: 13, defense: 15, speed: 4 },
        CharacterKind::SalvageOperative => Stats { max_hp: 55, attack: 9, defense: 6, speed: 10 },
        CharacterKind::GunForHire => Stats { max_hp: 75, attack: 15, defense: 9, speed: 10 },
        CharacterKind::StationGuard => Stats { max_hp: 65, attack: 12, defense: 10, speed: 10 },
        CharacterKind::ShockTrooper => Stats { max_hp: 100, attack: 19, defense: 13, speed: 8 },
    }
}

/// Base stats at level 1.
pub(crate) fn base_stats(kind: &CharacterKind) -> (r: Stats)
    ensures
        r == spec_base_stats(*kind),
{
    match kind {
        CharacterKind::Researcher => Stats { max_hp: 75, attack: 9, defense: 4, speed: 16 },
        CharacterKind::Orin => Stats { max_hp: 90, attack: 8, defense: 8, speed: 9 },
        CharacterKind::Doss => Stats { max_hp: 120, attack: 15, defense: 12, speed: 8 },
        CharacterKind::Kaleo => Stats { max_hp: 85, attack: 12, defense: 7, speed: 15 },
        CharacterKind::Zealot => Stats { max_hp: 45, attack: 13, defense: 4, speed: 14 },
        CharacterKind::Preacher => Stats { max_hp: 50, attack: 8, defense: 6, speed: 9 },
        CharacterKind::Purifier => Stats { max_hp: 55, attack: 14, defense: 5, speed: 10 },
        CharacterKind::Archon => Stats { max_hp: 220, attack: 20, defense: 18, speed: 8 },
        CharacterKind::Scavenger => Stats { max_hp: 40, attack: 9, defense: 3, speed: 15 },
        CharacterKind::VoidRaider => Stats { max_hp: 55, attack: 12, defense: 5, speed: 11 },
        CharacterKind::DrifterBoss => Stats { max_hp: 95, attack: 17, defense: 8, speed: 7 },
        CharacterKind::MaintenanceDrone => Stats { max_hp: 65, attack: 8, defense: 10, speed: 7 },
        CharacterKind::SecurityUnit => Stats { max_hp: 80, attack: 13, defense: 11, speed: 9 },
        CharacterKind::CombatFrame => Stats { max_hp: 280, attack: 24, defense: 20, speed: 10 },
        CharacterKind::MoonCrawler => Stats { max_hp: 35, attack: 11, defense: 2, speed: 18 },
        CharacterKind::VoidSpitter => Stats { max_hp: 55, attack: 14, defense: 4, speed: 10 },
        CharacterKind::AbyssalBrute => Stats { max_hp: 160, attack: 13, defense: 15, speed: 4 },
        CharacterKind::SalvageOperative => Stats { max_hp: 55, attack: 9, defense: 6, speed: 10 },
        CharacterKind::GunForHire => Stats { max_hp: 75, attack: 15, defense: 9, speed: 10 },
        CharacterKind::StationGuard => Stats { max_hp: 65, attack: 12, defense: 10, speed: 10 },
        CharacterKind::ShockTrooper => Stats { max_hp: 100, attack: 19, defense: 13, speed: 8 },
    }
}

/// Per-level growth of each kind: (hp, attack, defense, speed).
pub open spec fn spec_growth(kind: CharacterKind) -> (i32, i32, i32, i32) {
    match kind {
        CharacterKind::Researcher => (9, 2, 1, 2),
        CharacterKind::Orin => (12, 1, 2, 1),
        CharacterKind::Doss => (18, 3, 3, 1),
        CharacterKind::Kaleo => (11, 2, 1, 2),
        CharacterKind::Zealot => (5, 2, 0, 1),
        CharacterKind::Preacher => (6, 1, 1, 0),
        CharacterKind::Purifier => (7, 2, 1, 0),
        CharacterKind::Archon => (30, 4, 4, 0),
        CharacterKind::Scavenger => (5, 1, 0, 1),
        CharacterKind::VoidRaider => (7, 2, 1, 0),
        CharacterKind::DrifterBoss => (12, 3, 1, 0),
        CharacterKind::MaintenanceDrone => (9, 1, 2, 0),
        CharacterKind::SecurityUnit => (10, 2, 2, 0),
        CharacterKind::CombatFrame => (38, 5, 4, 1),
        CharacterKind::MoonCrawler => (4, 2, 0, 1),
        CharacterKind::VoidSpitter => (7, 2, 0, 0),
        CharacterKind::AbyssalBrute => (22, 2, 2, 0),
        CharacterKind::SalvageOperative => (6, 1, 1, 0),
        CharacterKind::GunForHire => (10, 2, 1, 0),
        CharacterKind::StationGuard => (8, 2, 1, 0),
        CharacterKind::ShockTrooper => (13, 3, 2, 0),
    }
}

/// Per-level stat growth: (hp, atk, def, spd).
pub(crate) fn growth(kind: &CharacterKind) -> (r: (i32, i32, i32, i32))
    ensures
        r == spec_growth(*kind),
{
    match kind {
        CharacterKind::Researcher => (9, 2, 1, 2),
        CharacterKind::Orin => (12, 1, 2, 1),
        CharacterKind::Doss => (18, 3, 3, 1),
        CharacterKind::Kaleo => (11, 2, 1, 2),
        CharacterKind::Zealot => (5, 2, 0, 1),
        CharacterKind::Preacher => (6, 1, 1, 0),
        CharacterKind::Purifier => (7, 2, 1, 0),
        CharacterKind::Archon => (30, 4, 4, 0),
        CharacterKind::Scavenger => (5, 1, 0, 1),
        CharacterKind::VoidRaider => (7, 2, 1, 0),
        CharacterKind::DrifterBoss => (12, 3, 1, 0),
        CharacterKind::MaintenanceDrone => (9, 1, 2, 0),
        CharacterKind::SecurityUnit => (10, 2, 2, 0),
        CharacterKind::CombatFrame => (38, 5, 4, 1),
        CharacterKind::MoonCrawler => (4, 2, 0, 1),
        CharacterKind::VoidSpitter => (7, 2, 0, 0),
        CharacterKind::AbyssalBrute => (22, 2, 2, 0),
        CharacterKind::SalvageOperative => (6, 1, 1, 0),
        CharacterKind::GunForHire => (10, 2, 1, 0),
        CharacterKind::StationGuard => (8, 2, 1, 0),
        CharacterKind::ShockTrooper => (13, 3, 2, 0),
    }
}

/// Experience yielded by defeating a level-1 character of each kind.
pub open spec fn spec_base_xp(kind: CharacterKind) -> u32 {
    match kind {
        CharacterKind::Researcher => 0,
        CharacterKind::Orin => 0,
        CharacterKind::Doss => 0,
        CharacterKind::Kaleo => 0,
        CharacterKind::Zealot => 22,
        CharacterKind::Preacher => 35,
        CharacterKind::Purifier => 30,
        CharacterKind::Archon => 200,
        CharacterKind::Scavenger => 20,
        CharacterKind::VoidRaider => 28,
        CharacterKind::DrifterBoss => 45,
        CharacterKind::MaintenanceDrone => 35,
        CharacterKind::SecurityUnit => 40,
        CharacterKind::CombatFrame => 240,
        CharacterKind::MoonCrawler => 18,
        CharacterKind::VoidSpitter => 30,
        CharacterKind::AbyssalBrute => 70,
        CharacterKind::SalvageOperative => 20,
        CharacterKind::GunForHire => 50,
        CharacterKind::StationGuard => 30,
        CharacterKind::ShockTrooper => 60,
    }
}

/// Base experience reward; the player party yields none.
pub(crate) fn base_xp(kind: &CharacterKind) -> (r: u32)
    ensures
        r == spec_base_xp(*kind),
{
    match kind {
        CharacterKind::Researcher => 0,
        CharacterKind::Orin => 0,
        CharacterKind::Doss => 0,
        CharacterKind::Kaleo => 0,
        CharacterKind::Zealot => 22,
        CharacterKind::Preacher => 35,
        CharacterKind::Purifier => 30,
        CharacterKind::Archon => 200,
        CharacterKind::Scavenger => 20,
        CharacterKind::VoidRaider => 28,
        CharacterKind::DrifterBoss => 45,
        CharacterKind::MaintenanceDrone => 35,
        CharacterKind::SecurityUnit => 40,
        CharacterKind::CombatFrame => 240,
        CharacterKind::MoonCrawler => 18,
        CharacterKind::VoidSpitter => 30,
        CharacterKind::AbyssalBrute => 70,
        CharacterKind::SalvageOperative => 20,
        CharacterKind::GunForHire => 50,
        CharacterKind::StationGuard => 30,
        CharacterKind::ShockTrooper => 60,
    }
}

/// Disposition of each kind toward the party before loop effects.
pub open spec fn spec_default_aggression(kind: CharacterKind) -> Aggression {
    match kind {
        CharacterKind::Researcher => Aggression::Friendly,
        CharacterKind::Orin => Aggression::Friendly,
        CharacterKind::Doss => Aggression::Friendly,
        CharacterKind::Kaleo => Aggression::Friendly,
        CharacterKind::Zealot => Aggression::Aggressive,
        CharacterKind::Preacher => Aggression::Aggressive,
        CharacterKind::Purifier => Aggression::Aggressive,
        CharacterKind::Archon => Aggression::Aggressive,
        CharacterKind::Scavenger => Aggression::Aggressive,
        CharacterKind::VoidRaider => Aggression::Aggressive,
        CharacterKind::DrifterBoss => Aggression::Aggressive,
        CharacterKind::MaintenanceDrone => Aggression::Neutral,
        CharacterKind::SecurityUnit => Aggression::Aggressive,
        CharacterKind::CombatFrame => Aggression::Aggressive,
        CharacterKind::MoonCrawler => Aggression::Aggressive,
        CharacterKind::VoidSpitter => Aggression::Aggressive,
        CharacterKind::AbyssalBrute => Aggression::Aggressive,
        CharacterKind::SalvageOperative => Aggression::Friendly,
        CharacterKind::GunForHire => Aggression::Neutral,
        CharacterKind::StationGuard => Aggression::Friendly,
        CharacterKind::ShockTrooper => Aggression::Aggressive,
    }
}

/// Default disposition of a kind.
pub(crate) fn default_aggression(kind: &CharacterKind) -> (r: Aggression)
    ensures
        r == spec_default_aggression(*kind),
{
    match kind {
        CharacterKind::Researcher => Aggression::Friendly,
        CharacterKind::Orin => Aggression::Friendly,
        CharacterKind::Doss => Aggression::Friendly,
        CharacterKind::Kaleo => Aggression::Friendly,
        CharacterKind::Zealot => Aggression::Aggressive,
        CharacterKind::Preacher => Aggression::Aggressive,
        CharacterKind::Purifier => Aggression::Aggressive,
        CharacterKind::Archon => Aggression::Aggressive,
        CharacterKind::Scavenger => Aggression::Aggressive,
        CharacterKind::VoidRaider => Aggression::Aggressive,
        CharacterKind::DrifterBoss => Aggression::Aggressive,
        CharacterKind::MaintenanceDrone => Aggression::Neutral,
        CharacterKind::SecurityUnit => Aggression::Aggressive,
        CharacterKind::CombatFrame => Aggression::Aggressive,
        CharacterKind::MoonCrawler => Aggression::Aggressive,
        CharacterKind::VoidSpitter => Aggression::Aggressive,
        CharacterKind::AbyssalBrute => Aggression::Aggressive,
        CharacterKind::SalvageOperative => Aggression::Friendly,
        CharacterKind::GunForHire => Aggression::Neutral,
        CharacterKind::StationGuard => Aggression::Friendly,
        CharacterKind::ShockTrooper => Aggression::Aggressive,
    }
}

/// Display name of each kind.
pub open spec fn spec_default_name(kind: CharacterKind) -> Seq<char> {
    match kind {
        CharacterKind::Researcher => "Researcher"@,
        CharacterKind::Orin => "Dr. Orin"@,
        CharacterKind::Doss => "Doss"@,
        CharacterKind::Kaleo => "Kaleo"@,
        CharacterKind::Zealot => "Zealot"@,
        CharacterKind::Preacher => "Preacher"@,
        CharacterKind::Purifier => "Purifier"@,
        CharacterKind::Archon => "Archon"@,
        CharacterKind::Scavenger => "Scavenger"@,
        CharacterKind::VoidRaider => "Void Raider"@,
        CharacterKind::DrifterBoss => "Drifter Boss"@,
        CharacterKind::MaintenanceDrone => "Maintenance Drone"@,
        CharacterKind::SecurityUnit => "Security Unit"@,
        CharacterKind::CombatFrame => "Combat Frame"@,
        CharacterKind::MoonCrawler => "Moon Crawler"@,
        CharacterKind::VoidSpitter => "Void Spitter"@,
        CharacterKind::AbyssalBrute => "Abyssal Brute"@,
        CharacterKind::SalvageOperative => "Salvage Operative"@,
        CharacterKind::GunForHire => "Gun-for-Hire"@,
        CharacterKind::StationGuard => "Station Guard"@,
        CharacterKind::ShockTrooper => "Shock Trooper"@,
    }
}

/// Display name used for a freshly created character.
pub(crate) fn default_name(kind: &CharacterKind) -> (r: &'static str)
    ensures
        r@ == spec_default_name(*kind),
{
    match kind {
        CharacterKind::Researcher => "Researcher",
        CharacterKind::Orin => "Dr. Orin",
        CharacterKind::Doss => "Doss",
        CharacterKind::Kaleo => "Kaleo",
        CharacterKind::Zealot => "Zealot",
        CharacterKind::Preacher => "Preacher",
        CharacterKind::Purifier => "Purifier",
        CharacterKind::Archon => "Archon",
        CharacterKind::Scavenger => "Scavenger",
        CharacterKind::VoidRaider => "Void Raider",
        CharacterKind::DrifterBoss => "Drifter Boss",
        CharacterKind::MaintenanceDrone => "Maintenance Drone",
        CharacterKind::SecurityUnit => "Security Unit",
        CharacterKind::CombatFrame => "Combat Frame",
        CharacterKind::MoonCrawler => "Moon Crawler",
        CharacterKind::VoidSpitter => "Void Spitter",
        CharacterKind::AbyssalBrute => "Abyssal Brute",
        CharacterKind::SalvageOperative => "Salvage Operative",
        CharacterKind::GunForHire => "Gun-for-Hire",
        CharacterKind::StationGuard => "Station Guard",
        CharacterKind::ShockTrooper => "Shock Trooper",
    }
}
/// Whether the stats of `kind` at `level` fit in `i32`.
pub open spec fn scaled_stats_fit(kind: CharacterKind, level: u32) -> bool {
    let b = spec_base_stats(kind);
    let g = spec_growth(kind);
    let extra = level - 1;
    &&& level >= 1
    &&& extra <= i32::MAX
    &&& b.max_hp + g.0 * extra <= i32::MAX
    &&& b.attack + g.1 * extra <= i32::MAX
    &&& b.defense + g.2 * extra <= i32::MAX
    &&& b.speed + g.3 * extra <= i32::MAX
}

/// Stats of `kind` at `level`: base stats plus `level - 1` levels of growth.
pub open spec fn spec_scaled_stats(kind: CharacterKind, level: u32) -> Stats {
    let b = spec_base_stats(kind);
    let g = spec_growth(kind);
    let extra = level - 1;
    Stats {
        max_hp: (b.max_hp + g.0 * extra) as i32,
        attack: (b.attack + g.1 * extra) as i32,
        defense: (b.defense + g.2 * extra) as i32,
        speed: (b.speed + g.3 * extra) as i32,
    }
}

/// Stats of `kind` at `level`.
pub(crate) fn scaled_stats(kind: &CharacterKind, level: u32) -> (s: Stats)
    requires
        scaled_stats_fit(*kind, level),
    ensures
        s == spec_scaled_stats(*kind, level),
{
    let mut s = base_stats(kind);
    let (hp, atk, def, spd) = growth(kind);
    let extra = (level - 1) as i32;
    assert(0 <= hp * extra <= i32::MAX) by (nonlinear_arith)
        requires 0 <= hp <= 38, 0 <= extra, s.max_hp + hp * extra <= i32::MAX, s.max_hp >= 0;
    assert(0 <= atk * extra <= i32::MAX) by (nonlinear_arith)
        requires 0 <= atk <= 5, 0 <= extra, s.attack + atk * extra <= i32::MAX, s.attack >= 0;
    assert(0 <= def * extra <= i32::MAX) by (nonlinear_arith)
        requires 0 <= def <= 4, 0 <= extra, s.defense + def * extra <= i32::MAX, s.defense >= 0;
    assert(0 <= spd * extra <= i32::MAX) by (nonlinear_arith)
        requires 0 <= spd <= 2, 0 <= extra, s.speed + spd * extra <= i32::MAX, s.speed >= 0;
    s.max_hp = s.max_hp + hp * extra;
    s.attack = s.attack + atk * extra;
    s.defense = s.defense + def * extra;
    s.speed = s.speed + spd * extra;
    s
}

/// Current disposition of this character toward the player party.
#[derive(Debug, Clone, Copy, PartialEq, Eq, Structural)]
pub enum Aggression {
    /// Attacks the party on sight.
    Aggressive,
    /// Ignores the party unless provoked or bribed.
    Neutral,
    /// Will not initiate combat; may trade or give information.
    Friendly,
    /// Passive, slow, and non-initiating: temporal instability has dulled the creature.
    Lethargic,
}

/// Disposition of `kind` in loop `loop_number`.
pub open spec fn spec_loop_aggression(kind: CharacterKind, loop_number: u32) -> Aggression {
    match kind {
        CharacterKind::MaintenanceDrone => if loop_number >= 3 {
            Aggression::Aggressive
        } else {
            Aggression::Neutral
        },
        CharacterKind::StationGuard | CharacterKind::SalvageOperative => if loop_number <= 2 {
            Aggression::Friendly
        } else if loop_number == 3 {
            Aggression::Neutral
        } else {
            Aggression::Aggressive
        },
        CharacterKind::GunForHire => if loop_number >= 5 {
            Aggression::Aggressive
        } else {
            Aggression::Neutral
        },
        CharacterKind::MoonCrawler | CharacterKind::VoidSpitter | CharacterKind::AbyssalBrute => {
            if loop_number >= 4 {
                Aggression::Lethargic
            } else {
                Aggression::Aggressive
            }
        },
        _ => spec_default_aggression(kind),
    }
}

/// Returns the aggression state for a character kind at the given loop number.
///
/// Aggression evolves over loops as the station degrades and temporal instability peaks:
/// - Maintenance Drones: Neutral loops 1-2; Aggressive loop 3+
/// - Station Guards: Friendly loops 1-2; Neutral loop 3; Aggressive loops 4-5
/// - Salvage Operatives: Friendly loops 1-2; Neutral loop 3; Aggressive loops 4-5
/// - Gun-for-Hire: Neutral loops 1-4; Aggressive loop 5
/// - Abyssal Fauna (Moon Crawler, Void Spitter, Abyssal Brute): Aggressive loops 1-3;
///   Lethargic loops 4-5
/// - All other kinds return their default aggression unchanged.
pub fn loop_aggression(kind: &CharacterKind, loop_number: u32) -> (a: Aggression)
    ensures
        a == spec_loop_aggression(*kind, loop_number),
{
    match kind {
        CharacterKind::MaintenanceDrone => {
            if loop_number >= 3 {
                Aggression::Aggressive
            } else {
                Aggression::Neutral
            }
        },
        CharacterKind::StationGuard => {
            if loop_number <= 2 {
                Aggression::Friendly
            } else if loop_number == 3 {
                Aggression::Neutral
            } else {
                Aggression::Aggressive
            }
        },
        CharacterKind::SalvageOperative => {
            if loop_number <= 2 {
                Aggression::Friendly
            } else if loop_number == 3 {
                Aggression::Neutral
            } else {
                Aggression::Aggressive
            }
        },
        CharacterKind::GunForHire => {
            if loop_number >= 5 {
                Aggression::Aggressive
            } else {
                Aggression::Neutral
            }
        },
        CharacterKind::MoonCrawler | CharacterKind::VoidSpitter | CharacterKind::AbyssalBrute => {
            if loop_number >= 4 {
                Aggression::Lethargic
            } else {
                Aggression::Aggressive
            }
        },
        _ => default_aggression(kind),
    }
}

/// Universal record for both player characters and NPCs.
/// Use `aggression` to determine combat role; use `kind` to access class-specific data.
#[derive(Debug, Clone)]
pub struct Character {
    pub name: String,
    pub kind: CharacterKind,
    pub level: u32,
    pub stats: Stats,
    pub current_hp: i32,
    pub xp_reward: u32,
    pub aggression: Aggression,
}

/// Whether a character of `kind` at `level` can be represented: its stats fit in
/// `i32` and its experience reward fits in `u32`.
pub open spec fn character_fits(kind: CharacterKind, level: u32) -> bool {
    &&& scaled_stats_fit(kind, level)
    &&& spec_base_xp(kind) * level <= u32::MAX
}

impl Character {
    /// Create a character at the given level with scaled stats, default name, and default aggression.
    pub fn new_character(kind: CharacterKind, level: u32) -> (c: Self)
        requires
            character_fits(kind, level),
        ensures
            c.name@ == spec_default_name(kind),
            c.kind == kind,
            c.level == level,
            c.stats == spec_scaled_stats(kind, level),
            c.current_hp == c.stats.max_hp,
            c.xp_reward == spec_base_xp(kind) * level,
            c.aggression == spec_default_aggression(kind),
    {
        let stats = scaled_stats(&kind, level);
        let current_hp = stats.max_hp;
        let xp_reward = base_xp(&kind) * level;
        let name = String::from_str(default_name(&kind));
        let aggression = default_aggression(&kind);
        Self { name, kind, level, stats, current_hp, xp_reward, aggression }
    }

    /// Whether the character still has hit points left.
    pub open spec fn spec_is_alive(&self) -> bool {
        self.current_hp > 0
    }

    /// `true` while `current_hp` is positive.
    #[verifier::when_used_as_spec(spec_is_alive)]
    pub fn is_alive(&self) -> (b: bool)
        ensures
            b == self.spec_is_alive(),
    {
        self.current_hp > 0
    }

    /// Lose `amount` hit points, never dropping below zero.
    pub fn take_damage(&mut self, amount: i32)
        requires
            i32::MIN <= old(self).current_hp - amount <= i32::MAX,
        ensures
            final(self).current_hp == (if old(self).current_hp - amount > 0 {
                old(self).current_hp - amount
            } else {
                0
            }),
            final(self).name == old(self).name,
            final(self).kind == old(self).kind,
            final(self).level == old(self).level,
            final(self).stats == old(self).stats,
            final(self).xp_reward == old(self).xp_reward,
            final(self).aggression == old(self).aggression,
    {
        let hp = self.current_hp - amount;
        self.current_hp = if hp > 0 { hp } else { 0 };
    }
}


/// The per-loop dispositions: Maintenance Drones are neutral in loops 1–2 and
/// aggressive from loop 3; Station Guards and Salvage Operatives share one schedule,
/// friendly in loops 1–2, neutral in loop 3 exactly and aggressive from loop 4;
/// Guns-for-Hire are neutral until loop 5, aggressive from it; the abyssal fauna is
/// aggressive in loops 1–3 and lethargic from loop 4.
pub proof fn lemma_loop_aggression_schedule(loop_number: u32)
    ensures
        spec_loop_aggression(CharacterKind::MaintenanceDrone, loop_number) == (if loop_number <= 2 {
            Aggression::Neutral
        } else {
            Aggression::Aggressive
        }),
        spec_loop_aggression(CharacterKind::StationGuard, loop_number) == spec_loop_aggression(
            CharacterKind::SalvageOperative,
            loop_number,
        ),
        loop_number <= 2 ==> spec_loop_aggression(CharacterKind::SalvageOperative, loop_number) == Aggression::Friendly,
        loop_number == 3 ==> spec_loop_aggression(CharacterKind::SalvageOperative, loop_number) == Aggression::Neutral,
        loop_number >= 4 ==> spec_loop_aggression(CharacterKind::SalvageOperative, loop_number) == Aggression::Aggressive,
        loop_number <= 2 ==> spec_loop_aggression(CharacterKind::StationGuard, loop_number) == Aggression::Friendly,
        loop_number == 3 ==> spec_loop_aggression(CharacterKind::StationGuard, loop_number) == Aggression::Neutral,
        loop_number >= 4 ==> spec_loop_aggression(CharacterKind::StationGuard, loop_number) == Aggression::Aggressive,
        spec_loop_aggression(CharacterKind::GunForHire, loop_number) == (if loop_number <= 4 {
            Aggression::Neutral
        } else {
            Aggression::Aggressive
        }),
        spec_loop_aggression(CharacterKind::MoonCrawler, loop_number) == (if loop_number <= 3 {
            Aggression::Aggressive
        } else {
            Aggression::Lethargic
        }),
        spec_loop_aggression(CharacterKind::VoidSpitter, loop_number) == spec_loop_aggression(
            CharacterKind::MoonCrawler,
            loop_number,
        ),
        spec_loop_aggression(CharacterKind::AbyssalBrute, loop_number) == spec_loop_aggression(
            CharacterKind::MoonCrawler,
            loop_number,
        ),
{
}

} // verus!
