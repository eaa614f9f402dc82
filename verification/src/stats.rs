use vstd::prelude::*;

use crate::character::{
    base_stats, growth, scaled_stats_fit, spec_base_stats, spec_growth, spec_scaled_stats,
    CharacterKind,
};

verus! {

/// Combat statistics of one character.
#[derive(Debug, Clone, Copy, PartialEq, Eq, Structural)]
pub struct Stats {
    pub max_hp: i32,
    pub attack: i32,
    pub defense: i32,
    pub speed: i32,
}

/// The stats reached from `s` after one level of `kind`'s growth.
pub open spec fn spec_level_up(s: Stats, kind: CharacterKind) -> Stats {
    let g = spec_growth(kind);
    Stats {
        max_hp: (s.max_hp + g.0) as i32,
        attack: (s.attack + g.1) as i32,
        defense: (s.defense + g.2) as i32,
        speed: (s.speed + g.3) as i32,
    }
}

/// Whether one level of `kind`'s growth applied to `s` stays within `i32`.
pub open spec fn level_up_fits(s: Stats, kind: CharacterKind) -> bool {
    let g = spec_growth(kind);
    &&& s.max_hp + g.0 <= i32::MAX
    &&& s.attack + g.1 <= i32::MAX
    &&& s.defense + g.2 <= i32::MAX
    &&& s.speed + g.3 <= i32::MAX
}

impl Stats {
    /// Level-1 stats of `kind`.
    pub fn for_character(kind: &CharacterKind) -> (s: Self)
        ensures
            s == spec_base_stats(*kind),
    {
        base_stats(kind)
    }

    /// Apply growth on level-up. Values are per-level increases.
    pub fn level_up(&mut self, kind: &CharacterKind)
        requires
            level_up_fits(*old(self), *kind),
        ensures
            *final(self) == spec_level_up(*old(self), *kind),
    {
        let (hp, atk, def, spd) = growth(kind);
        self.max_hp = self.max_hp + hp;
        self.attack = self.attack + atk;
        self.defense = self.defense + def;
        self.speed = self.speed + spd;
    }
}

/// Levelling up a character of `kind` at `level` gives the stats of a fresh
/// character of `kind` at `level + 1`: growth accumulates one level at a time.
pub proof fn lemma_level_up_scales(kind: CharacterKind, level: u32)
    requires
        level >= 1,
        level < u32::MAX,
        scaled_stats_fit(kind, (level + 1) as u32),
    ensures
        scaled_stats_fit(kind, level),
        level_up_fits(spec_scaled_stats(kind, level), kind),
        spec_level_up(spec_scaled_stats(kind, level), kind) == spec_scaled_stats(kind, (level + 1) as u32),
{
    let b = spec_base_stats(kind);
    let g = spec_growth(kind);
    let e = level - 1;
    assert(0 <= g.0 && 0 <= g.1 && 0 <= g.2 && 0 <= g.3);
    assert(0 <= b.max_hp && 0 <= b.attack && 0 <= b.defense && 0 <= b.speed);
    assert(g.0 * (e + 1) == g.0 * e + g.0) by (nonlinear_arith);
    assert(g.1 * (e + 1) == g.1 * e + g.1) by (nonlinear_arith);
    assert(g.2 * (e + 1) == g.2 * e + g.2) by (nonlinear_arith);
    assert(g.3 * (e + 1) == g.3 * e + g.3) by (nonlinear_arith);
    assert(0 <= g.0 * e) by (nonlinear_arith)
        requires
            0 <= g.0,
            0 <= e,
    ;
    assert(0 <= g.1 * e) by (nonlinear_arith)
        requires
            0 <= g.1,
            0 <= e,
    ;
    assert(0 <= g.2 * e) by (nonlinear_arith)
        requires
            0 <= g.2,
            0 <= e,
    ;
    assert(0 <= g.3 * e) by (nonlinear_arith)
        requires
            0 <= g.3,
            0 <= e,
    ;
}

} // verus!
