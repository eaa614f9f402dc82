use carbonthrone::character::{loop_aggression, Aggression, Character, CharacterKind};
use carbonthrone::stats::Stats;

#[test]
fn new_character_scales_with_level() {
    let c = Character::new_character(CharacterKind::Researcher, 3);
    assert_eq!(c.name, "Researcher");
    assert_eq!(c.level, 3);
    assert_eq!(c.stats, Stats { max_hp: 93, attack: 13, defense: 6, speed: 20 });
    assert_eq!(c.current_hp, 93);
    assert_eq!(c.xp_reward, 0);
    assert_eq!(c.aggression, Aggression::Friendly);

    let z = Character::new_character(CharacterKind::Zealot, 2);
    assert_eq!(z.stats, Stats { max_hp: 50, attack: 15, defense: 4, speed: 15 });
    assert_eq!(z.xp_reward, 44);
    assert_eq!(z.aggression, Aggression::Aggressive);
}

#[test]
fn level_up_matches_a_fresh_character() {
    let mut s = Stats::for_character(&CharacterKind::Doss);
    assert_eq!(s, Stats { max_hp: 120, attack: 15, defense: 12, speed: 8 });
    s.level_up(&CharacterKind::Doss);
    s.level_up(&CharacterKind::Doss);
    assert_eq!(s, Character::new_character(CharacterKind::Doss, 3).stats);
}

#[test]
fn damage_floors_at_zero() {
    let mut c = Character::new_character(CharacterKind::Scavenger, 1);
    let hp = c.current_hp;
    c.take_damage(5);
    assert_eq!(c.current_hp, hp - 5);
    assert!(c.is_alive());
    c.take_damage(1000);
    assert_eq!(c.current_hp, 0);
    assert!(!c.is_alive());
}

#[test]
fn player_kinds() {
    assert!(CharacterKind::Researcher.is_player());
    assert!(CharacterKind::Kaleo.is_player());
    assert!(!CharacterKind::Archon.is_player());
}

#[test]
fn aggression_shifts_over_loops() {
    assert_eq!(loop_aggression(&CharacterKind::StationGuard, 2), Aggression::Friendly);
    assert_eq!(loop_aggression(&CharacterKind::StationGuard, 3), Aggression::Neutral);
    assert_eq!(loop_aggression(&CharacterKind::StationGuard, 4), Aggression::Aggressive);
    assert_eq!(loop_aggression(&CharacterKind::MaintenanceDrone, 2), Aggression::Neutral);
    assert_eq!(loop_aggression(&CharacterKind::MaintenanceDrone, 3), Aggression::Aggressive);
    assert_eq!(loop_aggression(&CharacterKind::GunForHire, 4), Aggression::Neutral);
    assert_eq!(loop_aggression(&CharacterKind::GunForHire, 5), Aggression::Aggressive);
    assert_eq!(loop_aggression(&CharacterKind::MoonCrawler, 3), Aggression::Aggressive);
    assert_eq!(loop_aggression(&CharacterKind::MoonCrawler, 4), Aggression::Lethargic);
    assert_eq!(loop_aggression(&CharacterKind::Orin, 5), Aggression::Friendly);
    assert_eq!(loop_aggression(&CharacterKind::Zealot, 1), Aggression::Aggressive);
}
