use carbonthrone::character::{Aggression, CharacterKind};
use carbonthrone::scripted_encounter::{fixed_spot, scripted_encounter_for, SpawnLocation};
use carbonthrone::zone::ZoneKind;

#[test]
fn tutorial_holds_three_attackers_and_two_allies() {
    let enc = scripted_encounter_for(ZoneKind::ResearchWing, 1).expect("tutorial");
    assert_eq!(enc.id, "tutorial_opening");
    let kinds: Vec<CharacterKind> = enc.enemies.iter().map(|p| p.kind).collect();
    assert_eq!(kinds, vec![CharacterKind::Zealot, CharacterKind::Zealot, CharacterKind::Purifier]);
    assert_eq!(enc.enemies[0].first_ability, Some("Zealot Strike"));
    assert_eq!(enc.allies.len(), 2);
    assert_eq!(enc.allies[0].first_ability, Some("Heal"));
    assert_eq!(enc.allies[1].aggression, Some(Aggression::Friendly));
    let orin = enc.allies[0].to_character();
    assert_eq!(orin.aggression, Aggression::Friendly);
    assert_eq!(orin.level, 1);
}

#[test]
fn archon_encounter_from_loop_4() {
    assert!(scripted_encounter_for(ZoneKind::MilitaryAnnex, 3).is_none());
    let enc = scripted_encounter_for(ZoneKind::MilitaryAnnex, 5).expect("archon");
    assert_eq!(enc.id, "archon_encounter");
    assert_eq!(enc.enemies[0].kind, CharacterKind::Archon);
    assert_eq!(enc.enemies[0].level, 4);
    assert_eq!(enc.enemies[0].location, SpawnLocation::NorthWall);
    assert_eq!(enc.enemies[1].level, 3);
    assert!(enc.allies.is_empty());
    assert!(scripted_encounter_for(ZoneKind::MedicalBay, 1).is_none());
}

#[test]
fn wall_spots() {
    assert_eq!(fixed_spot(SpawnLocation::NorthWall, 20, 10), Some((10, 1)));
    assert_eq!(fixed_spot(SpawnLocation::SouthWall, 20, 10), Some((10, 8)));
    assert_eq!(fixed_spot(SpawnLocation::EastWall, 20, 10), Some((18, 5)));
    assert_eq!(fixed_spot(SpawnLocation::WestWall, 20, 10), Some((1, 5)));
    assert_eq!(fixed_spot(SpawnLocation::Center, 1, 1), Some((0, 0)));
    assert_eq!(fixed_spot(SpawnLocation::Marked(0), 20, 10), None);
}
