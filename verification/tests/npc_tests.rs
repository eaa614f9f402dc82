use carbonthrone::character::{Aggression, CharacterKind};
use carbonthrone::dialog::DialogFlags;
use carbonthrone::game::{resolve_ending, EndingKind};
use carbonthrone::npc_population::{derive_companion, npc_interact_slug, zone_npcs};
use carbonthrone::zone::ZoneKind;

fn flags(names: &[&str]) -> DialogFlags {
    let mut f = DialogFlags::new();
    for n in names {
        f.set_flag(n);
    }
    f
}

#[test]
fn interact_slugs() {
    assert_eq!(npc_interact_slug(&CharacterKind::GunForHire), Some("gun_for_hire"));
    assert_eq!(npc_interact_slug(&CharacterKind::SalvageOperative), Some("salvage_operative"));
    assert_eq!(npc_interact_slug(&CharacterKind::StationGuard), Some("station_guard"));
    assert_eq!(npc_interact_slug(&CharacterKind::Orin), None);
}

#[test]
fn medical_bay_population() {
    let npcs = zone_npcs(ZoneKind::MedicalBay, 20, 10, 1, &flags(&[]));
    assert_eq!(npcs.len(), 2);
    assert_eq!(npcs[0].kind, CharacterKind::SalvageOperative);
    assert_eq!(npcs[0].pos, (12, 5));
    assert_eq!(npcs[0].aggression, Aggression::Friendly);
    assert_eq!(npcs[1].kind, CharacterKind::StationGuard);
    assert_eq!(npcs[1].pos, (8, 6));
    assert_eq!(npcs[1].glyph, 'G');
    let later = zone_npcs(ZoneKind::MedicalBay, 20, 10, 4, &flags(&[]));
    assert_eq!(later.len(), 1);
    assert_eq!(later[0].aggression, Aggression::Aggressive);
    assert!(zone_npcs(ZoneKind::MedicalBay, 20, 10, 5, &flags(&[])).is_empty());
}

#[test]
fn companions_leave_their_zones_once_recruited() {
    let orin = zone_npcs(ZoneKind::CommandDeck, 10, 10, 1, &flags(&[]));
    assert_eq!(orin.len(), 1);
    assert_eq!(orin[0].name, "Dr. Orin");
    assert_eq!(orin[0].pos, (5, 3));
    assert!(zone_npcs(ZoneKind::CommandDeck, 10, 10, 1, &flags(&["companion_orin"])).is_empty());
    assert!(zone_npcs(ZoneKind::SystemsCore, 10, 10, 1, &flags(&[])).is_empty());
    assert_eq!(zone_npcs(ZoneKind::SystemsCore, 10, 10, 2, &flags(&[])).len(), 1);
    assert!(zone_npcs(ZoneKind::SystemsCore, 10, 10, 2, &flags(&["kaleo_recruited"])).is_empty());
}

#[test]
fn positions_stay_inside_small_maps() {
    let npcs = zone_npcs(ZoneKind::StationExterior, 4, 4, 3, &flags(&[]));
    assert_eq!(npcs.len(), 1);
    assert_eq!(npcs[0].pos, (2, 2));
    assert!(zone_npcs(ZoneKind::RelayArray, 10, 10, 3, &flags(&[])).is_empty());
}

#[test]
fn companion_from_flags() {
    assert_eq!(derive_companion(&flags(&["companion_doss", "kaleo_recruited"])), Some("doss".to_string()));
    assert_eq!(derive_companion(&flags(&["companion_orin", "companion_doss"])), Some("orin".to_string()));
    assert_eq!(derive_companion(&flags(&["kaleo_recruited"])), Some("kaleo".to_string()));
    assert_eq!(derive_companion(&flags(&[])), None);
}

#[test]
fn endings_resolve_only_in_loop_five() {
    assert_eq!(resolve_ending(&flags(&["orin_helped"]), 5), Some(EndingKind::SableDestroyed));
    assert_eq!(resolve_ending(&flags(&["ending_doss"]), 5), Some(EndingKind::DossPreserved));
    assert_eq!(resolve_ending(&flags(&["ending_kaleo"]), 5), Some(EndingKind::KaleoCompromise));
    assert_eq!(resolve_ending(&flags(&["orin_stopped"]), 5), Some(EndingKind::SableStopped));
    assert_eq!(resolve_ending(&flags(&["orin_stopped", "convergence_triggered"]), 5), None);
    assert_eq!(resolve_ending(&flags(&["ending_kaleo", "ending_doss"]), 5), Some(EndingKind::DossPreserved));
    assert_eq!(
        resolve_ending(&flags(&["orin_helped", "ending_doss", "ending_kaleo", "orin_stopped"]), 4),
        None
    );
}
