use carbonthrone::ability::{Battle, Combatant, Health};
use carbonthrone::action_points::ActionPoints;
use carbonthrone::character::CharacterKind;
use carbonthrone::combat::BattleStep;
use carbonthrone::entity::Entity;
use carbonthrone::game::{GamePhase, GameSession};
use carbonthrone::save::{CombatantRole, SaveData};
use carbonthrone::zone::{ZoneConnections, ZoneKind};

// ── Helper ────────────────────────────────────────────────────────────────────

/// Build a minimal SaveData for the given zone and loop.
fn save_for(zone: ZoneKind, loop_number: u32) -> SaveData {
    SaveData {
        loop_number,
        flags: vec![],
        active_companion: None,
        current_zone: zone,
        party_kinds: vec![CharacterKind::Researcher],
        party_hp: vec![],
        party_levels: vec![],
        fought_scripted_encounters: vec![],
        ending: None,
        battle_snapshot: None,
    }
}

/// Whether the zone entered rolled an encounter, varied with the seed.
fn rolled(seed: u64) -> bool {
    seed % 3 != 0
}

// ── pending_battle set on zone entry ─────────────────────────────────────────

#[test]
fn pending_battle_true_when_zone_has_encounter() {
    for seed in 0u64..500 {
        let session = GameSession::from_save_data(save_for(ZoneKind::MedicalBay, 4), rolled(seed));
        match &session.phase {
            GamePhase::Battle => return,
            GamePhase::Exploration if rolled(seed) => {
                assert!(session.pending_battle, "pending_battle must be true when zone rolled an encounter");
                return;
            }
            _ => continue,
        }
    }
    panic!("no seed produced a zone with encounter in 500 tries");
}

#[test]
fn pending_battle_false_when_zone_has_no_encounter() {
    for seed in 0u64..500 {
        let session = GameSession::from_save_data(save_for(ZoneKind::MedicalBay, 1), rolled(seed));
        let GamePhase::Exploration = &session.phase else {
            continue;
        };
        if !rolled(seed) {
            assert!(!session.pending_battle, "pending_battle must be false when zone has no encounter");
            return;
        }
    }
    panic!("no seed produced a zone without encounter in 500 tries");
}

// ── immediate battle when no dialog blocks ────────────────────────────────────

#[test]
fn encounter_starts_battle_immediately_when_no_dialog() {
    // Loop 4 Military Annex has no on_enter scene: the front end finds no node and
    // dismisses the dialog at once, so a rolled encounter starts right away.
    for seed in 0u64..500 {
        let mut session = GameSession::from_save_data(save_for(ZoneKind::MilitaryAnnex, 4), rolled(seed));
        session.dismiss_dialog();
        if matches!(session.phase, GamePhase::Battle) {
            return;
        }
    }
    panic!("no seed produced immediate battle at loop 4 MilitaryAnnex in 500 tries");
}

// ── finishing a dialog triggers a pending battle ──────────────────────────────

#[test]
fn advance_dialog_triggers_battle_when_pending() {
    for seed in 0u64..1000 {
        let mut session = GameSession::from_save_data(save_for(ZoneKind::ResearchWing, 1), rolled(seed));
        let ok = matches!(session.phase, GamePhase::Exploration) && session.pending_battle && session.in_dialog;
        if !ok {
            continue;
        }
        // The last line of the scene has been advanced: the dialog ends.
        session.end_dialog(vec![]);
        assert!(
            matches!(session.phase, GamePhase::Battle),
            "battle should start after all dialog lines are advanced with pending_battle"
        );
        return;
    }
    panic!("no seed produced pending_battle+in_dialog at loop 1 ResearchWing in 1000 tries");
}

#[test]
fn select_choice_triggers_battle_when_pending() {
    for seed in 0u64..2000 {
        let mut session = GameSession::from_save_data(save_for(ZoneKind::ResearchWing, 1), rolled(seed));
        let has_pending = matches!(session.phase, GamePhase::Exploration) && session.pending_battle && session.in_dialog;
        if !has_pending {
            continue;
        }
        // A terminal choice ends the scene, with the flag it raised.
        session.end_dialog(vec!["loop1_opened".to_string()]);
        if matches!(session.phase, GamePhase::Battle) {
            return;
        }
    }
    panic!("no seed produced a choice-closes-to-battle scenario in 2000 tries");
}

// ── reset_loop respects encounter ─────────────────────────────────────────────

#[test]
fn reset_loop_sets_pending_battle_on_encounter() {
    let mut session = GameSession::new(false);
    // Dismiss the startup dialog without starting the pending battle.
    session.in_dialog = false;
    session.pending_dialog = None;
    let GamePhase::Exploration = &session.phase else {
        return;
    };
    for seed in 0u64..500 {
        session.reset_loop(rolled(seed));
        match &session.phase {
            GamePhase::Battle => return,
            GamePhase::Exploration if rolled(seed) => {
                assert!(session.pending_battle, "pending_battle should be set after reset_loop when encounter exists");
                return;
            }
            GamePhase::Exploration => {
                assert!(!session.pending_battle, "pending_battle should be false after reset_loop when no encounter");
                continue;
            }
            _ => continue,
        }
    }
}

// ── exit_hallway arrival triggers battle ──────────────────────────────────────

#[test]
fn exit_hallway_arrival_at_encounter_zone_starts_battle_or_sets_pending() {
    let doors = ZoneConnections { north: None, south: Some(ZoneKind::MedicalBay), east: None, west: None };
    for seed in 0u64..1000 {
        let mut session = GameSession::new(false);
        session.loop_number = 4;
        session.in_dialog = false;
        session.pending_dialog = None;
        let GamePhase::Exploration = &session.phase else {
            continue;
        };
        session.initiate_travel(ZoneKind::MedicalBay, doors);
        // Arrival rolls: the party arrives on the third try.
        let mut arrived = false;
        for attempt in 0..30 {
            if session.exit_hallway(attempt == 2, rolled(seed)) {
                arrived = true;
                break;
            }
        }
        if !arrived {
            continue;
        }
        match &session.phase {
            GamePhase::Battle => return,
            GamePhase::Exploration if rolled(seed) && session.pending_battle => return,
            _ => continue,
        }
    }
    panic!("no seed produced an encounter on exit_hallway arrival in 1000 tries");
}

// ── Party companion tests ──────────────────────────────────────────────────────

#[test]
fn companion_in_battle_queue() {
    let mut session = GameSession::new(false);
    session.in_dialog = false;
    session.pending_dialog = None;
    let GamePhase::Exploration = &session.phase else { return; };
    session.flags.set_flag("companion_orin");
    session.sync_and_recruit_companions();
    session.transition_to_battle();
    // The battle roster holds the party as set up for the battle.
    let roster: Vec<Combatant> = session
        .party
        .iter()
        .enumerate()
        .map(|(i, c)| Combatant {
            entity: Entity::from_bits(i as u64 + 1),
            ap: Some(ActionPoints::new(3)),
            pos: Some((i as i32, 0)),
            health: Some(Health { current: c.current_hp, max: c.stats.max_hp }),
            stats: Some(c.stats),
            last_pos: None,
            last_used: None,
            character: Some((c.kind, c.aggression)),
            first_action: None,
            level: c.level,
            role: if i == 0 { CombatantRole::Player } else { CombatantRole::Companion },
        })
        .collect();
    let mut battle = Battle { combatants: roster, pending: vec![], map: None };
    let step = BattleStep::new(&mut battle);
    assert!(
        step.actor_queue.len() >= 2,
        "should have at least 2 living player entities in battle (researcher + orin)"
    );
}
