use carbonthrone::character::CharacterKind;
use carbonthrone::character::Aggression;
use carbonthrone::game::{adjacent_npc, try_move, DialogTrigger, EndingKind, GamePhase, GameSession, MoveResult, NpcData};
use carbonthrone::terrain::{LevelMap, Tile};
use carbonthrone::save::SaveData;
use carbonthrone::zone::{CardinalDir, ZoneConnections, ZoneKind};

// ── Helpers ───────────────────────────────────────────────────────────────────

fn save_at(loop_number: u32, zone: ZoneKind) -> SaveData {
    SaveData {
        loop_number,
        flags: vec![],
        active_companion: None,
        current_zone: zone,
        party_kinds: vec![CharacterKind::Researcher],
        party_hp: vec![],
        party_levels: vec![],
        fought_scripted_encounters: vec![],
        ending: None,
        battle_snapshot: None,
    }
}

fn save_at_loop5() -> SaveData {
    save_at(5, ZoneKind::ResearchWing)
}

/// Whether the zone rolled a random encounter, varied with the seed.
fn rolled(seed: u64) -> bool {
    seed % 3 == 0
}

/// If the session is in Battle, win it and go back to exploration, clearing the
/// post-battle combat_end dialog.
fn resolve_any_battle(session: &mut GameSession) {
    if matches!(session.phase, GamePhase::Battle) {
        let hp: Vec<i32> = session.party.iter().map(|c| c.current_hp).collect();
        session.transition_to_exploration(&hp);
        session.dismiss_dialog();
    }
}

/// Dismiss pending dialog (no-op if in Battle), then resolve any resulting battle.
fn dismiss_and_resolve(session: &mut GameSession) {
    session.dismiss_dialog();
    resolve_any_battle(session);
}

// ── Each flag triggers the correct EndingKind at loop 5 ───────────────────────

#[test]
fn end_dialog_loop5_orin_helped() {
    for seed in 0..200u64 {
        let mut session = GameSession::from_save_data(save_at_loop5(), rolled(seed));
        dismiss_and_resolve(&mut session);
        if !matches!(session.phase, GamePhase::Exploration) {
            continue;
        }
        session.end_dialog(vec!["orin_helped".to_string()]);
        assert!(
            matches!(session.phase, GamePhase::Ended(EndingKind::SableDestroyed)),
            "orin_helped at loop 5 should produce SableDestroyed"
        );
        return;
    }
    panic!("no usable loop-5 exploration state found in 200 seeds");
}

#[test]
fn end_dialog_loop5_ending_doss() {
    for seed in 0..200u64 {
        let mut session = GameSession::from_save_data(save_at_loop5(), rolled(seed));
        dismiss_and_resolve(&mut session);
        if !matches!(session.phase, GamePhase::Exploration) {
            continue;
        }
        session.end_dialog(vec!["ending_doss".to_string()]);
        assert!(
            matches!(session.phase, GamePhase::Ended(EndingKind::DossPreserved)),
            "ending_doss at loop 5 should produce DossPreserved"
        );
        return;
    }
    panic!("no usable loop-5 exploration state found in 200 seeds");
}

#[test]
fn end_dialog_loop5_ending_kaleo() {
    for seed in 0..200u64 {
        let mut session = GameSession::from_save_data(save_at_loop5(), rolled(seed));
        dismiss_and_resolve(&mut session);
        if !matches!(session.phase, GamePhase::Exploration) {
            continue;
        }
        session.end_dialog(vec!["ending_kaleo".to_string()]);
        assert!(
            matches!(session.phase, GamePhase::Ended(EndingKind::KaleoCompromise)),
            "ending_kaleo at loop 5 should produce KaleoCompromise"
        );
        return;
    }
    panic!("no usable loop-5 exploration state found in 200 seeds");
}

#[test]
fn end_dialog_loop5_orin_stopped() {
    for seed in 0..200u64 {
        let mut session = GameSession::from_save_data(save_at_loop5(), rolled(seed));
        dismiss_and_resolve(&mut session);
        if !matches!(session.phase, GamePhase::Exploration) {
            continue;
        }
        session.end_dialog(vec!["orin_stopped".to_string()]);
        assert!(
            matches!(session.phase, GamePhase::Ended(EndingKind::SableStopped)),
            "orin_stopped at loop 5 (no convergence) should produce SableStopped"
        );
        return;
    }
    panic!("no usable loop-5 exploration state found in 200 seeds");
}

#[test]
fn end_dialog_loop5_orin_stopped_plus_convergence_does_not_end() {
    for seed in 0..200u64 {
        let mut session = GameSession::from_save_data(save_at_loop5(), rolled(seed));
        dismiss_and_resolve(&mut session);
        if !matches!(session.phase, GamePhase::Exploration) {
            continue;
        }
        session.end_dialog(vec![
            "orin_stopped".to_string(),
            "convergence_triggered".to_string(),
        ]);
        assert!(
            !matches!(session.phase, GamePhase::Ended(_)),
            "orin_stopped + convergence_triggered should NOT produce an ending"
        );
        return;
    }
    panic!("no usable loop-5 exploration state found in 200 seeds");
}

#[test]
fn end_dialog_below_loop5_never_ends() {
    // All four ending flags at loop 4 should produce no ending.
    let all_flags = vec![
        "orin_helped".to_string(),
        "ending_doss".to_string(),
        "ending_kaleo".to_string(),
        "orin_stopped".to_string(),
    ];
    for seed in 0..200u64 {
        let mut session = GameSession::from_save_data(save_at(4, ZoneKind::ResearchWing), rolled(seed));
        dismiss_and_resolve(&mut session);
        if !matches!(session.phase, GamePhase::Exploration) {
            continue;
        }
        session.end_dialog(all_flags.clone());
        assert!(
            !matches!(session.phase, GamePhase::Ended(_)),
            "ending flags at loop 4 should NOT produce an ending"
        );
        return;
    }
    panic!("no usable loop-4 exploration state found in 200 seeds");
}

// ── Edge cases ────────────────────────────────────────────────────────────────

#[test]
fn reset_loop_clamps_at_5() {
    let mut session = GameSession::new(false);
    session.loop_number = 5;
    dismiss_and_resolve(&mut session);
    let GamePhase::Exploration = &session.phase else {
        return;
    };
    session.reset_loop(false);
    assert_eq!(session.loop_number, 5, "loop_number should not exceed 5");
}

#[test]
fn reset_loop_increments_correctly() {
    let mut session = GameSession::new(false);
    dismiss_and_resolve(&mut session);
    assert_eq!(session.loop_number, 1);
    for expected in 2u32..=5 {
        let GamePhase::Exploration = &session.phase else {
            break;
        };
        session.reset_loop(expected % 2 == 0);
        assert_eq!(
            session.loop_number, expected,
            "loop_number should be {expected} after reset"
        );
        dismiss_and_resolve(&mut session);
    }
}

// ── Full playthrough tests ────────────────────────────────────────────────────

/// Advance a session from loop 1 through loop 5, applying dismiss_and_resolve at
/// each step. Returns an Exploration-phase session at loop 5.
fn advance_to_loop5(seed: u64) -> GameSession {
    let mut session = GameSession::new(rolled(seed));
    dismiss_and_resolve(&mut session);
    assert_eq!(session.loop_number, 1);

    for target in 2u32..=5 {
        let GamePhase::Exploration = &session.phase else {
            panic!("expected Exploration before reset_loop to loop {target}");
        };
        session.reset_loop(rolled(seed + target as u64));
        assert_eq!(session.loop_number, target);
        dismiss_and_resolve(&mut session);
        assert!(
            matches!(session.phase, GamePhase::Exploration),
            "expected Exploration after dismiss_and_resolve at loop {target}"
        );
    }
    session
}

#[test]
fn full_playthrough_loop1_to_loop5_sable_destroyed() {
    let mut session = advance_to_loop5(12345);
    session.end_dialog(vec!["orin_helped".to_string()]);
    assert!(matches!(session.phase, GamePhase::Ended(EndingKind::SableDestroyed)));
}

#[test]
fn full_playthrough_loop1_to_loop5_doss_preserved() {
    let mut session = advance_to_loop5(99999);
    session.end_dialog(vec!["ending_doss".to_string()]);
    assert!(matches!(session.phase, GamePhase::Ended(EndingKind::DossPreserved)));
}

#[test]
fn full_playthrough_loop1_to_loop5_kaleo_compromise() {
    let mut session = advance_to_loop5(55555);
    session.end_dialog(vec!["ending_kaleo".to_string()]);
    assert!(matches!(session.phase, GamePhase::Ended(EndingKind::KaleoCompromise)));
}

// ── Companions ────────────────────────────────────────────────────────────────

fn session_past_opening() -> GameSession {
    let mut session = GameSession::new(false);
    dismiss_and_resolve(&mut session);
    session
}

#[test]
fn companion_spawned_in_exploration_on_flag() {
    let mut session = session_past_opening();
    let GamePhase::Exploration = &session.phase else { return; };
    session.flags.set_flag("companion_orin");
    session.sync_and_recruit_companions();
    assert!(
        session.party.iter().any(|c| c.kind == CharacterKind::Orin),
        "Orin should be in party vec"
    );
    assert_eq!(session.party.len(), 2);
}

#[test]
fn companion_hp_persists_after_battle() {
    let mut session = session_past_opening();
    let GamePhase::Exploration = &session.phase else { return; };
    session.flags.set_flag("companion_orin");
    session.sync_and_recruit_companions();
    session.transition_to_battle();
    let researcher_hp = session.party[0].current_hp;
    // The companion ends the battle at 5 HP.
    session.transition_to_exploration(&vec![researcher_hp, 5]);
    assert_eq!(
        session.party[1].current_hp, 5,
        "companion HP should be synced back to party vec after battle"
    );
}

#[test]
fn dead_companion_revived_at_1_hp() {
    let mut session = session_past_opening();
    let GamePhase::Exploration = &session.phase else { return; };
    session.flags.set_flag("companion_orin");
    session.sync_and_recruit_companions();
    session.transition_to_battle();
    let researcher_hp = session.party[0].current_hp;
    // The companion is killed in the battle.
    session.transition_to_exploration(&vec![researcher_hp, 0]);
    assert_eq!(
        session.party[1].current_hp, 1,
        "dead companion should be revived at 1 HP after battle"
    );
}

// ── Further cases ─────────────────────────────────────────────────────────────

#[test]
fn new_game_waits_for_tutorial_battle_behind_opening_scene() {
    let session = GameSession::new(false);
    assert_eq!(session.phase, GamePhase::Exploration);
    assert!(session.in_dialog);
    assert_eq!(session.pending_dialog, Some(DialogTrigger::Enter));
    // The tutorial encounter is scripted for the Research Wing in loop 1.
    assert!(session.pending_battle);
    let mut session = session;
    session.dismiss_dialog();
    assert_eq!(session.phase, GamePhase::Battle);
    assert!(!session.pending_battle);
}

#[test]
fn tutorial_counts_as_fought_after_battle() {
    let mut session = GameSession::new(false);
    session.dismiss_dialog();
    let hp: Vec<i32> = session.party.iter().map(|c| c.current_hp).collect();
    session.transition_to_exploration(&hp);
    assert!(session.fought_scripted_encounters.is_flag_set("tutorial_opening"));
    assert_eq!(session.pending_dialog, Some(DialogTrigger::CombatEnd));
    assert!(session.in_dialog);
}

#[test]
fn end_dialog_recruits_and_derives_companion() {
    let mut session = session_past_opening();
    session.end_dialog(vec!["companion_doss".to_string(), "kaleo_recruited".to_string()]);
    assert_eq!(session.active_companion.as_deref(), Some("doss"));
    let kinds: Vec<CharacterKind> = session.party.iter().map(|c| c.kind).collect();
    assert_eq!(kinds, vec![CharacterKind::Researcher, CharacterKind::Doss, CharacterKind::Kaleo]);
    assert_eq!(session.party[1].level, session.party[0].level);
    // A second dialog with the same flags recruits nobody twice.
    session.end_dialog(vec!["companion_doss".to_string()]);
    assert_eq!(session.party.len(), 3);
}

#[test]
fn ended_game_ignores_further_calls() {
    let mut session = GameSession::from_save_data(save_at_loop5(), false);
    session.dismiss_dialog();
    session.end_dialog(vec!["ending_doss".to_string()]);
    assert_eq!(session.phase, GamePhase::Ended(EndingKind::DossPreserved));
    session.reset_loop(true);
    session.end_dialog(vec!["ending_kaleo".to_string()]);
    session.dismiss_dialog();
    assert_eq!(session.phase, GamePhase::Ended(EndingKind::DossPreserved));
    assert_eq!(session.loop_number, 5);
}

#[test]
fn goto_loop_clamps_target() {
    let mut session = session_past_opening();
    session.goto_loop(9, false);
    assert_eq!(session.loop_number, 5);
    session.goto_loop(0, false);
    assert_eq!(session.loop_number, 1);
}

#[test]
fn reset_loop_heals_party() {
    let mut session = session_past_opening();
    let max = session.party[0].stats.max_hp;
    session.party[0].current_hp = 3;
    session.reset_loop(false);
    assert_eq!(session.party[0].current_hp, max);
    assert_eq!(session.zone, ZoneKind::ResearchWing);
}

#[test]
fn save_round_trip_keeps_session() {
    let mut session = session_past_opening();
    session.end_dialog(vec!["companion_orin".to_string(), "loop1_opened".to_string()]);
    session.party[1].current_hp = 7;
    let data = session.to_save_data(None);
    assert_eq!(data.flags, vec!["companion_orin".to_string(), "loop1_opened".to_string()]);
    assert_eq!(data.party_hp[1], 7);
    assert_eq!(data.fought_scripted_encounters, vec!["tutorial_opening".to_string()]);
    let back = GameSession::from_save_data(data, false);
    assert_eq!(back.loop_number, session.loop_number);
    assert_eq!(back.flags.export_flags(), session.flags.export_flags());
    assert_eq!(back.active_companion, session.active_companion);
    assert_eq!(back.party.len(), 2);
    assert_eq!(back.party[1].kind, CharacterKind::Orin);
    assert_eq!(back.party[1].current_hp, 7);
    assert_eq!(back.phase, GamePhase::Exploration);
    // The tutorial was fought, so nothing waits in the Research Wing.
    assert!(!back.pending_battle);
}

#[test]
fn ended_save_keeps_only_the_ending() {
    let mut data = save_at_loop5();
    data.ending = Some(EndingKind::SableStopped);
    let session = GameSession::from_save_data(data, true);
    assert_eq!(session.phase, GamePhase::Ended(EndingKind::SableStopped));
    let saved = session.to_save_data(None);
    assert_eq!(saved.ending, Some(EndingKind::SableStopped));
    assert_eq!(saved.party_kinds, vec![CharacterKind::Researcher]);
    assert!(saved.flags.is_empty());
}

#[test]
fn unsaved_hit_points_restore_full() {
    let mut data = save_at(2, ZoneKind::MedicalBay);
    data.party_kinds = vec![CharacterKind::Researcher, CharacterKind::Doss];
    data.party_hp = vec![i32::MAX, 4];
    data.party_levels = vec![3];
    let session = GameSession::from_save_data(data, false);
    assert_eq!(session.party[0].current_hp, session.party[0].stats.max_hp);
    assert_eq!(session.party[0].level, 3);
    assert_eq!(session.party[1].current_hp, 4);
    assert_eq!(session.party[1].level, 1);
    assert_eq!(session.zone, ZoneKind::MedicalBay);
}

#[test]
fn archon_encounter_waits_in_military_annex_from_loop_4() {
    let session = GameSession::from_save_data(save_at(4, ZoneKind::MilitaryAnnex), false);
    assert!(session.pending_battle);
    let session = GameSession::from_save_data(save_at(3, ZoneKind::MilitaryAnnex), false);
    assert!(!session.pending_battle);
}

// ── Travel ────────────────────────────────────────────────────────────────────

fn doors() -> ZoneConnections {
    ZoneConnections { north: None, south: Some(ZoneKind::MedicalBay), east: Some(ZoneKind::CommandDeck), west: None }
}

fn explored() -> GameSession {
    let mut session = session_past_opening();
    session.dismiss_dialog();
    assert_eq!(session.phase, GamePhase::Exploration);
    session
}

#[test]
fn stepping_on_a_door_enters_a_hallway_toward_its_zone() {
    let mut session = explored();
    let r = session.move_player(true, Some(CardinalDir::East), doors(), false, false);
    assert_eq!(r, MoveResult::EnteredHallway);
    assert_eq!(session.zone, ZoneKind::Hallway);
    let travel = session.travel.unwrap();
    assert_eq!(travel.origin, ZoneKind::ResearchWing);
    assert_eq!(travel.destination, ZoneKind::CommandDeck);
    assert_eq!(travel.travel_dir, CardinalDir::East);
}

#[test]
fn hallway_exit_arrives_or_continues() {
    let mut session = explored();
    session.move_player(true, Some(CardinalDir::South), doors(), false, false);
    let hallway = doors();
    let r = session.move_player(true, Some(CardinalDir::South), hallway, false, false);
    assert_eq!(r, MoveResult::ContinuedHallway);
    assert_eq!(session.travel.unwrap().hallways_traversed, 1);
    let r = session.move_player(true, Some(CardinalDir::South), hallway, true, false);
    assert_eq!(r, MoveResult::ArrivedAtDestination);
    assert_eq!(session.zone, ZoneKind::MedicalBay);
    assert!(session.travel.is_none());
    assert!(session.in_dialog);
    assert_eq!(session.pending_dialog, Some(DialogTrigger::Enter));
}

#[test]
fn other_hallway_door_turns_back() {
    let mut session = explored();
    session.move_player(true, Some(CardinalDir::East), doors(), false, false);
    let r = session.move_player(true, Some(CardinalDir::West), doors(), true, false);
    assert_eq!(r, MoveResult::Backtracked);
    assert_eq!(session.zone, ZoneKind::ResearchWing);
    assert!(session.travel.is_none());
}

#[test]
fn blocked_or_plain_steps_change_nothing() {
    let mut session = explored();
    assert_eq!(session.move_player(false, Some(CardinalDir::East), doors(), false, false), MoveResult::Blocked);
    assert_eq!(session.move_player(true, None, doors(), false, false), MoveResult::Moved);
    assert_eq!(session.move_player(true, Some(CardinalDir::North), doors(), false, false), MoveResult::Moved);
    assert_eq!(session.zone, ZoneKind::ResearchWing);
    assert!(session.travel.is_none());
}

#[test]
fn unknown_destination_travels_south() {
    let mut session = explored();
    assert_eq!(session.initiate_travel(ZoneKind::RelayArray, doors()), Some(CardinalDir::South));
    // Already travelling: nothing changes.
    assert_eq!(session.initiate_travel(ZoneKind::CommandDeck, doors()), None);
    assert_eq!(session.travel.unwrap().destination, ZoneKind::RelayArray);
}

// ── Walking around ────────────────────────────────────────────────────────────

fn npc(pos: (i32, i32)) -> NpcData {
    NpcData { pos, name: "Orin", glyph: 'O', kind: CharacterKind::Orin, aggression: Aggression::Friendly }
}

#[test]
fn adjacent_npc_is_one_step_away() {
    let npcs = vec![npc((5, 5)), npc((3, 2)), npc((2, 3))];
    assert_eq!(adjacent_npc(&npcs, (2, 2)), Some(1));
    assert_eq!(adjacent_npc(&npcs, (9, 9)), None);
    // Diagonal neighbours do not count.
    assert_eq!(adjacent_npc(&vec![npc((3, 3))], (2, 2)), None);
}

#[test]
fn try_move_clamps_and_blocks() {
    let mut map = LevelMap::new(5, 5, ZoneKind::ResearchWing);
    map.set(2, 1, Tile::Obstacle);
    let npcs = vec![npc((3, 2))];
    let doors = vec![((4, 2), CardinalDir::East)];
    // Clamped at the edge.
    assert_eq!(try_move(&map, &npcs, &doors, false, (0, 0), -1, 0, 5, 5), Some(((0, 0), None)));
    // Obstacle and NPC block.
    assert_eq!(try_move(&map, &npcs, &doors, false, (2, 2), 0, -1, 5, 5), None);
    assert_eq!(try_move(&map, &npcs, &doors, false, (2, 2), 1, 0, 5, 5), None);
    // A dialog blocks every step.
    assert_eq!(try_move(&map, &npcs, &doors, true, (2, 3), 1, 0, 5, 5), None);
    // Stepping on a door reports it.
    assert_eq!(try_move(&map, &npcs, &doors, false, (4, 3), 0, -1, 5, 5), Some(((4, 2), Some(CardinalDir::East))));
}

#[test]
fn restart_after_defeat_keeps_the_loop() {
    let mut session = GameSession::from_save_data(save_at(3, ZoneKind::MedicalBay), false);
    session.dismiss_dialog();
    session.transition_to_battle();
    assert_eq!(session.phase, GamePhase::Battle);
    session.party[0].current_hp = 0;
    session.restart_current_loop(false);
    assert_eq!(session.phase, GamePhase::Exploration);
    assert_eq!(session.loop_number, 3);
    assert_eq!(session.zone, ZoneKind::ResearchWing);
    assert_eq!(session.party[0].current_hp, session.party[0].stats.max_hp);
    assert!(session.in_dialog);
}
