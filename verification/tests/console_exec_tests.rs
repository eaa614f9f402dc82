use carbonthrone::ability::{Combatant, Health};
use carbonthrone::action_points::ActionPoints;
use carbonthrone::character::{Aggression, CharacterKind};
use carbonthrone::console::{defeat_all_enemies, execute_command, parse_command, ConsoleCommand};
use carbonthrone::entity::Entity;
use carbonthrone::game::{GamePhase, GameSession};
use carbonthrone::save::CombatantRole;

fn fighter(id: u64, kind: CharacterKind, aggression: Aggression) -> Combatant {
    Combatant {
        entity: Entity::from_bits(id),
        ap: Some(ActionPoints::new(3)),
        pos: Some((id as i32, 0)),
        health: Some(Health { current: 10, max: 10 }),
        stats: None,
        last_pos: None,
        last_used: None,
        character: Some((kind, aggression)),
        first_action: None,
        level: 1,
        role: CombatantRole::Enemy,
    }
}

fn exploring() -> GameSession {
    let mut s = GameSession::new(false);
    s.in_dialog = false;
    s.pending_dialog = None;
    s
}

#[test]
fn kill_defeats_only_hostile_characters() {
    let mut roster = vec![
        fighter(1, CharacterKind::Researcher, Aggression::Friendly),
        fighter(2, CharacterKind::Zealot, Aggression::Aggressive),
        fighter(3, CharacterKind::Zealot, Aggression::Friendly),
    ];
    let mut s = exploring();
    let out = execute_command(ConsoleCommand::DefeatEnemies, &mut s, &mut roster, false);
    assert_eq!(out, "All enemies defeated.");
    assert_eq!(roster[0].health.unwrap().current, 10);
    assert_eq!(roster[1].health.unwrap().current, 0);
    assert_eq!(roster[2].health.unwrap().current, 10);
    let mut again = roster.clone();
    defeat_all_enemies(&mut again);
    assert_eq!(again[1].health.unwrap().current, 0);
}

#[test]
fn loop_command_clamps_and_restarts() {
    let mut s = exploring();
    let out = execute_command(ConsoleCommand::SetLoop(9), &mut s, &mut vec![], false);
    assert_eq!(out, "Jumped to loop 5.");
    assert_eq!(s.loop_number, 5);
    let out = execute_command(parse_command("loop 0"), &mut s, &mut vec![], false);
    assert_eq!(out, "Jumped to loop 1.");
    assert_eq!(s.loop_number, 1);
}

#[test]
fn flag_commands_set_list_and_clear() {
    let mut s = exploring();
    assert_eq!(execute_command(ConsoleCommand::FlagList, &mut s, &mut vec![], false), "No flags set.");
    assert_eq!(execute_command(parse_command("flag set zeta"), &mut s, &mut vec![], false), "Flag set: zeta");
    execute_command(parse_command("flag set alpha"), &mut s, &mut vec![], false);
    assert_eq!(execute_command(ConsoleCommand::FlagList, &mut s, &mut vec![], false), "alpha zeta");
    assert_eq!(execute_command(parse_command("flag clear zeta"), &mut s, &mut vec![], false), "Flag cleared: zeta");
    assert_eq!(execute_command(parse_command("flag clear zeta"), &mut s, &mut vec![], false), "Flag not set: zeta");
    assert!(!s.flags.is_flag_set("zeta"));
    assert!(s.flags.is_flag_set("alpha"));
}

#[test]
fn flag_and_companion_commands_need_exploration() {
    let mut s = exploring();
    s.transition_to_battle();
    assert_eq!(s.phase, GamePhase::Battle);
    let out = execute_command(parse_command("flag set x"), &mut s, &mut vec![], false);
    assert_eq!(out, "Not in exploration.");
    let out = execute_command(parse_command("companion doss"), &mut s, &mut vec![], false);
    assert_eq!(out, "Not in exploration.");
    assert!(s.active_companion.is_none());
}

#[test]
fn companion_command_sets_and_clears() {
    let mut s = exploring();
    assert_eq!(execute_command(parse_command("companion kaleo"), &mut s, &mut vec![], false), "Companion set to: kaleo");
    assert_eq!(s.active_companion.as_deref(), Some("kaleo"));
    assert_eq!(execute_command(parse_command("companion none"), &mut s, &mut vec![], false), "Companion cleared.");
    assert!(s.active_companion.is_none());
}

#[test]
fn help_and_unknown_replies() {
    let mut s = exploring();
    assert!(execute_command(ConsoleCommand::Help, &mut s, &mut vec![], false).starts_with("Commands: help, kill"));
    assert_eq!(
        execute_command(parse_command("dance"), &mut s, &mut vec![], false),
        "Unknown command: dance, use 'help' for a list of commands."
    );
}
