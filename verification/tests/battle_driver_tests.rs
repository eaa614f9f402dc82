use carbonthrone::ai::{SideInput, SideRequest, SideTurn};
use carbonthrone::player_input::PlayerActionChoice;
use carbonthrone::save::build_battle_snapshot;
use carbonthrone::save::CombatantRole;
use carbonthrone::ability::{Ability, AbilityEffect, AbilityKind, Action, Battle, Combatant, Health};
use carbonthrone::action_points::ActionPoints;
use carbonthrone::ai::{
    choose_action, choose_offensive_ability_action, choose_scripted_action, min_offensive_ap_cost, seek_cover_action,
};
use carbonthrone::scripted_encounter::ScriptedFirstAction;
use carbonthrone::character::{Aggression, CharacterKind};
use carbonthrone::combat::{check_outcome, side_queue, BattleOutcome, BattleStep, StepEvent, Turn, MAX_ROUNDS};
use carbonthrone::entity::Entity;
use carbonthrone::stats::Stats;
use carbonthrone::terrain::{LevelMap, Tile};
use carbonthrone::zone::ZoneKind;

fn unit(id: u64, kind: CharacterKind, aggression: Aggression, speed: i32, hp: i32, pos: (i32, i32)) -> Combatant {
    Combatant {
        entity: Entity::from_bits(id),
        ap: Some(ActionPoints { current: 0, max: 3 }),
        pos: Some(pos),
        health: Some(Health { current: hp, max: 30 }),
        stats: Some(Stats { max_hp: 30, attack: 10, defense: 4, speed }),
        last_pos: None,
        last_used: None,
        character: Some((kind, aggression)),
        first_action: None,
        level: 1,
        role: CombatantRole::Enemy,
    }
}

fn hero(id: u64, speed: i32, pos: (i32, i32)) -> Combatant {
    unit(id, CharacterKind::Researcher, Aggression::Friendly, speed, 30, pos)
}

fn foe(id: u64, speed: i32, pos: (i32, i32)) -> Combatant {
    unit(id, CharacterKind::Zealot, Aggression::Aggressive, speed, 20, pos)
}

fn battle(cs: Vec<Combatant>) -> Battle {
    Battle { combatants: cs, pending: vec![], map: None }
}

fn strike() -> Ability {
    Ability { name: "Strike", ap_cost: 1, kind: AbilityKind::Melee, effect: AbilityEffect::BonusDamage { bonus: 0 } }
}

fn shot() -> Ability {
    Ability { name: "Shot", ap_cost: 2, kind: AbilityKind::Ranged, effect: AbilityEffect::BonusDamage { bonus: 2 } }
}

#[test]
fn outcome_is_victory_without_living_enemies() {
    let mut dead = foe(2, 5, (3, 3));
    dead.health = Some(Health { current: 0, max: 20 });
    assert_eq!(check_outcome(&vec![hero(1, 5, (0, 0)), dead]), Some(BattleOutcome::PlayerVictory));
    assert_eq!(check_outcome(&vec![hero(1, 5, (0, 0))]), Some(BattleOutcome::PlayerVictory));
    let mut fallen = hero(1, 5, (0, 0));
    fallen.health = Some(Health { current: 0, max: 30 });
    assert_eq!(check_outcome(&vec![fallen, foe(2, 5, (3, 3))]), Some(BattleOutcome::PlayerDefeated));
    assert_eq!(check_outcome(&vec![hero(1, 5, (0, 0)), foe(2, 5, (3, 3))]), None);
}

#[test]
fn faster_side_members_queue_first() {
    let cs = vec![hero(1, 4, (0, 0)), foe(2, 9, (5, 5)), hero(3, 8, (1, 0)), hero(4, 8, (2, 0))];
    assert_eq!(side_queue(&cs, Turn::Player), vec![2, 3, 0]);
    assert_eq!(side_queue(&cs, Turn::Enemy), vec![1]);
}

#[test]
fn new_battle_queues_players_and_refills_their_ap() {
    let mut b = battle(vec![hero(1, 4, (0, 0)), foe(2, 9, (5, 5)), hero(3, 8, (1, 0))]);
    let step = BattleStep::new(&mut b);
    assert_eq!(step.round, 1);
    assert_eq!(step.turn, Turn::Player);
    assert_eq!(step.actor_queue, vec![Entity::from_bits(3), Entity::from_bits(1)]);
    assert_eq!(b.combatants[0].ap.unwrap().current, 3);
    assert_eq!(b.combatants[2].ap.unwrap().current, 3);
    // Enemies wait for their own turn.
    assert_eq!(b.combatants[1].ap.unwrap().current, 0);
}

#[test]
fn step_hands_turns_out_then_switches_sides_and_rounds() {
    let mut b = battle(vec![hero(1, 4, (0, 0)), foe(2, 9, (5, 5))]);
    let mut step = BattleStep::new(&mut b);
    assert!(matches!(step.step(&mut b), StepEvent::Act(e) if e == Entity::from_bits(1)));
    assert!(matches!(step.step(&mut b), StepEvent::SideChanged));
    assert_eq!(step.turn, Turn::Enemy);
    assert_eq!(b.combatants[1].ap.unwrap().current, 3);
    assert!(matches!(step.step(&mut b), StepEvent::Act(e) if e == Entity::from_bits(2)));
    assert!(matches!(step.step(&mut b), StepEvent::SideChanged));
    assert_eq!(step.turn, Turn::Player);
    assert_eq!(step.round, 2);
}

#[test]
fn step_reports_a_decided_battle() {
    let mut b = battle(vec![hero(1, 4, (0, 0))]);
    let mut step = BattleStep::new(&mut b);
    assert!(matches!(step.step(&mut b), StepEvent::Finished(BattleOutcome::PlayerVictory)));
}

#[test]
fn battle_is_a_draw_past_the_round_cap() {
    let mut b = battle(vec![hero(1, 4, (0, 0)), foe(2, 9, (5, 5))]);
    let mut step = BattleStep::restore(MAX_ROUNDS, Turn::Enemy, vec![]);
    assert!(matches!(step.step(&mut b), StepEvent::Finished(BattleOutcome::Draw)));
    assert_eq!(step.round, MAX_ROUNDS + 1);
}

#[test]
fn cheapest_attack_cost_defaults_to_two() {
    assert_eq!(min_offensive_ap_cost(&vec![]), 2);
    assert_eq!(min_offensive_ap_cost(&vec![shot(), strike()]), 1);
}

#[test]
fn ai_passes_without_ap() {
    let mut b = battle(vec![foe(2, 9, (1, 1)), hero(1, 4, (0, 0))]);
    assert!(matches!(choose_action(&mut b, 0, Turn::Enemy, &vec![strike()], None), Some(Action::Pass)));
}

#[test]
fn ai_strikes_adjacent_opponent_without_map() {
    let mut b = battle(vec![foe(2, 9, (1, 1)), hero(1, 4, (5, 5)), hero(3, 4, (0, 0))]);
    b.combatants[0].ap = Some(ActionPoints::new(3));
    match choose_action(&mut b, 0, Turn::Enemy, &vec![strike()], None) {
        Some(Action::UseAbility { ability, target }) => {
            assert_eq!(ability.name, "Strike");
            assert_eq!(target, Some(2));
        }
        other => panic!("expected a strike, got {:?}", other),
    }
}

#[test]
fn ai_prefers_ranged_target_when_given() {
    let mut b = battle(vec![foe(2, 9, (1, 1)), hero(1, 4, (0, 0))]);
    b.combatants[0].ap = Some(ActionPoints::new(3));
    let act = choose_offensive_ability_action(&b, 0, Turn::Enemy, 3, &vec![strike(), shot()], Some(1));
    assert!(matches!(act, Some(Action::UseAbility { ability, target: Some(1) }) if ability.name == "Shot"));
}

#[test]
fn ai_seeks_full_cover_keeping_ap_to_attack() {
    let mut map = LevelMap::new(10, 10, ZoneKind::ResearchWing);
    map.set(4, 3, Tile::Obstacle);
    map.recompute_cover();
    let mut b = Battle { combatants: vec![hero(1, 4, (2, 2)), foe(2, 9, (2, 6))], pending: vec![], map: Some(map) };
    b.combatants[0].ap = Some(ActionPoints::new(3));
    // Full cover at (4, 2) costs 2 AP, leaving 1 for a strike.
    assert!(matches!(
        seek_cover_action(&b, 0, Turn::Player, 3, 1),
        Some(Action::Move { destination: (4, 2) })
    ));
    // With a 2-AP attack to keep, the 1-AP partial cover at (3, 2) is taken instead.
    assert!(matches!(
        seek_cover_action(&b, 0, Turn::Player, 3, 2),
        Some(Action::Move { destination: (3, 2) })
    ));
    // A tile another combatant stands on is skipped.
    b.combatants.push(hero(3, 1, (4, 2)));
    assert!(matches!(
        seek_cover_action(&b, 0, Turn::Player, 3, 1),
        Some(Action::Move { destination: (3, 2) })
    ));
}

#[test]
fn scripted_opening_is_taken_once() {
    let heal = Ability { name: "Heal", ap_cost: 2, kind: AbilityKind::Utility, effect: AbilityEffect::Heal { amount: 5 } };
    let mut b = battle(vec![hero(1, 4, (0, 0)), foe(2, 9, (6, 6))]);
    b.combatants[0].ap = Some(ActionPoints::new(3));
    b.combatants[0].first_action = Some(ScriptedFirstAction { ability_name: "Heal", executed: false });
    let act = choose_action(&mut b, 0, Turn::Player, &vec![strike(), heal], None);
    assert!(matches!(act, Some(Action::UseAbility { ability, target: None }) if ability.name == "Heal"));
    assert!(b.combatants[0].first_action.unwrap().executed);
    // Taken already: the normal tactics apply (nothing adjacent, no map: pass).
    let act = choose_action(&mut b, 0, Turn::Player, &vec![strike(), heal], None);
    assert!(matches!(act, Some(Action::Pass)));
}

#[test]
fn scripted_melee_opening_waits_for_a_target() {
    let mut b = battle(vec![foe(2, 9, (0, 0)), hero(1, 4, (5, 5))]);
    b.combatants[0].first_action = Some(ScriptedFirstAction { ability_name: "Strike", executed: false });
    assert!(choose_scripted_action(&mut b, 0, Turn::Enemy, &vec![strike()], None).is_none());
    assert!(!b.combatants[0].first_action.unwrap().executed);
    b.combatants[1].pos = Some((1, 0));
    let act = choose_scripted_action(&mut b, 0, Turn::Enemy, &vec![strike()], None);
    assert!(matches!(act, Some(Action::UseAbility { target: Some(1), .. })));
    assert!(b.combatants[0].first_action.unwrap().executed);
}

#[test]
fn snapshot_records_party_first_and_queue_as_positions() {
    let mut enemy = foe(7, 9, (5, 5));
    enemy.first_action = Some(ScriptedFirstAction { ability_name: "Zealot Strike", executed: false });
    let mut player = hero(1, 4, (0, 0));
    player.role = CombatantRole::Player;
    player.first_action = Some(ScriptedFirstAction { ability_name: "Heal", executed: true });
    let mut companion = unit(3, CharacterKind::Orin, Aggression::Friendly, 6, 12, (1, 0));
    companion.role = CombatantRole::Companion;
    let mut ally = unit(9, CharacterKind::Doss, Aggression::Friendly, 5, 20, (2, 0));
    ally.role = CombatantRole::ScriptedAlly;
    let mut ghost = foe(11, 1, (8, 8));
    ghost.pos = None;
    let b = battle(vec![enemy, player, ghost, companion, ally]);
    let step = BattleStep::restore(
        4,
        Turn::Player,
        vec![Entity::from_bits(3), Entity::from_bits(11), Entity::from_bits(1)],
    );
    let snap = build_battle_snapshot(&b, &step, ZoneKind::MedicalBay, 12, 8);
    let roles: Vec<CombatantRole> = snap.combatants.iter().map(|c| c.role).collect();
    assert_eq!(
        roles,
        vec![CombatantRole::Player, CombatantRole::Companion, CombatantRole::Enemy, CombatantRole::ScriptedAlly]
    );
    assert_eq!(snap.combatants[1].current_hp, 12);
    assert_eq!(snap.combatants[1].x, 1);
    // Only non-party roles carry their scripted opening.
    assert_eq!(snap.combatants[0].scripted_first_action_name, None);
    assert_eq!(snap.combatants[2].scripted_first_action_name.as_deref(), Some("Zealot Strike"));
    // The unplaced combatant is not recorded, so it drops out of the queue.
    assert_eq!(snap.actor_queue, vec![1, 0]);
    assert_eq!(snap.round, 4);
    assert_eq!((snap.map_cols, snap.map_rows, snap.zone_kind), (12, 8, ZoneKind::MedicalBay));
    assert!(snap.map_tiles.is_empty());
}

#[test]
fn snapshot_keeps_only_non_open_tiles() {
    let mut map = LevelMap::new(6, 6, ZoneKind::DockingBay);
    map.set(1, 1, Tile::Obstacle);
    map.set(2, 2, Tile::Open);
    let b = Battle { combatants: vec![], pending: vec![], map: Some(map) };
    let snap = build_battle_snapshot(&b, &BattleStep::restore(1, Turn::Enemy, vec![]), ZoneKind::ResearchWing, 1, 1);
    assert_eq!(snap.map_tiles, vec![((1, 1), Tile::Obstacle)]);
    assert_eq!((snap.map_cols, snap.map_rows, snap.zone_kind), (6, 6, ZoneKind::DockingBay));
}

#[test]
fn player_action_spends_ap_and_hands_over_to_enemies() {
    let mut b = battle(vec![hero(1, 4, (0, 0)), foe(2, 9, (1, 0))]);
    let mut step = BattleStep::new(&mut b);
    let choice = PlayerActionChoice::UseAbility { ability: strike(), target: Some(1), damage: Some(8), cover: None };
    let r = step.step_player_action(&mut b, &choice, true);
    assert_eq!(r.actor, Some(Entity::from_bits(1)));
    assert!(r.action.is_some());
    assert!(!r.turn_ended);
    assert_eq!(b.combatants[0].ap.unwrap().current, 2);
    assert_eq!(b.combatants[1].health.unwrap().current, 12);
    // Passing ends the turn; with no player left the enemies' turn opens.
    let r = step.step_player_action(&mut b, &PlayerActionChoice::Pass, true);
    assert!(r.turn_ended);
    assert_eq!(step.turn, Turn::Enemy);
    assert_eq!(step.actor_queue, vec![Entity::from_bits(2)]);
    assert_eq!(b.combatants[1].ap.unwrap().current, 3);
    assert_eq!(r.outcome, None);
}

#[test]
fn player_choices_only_on_the_player_turn() {
    let mut b = battle(vec![hero(1, 4, (0, 0)), foe(2, 9, (1, 0))]);
    let mut step = BattleStep::new(&mut b);
    let choices = step.player_choices(&b, &vec![strike()]);
    assert_eq!(choices.len(), 2);
    assert!(matches!(choices[0], PlayerActionChoice::UseAbility { target: Some(1), .. }));
    assert!(matches!(choices[1], PlayerActionChoice::Pass));
    step.step_player_action(&mut b, &PlayerActionChoice::Pass, false);
    assert!(step.player_choices(&b, &vec![strike()]).is_empty());
}

#[test]
fn side_turn_acts_until_pass() {
    let mut b = battle(vec![hero(1, 4, (0, 0)), foe(2, 9, (1, 0))]);
    let mut side = SideTurn::open(&mut b, Turn::Player, 1);
    assert_eq!(side.queue, vec![0]);
    assert_eq!(b.combatants[0].ap.unwrap().current, 3);
    let mut req = SideRequest::Target { actor: 0 };
    let mut strikes = 0;
    loop {
        let input = match req {
            SideRequest::Done => break,
            SideRequest::Target { .. } => SideInput::Target(None),
            SideRequest::Roll { actor, target } => {
                assert_eq!((actor, target), (0, Some(1)));
                strikes += 1;
                SideInput::Hit(true)
            }
        };
        req = side.step(&mut b, &vec![strike()], input);
    }
    // Three 1-AP strikes of 8 damage each: 20 → 0 after the third would be 0 (floored).
    assert_eq!(strikes, 3);
    assert_eq!(b.combatants[0].ap.unwrap().current, 0);
    assert_eq!(b.combatants[1].health.unwrap().current, 0);
    assert!(side.queue.is_empty());
}
