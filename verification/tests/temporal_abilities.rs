use carbonthrone::save::CombatantRole;
use carbonthrone::ability::{
    apply_action, Ability, AbilityEffect, AbilityKind, Action, Battle, Combatant, Health, TurnAction,
};
use carbonthrone::action_points::ActionPoints;
use carbonthrone::entity::Entity;
use carbonthrone::pending_effects::PendingEffect;
use carbonthrone::stats::Stats;

fn stats(attack: i32, defense: i32) -> Stats {
    Stats { max_hp: 100, attack, defense, speed: 8 }
}

fn combatant(id: u64, stats: Option<Stats>, ap: Option<i32>, hp: Option<i32>, pos: Option<(i32, i32)>) -> Combatant {
    Combatant {
        entity: Entity::from_bits(id),
        ap: ap.map(ActionPoints::new),
        pos,
        health: hp.map(|h| Health { current: h, max: h }),
        stats,
        last_pos: None,
        last_used: None,
        character: None,
        first_action: None,
        level: 1,
        role: CombatantRole::Enemy,
    }
}

fn battle(cs: Vec<Combatant>) -> Battle {
    Battle { combatants: cs, pending: vec![], map: None }
}

fn ability(name: &'static str, ap_cost: i32, kind: AbilityKind, effect: AbilityEffect) -> Ability {
    Ability { name, ap_cost, kind, effect }
}

fn recall() -> Ability {
    ability("Temporal Recall", 2, AbilityKind::RangedAny, AbilityEffect::TemporalRecall)
}

fn entropic() -> Ability {
    ability("Entropic Rounds", 3, AbilityKind::Ranged, AbilityEffect::EntropicRounds)
}

#[test]
fn temporal_recall_fails_if_target_has_not_moved() {
    let mut b = battle(vec![
        combatant(1, Some(stats(10, 5)), Some(4), None, Some((0, 0))),
        combatant(2, Some(stats(5, 2)), None, Some(50), Some((5, 5))),
    ]);
    let result = apply_action(&mut b, 0, &Action::UseAbility { ability: recall(), target: Some(1) }, true, 0);
    assert!(result.is_none(), "recall should fail when target has not moved");
    assert_eq!(b.combatants[0].ap.unwrap().current, 4);
}

#[test]
fn temporal_recall_snaps_target_back() {
    let mut target = combatant(2, Some(stats(5, 2)), None, Some(50), Some((5, 5)));
    target.last_pos = Some((2, 2));
    let mut b = battle(vec![combatant(1, Some(stats(10, 5)), Some(4), None, Some((0, 0))), target]);
    let result = apply_action(&mut b, 0, &Action::UseAbility { ability: recall(), target: Some(1) }, true, 0);
    assert!(result.is_some(), "recall should succeed");
    assert_eq!(b.combatants[1].pos, Some((2, 2)), "target should be recalled to (2,2)");
    assert!(b.combatants[1].last_pos.is_none(), "LastPosition should be cleared after recall");
}

#[test]
fn entropic_rounds_always_hits() {
    let mut b = battle(vec![
        combatant(1, Some(stats(15, 5)), Some(4), None, Some((0, 0))),
        combatant(2, Some(stats(5, 20)), None, Some(100), Some((5, 5))),
    ]);
    let result = apply_action(&mut b, 0, &Action::UseAbility { ability: entropic(), target: Some(1) }, false, 0);
    match result.unwrap() {
        TurnAction::UseAbility { hit, value, .. } => {
            assert!(hit, "Entropic Rounds should always hit");
            assert_eq!(value, 15, "Entropic Rounds should deal raw attack damage (15)");
        }
        _ => panic!("expected UseAbility result"),
    }
    assert_eq!(b.combatants[1].health.unwrap().current, 85);
}

#[test]
fn entropic_rounds_ignores_defense() {
    let mut low = battle(vec![
        combatant(1, Some(stats(20, 5)), Some(4), None, None),
        combatant(2, Some(stats(5, 0)), None, Some(100), None),
    ]);
    let mut high = battle(vec![
        combatant(1, Some(stats(20, 5)), Some(4), None, None),
        combatant(2, Some(stats(5, 50)), None, Some(100), None),
    ]);
    apply_action(&mut low, 0, &Action::UseAbility { ability: entropic(), target: Some(1) }, true, 0);
    apply_action(&mut high, 0, &Action::UseAbility { ability: entropic(), target: Some(1) }, true, 0);
    assert_eq!(
        low.combatants[1].health.unwrap().current,
        high.combatants[1].health.unwrap().current,
        "Entropic Rounds should deal same damage regardless of defense"
    );
}

#[test]
fn acceleration_grants_bonus_ap() {
    let accel = ability("Acceleration", 2, AbilityKind::Utility, AbilityEffect::Acceleration { bonus_ap: 3, drain_ap_next: 4 });
    let mut b = battle(vec![combatant(1, Some(stats(10, 5)), Some(5), None, None)]);
    let result = apply_action(&mut b, 0, &Action::UseAbility { ability: accel, target: None }, true, 1);
    assert!(result.is_some(), "Acceleration should succeed");
    assert_eq!(b.combatants[0].ap.unwrap().current, 6, "AP should be 6 after Acceleration (5 - 2 + 3)");
    assert_eq!(b.pending.len(), 1, "should have one pending drain effect");
    match b.pending[0] {
        PendingEffect::DrainAP { amount, resolve_on_round, .. } => {
            assert_eq!(amount, 4, "should drain 4 AP next round");
            assert_eq!(resolve_on_round, 2, "should resolve on round 2");
        }
        _ => panic!("expected DrainAP effect"),
    }
}

#[test]
fn displacement_queues_delayed_damage() {
    let disp = ability("Temporal Displacement", 3, AbilityKind::Ranged, AbilityEffect::Displacement { delay_rounds: 2 });
    let mut b = battle(vec![
        combatant(1, Some(stats(15, 5)), Some(5), None, Some((0, 0))),
        combatant(2, Some(stats(5, 5)), None, Some(100), Some((5, 0))),
    ]);
    let result = apply_action(&mut b, 0, &Action::UseAbility { ability: disp, target: Some(1) }, true, 1);
    assert!(result.is_some());
    match b.pending[0] {
        PendingEffect::DelayedDamage { resolve_on_round, damage, .. } => {
            assert_eq!(resolve_on_round, 3, "should resolve on round 3");
            assert_eq!(damage, 13 + 15);
        }
        _ => panic!("expected DelayedDamage"),
    }
    // Pushed two tiles away from the user.
    assert_eq!(b.combatants[1].pos, Some((7, 0)));
    assert!(matches!(result, Some(TurnAction::DisplacementQueued { pushed_to: Some((7, 0)), .. })));
}

#[test]
fn move_saves_last_position() {
    let mut b = battle(vec![combatant(1, None, Some(4), None, Some((2, 3)))]);
    apply_action(&mut b, 0, &Action::Move { destination: (2, 5) }, true, 0);
    assert_eq!(b.combatants[0].last_pos, Some((2, 3)), "should save position before move");
}

#[test]
fn successful_ability_sets_last_used_ability() {
    let bolt = ability("Temporal Bolt", 2, AbilityKind::Ranged, AbilityEffect::BonusDamage { bonus: 3 });
    let mut b = battle(vec![
        combatant(1, Some(stats(10, 5)), Some(4), None, None),
        combatant(2, Some(stats(5, 2)), None, Some(50), None),
    ]);
    apply_action(&mut b, 0, &Action::UseAbility { ability: bolt, target: Some(1) }, true, 0);
    assert_eq!(b.combatants[0].last_used.unwrap().name, "Temporal Bolt");
}

#[test]
fn echo_strike_repeats_the_targets_last_ability_for_free() {
    let echo = ability("Echo Strike", 2, AbilityKind::Ranged, AbilityEffect::EchoStrike);
    let mut target = combatant(2, Some(stats(5, 4)), None, Some(50), None);
    target.last_used = Some(ability("Aimed Shot", 2, AbilityKind::Ranged, AbilityEffect::BonusDamage { bonus: 5 }));
    let mut b = battle(vec![combatant(1, Some(stats(10, 5)), Some(4), None, None), target]);
    let r = apply_action(&mut b, 0, &Action::UseAbility { ability: echo, target: Some(1) }, true, 0);
    assert!(matches!(r, Some(TurnAction::UseAbility { value: 13, hit: true, .. })));
    assert_eq!(b.combatants[0].ap.unwrap().current, 2);
    assert_eq!(b.combatants[1].health.unwrap().current, 37);
    assert_eq!(b.combatants[0].last_used.unwrap().name, "Echo Strike");
}

#[test]
fn heal_and_drain() {
    let heal = ability("Heal", 2, AbilityKind::RangedAlly, AbilityEffect::Heal { amount: 20 });
    let drain = ability("Drain", 1, AbilityKind::Ranged, AbilityEffect::DrainAP { amount: 3 });
    let mut hurt = combatant(2, None, Some(2), Some(100), None);
    hurt.health = Some(Health { current: 90, max: 100 });
    let mut b = battle(vec![combatant(1, None, Some(5), Some(50), None), hurt]);
    apply_action(&mut b, 0, &Action::UseAbility { ability: heal, target: Some(1) }, true, 0);
    assert_eq!(b.combatants[1].health.unwrap().current, 100);
    let r = apply_action(&mut b, 0, &Action::UseAbility { ability: drain, target: Some(1) }, true, 0);
    assert!(matches!(r, Some(TurnAction::UseAbility { value: 2, .. })));
    assert_eq!(b.combatants[1].ap.unwrap().current, 0);
    assert_eq!(b.combatants[0].ap.unwrap().current, 2);
}
