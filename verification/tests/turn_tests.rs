use carbonthrone::save::CombatantRole;
use carbonthrone::ability::{
    apply_action, Ability, AbilityEffect, AbilityKind, Action, Battle, Combatant, Health, TurnAction,
};
use carbonthrone::action_points::ActionPoints;
use carbonthrone::entity::Entity;
use carbonthrone::pending_effects::PendingEffect;
use carbonthrone::stats::Stats;
use carbonthrone::terrain::{LevelMap, Tile};
use carbonthrone::turn::MOVE_AP_COST;
use carbonthrone::zone::ZoneKind;

fn stats(attack: i32, defense: i32) -> Stats {
    Stats { max_hp: 50, attack, defense, speed: 10 }
}

fn combatant(id: u64, stats: Option<Stats>, ap: Option<i32>, hp: Option<i32>, pos: Option<(i32, i32)>) -> Combatant {
    Combatant {
        entity: Entity::from_bits(id),
        ap: ap.map(ActionPoints::new),
        pos,
        health: hp.map(|h| Health { current: h, max: h }),
        stats,
        last_pos: None,
        last_used: None,
        character: None,
        first_action: None,
        level: 1,
        role: CombatantRole::Enemy,
    }
}

fn battle(cs: Vec<Combatant>) -> Battle {
    Battle { combatants: cs, pending: vec![], map: None }
}

fn aimed_shot() -> Ability {
    Ability { name: "Aimed Shot", ap_cost: 2, kind: AbilityKind::Ranged, effect: AbilityEffect::BonusDamage { bonus: 5 } }
}

fn power_strike() -> Ability {
    Ability { name: "Power Strike", ap_cost: 3, kind: AbilityKind::Melee, effect: AbilityEffect::BonusDamage { bonus: 4 } }
}

fn hp(b: &Battle, i: usize) -> i32 {
    b.combatants[i].health.unwrap().current
}

fn ap(b: &Battle, i: usize) -> i32 {
    b.combatants[i].ap.unwrap().current
}

fn use_on(ability: Ability, target: usize) -> Action {
    Action::UseAbility { ability, target: Some(target) }
}

#[test]
fn ranged_ability_reduces_target_hp_and_spends_ap() {
    let mut b = battle(vec![
        combatant(1, Some(stats(10, 5)), Some(4), None, None),
        combatant(2, Some(stats(5, 4)), None, Some(50), None),
    ]);
    let result = apply_action(&mut b, 0, &use_on(aimed_shot(), 1), true, 0);
    assert!(result.is_some());
    assert_eq!(hp(&b, 1), 37); // 50 - (calc_damage(10, 4) + 5)
    assert_eq!(ap(&b, 0), 4 - 2);
}

#[test]
fn ability_fails_without_enough_ap() {
    let mut b = battle(vec![
        combatant(1, Some(stats(10, 5)), Some(1), None, None),
        combatant(2, Some(stats(5, 4)), None, Some(50), None),
    ]);
    let result = apply_action(&mut b, 0, &use_on(aimed_shot(), 1), true, 0);
    assert!(result.is_none());
    assert_eq!(hp(&b, 1), 50);
    assert_eq!(ap(&b, 0), 1);
}

#[test]
fn ability_on_dead_target_fails() {
    let mut b = battle(vec![
        combatant(1, Some(stats(10, 5)), Some(4), None, None),
        combatant(2, Some(stats(5, 4)), None, Some(0), None),
    ]);
    let result = apply_action(&mut b, 0, &use_on(aimed_shot(), 1), true, 0);
    assert!(result.is_none());
}

#[test]
fn melee_ability_blocked_when_target_not_adjacent() {
    let mut b = battle(vec![
        combatant(1, Some(stats(10, 5)), Some(4), None, Some((0, 0))),
        combatant(2, Some(stats(5, 4)), None, Some(50), Some((5, 0))),
    ]);
    let result = apply_action(&mut b, 0, &use_on(power_strike(), 1), true, 0);
    assert!(result.is_none(), "melee ability should fail when not adjacent");
    assert_eq!(hp(&b, 1), 50);
    assert_eq!(ap(&b, 0), 4);
}

#[test]
fn melee_ability_succeeds_when_adjacent() {
    let mut b = battle(vec![
        combatant(1, Some(stats(10, 5)), Some(4), None, Some((0, 0))),
        combatant(2, Some(stats(5, 4)), None, Some(50), Some((1, 0))),
    ]);
    let result = apply_action(&mut b, 0, &use_on(power_strike(), 1), true, 0);
    assert!(result.is_some(), "melee ability should succeed when adjacent");
    assert!(hp(&b, 1) < 50);
}

#[test]
fn melee_ability_succeeds_on_diagonal() {
    let mut b = battle(vec![
        combatant(1, Some(stats(10, 5)), Some(4), None, Some((0, 0))),
        combatant(2, Some(stats(5, 4)), None, Some(50), Some((1, 1))),
    ]);
    let result = apply_action(&mut b, 0, &use_on(power_strike(), 1), true, 0);
    assert!(result.is_some(), "melee ability should allow diagonal adjacency");
    assert!(hp(&b, 1) < 50);
}

#[test]
fn ranged_ability_works_without_positions() {
    let mut b = battle(vec![
        combatant(1, Some(stats(10, 5)), Some(4), None, None),
        combatant(2, Some(stats(5, 4)), None, Some(50), None),
    ]);
    let result = apply_action(&mut b, 0, &use_on(aimed_shot(), 1), true, 0);
    assert!(result.is_some(), "ranged ability should work without Position components");
}

#[test]
fn move_changes_position_and_costs_ap() {
    let mut b = battle(vec![combatant(1, None, Some(4), None, Some((0, 0)))]);
    let result = apply_action(&mut b, 0, &Action::Move { destination: (3, 0) }, true, 0);
    assert!(result.is_some());
    assert_eq!(b.combatants[0].pos.unwrap().0, 3);
    assert_eq!(ap(&b, 0), 4 - MOVE_AP_COST * 3);
}

#[test]
fn move_fails_without_enough_ap() {
    let mut b = battle(vec![combatant(1, None, Some(2), None, Some((0, 0)))]);
    let result = apply_action(&mut b, 0, &Action::Move { destination: (5, 0) }, true, 0);
    assert!(result.is_none());
    assert_eq!(b.combatants[0].pos.unwrap().0, 0);
}

#[test]
fn move_to_same_position_fails() {
    let mut b = battle(vec![combatant(1, None, Some(4), None, Some((2, 3)))]);
    let result = apply_action(&mut b, 0, &Action::Move { destination: (2, 3) }, true, 0);
    assert!(result.is_none());
}

#[test]
fn pass_does_not_change_ap() {
    let mut b = battle(vec![combatant(1, None, Some(4), None, None)]);
    let result = apply_action(&mut b, 0, &Action::Pass, true, 0);
    assert!(result.is_none());
    assert_eq!(ap(&b, 0), 4);
}

#[test]
fn move_to_obstacle_is_blocked() {
    let mut map = LevelMap::new(10, 10, ZoneKind::CommandDeck);
    map.set(2, 0, Tile::Obstacle);
    let mut b = Battle { combatants: vec![combatant(1, None, Some(4), None, Some((0, 0)))], pending: vec![], map: Some(map) };
    let result = apply_action(&mut b, 0, &Action::Move { destination: (2, 0) }, true, 0);
    assert!(result.is_none());
    assert_eq!(b.combatants[0].pos.unwrap().0, 0);
    assert_eq!(ap(&b, 0), 4);
}

#[test]
fn ability_hit_on_open_tile_deals_damage() {
    let mut b = battle(vec![
        combatant(1, Some(stats(10, 0)), Some(4), None, None),
        combatant(2, Some(stats(0, 0)), None, Some(100), Some((5, 5))),
    ]);
    match apply_action(&mut b, 0, &use_on(aimed_shot(), 1), true, 0).unwrap() {
        TurnAction::UseAbility { hit, value, .. } => {
            assert!(hit);
            assert!(value > 0);
            assert!(hp(&b, 1) < 100);
        }
        _ => panic!("expected UseAbility result"),
    }
}

#[test]
fn ability_miss_does_not_deal_damage() {
    let mut b = battle(vec![
        combatant(1, Some(stats(10, 0)), Some(4), None, Some((5, 0))),
        combatant(2, Some(stats(0, 0)), None, Some(100), Some((5, 5))),
    ]);
    match apply_action(&mut b, 0, &use_on(aimed_shot(), 1), false, 0) {
        Some(TurnAction::UseAbility { hit, value, .. }) => {
            assert!(!hit);
            assert_eq!(value, 0);
            assert_eq!(hp(&b, 1), 100, "miss should not deal damage");
        }
        _ => panic!("expected UseAbility result"),
    }
}

#[test]
fn ap_spent_on_miss() {
    let mut b = battle(vec![
        combatant(1, Some(stats(10, 0)), Some(4), None, Some((5, 0))),
        combatant(2, Some(stats(0, 0)), None, Some(100), Some((5, 5))),
    ]);
    let r = apply_action(&mut b, 0, &use_on(aimed_shot(), 1), false, 0);
    assert!(matches!(r, Some(TurnAction::UseAbility { hit: false, .. })));
    assert_eq!(ap(&b, 0), 4 - 2);
}
