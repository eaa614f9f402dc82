use carbonthrone::action_points::{refresh_ap_system, ActionPoints};
use carbonthrone::combat::{best_adjacent_target, calc_damage, turn_order, BattleStep, Turn};
use carbonthrone::turn::{move_ap_cost, move_range_per_ap, MOVE_AP_COST};
use carbonthrone::entity::Entity;

#[test]
fn damage_formula() {
    assert_eq!(calc_damage(10, 4), 8);
    assert_eq!(calc_damage(10, 5), 8);
    assert_eq!(calc_damage(3, 10), 1);
    assert_eq!(calc_damage(0, 0), 1);
    assert_eq!(calc_damage(10, -3), 11);
}

#[test]
fn turn_order_is_fastest_first_and_stable() {
    assert_eq!(turn_order(&[10, 20, 20, 5]), vec![1, 2, 0, 3]);
    assert_eq!(turn_order(&[]), Vec::<usize>::new());
    assert_eq!(turn_order(&[7, 7, 7]), vec![0, 1, 2]);
}

#[test]
fn battle_queue_handling() {
    let a = Entity::from_bits(1);
    let b = Entity::from_bits(2);
    let c = Entity::from_bits(3);
    let mut step = BattleStep::restore(2, Turn::Player, vec![a, b, c]);
    assert_eq!(step.current_actor(), Some(a));
    assert_eq!(step.next_actor(), Some(a));
    assert!(step.set_active_player(c));
    assert_eq!(step.player_queue(), &vec![c, a, b]);
    assert!(!step.set_active_player(Entity::from_bits(9)));
    assert_eq!(step.player_queue(), &vec![c, a, b]);

    let mut enemy_side = BattleStep::restore(1, Turn::Enemy, vec![a, b]);
    assert!(!enemy_side.set_active_player(b));
    assert_eq!(enemy_side.player_queue(), &vec![a, b]);
    let empty = BattleStep::restore(1, Turn::Player, vec![]);
    assert_eq!(empty.current_actor(), None);
}

#[test]
fn action_points_spend_and_refresh() {
    let mut ap = ActionPoints::new(5);
    assert!(ap.spend(3));
    assert_eq!(ap.current, 2);
    assert!(!ap.spend(3));
    assert_eq!(ap.current, 2);
    ap.refresh();
    assert_eq!(ap.current, 5);
    assert_eq!(ap.max, 5);
}

#[test]
fn movement_costs() {
    assert_eq!(move_range_per_ap(7), 1);
    assert_eq!(move_range_per_ap(8), 1);
    assert_eq!(move_range_per_ap(16), 2);
    assert_eq!(move_range_per_ap(24), 3);
    assert_eq!(move_range_per_ap(0), 1);
    assert_eq!(move_range_per_ap(-20), 1);
    assert_eq!(move_ap_cost(5, 16), 3);
    assert_eq!(move_ap_cost(4, 16), 2);
    assert_eq!(move_ap_cost(7, 24), 3);
    assert_eq!(move_ap_cost(1, 3), 1);
    assert_eq!(move_ap_cost(0, 8), 0);
    // Three tiles at the default speed of 8 cost three moves.
    assert_eq!(move_ap_cost(3, 8), MOVE_AP_COST * 3);
}

#[test]
fn melee_target_is_nearest_adjacent() {
    let a = Entity::from_bits(1);
    let b = Entity::from_bits(2);
    let c = Entity::from_bits(3);
    let d = Entity::from_bits(4);
    let targets = [(a, 3, 3), (b, 2, 2), (c, 1, 2), (d, 2, 1)];
    assert_eq!(best_adjacent_target(&targets, (2, 2)), Some(c));
    assert_eq!(best_adjacent_target(&[(a, 3, 3)], (2, 2)), Some(a));
    assert_eq!(best_adjacent_target(&[(a, 4, 2), (b, 2, 2)], (2, 2)), None);
    assert_eq!(best_adjacent_target(&[], (0, 0)), None);
}

#[test]
fn refreshing_restores_every_pool() {
    let mut a = ActionPoints::new(4);
    assert!(a.spend(4));
    let mut b = ActionPoints::new(6);
    assert!(b.spend(1));
    let mut pools = vec![a, b];
    refresh_ap_system(&mut pools);
    assert_eq!(pools[0].current, 4);
    assert_eq!(pools[1].current, 6);
    assert_eq!(pools[1].max, 6);
}
