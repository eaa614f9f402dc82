use carbonthrone::ability::{Ability, AbilityEffect, AbilityKind, Battle, Combatant, Health};
use carbonthrone::action_points::ActionPoints;
use carbonthrone::ai::{SideInput, SideRequest, SideTurn};
use carbonthrone::character::{Character, CharacterKind};
use carbonthrone::combat::{check_outcome, BattleOutcome, BattleStep, Turn, MAX_ROUNDS};
use carbonthrone::entity::Entity;
use carbonthrone::player_input::PlayerActionChoice;
use carbonthrone::save::CombatantRole;
use carbonthrone::stats::Stats;

fn fighter(id: u64, kind: CharacterKind, hp: i32, attack: i32, defense: i32, speed: i32, pos: (i32, i32)) -> Combatant {
    Combatant {
        entity: Entity::from_bits(id),
        ap: Some(ActionPoints::new(4)),
        pos: Some(pos),
        health: Some(Health { current: hp, max: hp }),
        stats: Some(Stats { max_hp: hp, attack, defense, speed }),
        last_pos: None,
        last_used: None,
        character: Some((kind, Character::new_character(kind, 1).aggression)),
        first_action: None,
        level: 1,
        role: if kind == CharacterKind::Doss { CombatantRole::Player } else { CombatantRole::Enemy },
    }
}

fn player(b: &mut Battle, hp: i32, attack: i32, defense: i32, speed: i32) -> usize {
    let id = b.combatants.len() as u64 + 1;
    b.combatants.push(fighter(id, CharacterKind::Doss, hp, attack, defense, speed, (0, 0)));
    b.combatants.len() - 1
}

fn enemy(b: &mut Battle, hp: i32, attack: i32, defense: i32, speed: i32) -> usize {
    let id = b.combatants.len() as u64 + 1;
    // Placed next to the player at (0, 0) so melee abilities are in range.
    b.combatants.push(fighter(id, CharacterKind::Scavenger, hp, attack, defense, speed, (1, 0)));
    b.combatants.len() - 1
}

/// A plain melee strike, the one ability every fighter here has.
fn strike() -> Ability {
    Ability { name: "Strike", ap_cost: 2, kind: AbilityKind::Melee, effect: AbilityEffect::BonusDamage { bonus: 0 } }
}

/// Run a battle to completion with every attack landing: each round the player side,
/// then the enemy side, each combatant acting until it passes.
fn simulate_battle(b: &mut Battle) -> BattleOutcome {
    for round in 1..=MAX_ROUNDS {
        for turn in [Turn::Player, Turn::Enemy] {
            let mut side = SideTurn::open(b, turn, round);
            let mut req = match side.queue.first() {
                Some(&actor) => SideRequest::Target { actor },
                None => SideRequest::Done,
            };
            loop {
                let input = match req {
                    SideRequest::Done => break,
                    SideRequest::Target { .. } => SideInput::Target(None),
                    SideRequest::Roll { .. } => SideInput::Hit(true),
                };
                req = side.step(b, &vec![strike()], input);
            }
            if let Some(o) = check_outcome(&b.combatants) {
                return o;
            }
        }
    }
    BattleOutcome::Draw
}

fn empty() -> Battle {
    Battle { combatants: vec![], pending: vec![], map: None }
}

#[test]
fn strong_player_defeats_weak_enemy() {
    let mut b = empty();
    player(&mut b, 100, 20, 10, 10);
    // calc_damage(20, 2) = 19 per hit, enemy has 10 HP → dies on first attack
    enemy(&mut b, 10, 5, 2, 5);
    assert_eq!(simulate_battle(&mut b), BattleOutcome::PlayerVictory);
}

#[test]
fn weak_player_loses_to_strong_enemy() {
    let mut b = empty();
    // Player does 1 damage/hit; enemy has 200 HP
    player(&mut b, 5, 1, 0, 5);
    // calc_damage(30, 0) = 30 per hit, player has 5 HP → dies on first hit
    enemy(&mut b, 200, 30, 5, 10);
    assert_eq!(simulate_battle(&mut b), BattleOutcome::PlayerDefeated);
}

#[test]
fn no_enemies_is_immediate_victory() {
    let mut b = empty();
    player(&mut b, 100, 10, 5, 10);
    assert_eq!(simulate_battle(&mut b), BattleOutcome::PlayerVictory);
}

#[test]
fn multiple_players_defeat_outnumbered_enemies() {
    let mut b = empty();
    player(&mut b, 100, 15, 8, 12);
    player(&mut b, 100, 15, 8, 10);
    enemy(&mut b, 20, 5, 2, 5);
    assert_eq!(simulate_battle(&mut b), BattleOutcome::PlayerVictory);
}

#[test]
fn faster_side_acts_first() {
    let mut b = empty();
    // Player one-shots enemy (damage = 20 - 1 = 19 > 10 HP)
    player(&mut b, 5, 20, 0, 1);
    // Enemy would one-shot player (damage = 20 - 0 = 20 > 5 HP) but acts second
    enemy(&mut b, 10, 20, 2, 100);
    assert_eq!(simulate_battle(&mut b), BattleOutcome::PlayerVictory);
}

#[test]
fn dead_player_mid_round_does_not_get_choices() {
    let mut b = empty();
    let player_a = player(&mut b, 10, 5, 2, 10);
    let player_b = player(&mut b, 10, 5, 2, 8);
    enemy(&mut b, 1000, 1, 50, 1);
    let mut battle = BattleStep::new(&mut b);
    assert_eq!(battle.turn, Turn::Player);
    // Kill player A directly — simulating death from a mid-round temporal effect.
    b.combatants[player_a].health = Some(Health { current: 0, max: 10 });
    let choices = battle.player_choices(&b, &vec![strike()]);
    assert!(!choices.is_empty(), "live player B should still have choices");
    let result = battle.step_player_action(&mut b, &PlayerActionChoice::Pass, false);
    assert!(result.turn_ended);
    // Kill player B as well.
    b.combatants[player_b].health = Some(Health { current: 0, max: 10 });
    let choices = battle.player_choices(&b, &vec![strike()]);
    assert!(choices.is_empty(), "no choices expected when all players are dead");
}
