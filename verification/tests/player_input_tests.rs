use carbonthrone::save::CombatantRole;
use carbonthrone::ability::{Ability, AbilityEffect, AbilityKind, Battle, Combatant, Health};
use carbonthrone::action_points::ActionPoints;
use carbonthrone::character::{Aggression, CharacterKind};
use carbonthrone::entity::Entity;
use carbonthrone::player_input::{available_player_actions, PlayerActionChoice};
use carbonthrone::stats::Stats;
use carbonthrone::terrain::{CoverLevel, LevelMap, Tile};
use carbonthrone::zone::ZoneKind;

fn stats(attack: i32, defense: i32) -> Stats {
    Stats { max_hp: 30, attack, defense, speed: 5 }
}

fn fighter(id: u64, kind: CharacterKind, aggression: Aggression, ap: i32, hp: i32, pos: (i32, i32)) -> Combatant {
    Combatant {
        entity: Entity::from_bits(id),
        ap: Some(ActionPoints::new(ap)),
        pos: Some(pos),
        health: Some(Health { current: hp, max: 30 }),
        stats: Some(stats(10, 4)),
        last_pos: None,
        last_used: None,
        character: Some((kind, aggression)),
        first_action: None,
        level: 1,
        role: CombatantRole::Enemy,
    }
}

fn player(ap: i32, pos: (i32, i32)) -> Combatant {
    fighter(1, CharacterKind::Researcher, Aggression::Friendly, ap, 30, pos)
}

fn enemy(id: u64, pos: (i32, i32)) -> Combatant {
    fighter(id, CharacterKind::Zealot, Aggression::Aggressive, 3, 20, pos)
}

fn shot() -> Ability {
    Ability { name: "Aimed Shot", ap_cost: 2, kind: AbilityKind::Ranged, effect: AbilityEffect::BonusDamage { bonus: 3 } }
}

fn strike() -> Ability {
    Ability { name: "Strike", ap_cost: 1, kind: AbilityKind::Melee, effect: AbilityEffect::BonusDamage { bonus: 0 } }
}

fn focus() -> Ability {
    Ability { name: "Focus", ap_cost: 1, kind: AbilityKind::Utility, effect: AbilityEffect::GrantAP { amount: 1 } }
}

fn describe(c: &PlayerActionChoice) -> String {
    match c {
        PlayerActionChoice::UseAbility { ability, target, damage, cover } => {
            format!("{}:{:?}:{:?}:{:?}", ability.name, target, damage, cover)
        }
        PlayerActionChoice::MoveToCover { destination, cover, ap_cost } => {
            format!("move:{:?}:{:?}:{}", destination, cover, ap_cost)
        }
        PlayerActionChoice::Pass => "pass".to_string(),
    }
}

fn all(b: &Battle, actor: usize, abilities: &Vec<Ability>) -> Vec<String> {
    available_player_actions(b, actor, abilities).iter().map(describe).collect()
}

#[test]
fn ranged_targets_every_living_enemy_melee_only_adjacent() {
    let b = Battle {
        combatants: vec![player(3, (2, 2)), enemy(2, (3, 3)), enemy(3, (7, 2))],
        pending: vec![],
        map: None,
    };
    // damage = attack 10 - defense 4 / 2 = 8, plus the bonus.
    assert_eq!(
        all(&b, 0, &vec![shot(), strike(), focus()]),
        vec![
            "Aimed Shot:Some(1):Some(11):Some(NoCover)",
            "Aimed Shot:Some(2):Some(11):Some(NoCover)",
            "Strike:Some(1):Some(8):Some(NoCover)",
            "Focus:None:None:None",
            "pass",
        ]
    );
}

#[test]
fn unaffordable_abilities_are_left_out() {
    let b = Battle { combatants: vec![player(1, (0, 0)), enemy(2, (5, 5))], pending: vec![], map: None };
    assert_eq!(all(&b, 0, &vec![shot(), focus()]), vec!["Focus:None:None:None", "pass"]);
}

#[test]
fn dead_friendly_and_party_combatants_are_not_targets() {
    let mut dead = enemy(2, (1, 0));
    dead.health = Some(Health { current: 0, max: 20 });
    let friendly = fighter(3, CharacterKind::Zealot, Aggression::Friendly, 3, 20, (2, 0));
    let ally = fighter(4, CharacterKind::Orin, Aggression::Aggressive, 3, 20, (3, 0));
    let b = Battle { combatants: vec![player(3, (0, 0)), dead, friendly, ally], pending: vec![], map: None };
    assert_eq!(all(&b, 0, &vec![shot()]), vec!["pass"]);
}

#[test]
fn no_action_points_or_position_gives_no_choices() {
    let mut p = player(3, (0, 0));
    p.ap = None;
    let b = Battle { combatants: vec![p, enemy(2, (1, 1))], pending: vec![], map: None };
    assert!(available_player_actions(&b, 0, &vec![shot()]).is_empty());
    let mut p = player(3, (0, 0));
    p.pos = None;
    let b = Battle { combatants: vec![p, enemy(2, (1, 1))], pending: vec![], map: None };
    assert!(available_player_actions(&b, 0, &vec![shot()]).is_empty());
}

#[test]
fn cover_moves_offer_nearest_full_then_partial() {
    let mut map = LevelMap::new(10, 10, ZoneKind::ResearchWing);
    map.set(4, 3, Tile::Obstacle);
    map.recompute_cover();
    let b = Battle { combatants: vec![player(3, (2, 2)), enemy(2, (2, 6))], pending: vec![], map: Some(map) };
    assert_eq!(
        all(&b, 0, &vec![]),
        vec!["move:(4, 2):Full:2", "move:(3, 2):Partial:1", "pass"]
    );
}

#[test]
fn cover_moves_need_enough_action_points() {
    let mut map = LevelMap::new(10, 10, ZoneKind::ResearchWing);
    map.set(4, 3, Tile::Obstacle);
    map.recompute_cover();
    let b = Battle { combatants: vec![player(1, (2, 2)), enemy(2, (2, 6))], pending: vec![], map: Some(map) };
    assert_eq!(all(&b, 0, &vec![]), vec!["move:(3, 2):Partial:1", "pass"]);
}

#[test]
fn target_cover_is_reported_with_damage() {
    let mut map = LevelMap::new(10, 10, ZoneKind::ResearchWing);
    // The enemy at (5, 2) hides behind an obstacle to its west, facing the player.
    map.set(4, 2, Tile::Obstacle);
    map.recompute_cover();
    let b = Battle { combatants: vec![player(2, (1, 2)), enemy(2, (5, 2))], pending: vec![], map: Some(map) };
    let got = all(&b, 0, &vec![shot()]);
    assert_eq!(got[0], "Aimed Shot:Some(1):Some(11):Some(Full)");
    assert_eq!(got.last().unwrap(), "pass");
}
