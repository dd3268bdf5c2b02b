use dndhelper::abilities::PassiveCombatAbility;
use dndhelper::combat::{
    despawn_dead_units, handle_combat, handle_combat_event, handle_post_combat, handle_pre_combat,
    resolve_attack, resolve_attack_with_roll, AttackOrDefault, CombatEvent, CombatResult,
};
use dndhelper::hex::HexCoord;
use dndhelper::units::{
    ActionPoints, CombatConfig, HealthPoints, Team, Unit, UnitMarker, UnitStatus,
};
use dndhelper::world::World;

fn fighter(name: &str, team: Team, q: i32, r: i32, damage: usize, defense: usize) -> Unit {
    Unit {
        marker: UnitMarker(name.to_string()),
        team,
        position: HexCoord { q, r },
        action_points: ActionPoints::new(10, 1, 2),
        health_points: HealthPoints::new(5),
        combat_config: CombatConfig {
            damage,
            defense,
            range: 1,
            passive_combat_abilities: vec![],
        },
        status: UnitStatus::new(),
        active_abilities: vec![],
    }
}

fn duel_world(attacker_damage: usize, defender_defense: usize) -> World {
    World {
        units: vec![
            Some(fighter("attacker", Team::Red, 0, 0, attacker_damage, 1)),
            Some(fighter("defender", Team::Blue, 1, 0, 1, defender_defense)),
        ],
        tiles: vec![],
    }
}

fn default_event() -> CombatEvent {
    CombatEvent {
        attacker: 0,
        attack: AttackOrDefault::Default,
        defender: 1,
    }
}

#[test]
fn roll_at_or_above_defense_hits_and_reduces_health() {
    let mut w = duel_world(2, 10);
    let mut log = Vec::new();
    let combat = resolve_attack_with_roll(&mut w, &default_event(), 10, &mut log)
        .expect("guard holds, attack resolves");
    assert_eq!(combat.combat_result, CombatResult::Hit);
    assert_eq!(w.units[1].as_ref().unwrap().health_points.left, 3);
    assert_eq!(
        log[0].message,
        "attacker caused 2 damage to defender (10/10)"
    );
}

#[test]
fn roll_below_defense_misses_and_health_is_unchanged() {
    let mut w = duel_world(2, 10);
    let mut log = Vec::new();
    let combat = resolve_attack_with_roll(&mut w, &default_event(), 9, &mut log)
        .expect("guard holds, attack resolves");
    assert_eq!(combat.combat_result, CombatResult::Miss);
    assert_eq!(w.units[1].as_ref().unwrap().health_points.left, 5);
    assert_eq!(
        log[0].message,
        "attacker has failed to cause significant damage to defender (9/10)"
    );
}

#[test]
fn damage_is_floored_at_zero_health() {
    let mut w = duel_world(100, 1);
    let mut log = Vec::new();
    let combat =
        resolve_attack_with_roll(&mut w, &default_event(), 20, &mut log).expect("resolves");
    assert_eq!(combat.combat_result, CombatResult::Hit);
    assert_eq!(w.units[1].as_ref().unwrap().health_points.left, 0);
}

#[test]
fn attack_deducts_cost_and_counts_the_attack() {
    let mut w = duel_world(1, 1);
    let mut log = Vec::new();
    resolve_attack_with_roll(&mut w, &default_event(), 20, &mut log).expect("resolves");
    let attacker = w.units[0].as_ref().unwrap();
    assert_eq!(attacker.action_points.left, 8);
    assert_eq!(attacker.action_points.attacks_this_round, 1);
}

#[test]
fn attack_is_refused_once_the_allowance_is_used_up() {
    let mut w = duel_world(1, 1);
    w.units[0].as_mut().unwrap().action_points.attacks_this_round = 1;
    let mut log = Vec::new();
    let res = resolve_attack_with_roll(&mut w, &default_event(), 20, &mut log);
    assert!(res.is_none());
    let attacker = w.units[0].as_ref().unwrap();
    assert_eq!(attacker.action_points.left, 10);
    assert_eq!(attacker.action_points.attacks_this_round, 1);
    assert_eq!(w.units[1].as_ref().unwrap().health_points.left, 5);
    assert!(log.is_empty());
}

#[test]
fn attack_is_refused_without_enough_action_points() {
    let mut w = duel_world(1, 1);
    w.units[0].as_mut().unwrap().action_points.left = 1;
    let mut log = Vec::new();
    let res = resolve_attack_with_roll(&mut w, &default_event(), 20, &mut log);
    assert!(res.is_none());
    assert_eq!(w.units[0].as_ref().unwrap().action_points.left, 1);
    assert_eq!(w.units[1].as_ref().unwrap().health_points.left, 5);
}

#[test]
fn armor_break_lowers_defense_after_a_miss() {
    let mut w = duel_world(1, 10);
    w.units[0]
        .as_mut()
        .unwrap()
        .combat_config
        .passive_combat_abilities = vec![PassiveCombatAbility::ArmorBreak];
    let mut log = Vec::new();
    let combat = resolve_attack_with_roll(&mut w, &default_event(), 3, &mut log).expect("resolves");
    assert_eq!(combat.combat_result, CombatResult::Miss);
    assert_eq!(w.units[1].as_ref().unwrap().combat_config.defense, 9);
}

#[test]
fn hit_and_run_disengages_the_attacker_after_a_hit() {
    let mut w = duel_world(1, 1);
    w.units[0]
        .as_mut()
        .unwrap()
        .combat_config
        .passive_combat_abilities = vec![PassiveCombatAbility::HitAndRun];
    w.units[0].as_mut().unwrap().status.engage_with(1);
    w.units[1].as_mut().unwrap().status.engage_with(0);
    let mut log = Vec::new();
    let combat =
        resolve_attack_with_roll(&mut w, &default_event(), 20, &mut log).expect("resolves");
    assert_eq!(combat.combat_result, CombatResult::Hit);
    assert!(!w.units[0].as_ref().unwrap().status.is_engaged_with(1));
    assert!(w.units[1].as_ref().unwrap().status.is_engaged_with(0));
}

#[test]
fn dead_units_are_despawned_and_purged_from_engagement() {
    let mut w = duel_world(1, 1);
    w.units[1].as_mut().unwrap().health_points.left = 0;
    w.units[0].as_mut().unwrap().status.engage_with(1);
    w.units[1].as_mut().unwrap().status.engage_with(0);

    let removed = despawn_dead_units(&mut w);
    assert_eq!(removed, vec![1]);
    assert!(w.units[1].is_none());
    assert!(!w.units[0].as_ref().unwrap().status.is_engaged_with(1));
}

#[test]
fn a_fatal_hit_leads_to_despawn_on_the_next_cleanup_pass() {
    let mut w = duel_world(1, 1);
    w.units[1].as_mut().unwrap().health_points.left = 1;
    w.units[0].as_mut().unwrap().status.engage_with(1);
    w.units[1].as_mut().unwrap().status.engage_with(0);
    let mut log = Vec::new();
    let combat =
        resolve_attack_with_roll(&mut w, &default_event(), 20, &mut log).expect("resolves");
    assert_eq!(combat.combat_result, CombatResult::Hit);
    assert_eq!(w.units[1].as_ref().unwrap().health_points.left, 0);

    let removed = despawn_dead_units(&mut w);
    assert_eq!(removed, vec![1]);
    assert!(w.units[1].is_none());
    assert!(!w.units[0].as_ref().unwrap().status.is_engaged_with(1));
}

#[test]
fn dice_driven_attack_rolls_between_one_and_twenty() {
    let mut w = duel_world(1, 10);
    let mut log = Vec::new();
    let (_, roll) = resolve_attack(&mut w, &default_event(), &mut log).expect("resolves");
    assert!((1..=20).contains(&roll));
}

#[test]
fn combat_phases_compose_like_the_orchestrator() {
    let mut w = duel_world(2, 10);
    let combat = handle_combat_event(&w, &default_event()).expect("attacker exists");
    assert!(handle_pre_combat(&mut w, &combat));
    let mut combat = combat;
    let line = handle_combat(&mut w, &mut combat, 12).expect("both alive");
    assert_eq!(combat.combat_result, CombatResult::Hit);
    assert_eq!(line.message, "attacker caused 2 damage to defender (12/10)");
    let mut log = Vec::new();
    handle_post_combat(&mut w, &combat, &mut log);
    assert_eq!(w.units[1].as_ref().unwrap().health_points.left, 3);
}
