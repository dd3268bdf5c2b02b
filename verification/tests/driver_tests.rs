use dndhelper::abilities::{ActiveAbility, ActiveAbilityType};
use dndhelper::driver::{GameDriver, GameEvent};
use dndhelper::hex::{hex_distance, HexCoord};
use dndhelper::round::RoundState;
use dndhelper::terrain::{MovementCost, Terrain};
use dndhelper::units::{
    ActionPoints, CombatConfig, HealthPoints, Team, Unit, UnitMarker, UnitStatus,
};
use dndhelper::world::{Tile, World};

fn flat_map(radius: i32) -> Vec<Tile> {
    let origin = HexCoord { q: 0, r: 0 };
    let mut tiles = Vec::new();
    for q in -radius..=radius {
        for r in -radius..=radius {
            let c = HexCoord { q, r };
            if hex_distance(origin, c) <= radius as u32 {
                tiles.push(Tile {
                    coord: c,
                    terrain: Terrain {
                        name: "plains".to_string(),
                        movement_cost: MovementCost::Passable(1),
                    },
                });
            }
        }
    }
    tiles
}

fn grunt(team: Team, q: i32, r: i32) -> Unit {
    Unit {
        marker: UnitMarker("grunt".to_string()),
        team,
        position: HexCoord { q, r },
        action_points: ActionPoints::new(10, 1, 2),
        health_points: HealthPoints::new(5),
        combat_config: CombatConfig {
            damage: 1,
            defense: 1,
            range: 1,
            passive_combat_abilities: vec![],
        },
        status: UnitStatus::new(),
        active_abilities: vec![],
    }
}

#[test]
fn a_scripted_session_moves_attacks_and_flips_the_round() {
    let world = World {
        units: vec![
            Some(grunt(Team::Red, 0, 0)),
            Some(grunt(Team::Blue, 3, 0)),
        ],
        tiles: flat_map(5),
    };
    let mut driver = GameDriver::new(world);
    assert_eq!(driver.round_state, RoundState::Input);

    // Select the red unit and walk it next to the blue one.
    driver.tick(GameEvent::LeftClick(HexCoord { q: 0, r: 0 }));
    assert_eq!(driver.selected.selected_unit(), Some(0));
    driver.tick(GameEvent::LeftClick(HexCoord { q: 2, r: 0 }));
    assert_eq!(driver.round_state, RoundState::MovingUnit);
    let mut guard = 0;
    while driver.round_state != RoundState::Input && guard < 10 {
        driver.tick(GameEvent::MovementTick);
        guard += 1;
    }
    assert_eq!(
        driver.world.units[0].as_ref().unwrap().position,
        HexCoord { q: 2, r: 0 }
    );
    assert_eq!(driver.world.units[0].as_ref().unwrap().action_points.left, 8);

    // Attack the adjacent blue unit: the click queues the combat, and the
    // combat phases run over the following ticks.
    driver.tick(GameEvent::LeftClick(HexCoord { q: 3, r: 0 }));
    let mut guard = 0;
    while driver.round_state != RoundState::Input && guard < 10 {
        driver.tick(GameEvent::Idle);
        guard += 1;
    }
    let blue_health = driver.world.units[1]
        .as_ref()
        .map(|u| u.health_points.left);
    assert!(blue_health == Some(4) || blue_health == Some(5));
    let attacker = driver.world.units[0].as_ref().unwrap();
    assert_eq!(attacker.action_points.attacks_this_round, 1);
    assert_eq!(attacker.action_points.left, 6);
    assert!(!driver.log.storage.is_empty());

    // Ending the round refills the budget and hands the turn to blue.
    driver.tick(GameEvent::EndRound);
    assert_eq!(driver.round_state, RoundState::Input);
    assert_eq!(driver.active_team.0, Team::Blue);
    assert_eq!(driver.world.units[0].as_ref().unwrap().action_points.left, 10);
    assert_eq!(
        driver.world.units[0]
            .as_ref()
            .unwrap()
            .action_points
            .attacks_this_round,
        0
    );
}

#[test]
fn an_attack_queued_by_a_click_goes_through_the_combat_phases() {
    let world = World {
        units: vec![
            Some(grunt(Team::Red, 0, 0)),
            Some(grunt(Team::Blue, 1, 0)),
        ],
        tiles: flat_map(3),
    };
    let mut driver = GameDriver::new(world);
    driver.tick(GameEvent::LeftClick(HexCoord { q: 0, r: 0 }));
    driver.tick(GameEvent::LeftClick(HexCoord { q: 1, r: 0 }));
    // The queued combat starts on the next movement-phase entry; drive the
    // idle ticks until the machine settles.
    driver.tick(GameEvent::Idle);
    let mut guard = 0;
    while driver.round_state != RoundState::Input && guard < 10 {
        driver.tick(GameEvent::Idle);
        guard += 1;
    }
    assert_eq!(driver.round_state, RoundState::Input);
}

#[test]
fn an_armed_javelin_spends_a_charge_and_strikes_at_range() {
    let mut thrower = grunt(Team::Red, 0, 0);
    thrower.active_abilities = vec![ActiveAbility::of_kind(ActiveAbilityType::ThrowJavelin)];
    // The target cannot defend, so the javelin hit is certain.
    let mut target = grunt(Team::Blue, 2, 0);
    target.combat_config.defense = 0;
    let world = World {
        units: vec![Some(thrower), Some(target)],
        tiles: flat_map(4),
    };
    let mut driver = GameDriver::new(world);

    driver.tick(GameEvent::ArmAbility(0, 0));
    assert_eq!(driver.round_state, RoundState::ActivateAbility);

    driver.tick(GameEvent::LeftClick(HexCoord { q: 2, r: 0 }));
    let mut guard = 0;
    while driver.round_state != RoundState::Input && guard < 10 {
        driver.tick(GameEvent::Idle);
        guard += 1;
    }
    assert_eq!(driver.round_state, RoundState::Input);
    assert_eq!(
        driver.world.units[1].as_ref().unwrap().health_points.left,
        4,
        "a certain javelin hit costs one health point"
    );
    let thrower = driver.world.units[0].as_ref().unwrap();
    assert_eq!(thrower.active_abilities[0].usages_left, 0);

    // A spent ability cannot be armed again.
    driver.tick(GameEvent::ArmAbility(0, 0));
    assert_eq!(driver.round_state, RoundState::Input);
}

#[test]
fn escape_cancels_an_armed_ability() {
    let mut thrower = grunt(Team::Red, 0, 0);
    thrower.active_abilities = vec![ActiveAbility::of_kind(ActiveAbilityType::ThrowJavelin)];
    let world = World {
        units: vec![Some(thrower), Some(grunt(Team::Blue, 2, 0))],
        tiles: flat_map(4),
    };
    let mut driver = GameDriver::new(world);
    driver.tick(GameEvent::ArmAbility(0, 0));
    assert_eq!(driver.round_state, RoundState::ActivateAbility);
    driver.tick(GameEvent::Cancel);
    assert_eq!(driver.round_state, RoundState::Input);
    assert_eq!(
        driver.world.units[0].as_ref().unwrap().active_abilities[0].usages_left,
        1,
        "cancelling must not spend the charge"
    );
}
