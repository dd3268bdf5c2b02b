use dndhelper::hex::{hex_distance, HexCoord};
use dndhelper::movement::{
    check_whether_movement_has_ended, handle_move_event, move_unit_tick, MoveUnitEvent,
    MovingUnitsResource,
};
use dndhelper::round::RoundState;
use dndhelper::terrain::{MovementCost, Terrain};
use dndhelper::units::{
    ActionPoints, CombatConfig, HealthPoints, Team, Unit, UnitMarker, UnitStatus,
};
use dndhelper::world::{Tile, World};

const MAX_ACTION_POINTS: usize = 10;

fn flat_map(radius: i32) -> Vec<Tile> {
    let origin = HexCoord { q: 0, r: 0 };
    let mut tiles = Vec::new();
    for q in -radius..=radius {
        for r in -radius..=radius {
            let c = HexCoord { q, r };
            if hex_distance(origin, c) <= radius as u32 {
                tiles.push(Tile {
                    coord: c,
                    terrain: Terrain {
                        name: "test terrain".to_string(),
                        movement_cost: MovementCost::Passable(1),
                    },
                });
            }
        }
    }
    tiles
}

fn test_unit(team: Team, q: i32, r: i32) -> Unit {
    Unit {
        marker: UnitMarker("test unit".to_string()),
        team,
        position: HexCoord { q, r },
        action_points: ActionPoints::new(MAX_ACTION_POINTS, 1, 1),
        health_points: HealthPoints::new(5),
        combat_config: CombatConfig {
            damage: 1,
            defense: 1,
            range: 1,
            passive_combat_abilities: vec![],
        },
        status: UnitStatus::new(),
        active_abilities: vec![],
    }
}

#[test]
fn move_a_unit() {
    let mut w = World {
        units: vec![Some(test_unit(Team::Red, 0, 0))],
        tiles: flat_map(5),
    };
    let mut moving = MovingUnitsResource::new();

    let accepted = handle_move_event(
        &mut w,
        &mut moving,
        &MoveUnitEvent {
            entity: 0,
            path: vec![
                HexCoord { q: 1, r: 0 },
                HexCoord { q: 2, r: 0 },
                HexCoord { q: 2, r: 1 },
            ],
        },
    );
    assert!(accepted);
    let mut round_state = RoundState::MovingUnit;
    assert_eq!(round_state, RoundState::MovingUnit);

    let mut m = moving.0.remove(0);

    move_unit_tick(&mut w, &mut m);
    assert_eq!(w.units[0].as_ref().unwrap().position, HexCoord { q: 1, r: 0 });

    move_unit_tick(&mut w, &mut m);
    assert_eq!(w.units[0].as_ref().unwrap().position, HexCoord { q: 2, r: 0 });

    move_unit_tick(&mut w, &mut m);
    assert_eq!(w.units[0].as_ref().unwrap().position, HexCoord { q: 2, r: 1 });

    moving.0.push(m);
    let ended = check_whether_movement_has_ended(&mut moving);
    assert!(ended);
    if ended {
        round_state = RoundState::Input;
    }

    assert_eq!(
        w.units[0].as_ref().unwrap().action_points.left,
        MAX_ACTION_POINTS - 3
    );
    assert_eq!(round_state, RoundState::Input);
}

#[test]
fn moving_a_unit_triggers_enemy_attacks_on_the_way() {
    let mut w = World {
        units: vec![
            Some(test_unit(Team::Red, 0, 0)),
            Some(test_unit(Team::Blue, 1, 1)),
        ],
        tiles: flat_map(5),
    };
    let unit_entity = 0usize;
    let enemy_entity = 1usize;
    let mut moving = MovingUnitsResource::new();

    let accepted = handle_move_event(
        &mut w,
        &mut moving,
        &MoveUnitEvent {
            entity: unit_entity,
            path: vec![
                HexCoord { q: 1, r: 0 },
                HexCoord { q: 2, r: -1 },
                HexCoord { q: 3, r: -2 },
            ],
        },
    );
    assert!(accepted);

    let mut m = moving.0.remove(0);

    let events = move_unit_tick(&mut w, &mut m);
    assert_eq!(events.len(), 0);

    let events = move_unit_tick(&mut w, &mut m);
    let combat_event = events.first().expect("combat event in second movement step");
    assert_eq!(combat_event.defender, unit_entity);
    assert_eq!(combat_event.attacker, enemy_entity);
    assert_eq!(events.len(), 1);

    let events = move_unit_tick(&mut w, &mut m);
    assert_eq!(events.len(), 0);
}

#[test]
fn move_order_over_impassable_ground_is_refused() {
    let mut tiles = flat_map(2);
    for t in tiles.iter_mut() {
        if t.coord == (HexCoord { q: 1, r: 0 }) {
            t.terrain.movement_cost = MovementCost::Impassable;
        }
    }
    let mut w = World {
        units: vec![Some(test_unit(Team::Red, 0, 0))],
        tiles,
    };
    let mut moving = MovingUnitsResource::new();
    let accepted = handle_move_event(
        &mut w,
        &mut moving,
        &MoveUnitEvent {
            entity: 0,
            path: vec![HexCoord { q: 1, r: 0 }],
        },
    );
    assert!(!accepted);
    assert_eq!(moving.0.len(), 0);
    assert_eq!(
        w.units[0].as_ref().unwrap().action_points.left,
        MAX_ACTION_POINTS
    );
}
