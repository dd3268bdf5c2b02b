use dndhelper::abilities::{ActiveAbility, ActiveAbilityType};
use dndhelper::hex::{hex_distance, HexCoord};
use dndhelper::input::{handle_selected_unit_input, InputDecision};
use dndhelper::reachable::{compute_current_path, update_reachable_hexes_cache, SelectedUnitResource};
use dndhelper::round::ActiveTeam;
use dndhelper::terrain::{MovementCost, Terrain};
use dndhelper::units::{
    ActionPoints, CombatConfig, HealthPoints, Team, Unit, UnitMarker, UnitStatus,
};
use dndhelper::world::{Tile, World};

fn flat_map(radius: i32) -> Vec<Tile> {
    let origin = HexCoord { q: 0, r: 0 };
    let mut tiles = Vec::new();
    for q in -radius..=radius {
        for r in -radius..=radius {
            let c = HexCoord { q, r };
            if hex_distance(origin, c) <= radius as u32 {
                tiles.push(Tile {
                    coord: c,
                    terrain: Terrain {
                        name: "plains".to_string(),
                        movement_cost: MovementCost::Passable(1),
                    },
                });
            }
        }
    }
    tiles
}

fn scout(team: Team, q: i32, r: i32, action_points: usize) -> Unit {
    Unit {
        marker: UnitMarker("scout".to_string()),
        team,
        position: HexCoord { q, r },
        action_points: ActionPoints::new(action_points, 1, 1),
        health_points: HealthPoints::new(5),
        combat_config: CombatConfig {
            damage: 1,
            defense: 1,
            range: 1,
            passive_combat_abilities: vec![],
        },
        status: UnitStatus::new(),
        active_abilities: vec![],
    }
}

#[test]
fn reachable_hexes_follow_the_action_point_budget() {
    let w = World {
        units: vec![Some(scout(Team::Red, 0, 0, 1))],
        tiles: flat_map(3),
    };
    let mut sur = SelectedUnitResource::new();
    sur.set_selected_unit(Some(0));
    update_reachable_hexes_cache(&w, &mut sur, None);
    let reachable = sur.reachable_hexes().as_ref().expect("cache must fill");

    let origin = HexCoord { q: 0, r: 0 };
    for c in reachable.iter() {
        assert!(
            hex_distance(origin, *c) <= 1,
            "with one action point on cost-1 ground only adjacent hexes are reachable, got {c:?}"
        );
    }
    for q in -1..=1 {
        for r in -1..=1 {
            let c = HexCoord { q, r };
            if hex_distance(origin, c) == 1 {
                assert!(
                    reachable.contains(&c),
                    "adjacent hex {c:?} must be reachable"
                );
            }
        }
    }
}

#[test]
fn attackable_enemies_extend_the_reachable_set() {
    let mut w = World {
        units: vec![
            Some(scout(Team::Red, 0, 0, 0)),
            Some(scout(Team::Blue, 1, 0, 5)),
        ],
        tiles: flat_map(3),
    };
    w.units[0]
        .as_mut()
        .unwrap()
        .action_points
        .attack_action_point_cost = 0;
    let mut sur = SelectedUnitResource::new();
    sur.set_selected_unit(Some(0));
    update_reachable_hexes_cache(&w, &mut sur, None);
    let reachable = sur.reachable_hexes().as_ref().expect("cache must fill");
    assert!(
        reachable.contains(&HexCoord { q: 1, r: 0 }),
        "the adjacent enemy is attackable even with no movement budget"
    );
}

#[test]
fn an_armed_ability_overrides_the_targeting_rule() {
    let w = World {
        units: vec![
            Some(scout(Team::Red, 0, 0, 5)),
            Some(scout(Team::Blue, 2, 0, 5)),
            Some(scout(Team::Blue, 3, 0, 5)),
        ],
        tiles: flat_map(4),
    };
    let mut sur = SelectedUnitResource::new();
    sur.set_selected_unit(Some(0));
    let ability = ActiveAbility::of_kind(ActiveAbilityType::ThrowJavelin);
    update_reachable_hexes_cache(&w, &mut sur, Some((0, ability)));
    let reachable = sur.reachable_hexes().as_ref().expect("cache must fill");
    assert_eq!(reachable.len(), 1);
    assert!(reachable.contains(&HexCoord { q: 2, r: 0 }));
}

#[test]
fn shortest_path_connects_the_endpoints() {
    let w = World {
        units: vec![Some(scout(Team::Red, 0, 0, 10))],
        tiles: flat_map(4),
    };
    let path = compute_current_path(&w, Some(0), Some(HexCoord { q: 2, r: 0 }))
        .expect("a path over flat ground exists");
    assert_eq!(path.first(), Some(&HexCoord { q: 0, r: 0 }));
    assert_eq!(path.last(), Some(&HexCoord { q: 2, r: 0 }));
    assert_eq!(path.len(), 3);
    for pair in path.windows(2) {
        assert_eq!(hex_distance(pair[0], pair[1]), 1);
    }
}

#[test]
fn a_click_on_a_reachable_hex_orders_a_move() {
    let w = World {
        units: vec![Some(scout(Team::Red, 0, 0, 10))],
        tiles: flat_map(4),
    };
    let mut sur = SelectedUnitResource::new();
    sur.set_selected_unit(Some(0));
    update_reachable_hexes_cache(&w, &mut sur, None);
    let goal = HexCoord { q: 2, r: 0 };
    let path = compute_current_path(&w, Some(0), Some(goal));
    let decision = handle_selected_unit_input(&w, &sur, &ActiveTeam(Team::Red), goal, &path);
    match decision {
        InputDecision::Move(m) => {
            assert_eq!(m.entity, 0);
            assert_eq!(m.path, vec![HexCoord { q: 1, r: 0 }, HexCoord { q: 2, r: 0 }]);
        }
        _ => panic!("a click on a reachable free hex must order a move"),
    }
}

#[test]
fn a_click_on_an_enemy_in_range_orders_an_attack() {
    let w = World {
        units: vec![
            Some(scout(Team::Red, 0, 0, 10)),
            Some(scout(Team::Blue, 1, 0, 10)),
        ],
        tiles: flat_map(4),
    };
    let mut sur = SelectedUnitResource::new();
    sur.set_selected_unit(Some(0));
    update_reachable_hexes_cache(&w, &mut sur, None);
    let decision = handle_selected_unit_input(
        &w,
        &sur,
        &ActiveTeam(Team::Red),
        HexCoord { q: 1, r: 0 },
        &None,
    );
    match decision {
        InputDecision::Attack(e) => {
            assert_eq!(e.attacker, 0);
            assert_eq!(e.defender, 1);
        }
        _ => panic!("a click on an adjacent enemy must order an attack"),
    }
}

#[test]
fn a_click_on_an_own_unit_selects_it() {
    let w = World {
        units: vec![
            Some(scout(Team::Red, 0, 0, 10)),
            Some(scout(Team::Red, 2, 0, 10)),
        ],
        tiles: flat_map(4),
    };
    let sur = SelectedUnitResource::new();
    let decision = handle_selected_unit_input(
        &w,
        &sur,
        &ActiveTeam(Team::Red),
        HexCoord { q: 2, r: 0 },
        &None,
    );
    match decision {
        InputDecision::Select(id) => assert_eq!(id, 1),
        _ => panic!("a click on an own unit must select it"),
    }
}
