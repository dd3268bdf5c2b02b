use dndhelper::assets::{
    NationAssetsDefinition, NationAssetsResource, NationKey, UnitAssetsDefinition, UnitKey,
    UnitStats,
};
use dndhelper::flow::{
    deploy_units_input_system, handle_deploy_unit_event, handle_deployment_done_event,
    handle_pick_nation_event, quickstart, setup_hex_grid, skip_pick_commander, DeployPoints,
    PickedNationsResource,
};
use dndhelper::hex::HexCoord;
use dndhelper::round::{start_game, skip_events, ActiveTeam, InGameState, RoundState};
use dndhelper::units::Team;
use dndhelper::world::World;

const NATION_1: &str = "nation 1";
const UNIT_1: &str = "unit 1";

const NATION_2: &str = "nation 2";
const UNIT_2: &str = "unit 2";

fn stats(name: &str) -> UnitStats {
    UnitStats {
        name: name.to_string(),
        max_action_points: 0,
        max_health_points: 0,
        damage: 0,
        defense: 0,
        attack_action_point_cost: 0,
        max_attacks_per_round: 0,
        range: 0,
        passive_combat_abilities: vec![],
        active_abilities: vec![],
    }
}

fn catalogue() -> NationAssetsResource {
    let key_1 = UnitKey {
        nation: NATION_1.to_string(),
        name: UNIT_1.to_string(),
    };
    let key_2 = UnitKey {
        nation: NATION_2.to_string(),
        name: UNIT_2.to_string(),
    };
    NationAssetsResource {
        nation_assets_definition: vec![
            NationAssetsDefinition {
                path: NATION_1.to_string(),
                units: vec![UnitAssetsDefinition {
                    path: UNIT_1.to_string(),
                }],
            },
            NationAssetsDefinition {
                path: NATION_2.to_string(),
                units: vec![UnitAssetsDefinition {
                    path: UNIT_2.to_string(),
                }],
            },
        ],
        unit_stats: vec![
            (key_1.get_stats_asset_path(), stats(UNIT_1)),
            (key_2.get_stats_asset_path(), stats(UNIT_2)),
        ],
    }
}

fn deploy_at(
    w: &mut World,
    assets: &NationAssetsResource,
    active_team: &ActiveTeam,
    deploy_points: &mut DeployPoints,
    unit: UnitKey,
    hex: HexCoord,
) {
    let event = deploy_units_input_system(
        w,
        active_team,
        Some(hex),
        &Some(unit),
        deploy_points,
    )
    .expect("the deployment click must be accepted");
    deploy_points.0 -= 1;
    handle_deploy_unit_event(w, assets, &event).expect("the unit must deploy");
}

#[test]
fn startup_flow() {
    let assets = catalogue();
    let mut w = World {
        units: vec![],
        tiles: setup_hex_grid(4),
    };
    let mut active_team = ActiveTeam(Team::Red);
    let mut picked = PickedNationsResource::new();

    let mut state = start_game(InGameState::Starting);
    assert_eq!(state, InGameState::PickNation);

    let (pick, next) = handle_pick_nation_event(Team::Red, NationKey(NATION_1.to_string()));
    state = next;
    assert_eq!(state, InGameState::PickCommander);
    state = skip_pick_commander(&mut picked, pick, &mut active_team);
    assert_eq!(state, InGameState::PickNation);

    let (pick, next) = handle_pick_nation_event(Team::Blue, NationKey(NATION_2.to_string()));
    state = next;
    assert_eq!(state, InGameState::PickCommander);
    state = skip_pick_commander(&mut picked, pick, &mut active_team);
    assert_eq!(state, InGameState::Events);

    assert_eq!(picked.get(Team::Red).unwrap().nation.0, NATION_1);
    assert_eq!(picked.get(Team::Blue).unwrap().nation.0, NATION_2);

    state = skip_events(state);
    assert_eq!(state, InGameState::DeployUnits);

    let mut deploy_points = DeployPoints::default();
    active_team = ActiveTeam(Team::Red);
    let unit_1_key = UnitKey {
        nation: NATION_1.to_string(),
        name: UNIT_1.to_string(),
    };
    deploy_at(
        &mut w,
        &assets,
        &active_team,
        &mut deploy_points,
        unit_1_key,
        HexCoord { q: 2, r: 0 },
    );

    assert_eq!(w.units.len(), 1);
    let unit = w.units[0].as_ref().unwrap();
    assert_eq!(unit.marker.0, UNIT_1);
    assert_eq!(unit.position, HexCoord { q: 2, r: 0 });
    assert_eq!(unit.team, Team::Red);

    let mut selected = None;
    let done = handle_deployment_done_event(&mut active_team, &mut deploy_points, &mut selected);
    assert!(done.is_none());
    assert_eq!(active_team.0, Team::Blue);

    let unit_2_key = UnitKey {
        nation: NATION_2.to_string(),
        name: UNIT_2.to_string(),
    };
    deploy_at(
        &mut w,
        &assets,
        &active_team,
        &mut deploy_points,
        unit_2_key,
        HexCoord { q: -2, r: 0 },
    );

    assert_eq!(w.units.len(), 2);
    assert!(w
        .units
        .iter()
        .any(|u| u.as_ref().map(|u| u.team) == Some(Team::Red)));
    let blue = w
        .units
        .iter()
        .flatten()
        .find(|u| u.team == Team::Blue)
        .unwrap();
    assert_eq!(blue.marker.0, UNIT_2);
    assert_eq!(blue.position, HexCoord { q: -2, r: 0 });

    let done = handle_deployment_done_event(&mut active_team, &mut deploy_points, &mut selected);
    assert_eq!(done, Some(InGameState::Playing));
}

#[test]
fn quickstart_seeds_both_sides() {
    let assets = catalogue();
    let mut w = World {
        units: vec![],
        tiles: setup_hex_grid(5),
    };
    let mut picked = PickedNationsResource::new();
    let (in_game, round) = quickstart(&mut w, &assets, &mut picked);
    assert_eq!(in_game, InGameState::Playing);
    assert_eq!(round, RoundState::Input);
    assert_eq!(w.units.len(), 10);
    let reds = w
        .units
        .iter()
        .flatten()
        .filter(|u| u.team == Team::Red)
        .count();
    assert_eq!(reds, 5);
    for u in w.units.iter().flatten() {
        match u.team {
            Team::Red => assert_eq!(u.position.q, 4),
            Team::Blue => assert_eq!(u.position.q, -4),
        }
    }
    assert_eq!(picked.get(Team::Red).unwrap().nation.0, NATION_2);
    assert_eq!(picked.get(Team::Blue).unwrap().nation.0, NATION_1);
}

#[test]
fn deployment_is_refused_on_occupied_or_impassable_hexes() {
    let assets = catalogue();
    let mut w = World {
        units: vec![],
        tiles: setup_hex_grid(4),
    };
    let active_team = ActiveTeam(Team::Red);
    let mut deploy_points = DeployPoints::default();
    let key = UnitKey {
        nation: NATION_1.to_string(),
        name: UNIT_1.to_string(),
    };

    let water = w
        .tiles
        .iter()
        .find(|t| t.terrain.name == "Water")
        .expect("the default map holds water")
        .coord;
    assert!(deploy_units_input_system(
        &w,
        &active_team,
        Some(water),
        &Some(key.clone()),
        &deploy_points
    )
    .is_none());

    let plains = w
        .tiles
        .iter()
        .find(|t| t.terrain.name == "Plains")
        .expect("the default map holds plains")
        .coord;
    deploy_at(
        &mut w,
        &assets,
        &active_team,
        &mut deploy_points,
        key.clone(),
        plains,
    );
    assert!(deploy_units_input_system(
        &w,
        &active_team,
        Some(plains),
        &Some(key),
        &deploy_points
    )
    .is_none());
}

#[test]
fn round_end_resets_points_and_flips_the_team_once() {
    let assets = catalogue();
    let mut w = World {
        units: vec![],
        tiles: vec![],
    };
    let mut picked = PickedNationsResource::new();
    quickstart(&mut w, &assets, &mut picked);
    for u in w.units.iter_mut().flatten() {
        u.action_points.left = 0;
        u.action_points.attacks_this_round = 0;
    }

    let mut active_team = ActiveTeam(Team::Red);
    let mut selected = Some(3usize);
    let next = dndhelper::round::round_end_system(&mut w, &mut active_team, &mut selected);
    assert_eq!(next, RoundState::Input);
    assert_eq!(active_team.0, Team::Blue);
    assert!(selected.is_none());
    for u in w.units.iter().flatten() {
        assert_eq!(u.action_points.left, u.action_points.max);
        assert_eq!(u.action_points.attacks_this_round, 0);
    }
}
