use dndhelper::engagement::update_engagement;
use dndhelper::hex::{hex_distance, HexCoord};
use dndhelper::units::{
    ActionPoints, CombatConfig, HealthPoints, Team, Unit, UnitMarker, UnitStatus,
};
use dndhelper::world::World;

fn soldier(team: Team, q: i32, r: i32) -> Unit {
    Unit {
        marker: UnitMarker("soldier".to_string()),
        team,
        position: HexCoord { q, r },
        action_points: ActionPoints::new(10, 1, 1),
        health_points: HealthPoints::new(5),
        combat_config: CombatConfig {
            damage: 1,
            defense: 1,
            range: 1,
            passive_combat_abilities: vec![],
        },
        status: UnitStatus::new(),
        active_abilities: vec![],
    }
}

fn assert_engagement_symmetric(w: &World) {
    for a in 0..w.units.len() {
        for b in 0..w.units.len() {
            let (ua, ub) = match (&w.units[a], &w.units[b]) {
                (Some(ua), Some(ub)) => (ua, ub),
                _ => continue,
            };
            if a == b || ua.team == ub.team {
                continue;
            }
            let adjacent = hex_distance(ua.position, ub.position) == 1;
            assert_eq!(
                ua.status.is_engaged_with(b),
                adjacent,
                "unit {a} vs {b}: engagement must match adjacency"
            );
            assert_eq!(
                ua.status.is_engaged_with(b),
                ub.status.is_engaged_with(a),
                "unit {a} vs {b}: engagement must be mutual"
            );
        }
    }
}

#[test]
fn engagement_matches_adjacency_after_any_move() {
    let mut w = World {
        units: vec![
            Some(soldier(Team::Red, 0, 0)),
            Some(soldier(Team::Blue, 1, 0)),
            Some(soldier(Team::Blue, 3, 3)),
            Some(soldier(Team::Red, 0, 1)),
        ],
        tiles: vec![],
    };
    for moved in 0..w.units.len() {
        update_engagement(&mut w, moved);
    }
    assert_engagement_symmetric(&w);

    assert!(w.units[0].as_ref().unwrap().status.is_engaged_with(1));
    assert!(w.units[1].as_ref().unwrap().status.is_engaged_with(0));
    assert!(w.units[1].as_ref().unwrap().status.is_engaged_with(3));
    assert!(!w.units[0].as_ref().unwrap().status.is_engaged_with(2));

    w.units[0].as_mut().unwrap().position = HexCoord { q: 5, r: 5 };
    update_engagement(&mut w, 0);
    assert_engagement_symmetric(&w);
    assert!(!w.units[0].as_ref().unwrap().status.is_engaged_with(1));
    assert!(!w.units[1].as_ref().unwrap().status.is_engaged_with(0));
}

#[test]
fn moving_next_to_an_enemy_engages_both_sides() {
    let mut w = World {
        units: vec![
            Some(soldier(Team::Red, 0, 0)),
            Some(soldier(Team::Blue, 4, 0)),
        ],
        tiles: vec![],
    };
    update_engagement(&mut w, 0);
    assert!(!w.units[0].as_ref().unwrap().status.is_engaged_with(1));

    w.units[0].as_mut().unwrap().position = HexCoord { q: 3, r: 0 };
    update_engagement(&mut w, 0);
    assert!(w.units[0].as_ref().unwrap().status.is_engaged_with(1));
    assert!(w.units[1].as_ref().unwrap().status.is_engaged_with(0));
}
