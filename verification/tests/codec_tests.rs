use dndhelper::abilities::{ActiveAbilityType, PassiveCombatAbility};
use dndhelper::assets::UnitStats;
use dndhelper::codec::{from_ron_str, to_ron_string};

fn sample_stats() -> UnitStats {
    UnitStats {
        name: "Manf".to_string(),
        max_action_points: 10,
        max_health_points: 5,
        damage: 1,
        defense: 10,
        attack_action_point_cost: 2,
        max_attacks_per_round: 1,
        range: 1,
        passive_combat_abilities: vec![
            PassiveCombatAbility::ArmorBreak,
            PassiveCombatAbility::HitAndRun,
        ],
        active_abilities: vec![ActiveAbilityType::ThrowJavelin],
    }
}

fn assert_stats_equal(a: &UnitStats, b: &UnitStats) {
    assert_eq!(a.name, b.name);
    assert_eq!(a.max_action_points, b.max_action_points);
    assert_eq!(a.max_health_points, b.max_health_points);
    assert_eq!(a.damage, b.damage);
    assert_eq!(a.defense, b.defense);
    assert_eq!(a.attack_action_point_cost, b.attack_action_point_cost);
    assert_eq!(a.max_attacks_per_round, b.max_attacks_per_round);
    assert_eq!(a.range, b.range);
    assert_eq!(a.passive_combat_abilities, b.passive_combat_abilities);
    assert_eq!(a.active_abilities, b.active_abilities);
}

#[test]
fn unit_stats_round_trip_preserves_all_fields() {
    let stats = sample_stats();
    let text = to_ron_string(&stats);
    let expected = "(name:\"Manf\",max_action_points:10,max_health_points:5,damage:1,defense:10,attack_action_point_cost:2,max_attacks_per_round:1,range:1,passive_combat_abilities:[ArmorBreak,HitAndRun],active_abilities:[ThrowJavelin])";
    assert_eq!(text, expected);
    let reloaded = from_ron_str(&text).expect("canonical text must reload");
    assert_stats_equal(&stats, &reloaded);
}

#[test]
fn unit_stats_round_trip_empty_lists() {
    let stats = UnitStats {
        name: "Tree".to_string(),
        max_action_points: 0,
        max_health_points: 0,
        damage: 0,
        defense: 0,
        attack_action_point_cost: 0,
        max_attacks_per_round: 0,
        range: 0,
        passive_combat_abilities: vec![],
        active_abilities: vec![],
    };
    let text = to_ron_string(&stats);
    let reloaded = from_ron_str(&text).expect("canonical text must reload");
    assert_stats_equal(&stats, &reloaded);
}

#[test]
fn serialized_stats_are_real_ron() {
    let stats = sample_stats();
    let text = to_ron_string(&stats);
    let value: ron::Value = ron::from_str(&text).expect("the canonical text is valid RON");
    match value {
        ron::Value::Map(_) => {}
        other => panic!("expected a RON map-like value, got {other:?}"),
    }
}

#[test]
fn parser_rejects_non_canonical_text() {
    assert!(from_ron_str("").is_none());
    assert!(from_ron_str("(name:\"A\",max_action_points:007)").is_none());
    assert!(from_ron_str("nonsense").is_none());
}

#[test]
fn asdfasdf() {
    let bytes = [
        40u8, 91, 13, 10, 32, 32, 32, 32, 40, 13, 10, 32, 32, 32, 32, 32, 32, 32, 32, 110, 97,
        116, 105, 111, 110,
    ];

    let map = bytes.as_slice().into_iter().map(|b| char::from(*b));
    let s = String::from_iter(map);

    println!("{s}");
}
