use dndhelper::assets::{
    default_attack_action_point_cost, default_max_attacks_per_round, default_range,
    NationAssetsDefinition, NationAssetsResource, NationKey, UnitAssetsDefinition, UnitKey,
};

use dndhelper::hex::{hex_distance, HexCoord};
use dndhelper::flow::setup_hex_grid;

#[test]
fn unit_key_asset_paths() {
    let key = UnitKey {
        nation: "Kurzland".to_string(),
        name: "Tree".to_string(),
    };
    assert_eq!(
        key.get_image_asset_path(),
        "nations/Kurzland/units/Tree/sprite.png"
    );
    assert_eq!(
        key.get_stats_asset_path(),
        "nations/Kurzland/units/Tree/unit.stats.ron"
    );
}

#[test]
fn nation_definition_lists_its_units() {
    let nation = NationAssetsDefinition {
        path: "Mansreich".to_string(),
        units: vec![
            UnitAssetsDefinition {
                path: "Manf".to_string(),
            },
            UnitAssetsDefinition {
                path: "Tree".to_string(),
            },
        ],
    };
    let keys = nation.get_units();
    assert_eq!(keys.len(), 2);
    assert_eq!(keys[0].nation, "Mansreich");
    assert_eq!(keys[0].name, "Manf");
    assert_eq!(keys[1].name, "Tree");
}

#[test]
fn catalogue_lookups() {
    let assets = NationAssetsResource {
        nation_assets_definition: vec![
            NationAssetsDefinition {
                path: "Kurzland".to_string(),
                units: vec![UnitAssetsDefinition {
                    path: "Tree".to_string(),
                }],
            },
        ],
        unit_stats: vec![],
    };
    let nations = assets.get_nations();
    assert_eq!(nations.len(), 1);
    assert_eq!(nations[0].name, "Kurzland");

    let found = assets.get_nation(&NationKey("Kurzland".to_string()));
    assert!(found.is_some());
    let missing = assets.get_nation(&NationKey("Atlantis".to_string()));
    assert!(missing.is_none());

    let units = assets.get_units(&NationKey("Kurzland".to_string()));
    assert_eq!(units.len(), 1);
    assert_eq!(units[0].name, "Tree");

    assert_eq!(default_attack_action_point_cost(), 2);
    assert_eq!(default_max_attacks_per_round(), 1);
    assert_eq!(default_range(), 1);
}

#[test]
fn the_default_map_covers_the_radius_with_unique_tiles() {
    let tiles = setup_hex_grid(5);
    let origin = HexCoord { q: 0, r: 0 };
    for t in tiles.iter() {
        assert!(hex_distance(origin, t.coord) <= 5);
    }
    for (i, a) in tiles.iter().enumerate() {
        for b in tiles.iter().skip(i + 1) {
            assert_ne!(a.coord, b.coord, "tile coordinates must be unique");
        }
    }
    let expected: usize = 91;
    assert_eq!(tiles.len(), expected, "a radius-5 hexagon holds 91 hexes");
}

#[test]
fn unit_key_string_form_round_trips() {
    let key = UnitKey {
        nation: "Mansreich".to_string(),
        name: "Manf".to_string(),
    };
    let text = key.to_key_string();
    assert_eq!(text, "Mansreich:Manf");
    let back = UnitKey::from_key_string(&text).expect("a single colon splits the key");
    assert_eq!(back.nation, "Mansreich");
    assert_eq!(back.name, "Manf");

    assert!(UnitKey::from_key_string("no colon here").is_none());
    assert!(UnitKey::from_key_string("too:many:colons").is_none());
}
