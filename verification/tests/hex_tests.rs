use dndhelper::hex::{hex_distance, HexCoord};

#[test]
fn hexagonal_distances_on_the_axial_grid() {
    let origin = HexCoord { q: 0, r: 0 };
    assert_eq!(hex_distance(origin, origin), 0);
    assert_eq!(hex_distance(origin, HexCoord { q: 1, r: 0 }), 1);
    assert_eq!(hex_distance(origin, HexCoord { q: 0, r: 1 }), 1);
    assert_eq!(hex_distance(origin, HexCoord { q: 1, r: -1 }), 1);
    assert_eq!(hex_distance(origin, HexCoord { q: 1, r: 1 }), 2);
    assert_eq!(hex_distance(origin, HexCoord { q: -2, r: 0 }), 2);
    assert_eq!(hex_distance(origin, HexCoord { q: 3, r: -2 }), 3);
    assert_eq!(
        hex_distance(HexCoord { q: 2, r: -1 }, HexCoord { q: 1, r: 1 }),
        2
    );
}

#[test]
fn hexagonal_distance_is_symmetric() {
    let pairs = [
        (HexCoord { q: 0, r: 0 }, HexCoord { q: 5, r: -3 }),
        (HexCoord { q: -2, r: 7 }, HexCoord { q: 4, r: 4 }),
        (HexCoord { q: 1, r: 1 }, HexCoord { q: 1, r: 1 }),
    ];
    for (a, b) in pairs {
        assert_eq!(hex_distance(a, b), hex_distance(b, a));
    }
}
