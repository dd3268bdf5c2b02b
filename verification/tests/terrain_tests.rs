use dndhelper::terrain::MovementCost;

#[test]
fn test_get_modified_algorithm_cost() {
    assert_eq!(MovementCost::Impassable.get_modified_algorithm_cost(), None);
    assert_eq!(
        MovementCost::Passable(0).get_modified_algorithm_cost(),
        Some(0)
    );
    assert_eq!(
        MovementCost::Passable(1).get_modified_algorithm_cost(),
        Some(0)
    );
    assert_eq!(
        MovementCost::Passable(2).get_modified_algorithm_cost(),
        Some(1)
    );
    assert_eq!(
        MovementCost::Passable(3).get_modified_algorithm_cost(),
        Some(2)
    );
}

#[test]
fn movement_cost_display() {
    assert_eq!(MovementCost::Impassable.display_string(), "Impassable");
    assert_eq!(MovementCost::Passable(7).display_string(), "7");
    assert_eq!(MovementCost::Passable(120).display_string(), "120");
}
