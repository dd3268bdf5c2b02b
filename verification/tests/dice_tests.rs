use dndhelper::dice::Dice;

fn test_dice_roll<const N: u8>() {
    let result = Dice::<N>::roll();

    assert!(result >= 1, "Expected {result} to be greater than 1");
    assert!(
        result <= N,
        "Expected {result} to be less or equal than {N}"
    );
}

#[test]
fn d6() {
    test_dice_roll::<6>()
}

#[test]
fn d8() {
    test_dice_roll::<8>()
}

#[test]
fn d20() {
    test_dice_roll::<20>()
}

#[test]
fn dice_rolls_cover_every_face() {
    let mut seen = [false; 6];
    for _ in 0..10_000 {
        let roll = Dice::<6>::roll();
        assert!((1..=6).contains(&roll));
        seen[(roll - 1) as usize] = true;
    }
    assert!(
        seen.iter().all(|s| *s),
        "every face of a d6 should appear over many rolls: {seen:?}"
    );
}
