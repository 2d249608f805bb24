use mplz_core::dice_rolling::{DiceResult, DiceRolling, UtilityDice};
use mplz_core::game::TurnDice;

#[test]
fn faces_add_up_and_doubles_are_told() {
    assert_eq!(DiceResult::from_faces(3, 3), DiceResult::Same(6));
    assert_eq!(DiceResult::from_faces(1, 6), DiceResult::Different(7));
    assert_eq!(DiceResult::from_faces(6, 6).unwrap(), 12);
    assert_eq!(DiceResult::from_faces(1, 2).get_num(), 3);
}

#[test]
fn only_throws_of_two_dice_are_valid() {
    assert!(DiceResult::Same(2).is_valid());
    assert!(DiceResult::Same(12).is_valid());
    assert!(!DiceResult::Same(7).is_valid());
    assert!(!DiceResult::Same(14).is_valid());
    assert!(DiceResult::Different(3).is_valid());
    assert!(DiceResult::Different(11).is_valid());
    assert!(!DiceResult::Different(2).is_valid());
    assert!(!DiceResult::Different(12).is_valid());
}

#[test]
fn rolled_dice_are_valid_and_vary() {
    let mut seen = [false; 13];
    for _ in 0..2000 {
        let result = DiceRolling::roll();
        assert!(result.is_valid());
        seen[result.unwrap() as usize] = true;
    }
    // A generator that handed its lower bound back would only ever show two.
    for total in 2..=12 {
        assert!(seen[total], "no throw of {} in two thousand", total);
    }
}

#[test]
fn dice_of_a_turn_fit_the_players() {
    let dice = TurnDice::roll(4);
    assert_eq!(dice.throws.len(), 3);
    assert_eq!(dice.exposures.len(), 4);
    for throw in &dice.throws {
        assert!(throw.movement.is_valid());
        assert!(throw.rent.is_valid());
    }
    let utility = UtilityDice::roll();
    assert!(utility.electric_company.is_valid());
    assert!(utility.get(28).is_valid());
}
