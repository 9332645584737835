use bevy_dice::toss::{Toss, FULL_TURN};

#[test]
fn a_full_turn_is_360_degrees_in_thousandths() {
    assert_eq!(FULL_TURN, 360_000);
}

#[test]
fn a_toss_from_draws_adds_the_rise_to_the_least_height() {
    let toss = Toss::from_draws(1, 2, 3, 2_000, 750);
    assert_eq!(toss, Toss { turn_x: 1, turn_y: 2, turn_z: 3, height: 2_750 });
    let top = Toss::from_draws(0, 0, 0, u32::MAX - 5, 5);
    assert_eq!(top.height, u32::MAX);
}

#[test]
fn a_random_toss_stays_in_range() {
    for _ in 0..500 {
        let toss = Toss::random(2_000, 5_000);
        assert!(toss.turn_x < FULL_TURN);
        assert!(toss.turn_y < FULL_TURN);
        assert!(toss.turn_z < FULL_TURN);
        assert!(2_000 <= toss.height && toss.height < 5_000);
    }
}

#[test]
fn a_range_of_one_height_leaves_no_choice() {
    for _ in 0..50 {
        assert_eq!(Toss::random(2_000, 2_001).height, 2_000);
        assert_eq!(Toss::random(0, 1).height, 0);
        assert_eq!(Toss::random(u32::MAX - 1, u32::MAX).height, u32::MAX - 1);
    }
}

#[test]
fn random_tosses_differ() {
    let first = Toss::random(0, u32::MAX);
    let mut differs = false;
    for _ in 0..64 {
        if Toss::random(0, u32::MAX) != first {
            differs = true;
        }
    }
    assert!(differs);
}
