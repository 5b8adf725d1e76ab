use rand::rngs::StdRng;
use rand::SeedableRng;
use subsurface::bubbles::{roll_wiggle, wiggle_from_roll, Wiggle, WIGGLE_FACES};
use subsurface::random::RandomSource;

#[test]
fn lowest_face_goes_left_highest_goes_right() {
    assert_eq!(WIGGLE_FACES, 5);
    assert_eq!(wiggle_from_roll(0), Wiggle::Left);
    assert_eq!(wiggle_from_roll(1), Wiggle::Still);
    assert_eq!(wiggle_from_roll(2), Wiggle::Still);
    assert_eq!(wiggle_from_roll(3), Wiggle::Still);
    assert_eq!(wiggle_from_roll(4), Wiggle::Right);
}

#[test]
fn rolled_wiggles_take_all_three_values() {
    let mut source = RandomSource(StdRng::seed_from_u64(7));
    let (mut left, mut right, mut still) = (0, 0, 0);
    for _ in 0..2000 {
        match roll_wiggle(&mut source) {
            Wiggle::Left => left += 1,
            Wiggle::Right => right += 1,
            Wiggle::Still => still += 1,
        }
    }
    assert!(left > 0 && right > 0 && still > 0);
    // Three of five faces keep the bubble still.
    assert!(still > left && still > right);
}
