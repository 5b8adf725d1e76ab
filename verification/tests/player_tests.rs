use subsurface::player::{
    life_icon_is_stale, life_icons_to_spawn, shot_decision, Lives, ShotDecision, STARTING_LIVES,
};

#[test]
fn a_game_starts_with_three_lives() {
    assert_eq!(STARTING_LIVES, 3);
    assert_eq!(Lives::new(), Lives(3));
}

#[test]
fn each_hit_costs_a_life_until_none_are_left() {
    let mut lives = Lives::new();
    lives.lose_one();
    assert_eq!(lives, Lives(2));
    lives.lose_one();
    lives.lose_one();
    assert_eq!(lives, Lives(0));
    lives.lose_one();
    assert_eq!(lives, Lives(0));
}

#[test]
fn missing_icons_are_added_in_order() {
    assert_eq!(life_icons_to_spawn(0, 3), vec![1, 2, 3]);
    assert_eq!(life_icons_to_spawn(1, 3), vec![2, 3]);
    assert_eq!(life_icons_to_spawn(3, 3), Vec::<u8>::new());
    assert_eq!(life_icons_to_spawn(3, 2), Vec::<u8>::new());
    assert_eq!(life_icons_to_spawn(0, 0), Vec::<u8>::new());
    assert_eq!(life_icons_to_spawn(253, 255), vec![254, 255]);
}

#[test]
fn icons_beyond_the_lives_left_go() {
    assert!(life_icon_is_stale(3, 2));
    assert!(!life_icon_is_stale(2, 2));
    assert!(!life_icon_is_stale(1, 2));
    assert!(life_icon_is_stale(1, 0));
}

#[test]
fn refresh_after_a_hit_shows_the_remaining_lives() {
    // Three icons shown, two lives left: nothing to add, icon 3 goes.
    let shown: Vec<u8> = vec![1, 2, 3];
    let lives = 2;
    let mut after: Vec<u8> = shown.into_iter().filter(|&i| !life_icon_is_stale(i, lives)).collect();
    after.extend(life_icons_to_spawn(3, lives));
    assert_eq!(after, vec![1, 2]);
}

#[test]
fn firing_waits_for_the_cooldown_and_the_key() {
    assert_eq!(shot_decision(false, true), ShotDecision::CoolingDown);
    assert_eq!(shot_decision(false, false), ShotDecision::CoolingDown);
    assert_eq!(shot_decision(true, false), ShotDecision::Hold);
    assert_eq!(shot_decision(true, true), ShotDecision::Fire);
}
