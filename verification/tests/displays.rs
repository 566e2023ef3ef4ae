use starforged_dice::rolls::{ActionRoll, CustomRoll, OracleRoll, Outcome, ProgressRoll, RolledDie};

#[test]
fn outcome_names() {
    assert_eq!(Outcome::Miss.display(), "Miss");
    assert_eq!(Outcome::WeakHit.display(), "Weak Hit");
    assert_eq!(Outcome::StrongHit.display(), "Strong Hit");
}

#[test]
fn action_display_with_bonus() {
    let r = ActionRoll { action_die: 3, bonus: Some(2), challenge_dice: [4, 9] };
    assert_eq!(r.display(), "Action Roll: [3]+2 = 5 vs [4] [9] (Weak Hit)");
}

#[test]
fn action_display_matched() {
    let r = ActionRoll { action_die: 3, bonus: Some(2), challenge_dice: [4, 4] };
    assert_eq!(r.display(), "Action Roll: [3]+2 = 5 vs [4] [4] (Matched Strong Hit)");
}

#[test]
fn action_display_without_bonus() {
    let r = ActionRoll { action_die: 3, bonus: None, challenge_dice: [7, 8] };
    assert_eq!(r.display(), "Action Roll: [3] vs [7] [8]");
    let matched = ActionRoll { action_die: 3, bonus: None, challenge_dice: [7, 7] };
    assert_eq!(matched.display(), "Action Roll: [3] vs [7] [7] (Match)");
}

#[test]
fn progress_display_with_bonus() {
    let r = ProgressRoll { bonus: Some(9), challenge_dice: [1, 10] };
    assert_eq!(r.display(), "Progress Roll: 9 vs [1] [10] (Weak Hit)");
    let clamped = ProgressRoll { bonus: Some(12), challenge_dice: [2, 3] };
    assert_eq!(clamped.display(), "Progress Roll: 10 vs [2] [3] (Strong Hit)");
}

#[test]
fn progress_display_without_bonus() {
    let r = ProgressRoll { bonus: None, challenge_dice: [2, 5] };
    assert_eq!(r.display(), "Progress Roll: [2] [5]");
    let matched = ProgressRoll { bonus: None, challenge_dice: [2, 2] };
    assert_eq!(matched.display(), "Progress Roll: [2] [2] (Match)");
}

#[test]
fn oracle_display_keeps_draw_order() {
    let r = OracleRoll { outcomes: vec![55, 3, 100] };
    assert_eq!(r.display(), "Oracle Roll: [55] [3] [100]");
}

#[test]
fn custom_display_groups_and_totals() {
    let roll = CustomRoll {
        rolls: vec![
            RolledDie { size: 6, roll: 5 },
            RolledDie { size: 6, roll: 2 },
            RolledDie { size: 4, roll: 1 },
        ],
        bonus: 3,
    };
    assert_eq!(roll.display(), "Roll 2d6 + 1d4 + 3:  [5] [2] [1] + 3  (Total: 11)");
}

#[test]
fn custom_display_single_die_no_bonus_omits_total() {
    let roll = CustomRoll { rolls: vec![RolledDie { size: 4, roll: 2 }], bonus: 0 };
    assert_eq!(roll.display(), "Roll 1d4:  [2]");
}

#[test]
fn custom_display_multiple_dice_no_bonus() {
    let roll = CustomRoll {
        rolls: vec![RolledDie { size: 8, roll: 7 }, RolledDie { size: 8, roll: 1 }],
        bonus: 0,
    };
    assert_eq!(roll.display(), "Roll 2d8:  [7] [1]  (Total: 8)");
}

#[test]
fn custom_display_single_die_with_bonus_has_total() {
    let roll = CustomRoll { rolls: vec![RolledDie { size: 20, roll: 13 }], bonus: 2 };
    assert_eq!(roll.display(), "Roll 1d20 + 2:  [13] + 2  (Total: 15)");
}

#[test]
fn multi_digit_numbers_render_in_decimal() {
    let r = OracleRoll { outcomes: vec![100, 10, 1] };
    assert_eq!(r.display(), "Oracle Roll: [100] [10] [1]");
}
