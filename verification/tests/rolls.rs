use starforged_dice::parse_roll_spec::parse;
use starforged_dice::rolls::{
    ActionRoll, CustomRoll, OracleRoll, Outcome, ProgressRoll, RollSpec, RolledDie,
};

#[test]
fn action_score_adds_and_clamps() {
    let r = ActionRoll { action_die: 3, bonus: Some(2), challenge_dice: [4, 9] };
    assert_eq!(r.score(), Some(5));
    let clamped = ActionRoll { action_die: 6, bonus: Some(30), challenge_dice: [1, 1] };
    assert_eq!(clamped.score(), Some(10));
}

#[test]
fn action_score_unknown_without_bonus() {
    let r = ActionRoll { action_die: 3, bonus: None, challenge_dice: [4, 9] };
    assert_eq!(r.score(), None);
    assert_eq!(r.outcome(), None);
}

#[test]
fn outcome_classification_table() {
    // score 7 comes from an action die of 5 and a bonus of 2
    let strong = ActionRoll { action_die: 5, bonus: Some(2), challenge_dice: [3, 4] };
    assert_eq!(strong.score(), Some(7));
    assert_eq!(strong.outcome(), Some(Outcome::StrongHit));
    assert!(!strong.is_match());

    let weak = ActionRoll { action_die: 5, bonus: Some(2), challenge_dice: [8, 2] };
    assert_eq!(weak.outcome(), Some(Outcome::WeakHit));

    let miss = ActionRoll { action_die: 5, bonus: Some(2), challenge_dice: [9, 8] };
    assert_eq!(miss.outcome(), Some(Outcome::Miss));

    let matched = ActionRoll { action_die: 5, bonus: Some(2), challenge_dice: [5, 5] };
    assert!(matched.is_match());
}

#[test]
fn outcome_boundary_is_strict() {
    // a challenge die equal to the score is not exceeded
    let r = ActionRoll { action_die: 5, bonus: Some(2), challenge_dice: [7, 1] };
    assert_eq!(r.score(), Some(7));
    assert_eq!(r.outcome(), Some(Outcome::WeakHit));
    let both_equal = ActionRoll { action_die: 5, bonus: Some(2), challenge_dice: [7, 7] };
    assert_eq!(both_equal.outcome(), Some(Outcome::Miss));
}

#[test]
fn outcome_symmetric_in_challenge_dice() {
    let a = ActionRoll { action_die: 5, bonus: Some(2), challenge_dice: [8, 2] };
    let b = ActionRoll { action_die: 5, bonus: Some(2), challenge_dice: [2, 8] };
    assert_eq!(a.outcome(), b.outcome());
}

#[test]
fn progress_score_clamps() {
    let r = ProgressRoll { bonus: Some(9), challenge_dice: [1, 10] };
    assert_eq!(r.score(), Some(9));
    assert_eq!(r.outcome(), Some(Outcome::WeakHit));
    let clamped = ProgressRoll { bonus: Some(12), challenge_dice: [1, 10] };
    assert_eq!(clamped.score(), Some(10));
    let unknown = ProgressRoll { bonus: None, challenge_dice: [1, 10] };
    assert_eq!(unknown.score(), None);
    assert_eq!(unknown.outcome(), None);
}

#[test]
fn action_random_stays_in_range() {
    for _ in 0..200 {
        let r = ActionRoll::random(Some(3));
        assert!(1 <= r.action_die && r.action_die <= 6);
        assert!(1 <= r.challenge_dice[0] && r.challenge_dice[0] <= 10);
        assert!(1 <= r.challenge_dice[1] && r.challenge_dice[1] <= 10);
        assert_eq!(r.bonus, Some(3));
    }
    assert_eq!(ActionRoll::random(None).bonus, None);
}

#[test]
fn progress_random_stays_in_range() {
    for _ in 0..200 {
        let r = ProgressRoll::random(Some(4));
        assert!(1 <= r.challenge_dice[0] && r.challenge_dice[0] <= 10);
        assert!(1 <= r.challenge_dice[1] && r.challenge_dice[1] <= 10);
        assert_eq!(r.bonus, Some(4));
    }
}

#[test]
fn oracle_random_stays_in_range() {
    let r = OracleRoll::random(5);
    assert_eq!(r.outcomes.len(), 5);
    for v in &r.outcomes {
        assert!(1 <= *v && *v <= 100);
    }
}

#[test]
fn parse_then_roll_stays_in_range() {
    for _ in 0..50 {
        let spec = parse("2d6+1d4+2+1").unwrap();
        assert!(spec.validate());
        let roll = CustomRoll::random(spec);
        assert_eq!(roll.rolls.len(), 3);
        for d in &roll.rolls {
            assert!(1 <= d.roll && d.roll <= d.size);
        }
        for w in roll.rolls.windows(2) {
            assert!(w[0].size >= w[1].size);
        }
        assert_eq!(roll.bonus, 3);
    }
}

#[test]
fn custom_roll_sorts_sizes_descending() {
    let spec = RollSpec { dice: vec![4, 10, 6, 10], bonuses: vec![] };
    assert!(spec.validate());
    let roll = CustomRoll::random(spec);
    let sizes: Vec<u32> = roll.rolls.iter().map(|d| d.size).collect();
    assert_eq!(sizes, vec![10, 10, 6, 4]);
    assert_eq!(roll.bonus, 0);
}

#[test]
fn dice_groups_by_descending_size() {
    let roll = CustomRoll {
        rolls: vec![
            RolledDie { size: 6, roll: 5 },
            RolledDie { size: 6, roll: 2 },
            RolledDie { size: 4, roll: 1 },
        ],
        bonus: 3,
    };
    assert_eq!(roll.dice(), vec![(2, 6), (1, 4)]);
}

#[test]
fn dice_group_counts_cover_all_dice() {
    let spec = RollSpec { dice: vec![8, 8, 6, 6, 6, 4], bonuses: vec![] };
    let roll = CustomRoll::random(spec);
    let groups = roll.dice();
    let total: u32 = groups.iter().map(|g| g.0).sum();
    assert_eq!(total as usize, roll.rolls.len());
    for w in groups.windows(2) {
        assert!(w[0].1 > w[1].1);
    }
}

#[test]
fn from_draws_is_deterministic() {
    let spec = parse("2d6+1d4+1+2").unwrap();
    assert!(spec.validate());
    let roll = CustomRoll::from_draws(&spec, &vec![5, 2, 1]);
    assert_eq!(
        roll.rolls,
        vec![
            RolledDie { size: 6, roll: 5 },
            RolledDie { size: 6, roll: 2 },
            RolledDie { size: 4, roll: 1 },
        ]
    );
    assert_eq!(roll.bonus, 3);
    assert_eq!(roll.display(), "Roll 2d6 + 1d4 + 3:  [5] [2] [1] + 3  (Total: 11)");
}

#[test]
fn validate_rejects_degenerate_specs() {
    assert!(!RollSpec { dice: vec![], bonuses: vec![] }.validate());
    assert!(!RollSpec { dice: vec![0], bonuses: vec![] }.validate());
    assert!(!RollSpec { dice: vec![6, 0, 4], bonuses: vec![1] }.validate());
    assert!(RollSpec { dice: vec![6], bonuses: vec![0] }.validate());
}
