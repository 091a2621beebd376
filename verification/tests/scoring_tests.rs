use nalgang::scoring::{earned_attendance_point, MAX_POINTS};

#[test]
fn points_rank_zero_streak_seven() {
    assert_eq!(earned_attendance_point(0, 7), 30);
}

#[test]
fn points_rank_one_streak_thirty() {
    assert_eq!(earned_attendance_point(1, 30), 105);
}

#[test]
fn points_rank_three_streak_one() {
    assert_eq!(earned_attendance_point(3, 1), 1);
}

#[test]
fn points_base_by_rank() {
    assert_eq!(earned_attendance_point(0, 1), 10);
    assert_eq!(earned_attendance_point(1, 1), 5);
    assert_eq!(earned_attendance_point(2, 1), 3);
    assert_eq!(earned_attendance_point(3, 1), 1);
    assert_eq!(earned_attendance_point(100, 1), 1);
}

#[test]
fn points_bonuses_stack() {
    // 210 is divisible by both 7 and 30: both bonuses on top of the base.
    assert_eq!(earned_attendance_point(0, 210), 130);
    assert_eq!(earned_attendance_point(3, 210), 121);
}

#[test]
fn points_yearly_bonus_condition_never_fires() {
    // A remainder modulo 365 cannot equal 1500, so no streak reaches the
    // 1500-point bonus; the largest streaks stay on the small bonuses.
    for combo in [365, 1500, 1865, 365 * 1500] {
        assert!(earned_attendance_point(0, combo) <= 130);
    }
}

#[test]
fn points_deterministic() {
    for rank in 0..5 {
        for combo in 1..40 {
            let a = earned_attendance_point(rank, combo);
            let b = earned_attendance_point(rank, combo);
            assert_eq!(a, b);
            assert!((1..=MAX_POINTS).contains(&a));
        }
    }
}
