use nalgang::engine::AttendanceEngine;
use nalgang::errors::NalgangError;
use nalgang::member::NalgangMember;

// A window boundary: 21:00 UTC of 1970-01-01 (06:00 in the UTC+9 zone).
const W: i64 = 75600;
const DAY: i64 = 86400;

#[test]
fn check_in_unregistered_member_rejected() {
    let mut e = AttendanceEngine::new();
    e.register_guild(1).unwrap();
    let r = e.check_in(1, 10, W + 100, String::new());
    assert_eq!(r, Err(NalgangError::MemberNotExist));
    assert_eq!(e.history_count(), 0);
}

#[test]
fn get_score_unregistered_member_rejected() {
    let e = AttendanceEngine::new();
    assert_eq!(e.get_score(1, 10), Err(NalgangError::MemberNotExist));
}

#[test]
fn check_in_unregistered_guild_rejected() {
    let mut e = AttendanceEngine::new();
    e.register_member(1, 10).unwrap();
    let r = e.check_in(1, 10, W + 100, String::new());
    assert_eq!(r, Err(NalgangError::GuildNotExist));
}

#[test]
fn duplicate_registrations_rejected() {
    let mut e = AttendanceEngine::new();
    assert_eq!(e.register_guild(1), Ok(()));
    assert_eq!(e.register_guild(1), Err(NalgangError::DuplicateGuildRegister));
    assert_eq!(e.register_member(1, 10), Ok(()));
    assert_eq!(
        e.register_member(1, 10),
        Err(NalgangError::DuplicateMemberRegister)
    );
    // The same member id in another guild is a different record.
    assert_eq!(e.register_member(2, 10), Ok(()));
}

#[test]
fn first_check_in_gets_rank_zero_regardless_of_time() {
    for t in [W + 1, 1_600_000_000, 12345, -5_000_000] {
        let mut e = AttendanceEngine::new();
        e.register_guild(1).unwrap();
        e.register_member(1, 10).unwrap();
        let earned = e.check_in(1, 10, t, String::from("hi")).unwrap();
        assert_eq!(earned, 10); // rank 0, streak 1: base alone
        assert_eq!(e.history_count(), 1);
        assert_eq!(e.history_at(0).rank, 0);
    }
}

#[test]
fn second_check_in_same_window_is_duplicate_and_mutates_nothing() {
    let mut e = AttendanceEngine::new();
    e.register_guild(1).unwrap();
    e.register_member(1, 10).unwrap();
    assert_eq!(e.check_in(1, 10, W + 100, String::from("first")), Ok(10));
    let before = e.get_score(1, 10).unwrap();
    let r = e.check_in(1, 10, W + 200, String::from("again"));
    assert_eq!(r, Err(NalgangError::DuplicateAttendance));
    assert_eq!(e.get_score(1, 10).unwrap(), before);
    assert_eq!(e.history_count(), 1);
    assert_eq!(e.daily_count(), 1);
    // Still a duplicate at the very end of the window...
    assert_eq!(
        e.check_in(1, 10, W + DAY - 1, String::new()),
        Err(NalgangError::DuplicateAttendance)
    );
    // ...but accepted the moment the next window starts.
    assert_eq!(e.check_in(1, 10, W + DAY, String::new()), Ok(10));
}

#[test]
fn streak_continues_next_day_and_resets_after_a_skipped_day() {
    let mut e = AttendanceEngine::new();
    e.register_guild(1).unwrap();
    e.register_member(1, 10).unwrap();
    // Day 1: first check-in, streak 1.
    e.check_in(1, 10, W + 100, String::new()).unwrap();
    assert_eq!(e.get_score(1, 10).unwrap(), (10, 1));
    // Day 2: within the two-window streak allowance, streak 2.
    e.check_in(1, 10, W + DAY + 100, String::new()).unwrap();
    assert_eq!(e.get_score(1, 10).unwrap(), (20, 2));
    // Day 3 skipped; day 4: more than one window elapsed, streak resets.
    e.check_in(1, 10, W + 3 * DAY + 100, String::new()).unwrap();
    assert_eq!(e.get_score(1, 10).unwrap(), (30, 1));
}

#[test]
fn ranks_in_one_window_count_up_without_gaps() {
    let mut e = AttendanceEngine::new();
    e.register_guild(1).unwrap();
    for uid in 10..15 {
        e.register_member(1, uid).unwrap();
    }
    let expected_points = [10, 5, 3, 1, 1];
    for (k, uid) in (10..15).enumerate() {
        let earned = e
            .check_in(1, uid, W + 100 + k as i64, String::new())
            .unwrap();
        assert_eq!(earned, expected_points[k]);
        assert_eq!(e.history_at(e.history_count() - 1).rank, k as i64);
    }
    let ranks: Vec<i64> = (0..e.history_count()).map(|i| e.history_at(i).rank).collect();
    assert_eq!(ranks, vec![0, 1, 2, 3, 4]);
}

#[test]
fn ranking_sorted_by_score_descending() {
    let mut e = AttendanceEngine::new();
    e.register_guild(1).unwrap();
    for uid in [10, 11, 12] {
        e.register_member(1, uid).unwrap();
    }
    // A member of another guild must not appear in guild 1's ranking.
    e.register_guild(2).unwrap();
    e.register_member(2, 99).unwrap();
    e.check_in(2, 99, W + 1, String::new()).unwrap();

    e.check_in(1, 11, W + 1, String::new()).unwrap(); // rank 0: 10 points
    e.check_in(1, 10, W + 2, String::new()).unwrap(); // rank 1: 5 points
    e.check_in(1, 12, W + 3, String::new()).unwrap(); // rank 2: 3 points

    let ranking = e.get_ranking(1);
    assert_eq!(ranking, vec![(11, 10), (10, 5), (12, 3)]);
    for w in ranking.windows(2) {
        assert!(w[0].1 >= w[1].1);
    }
}

#[test]
fn ranking_with_tied_scores_keeps_registration_order() {
    let mut e = AttendanceEngine::new();
    e.register_guild(1).unwrap();
    e.register_member(1, 10).unwrap();
    e.register_member(1, 11).unwrap();
    // Each member opens a different day window alone: 10 points each.
    e.check_in(1, 10, W + 5, String::new()).unwrap();
    e.check_in(1, 11, W + DAY + 5, String::new()).unwrap();
    let ranking = e.get_ranking(1);
    assert_eq!(ranking, vec![(10, 10), (11, 10)]);
}

#[test]
fn ranking_of_unknown_guild_is_empty() {
    let e = AttendanceEngine::new();
    assert!(e.get_ranking(77).is_empty());
}

#[test]
fn todays_board_lists_current_window_in_time_order() {
    let mut e = AttendanceEngine::new();
    e.register_guild(1).unwrap();
    for uid in [10, 11] {
        e.register_member(1, uid).unwrap();
    }
    e.check_in(1, 10, W + 50, String::from("yesterday")).unwrap();
    // Next window: the rollover clears guild 1's board.
    e.check_in(1, 11, W + DAY + 10, String::from("early")).unwrap();
    e.check_in(1, 10, W + DAY + 20, String::from("late")).unwrap();

    let board = e.get_todays_check_ins(1, W + DAY + 500);
    let rows: Vec<(i64, String)> = board.iter().map(|r| (r.uid, r.message.clone())).collect();
    assert_eq!(
        rows,
        vec![(11, String::from("early")), (10, String::from("late"))]
    );
    // Queried from the previous window, none of today's rows fall inside.
    assert!(e.get_todays_check_ins(1, W + 50).is_empty());
}

#[test]
fn rollover_clears_only_that_guild() {
    let mut e = AttendanceEngine::new();
    for gid in [1, 2] {
        e.register_guild(gid).unwrap();
        e.register_member(gid, 10).unwrap();
    }
    e.check_in(1, 10, W + 50, String::new()).unwrap();
    e.check_in(2, 10, W + 60, String::new()).unwrap();
    assert_eq!(e.daily_count(), 2);
    // Guild 1 rolls into the next window: its old row goes, guild 2's stays.
    e.check_in(1, 10, W + DAY + 50, String::new()).unwrap();
    assert_eq!(e.daily_count(), 2);
    let board2 = e.get_todays_check_ins(2, W + 70);
    assert_eq!(board2.len(), 1);
    assert_eq!(board2[0].uid, 10);
}

#[test]
fn member_handle_loads_standing() {
    let mut e = AttendanceEngine::new();
    e.register_guild(1).unwrap();
    e.register_member(1, 10).unwrap();
    e.check_in(1, 10, W + 5, String::new()).unwrap();

    let mut m = NalgangMember::new_explict(10, 1);
    assert_eq!(m.score, None);
    assert_eq!(e.command_point(&mut m), Ok(()));
    assert_eq!(m.score, Some(10));
    assert_eq!(m.combo, Some(1));
    assert_eq!(m.hit_time, Some(W + 5));

    let mut stranger = NalgangMember::new_explict(99, 1);
    assert_eq!(
        e.command_point(&mut stranger),
        Err(NalgangError::MemberNotExist)
    );
    assert_eq!(stranger.score, None);
}

#[test]
fn member_handle_update_data() {
    let mut m = NalgangMember::new_explict(10, 1);
    m.update_data(42, 3, 1234);
    assert_eq!(m.uid, 10);
    assert_eq!(m.gid, 1);
    assert_eq!(m.score, Some(42));
    assert_eq!(m.combo, Some(3));
    assert_eq!(m.hit_time, Some(1234));
}

#[test]
fn guild_state_reflects_last_check_in() {
    let mut e = AttendanceEngine::new();
    assert_eq!(e.guild_state(1), None);
    e.register_guild(1).unwrap();
    let (count0, _) = e.guild_state(1).unwrap();
    assert_eq!(count0, 0);
    e.register_member(1, 10).unwrap();
    e.register_member(1, 11).unwrap();
    e.check_in(1, 10, W + 5, String::new()).unwrap();
    assert_eq!(e.guild_state(1), Some((0, W + 5)));
    e.check_in(1, 11, W + 6, String::new()).unwrap();
    assert_eq!(e.guild_state(1), Some((1, W + 6)));
}

#[test]
fn error_descriptions_are_stable() {
    assert_eq!(
        NalgangError::DuplicateAttendance.describe(),
        "DuplicateAttendance"
    );
    assert_eq!(NalgangError::MemberNotExist.describe(), "MemberNotExist");
    assert_eq!(NalgangError::GuildNotExist.describe(), "GuildNotExist");
    assert_eq!(
        NalgangError::DuplicateMemberRegister.describe(),
        "DuplicateMemberRegister"
    );
    assert_eq!(
        NalgangError::DuplicateGuildRegister.describe(),
        "DuplicateGuildRegister"
    );
}

#[test]
fn history_records_the_full_audit_row() {
    let mut e = AttendanceEngine::new();
    e.register_guild(1).unwrap();
    e.register_member(1, 10).unwrap();
    e.check_in(1, 10, W + 7, String::from("hello")).unwrap();
    let row = e.history_at(0);
    assert_eq!(row.gid, 1);
    assert_eq!(row.uid, 10);
    assert_eq!(row.message, "hello");
    assert_eq!(row.hit_time, W + 7);
    assert_eq!(row.score, 10);
    assert_eq!(row.combo, 1);
    assert_eq!(row.rank, 0);
}
