//! Scoring policy: points earned by one accepted check-in, from the
//! member's rank among the day's check-ins and their streak length.

use vstd::arithmetic::div_mod::lemma_mod_bound;
use vstd::prelude::*;

verus! {

/// Upper bound on the points one accepted check-in can earn:
/// best base (10) plus every bonus (20 + 100 + 1500).
pub const MAX_POINTS: i64 = 10 + 20 + 100 + 1500;

/// Points for an accepted check-in at 0-indexed daily rank `rank` with
/// streak length `combo`.  Base points by rank (first of the day earns
/// the most), plus independent additive bonuses on the streak length.
pub open spec fn spec_points_for(rank: int, combo: int) -> int {
    (if rank == 0 {
        10int
    } else if rank == 1 {
        5
    } else if rank == 2 {
        3
    } else {
        1
    }) + (if combo % 7 == 0 {
        20int
    } else {
        0
    }) + (if combo % 30 == 0 {
        100int
    } else {
        0
    }) + (if combo % 365 == 1500 {
        1500int
    } else {
        0
    })
}

/// The award is always at least the lowest base and never exceeds
/// [`MAX_POINTS`].
pub proof fn lemma_points_bounds(rank: int, combo: int)
    ensures
        1 <= spec_points_for(rank, combo) <= MAX_POINTS,
{
}

/// The `combo % 365 == 1500` bonus can never fire: a remainder modulo 365
/// lies below 365.  The condition is kept as the scoring rules state it,
/// but this records that it is dead.
pub proof fn lemma_yearly_bonus_unreachable(combo: int)
    ensures
        spec_points_for(0, combo) <= 130,
        combo % 365 != 1500,
{
    lemma_mod_bound(combo, 365);
}

/// Points earned by an accepted check-in: exactly [`spec_points_for`].
/// Deterministic and pure; total for every rank at least 0 and every
/// streak of at least one day.
pub fn earned_attendance_point(rank: i64, combo: i64) -> (r: i64)
    requires
        rank >= 0,
        combo >= 1,
    ensures
        r == spec_points_for(rank as int, combo as int),
        1 <= r <= MAX_POINTS,
{
    let mut earned_point: i64 = match rank {
        0 => 10,
        1 => 5,
        2 => 3,
        _ => 1,
    };
    if combo % 7 == 0 {
        earned_point = earned_point + 20;
    }
    if combo % 30 == 0 {
        earned_point = earned_point + 100;
    }
    if combo % 365 == 1500 {
        earned_point = earned_point + 1500;
    }
    earned_point
}

} // verus!
