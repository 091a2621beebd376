//! Day-window computation.
//!
//! An attendance day is a fixed 86,400-second interval anchored to a local
//! cutoff hour: the day rolls over at 06:00 local time in a UTC+9 zone,
//! which is implemented as a shift of the plain UTC day boundary.

use vstd::arithmetic::div_mod::{
    lemma_div_is_ordered, lemma_fundamental_div_mod, lemma_fundamental_div_mod_converse,
    lemma_mod_bound,
};
use vstd::prelude::*;

verus! {

/// Length of one attendance-day window, in seconds.
pub const DAY_SECONDS: i64 = 86400;

/// Seconds by which the attendance-day boundary is shifted from the plain
/// UTC day boundary: the local zone is UTC+9 and the cutoff hour is 06:00
/// local, so a window starts at 21:00 UTC.
pub const CUTOFF_SHIFT: i64 = 9 * 3600 - 6 * 3600;

/// Largest instant (unix seconds) the engine accepts for a check-in.
pub const INSTANT_MAX: i64 = 0x2000_0000_0000_0000;

/// Smallest instant (unix seconds) the engine accepts for a check-in.
pub const INSTANT_MIN: i64 = -0x2000_0000_0000_0000;

/// Initial `hit_time` of a freshly registered guild: far enough in the
/// past that every accepted instant lies beyond the first window boundary,
/// so the first check-in always starts a new day window.
pub const PRE_EPOCH: i64 = INSTANT_MIN - 2 * 86400;

/// Offset added before dividing so the division operates on a
/// non-negative number; a multiple of `DAY_SECONDS`, so it does not move
/// the window boundaries.
const EPOCH_LIFT: i64 = 86400 * 26_700_000_000_000;

/// Instants that may be handed to the engine.
pub open spec fn valid_instant(t: int) -> bool {
    INSTANT_MIN <= t <= INSTANT_MAX
}

/// Instants that may be stored as a guild's or member's last check-in
/// time: every valid instant, and the pre-epoch marker of a fresh guild.
pub open spec fn storable_instant(t: int) -> bool {
    PRE_EPOCH <= t <= INSTANT_MAX
}

/// Start of the attendance-day window containing `t`: the largest instant
/// `s <= t` with `s = CUTOFF_SHIFT (mod DAY_SECONDS)` negated, i.e. the
/// window boundary at or before `t`.  `/` on `int` is Euclidean division,
/// so this is a true floor for negative instants as well.
pub open spec fn spec_day_window_start(t: int) -> int {
    ((t + CUTOFF_SHIFT) / (DAY_SECONDS as int)) * (DAY_SECONDS as int) - CUTOFF_SHIFT
}

/// Every instant lies inside its own window: `[start, start + DAY_SECONDS)`.
pub proof fn lemma_day_window_start_bounds(t: int)
    ensures
        spec_day_window_start(t) <= t < spec_day_window_start(t) + DAY_SECONDS,
{
    lemma_fundamental_div_mod(t + CUTOFF_SHIFT, DAY_SECONDS as int);
    lemma_mod_bound(t + CUTOFF_SHIFT, DAY_SECONDS as int);
}

/// The window start is itself the start of its own window.
pub proof fn lemma_day_window_start_idempotent(t: int)
    ensures
        spec_day_window_start(spec_day_window_start(t)) == spec_day_window_start(t),
{
    let q = (t + CUTOFF_SHIFT) / (DAY_SECONDS as int);
    lemma_fundamental_div_mod_converse(q * (DAY_SECONDS as int), DAY_SECONDS as int, q, 0);
}

/// Shifting an instant by exactly one day shifts its window start by
/// exactly one day: windows are exactly `DAY_SECONDS` long.
pub proof fn lemma_day_window_start_shift(t: int)
    ensures
        spec_day_window_start(t + DAY_SECONDS) == spec_day_window_start(t) + DAY_SECONDS,
{
    let d = DAY_SECONDS as int;
    lemma_fundamental_div_mod(t + CUTOFF_SHIFT, d);
    lemma_mod_bound(t + CUTOFF_SHIFT, d);
    let q = (t + CUTOFF_SHIFT) / d;
    let r = (t + CUTOFF_SHIFT) % d;
    lemma_fundamental_div_mod_converse(t + DAY_SECONDS + CUTOFF_SHIFT, d, q + 1, r);
}

/// Later instants have window starts that are no earlier.
pub proof fn lemma_day_window_start_monotonic(t1: int, t2: int)
    requires
        t1 <= t2,
    ensures
        spec_day_window_start(t1) <= spec_day_window_start(t2),
{
    lemma_div_is_ordered(t1 + CUTOFF_SHIFT, t2 + CUTOFF_SHIFT, DAY_SECONDS as int);
}

/// Start of the attendance-day window containing `utc_time`.
///
/// The window is `[start, start + DAY_SECONDS)`: an instant exactly on a
/// boundary belongs to the window starting there.
pub fn timestamp_round_down(utc_time: i64) -> (r: i64)
    requires
        storable_instant(utc_time as int),
    ensures
        r == spec_day_window_start(utc_time as int),
{
    let lifted: i64 = utc_time + CUTOFF_SHIFT + EPOCH_LIFT;
    let n: u64 = lifted as u64;
    proof {
        lemma_fundamental_div_mod(n as int, DAY_SECONDS as int);
        lemma_mod_bound(n as int, DAY_SECONDS as int);
        let qn = (n as int) / (DAY_SECONDS as int);
        let rn = (n as int) % (DAY_SECONDS as int);
        lemma_fundamental_div_mod_converse(
            utc_time + CUTOFF_SHIFT,
            DAY_SECONDS as int,
            qn - 26_700_000_000_000,
            rn,
        );
    }
    let q: u64 = n / 86400;
    let base: u64 = q * 86400;
    (base as i64) - EPOCH_LIFT - CUTOFF_SHIFT
}

} // verus!
