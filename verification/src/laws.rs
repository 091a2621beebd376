//! Laws of the attendance state machine, proved over the check-in
//! transition [`spec_check_in`] that the engine's methods are specified
//! against.  The day-window laws live beside the window computation, and
//! the scoring laws beside the scoring policy.

use crate::engine::{
    guild_i, has_guild, has_member, inv, is_duplicate, member_i, next_combo, next_rank,
    rolls_over, spec_check_in, EngineV, GuildStateV, HistoryEntryV, MemberV,
};
use crate::errors::NalgangError;
use crate::scoring::spec_points_for;
use crate::window::{
    lemma_day_window_start_bounds, spec_day_window_start, valid_instant, DAY_SECONDS, PRE_EPOCH,
};
use vstd::prelude::*;

verus! {

/// What one accepted check-in does, spelled out: both records keep their
/// place and their keys, the guild's window state carries the granted
/// rank and the instant, the member's record carries the new score,
/// streak and instant, and the appended history row records all of it.
proof fn lemma_check_in_ok_shape(pre: EngineV, gid: int, uid: int, t: int, msg: Seq<char>)
    requires
        inv(pre),
        valid_instant(t),
        spec_check_in(pre, gid, uid, t, msg).1 is Ok,
    ensures
        has_member(pre, gid, uid),
        has_guild(pre, gid),
        ({
            let g = pre.guilds[guild_i(pre, gid)];
            let m = pre.members[member_i(pre, gid, uid)];
            let post = spec_check_in(pre, gid, uid, t, msg).0;
            &&& !is_duplicate(g.hit_time, m.hit_time, t)
            &&& inv(post)
            &&& has_guild(post, gid)
            &&& has_member(post, gid, uid)
            &&& guild_i(post, gid) == guild_i(pre, gid)
            &&& member_i(post, gid, uid) == member_i(pre, gid, uid)
            &&& post.guilds[guild_i(post, gid)] == (GuildStateV {
                gid: g.gid,
                hit_count: next_rank(g, t),
                hit_time: t,
            })
            &&& post.members[member_i(post, gid, uid)] == (MemberV {
                gid: m.gid,
                uid: m.uid,
                score: m.score + spec_points_for(next_rank(g, t), next_combo(m, t)),
                combo: next_combo(m, t),
                hit_time: Some(t),
            })
            &&& post.history == pre.history.push(
                (HistoryEntryV {
                    gid,
                    uid,
                    message: msg,
                    hit_time: t,
                    score: m.score + spec_points_for(next_rank(g, t), next_combo(m, t)),
                    combo: next_combo(m, t),
                    rank: next_rank(g, t),
                }),
            )
            &&& spec_check_in(pre, gid, uid, t, msg).1 == Ok::<i64, NalgangError>(
                spec_points_for(next_rank(g, t), next_combo(m, t)) as i64,
            )
        }),
{
    let post = spec_check_in(pre, gid, uid, t, msg).0;
    let gk = guild_i(pre, gid);
    let mk = member_i(pre, gid, uid);
    assert(forall|i: int|
        0 <= i < post.guilds.len() ==> (#[trigger] post.guilds[i]).gid == pre.guilds[i].gid);
    assert(forall|i: int|
        0 <= i < post.members.len() ==> (#[trigger] post.members[i]).gid == pre.members[i].gid
            && post.members[i].uid == pre.members[i].uid);
    assert(post.guilds[gk].gid == gid);
    assert(has_guild(post, gid));
    let gk2 = guild_i(post, gid);
    if gk2 != gk {
        assert(pre.guilds[gk2].gid != pre.guilds[gk].gid);
    }
    assert(post.members[mk].gid == gid && post.members[mk].uid == uid);
    assert(has_member(post, gid, uid));
    let mk2 = member_i(post, gid, uid);
    if mk2 != mk {
        assert(!(pre.members[mk2].gid == pre.members[mk].gid && pre.members[mk2].uid
            == pre.members[mk].uid));
    }
    assert forall|i: int, j: int|
        0 <= i < j < post.guilds.len() implies #[trigger] post.guilds[i].gid
        != #[trigger] post.guilds[j].gid by {
        assert(pre.guilds[i].gid != pre.guilds[j].gid);
    }
    assert forall|i: int, j: int|
        0 <= i < j < post.members.len() implies !(#[trigger] post.members[i].gid
        == #[trigger] post.members[j].gid && post.members[i].uid == post.members[j].uid) by {
        assert(!(pre.members[i].gid == pre.members[j].gid && pre.members[i].uid
            == pre.members[j].uid));
    }
    assert(spec_points_for(
        next_rank(pre.guilds[gk], t),
        next_combo(pre.members[mk], t),
    ) >= 1) by {
        crate::scoring::lemma_points_bounds(
            next_rank(pre.guilds[gk], t),
            next_combo(pre.members[mk], t),
        );
    }
    assert forall|i: int| 0 <= i < post.guilds.len() implies crate::engine::guild_ok(
        #[trigger] post.guilds[i],
    ) by {
        assert(crate::engine::guild_ok(pre.guilds[i]));
    }
    assert forall|i: int| 0 <= i < post.members.len() implies crate::engine::member_ok(
        #[trigger] post.members[i],
    ) by {
        assert(crate::engine::member_ok(pre.members[i]));
    }
}

/// A check-in by a member with no record leaves the state untouched and
/// answers that the member is not registered; a standing query answers
/// the same, by the contract of `AttendanceEngine::get_score`.
pub proof fn lemma_unregistered_member_rejected(
    pre: EngineV,
    gid: int,
    uid: int,
    t: int,
    msg: Seq<char>,
)
    requires
        !has_member(pre, gid, uid),
    ensures
        spec_check_in(pre, gid, uid, t, msg) == (
            pre,
            Err::<i64, NalgangError>(NalgangError::MemberNotExist),
        ),
{
}

/// The first check-in of a freshly registered guild is granted rank 0,
/// whatever the instant: the guild's stored hit time is the pre-epoch
/// marker, so every valid instant lies past the first window boundary
/// and the check-in starts a new day window.
pub proof fn lemma_first_check_in_rank_zero(
    pre: EngineV,
    gid: int,
    uid: int,
    t: int,
    msg: Seq<char>,
)
    requires
        inv(pre),
        valid_instant(t),
        has_member(pre, gid, uid),
        has_guild(pre, gid),
        pre.guilds[guild_i(pre, gid)].hit_time == PRE_EPOCH,
    ensures
        rolls_over(pre.guilds[guild_i(pre, gid)].hit_time, t),
        spec_check_in(pre, gid, uid, t, msg).1 is Ok,
        spec_check_in(pre, gid, uid, t, msg).0.history.last().rank == 0,
{
    lemma_day_window_start_bounds(PRE_EPOCH as int);
    lemma_check_in_ok_shape(pre, gid, uid, t, msg);
}

/// A second check-in by the same member inside the same day window is
/// rejected as a duplicate attendance, and the rejection changes nothing:
/// no record, no board row, no history row.
pub proof fn lemma_second_check_in_same_window_rejected(
    pre: EngineV,
    gid: int,
    uid: int,
    t1: int,
    t2: int,
    msg1: Seq<char>,
    msg2: Seq<char>,
)
    requires
        inv(pre),
        valid_instant(t1),
        spec_check_in(pre, gid, uid, t1, msg1).1 is Ok,
        spec_day_window_start(t2) == spec_day_window_start(t1),
    ensures
        ({
            let mid = spec_check_in(pre, gid, uid, t1, msg1).0;
            spec_check_in(mid, gid, uid, t2, msg2) == (
                mid,
                Err::<i64, NalgangError>(NalgangError::DuplicateAttendance),
            )
        }),
{
    lemma_check_in_ok_shape(pre, gid, uid, t1, msg1);
    let mid = spec_check_in(pre, gid, uid, t1, msg1).0;
    lemma_day_window_start_bounds(t1);
    lemma_day_window_start_bounds(t2);
    assert(!rolls_over(t1, t2));
    assert(is_duplicate(
        mid.guilds[guild_i(mid, gid)].hit_time,
        mid.members[member_i(mid, gid, uid)].hit_time,
        t2,
    ));
}

/// Checking in again in a later day window is always accepted, and the
/// streak continues (goes up by one) exactly when the new instant stays
/// short of two windows past the previous check-in; from two windows on
/// (one full day window skipped) the streak resets to one.
pub proof fn lemma_streak_step(
    pre: EngineV,
    gid: int,
    uid: int,
    t1: int,
    t2: int,
    msg1: Seq<char>,
    msg2: Seq<char>,
)
    requires
        inv(pre),
        valid_instant(t1),
        valid_instant(t2),
        spec_check_in(pre, gid, uid, t1, msg1).1 is Ok,
        t2 >= spec_day_window_start(t1) + DAY_SECONDS,
    ensures
        ({
            let mid = spec_check_in(pre, gid, uid, t1, msg1).0;
            let post = spec_check_in(mid, gid, uid, t2, msg2).0;
            &&& spec_check_in(mid, gid, uid, t2, msg2).1 is Ok
            &&& post.history.last().combo == (if t2 < spec_day_window_start(t1) + 2 * DAY_SECONDS {
                mid.history.last().combo + 1
            } else {
                1
            })
        }),
{
    lemma_check_in_ok_shape(pre, gid, uid, t1, msg1);
    let mid = spec_check_in(pre, gid, uid, t1, msg1).0;
    assert(rolls_over(mid.guilds[guild_i(mid, gid)].hit_time, t2));
    lemma_check_in_ok_shape(mid, gid, uid, t2, msg2);
}

/// Two check-ins accepted back to back inside one day window are granted
/// consecutive ranks; with rank 0 granted at the window's first check-in
/// ([`lemma_first_check_in_rank_zero`] and [`lemma_rank_zero_on_rollover`]),
/// the ranks granted inside one window are exactly 0, 1, 2, ... with no
/// duplicates and no gaps.
pub proof fn lemma_consecutive_ranks(
    pre: EngineV,
    gid: int,
    uid1: int,
    uid2: int,
    t1: int,
    t2: int,
    msg1: Seq<char>,
    msg2: Seq<char>,
)
    requires
        inv(pre),
        valid_instant(t1),
        valid_instant(t2),
        spec_check_in(pre, gid, uid1, t1, msg1).1 is Ok,
        ({
            let mid = spec_check_in(pre, gid, uid1, t1, msg1).0;
            spec_check_in(mid, gid, uid2, t2, msg2).1 is Ok
        }),
        !rolls_over(t1, t2),
    ensures
        ({
            let mid = spec_check_in(pre, gid, uid1, t1, msg1).0;
            let post = spec_check_in(mid, gid, uid2, t2, msg2).0;
            post.history.last().rank == mid.history.last().rank + 1
        }),
{
    lemma_check_in_ok_shape(pre, gid, uid1, t1, msg1);
    let mid = spec_check_in(pre, gid, uid1, t1, msg1).0;
    lemma_check_in_ok_shape(mid, gid, uid2, t2, msg2);
}

/// Point accumulation is monotonic: an accepted check-in raises the
/// member's score by exactly the points returned, which are always
/// positive; a rejected check-in leaves the whole state untouched, as
/// [`spec_check_in`] states directly for each rejection.
pub proof fn lemma_score_monotonic(pre: EngineV, gid: int, uid: int, t: int, msg: Seq<char>)
    requires
        inv(pre),
        valid_instant(t),
        spec_check_in(pre, gid, uid, t, msg).1 is Ok,
    ensures
        ({
            let post = spec_check_in(pre, gid, uid, t, msg).0;
            let earned = spec_check_in(pre, gid, uid, t, msg).1->Ok_0;
            &&& post.members[member_i(post, gid, uid)].score == pre.members[member_i(
                pre,
                gid,
                uid,
            )].score + earned
            &&& earned >= 1
        }),
{
    lemma_check_in_ok_shape(pre, gid, uid, t, msg);
    let g = pre.guilds[guild_i(pre, gid)];
    let m = pre.members[member_i(pre, gid, uid)];
    crate::scoring::lemma_points_bounds(next_rank(g, t), next_combo(m, t));
}

/// Any check-in that starts a new day window is granted rank 0.
pub proof fn lemma_rank_zero_on_rollover(
    pre: EngineV,
    gid: int,
    uid: int,
    t: int,
    msg: Seq<char>,
)
    requires
        inv(pre),
        valid_instant(t),
        spec_check_in(pre, gid, uid, t, msg).1 is Ok,
        rolls_over(pre.guilds[guild_i(pre, gid)].hit_time, t),
    ensures
        spec_check_in(pre, gid, uid, t, msg).0.history.last().rank == 0,
{
    lemma_check_in_ok_shape(pre, gid, uid, t, msg);
}

/// One check-in event: who checks in, when, and with what message.
pub struct EventV {
    pub uid: int,
    pub t: int,
    pub msg: Seq<char>,
}

/// The state after running a sequence of check-in events against one
/// guild, first event first.
pub open spec fn run_check_ins(pre: EngineV, gid: int, evs: Seq<EventV>) -> EngineV
    decreases evs.len(),
{
    if evs.len() == 0 {
        pre
    } else {
        let mid = run_check_ins(pre, gid, evs.drop_last());
        spec_check_in(mid, gid, evs.last().uid, evs.last().t, evs.last().msg).0
    }
}

/// Every event of the run is accepted (none is rejected).
pub open spec fn all_accepted(pre: EngineV, gid: int, evs: Seq<EventV>) -> bool
    decreases evs.len(),
{
    if evs.len() == 0 {
        true
    } else {
        let mid = run_check_ins(pre, gid, evs.drop_last());
        &&& all_accepted(pre, gid, evs.drop_last())
        &&& spec_check_in(mid, gid, evs.last().uid, evs.last().t, evs.last().msg).1 is Ok
    }
}

/// After N check-ins accepted inside one day window — the first one
/// opening the window, each later one staying inside it — the N history
/// rows written carry the ranks 0, 1, ..., N-1 exactly: no duplicates
/// and no gaps, whichever members checked in and in whatever order the
/// requests were serialized.
pub proof fn lemma_window_ranks_exact(pre: EngineV, gid: int, evs: Seq<EventV>)
    requires
        inv(pre),
        evs.len() > 0,
        forall|k: int| 0 <= k < evs.len() ==> valid_instant((#[trigger] evs[k]).t),
        all_accepted(pre, gid, evs),
        has_guild(pre, gid),
        rolls_over(pre.guilds[guild_i(pre, gid)].hit_time, evs[0].t),
        forall|k: int| 1 <= k < evs.len() ==> !rolls_over(evs[k - 1].t, (#[trigger] evs[k]).t),
    ensures
        ({
            let post = run_check_ins(pre, gid, evs);
            &&& inv(post)
            &&& has_guild(post, gid)
            &&& post.guilds[guild_i(post, gid)].hit_time == evs.last().t
            &&& post.guilds[guild_i(post, gid)].hit_count == evs.len() - 1
            &&& post.history.len() == pre.history.len() + evs.len()
            &&& forall|k: int|
                0 <= k < evs.len() ==> (#[trigger] post.history[pre.history.len() + k]).rank == k
        }),
    decreases evs.len(),
{
    let post = run_check_ins(pre, gid, evs);
    let last = evs.last();
    if evs.len() == 1 {
        lemma_check_in_ok_shape(pre, gid, last.uid, last.t, last.msg);
        assert(next_rank(pre.guilds[guild_i(pre, gid)], last.t) == 0);
    } else {
        let head = evs.drop_last();
        assert(head[0] == evs[0]);
        lemma_window_ranks_exact(pre, gid, head);
        let mid = run_check_ins(pre, gid, head);
        lemma_check_in_ok_shape(mid, gid, last.uid, last.t, last.msg);
        let g = mid.guilds[guild_i(mid, gid)];
        assert(g.hit_time == evs[evs.len() - 2].t);
        assert(!rolls_over(g.hit_time, last.t));
        assert(next_rank(g, last.t) == evs.len() - 1);
        assert forall|k: int| 0 <= k < evs.len() implies (#[trigger] post.history[pre.history.len()
            + k]).rank == k by {
            if k < evs.len() - 1 {
                assert(post.history[pre.history.len() + k] == mid.history[pre.history.len() + k]);
            }
        }
    }
}

} // verus!
