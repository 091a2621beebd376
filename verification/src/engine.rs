//! The attendance engine: per-guild day-window state, per-member records,
//! the check-in state machine, and the standing queries.
//!
//! The engine owns its records and is mutated only through its methods;
//! exclusive access (`&mut self`) serializes concurrent check-ins, so the
//! read-decide-write sequence of a check-in is atomic.

use crate::errors::NalgangError;
use crate::member::NalgangMember;
use crate::scoring::{earned_attendance_point, spec_points_for, MAX_POINTS};
use crate::window::{
    lemma_day_window_start_bounds, spec_day_window_start, storable_instant, timestamp_round_down,
    valid_instant, DAY_SECONDS, PRE_EPOCH,
};
use vstd::prelude::*;

verus! {

/// Per-guild record of the current day window: the rank most recently
/// granted (`hit_count`) and the time of the most recent accepted
/// check-in anywhere in the guild (`hit_time`).
#[derive(Clone, Copy, Debug)]
pub struct GuildState {
    pub gid: i64,
    pub hit_count: i64,
    pub hit_time: i64,
}

/// Mathematical model of a [`GuildState`].
#[verifier::ext_equal]
pub struct GuildStateV {
    pub gid: int,
    pub hit_count: int,
    pub hit_time: int,
}

impl View for GuildState {
    type V = GuildStateV;

    open spec fn view(&self) -> GuildStateV {
        GuildStateV { gid: self.gid as int, hit_count: self.hit_count as int, hit_time: self.hit_time as int }
    }
}

/// Per-member persisted record: cumulative score, streak length, and the
/// time of the last accepted check-in (absent until the first one).
#[derive(Clone, Copy, Debug)]
pub struct MemberRecord {
    pub gid: i64,
    pub uid: i64,
    pub score: i64,
    pub combo: i64,
    pub hit_time: Option<i64>,
}

/// Mathematical model of a [`MemberRecord`].
#[verifier::ext_equal]
pub struct MemberV {
    pub gid: int,
    pub uid: int,
    pub score: int,
    pub combo: int,
    pub hit_time: Option<int>,
}

impl View for MemberRecord {
    type V = MemberV;

    open spec fn view(&self) -> MemberV {
        MemberV {
            gid: self.gid as int,
            uid: self.uid as int,
            score: self.score as int,
            combo: self.combo as int,
            hit_time: match self.hit_time {
                Some(h) => Some(h as int),
                None => None,
            },
        }
    }
}

/// One "already checked in today" row; cleared at guild-level rollover.
#[derive(Debug)]
pub struct DailyEntry {
    pub gid: i64,
    pub uid: i64,
    pub message: String,
    pub hit_time: i64,
}

/// Mathematical model of a [`DailyEntry`].
#[verifier::ext_equal]
pub struct DailyEntryV {
    pub gid: int,
    pub uid: int,
    pub message: Seq<char>,
    pub hit_time: int,
}

impl View for DailyEntry {
    type V = DailyEntryV;

    open spec fn view(&self) -> DailyEntryV {
        DailyEntryV {
            gid: self.gid as int,
            uid: self.uid as int,
            message: self.message@,
            hit_time: self.hit_time as int,
        }
    }
}

/// One append-only audit row, written by every accepted check-in.
#[derive(Debug)]
pub struct HistoryEntry {
    pub gid: i64,
    pub uid: i64,
    pub message: String,
    pub hit_time: i64,
    pub score: i64,
    pub combo: i64,
    pub rank: i64,
}

/// Mathematical model of a [`HistoryEntry`].
#[verifier::ext_equal]
pub struct HistoryEntryV {
    pub gid: int,
    pub uid: int,
    pub message: Seq<char>,
    pub hit_time: int,
    pub score: int,
    pub combo: int,
    pub rank: int,
}

impl View for HistoryEntry {
    type V = HistoryEntryV;

    open spec fn view(&self) -> HistoryEntryV {
        HistoryEntryV {
            gid: self.gid as int,
            uid: self.uid as int,
            message: self.message@,
            hit_time: self.hit_time as int,
            score: self.score as int,
            combo: self.combo as int,
            rank: self.rank as int,
        }
    }
}

/// Mathematical model of the whole engine state.
#[verifier::ext_equal]
pub struct EngineV {
    pub guilds: Seq<GuildStateV>,
    pub members: Seq<MemberV>,
    pub daily: Seq<DailyEntryV>,
    pub history: Seq<HistoryEntryV>,
}

/// The attendance engine.  Records are created once by the registration
/// commands and then updated in place; history rows are append-only.
pub struct AttendanceEngine {
    guilds: Vec<GuildState>,
    members: Vec<MemberRecord>,
    daily: Vec<DailyEntry>,
    history: Vec<HistoryEntry>,
}

impl View for AttendanceEngine {
    type V = EngineV;

    closed spec fn view(&self) -> EngineV {
        EngineV {
            guilds: self.guilds@.map_values(|g: GuildState| g@),
            members: self.members@.map_values(|m: MemberRecord| m@),
            daily: self.daily@.map_values(|e: DailyEntry| e@),
            history: self.history@.map_values(|e: HistoryEntry| e@),
        }
    }
}

/// Some guild record carries this id.
pub open spec fn has_guild(s: EngineV, gid: int) -> bool {
    exists|i: int| 0 <= i < s.guilds.len() && #[trigger] s.guilds[i].gid == gid
}

/// Index of the guild record with this id (unique under [`inv`]).
pub open spec fn guild_i(s: EngineV, gid: int) -> int {
    choose|i: int| 0 <= i < s.guilds.len() && #[trigger] s.guilds[i].gid == gid
}

/// Some member record carries this guild and member id.
pub open spec fn has_member(s: EngineV, gid: int, uid: int) -> bool {
    exists|i: int|
        0 <= i < s.members.len() && #[trigger] s.members[i].gid == gid && s.members[i].uid == uid
}

/// Index of the member record with these ids (unique under [`inv`]).
pub open spec fn member_i(s: EngineV, gid: int, uid: int) -> int {
    choose|i: int|
        0 <= i < s.members.len() && #[trigger] s.members[i].gid == gid && s.members[i].uid == uid
}

/// A stored guild record is well formed: the rank counter counts, and the
/// last hit time can be fed back into the window computation.
pub open spec fn guild_ok(g: GuildStateV) -> bool {
    &&& 0 <= g.hit_count
    &&& storable_instant(g.hit_time)
}

/// A stored member record is well formed: score and streak never go
/// negative, and a recorded hit time is a valid instant.
pub open spec fn member_ok(m: MemberV) -> bool {
    &&& 0 <= m.score
    &&& 0 <= m.combo
    &&& match m.hit_time {
        Some(h) => valid_instant(h),
        None => true,
    }
}

/// Engine invariant: one record per guild, one per (guild, member), and
/// every stored record well formed.
pub open spec fn inv(s: EngineV) -> bool {
    &&& forall|i: int, j: int|
        0 <= i < j < s.guilds.len() ==> #[trigger] s.guilds[i].gid != #[trigger] s.guilds[j].gid
    &&& forall|i: int, j: int|
        0 <= i < j < s.members.len() ==> !(#[trigger] s.members[i].gid == #[trigger] s.members[j].gid
            && s.members[i].uid == s.members[j].uid)
    &&& forall|i: int| 0 <= i < s.guilds.len() ==> guild_ok(#[trigger] s.guilds[i])
    &&& forall|i: int| 0 <= i < s.members.len() ==> member_ok(#[trigger] s.members[i])
}

/// `t` has crossed past the end of the window holding the guild's last
/// accepted check-in: this check-in starts a new guild-wide day window.
pub open spec fn rolls_over(guild_hit_time: int, t: int) -> bool {
    t >= spec_day_window_start(guild_hit_time) + DAY_SECONDS
}

/// The member already has an accepted check-in inside the guild's current
/// day window, so a check-in at `t` must be rejected.
pub open spec fn is_duplicate(guild_hit_time: int, member_hit_time: Option<int>, t: int) -> bool {
    &&& !rolls_over(guild_hit_time, t)
    &&& match member_hit_time {
        Some(h) => h >= spec_day_window_start(guild_hit_time),
        None => false,
    }
}

/// Rank granted to an accepted check-in at `t`: 0 when the window rolls
/// over, else one past the rank most recently granted.
pub open spec fn next_rank(g: GuildStateV, t: int) -> int {
    if rolls_over(g.hit_time, t) {
        0
    } else {
        g.hit_count + 1
    }
}

/// Streak length after an accepted check-in at `t`: the streak continues
/// while `t` stays short of two windows past the member's last check-in,
/// and resets to 1 otherwise (or on the member's first check-in ever).
pub open spec fn next_combo(m: MemberV, t: int) -> int {
    match m.hit_time {
        None => 1,
        Some(h) => {
            if t >= spec_day_window_start(h) + 2 * DAY_SECONDS {
                1
            } else {
                m.combo + 1
            }
        },
    }
}

/// The daily board without one guild's rows, in stored order.
pub open spec fn daily_without_guild(s: Seq<DailyEntryV>, gid: int) -> Seq<DailyEntryV>
    decreases s.len(),
{
    if s.len() == 0 {
        Seq::empty()
    } else {
        let rest = daily_without_guild(s.drop_last(), gid);
        if s.last().gid == gid {
            rest
        } else {
            rest.push(s.last())
        }
    }
}

/// The complete check-in transition: from a pre state and an event
/// (guild, member, instant, message) to the post state and the outcome.
///
/// A missing member or guild record and a duplicate check-in leave the
/// state untouched and name the rejection; otherwise the guild's window
/// state, the member's record, the daily board and the history are all
/// updated together and the points earned are returned.
pub open spec fn spec_check_in(pre: EngineV, gid: int, uid: int, t: int, msg: Seq<char>) -> (
    EngineV,
    Result<i64, NalgangError>,
) {
    if !has_member(pre, gid, uid) {
        (pre, Err(NalgangError::MemberNotExist))
    } else if !has_guild(pre, gid) {
        (pre, Err(NalgangError::GuildNotExist))
    } else {
        let g = pre.guilds[guild_i(pre, gid)];
        let m = pre.members[member_i(pre, gid, uid)];
        if is_duplicate(g.hit_time, m.hit_time, t) {
            (pre, Err(NalgangError::DuplicateAttendance))
        } else {
            let rank = next_rank(g, t);
            let combo = next_combo(m, t);
            let pts = spec_points_for(rank, combo);
            let score = m.score + pts;
            let cleared = if rolls_over(g.hit_time, t) {
                daily_without_guild(pre.daily, gid)
            } else {
                pre.daily
            };
            (
                EngineV {
                    guilds: pre.guilds.update(
                        guild_i(pre, gid),
                        (GuildStateV { gid: g.gid, hit_count: rank, hit_time: t }),
                    ),
                    members: pre.members.update(
                        member_i(pre, gid, uid),
                        (MemberV { gid: m.gid, uid: m.uid, score, combo, hit_time: Some(t) }),
                    ),
                    daily: cleared.push(
                        (DailyEntryV { gid, uid, message: msg, hit_time: t }),
                    ),
                    history: pre.history.push(
                        (HistoryEntryV { gid, uid, message: msg, hit_time: t, score, combo, rank }),
                    ),
                },
                Ok(pts as i64),
            )
        }
    }
}

/// Room the fixed-width counters need before one more check-in: the
/// member's score can take the largest possible award, and the streak and
/// rank counters can advance by one.
pub open spec fn check_in_headroom(s: EngineV, gid: int, uid: int) -> bool {
    &&& (has_member(s, gid, uid) ==> ({
        let m = s.members[member_i(s, gid, uid)];
        m.score + MAX_POINTS <= i64::MAX && m.combo + 1 <= i64::MAX
    }))
    &&& (has_guild(s, gid) ==> s.guilds[guild_i(s, gid)].hit_count + 1 <= i64::MAX)
}

/// The (member id, score) pairs of one guild's members, in stored order.
pub open spec fn guild_scores(s: Seq<MemberV>, gid: int) -> Seq<(int, int)>
    decreases s.len(),
{
    if s.len() == 0 {
        Seq::empty()
    } else {
        let rest = guild_scores(s.drop_last(), gid);
        if s.last().gid == gid {
            rest.push((s.last().uid, s.last().score))
        } else {
            rest
        }
    }
}

/// Sorted by score, highest first.
pub open spec fn sorted_by_score_desc(s: Seq<(i64, i64)>) -> bool {
    forall|i: int, j: int| 0 <= i < j < s.len() ==> (#[trigger] s[i]).1 >= (#[trigger] s[j]).1
}

/// One guild's daily rows whose check-in time falls inside the window
/// starting at `ws`, in stored order.
pub open spec fn todays_daily(s: Seq<DailyEntryV>, gid: int, ws: int) -> Seq<DailyEntryV>
    decreases s.len(),
{
    if s.len() == 0 {
        Seq::empty()
    } else {
        let rest = todays_daily(s.drop_last(), gid, ws);
        if s.last().gid == gid && ws <= s.last().hit_time < ws + DAY_SECONDS {
            rest.push(s.last())
        } else {
            rest
        }
    }
}

/// Sorted by check-in time, earliest first.
pub open spec fn sorted_by_time_asc(s: Seq<DailyEntryV>) -> bool {
    forall|i: int, j: int|
        0 <= i < j < s.len() ==> (#[trigger] s[i]).hit_time <= (#[trigger] s[j]).hit_time
}

impl AttendanceEngine {
    /// A fresh engine with no guilds, members, or history.
    pub fn new() -> (r: AttendanceEngine)
        ensures
            inv(r@),
            r@.guilds == Seq::<GuildStateV>::empty(),
            r@.members == Seq::<MemberV>::empty(),
            r@.daily == Seq::<DailyEntryV>::empty(),
            r@.history == Seq::<HistoryEntryV>::empty(),
    {
        let r = AttendanceEngine {
            guilds: Vec::new(),
            members: Vec::new(),
            daily: Vec::new(),
            history: Vec::new(),
        };
        proof {
            assert(r@.guilds =~= Seq::<GuildStateV>::empty());
            assert(r@.members =~= Seq::<MemberV>::empty());
            assert(r@.daily =~= Seq::<DailyEntryV>::empty());
            assert(r@.history =~= Seq::<HistoryEntryV>::empty());
        }
        r
    }

    /// Index of this guild's record, if one exists.
    fn find_guild(&self, gid: i64) -> (r: Option<usize>)
        ensures
            match r {
                Some(i) => i < self.guilds@.len() && self@.guilds[i as int].gid == gid as int,
                None => !has_guild(self@, gid as int),
            },
    {
        let mut i: usize = 0;
        while i < self.guilds.len()
            invariant
                i <= self.guilds@.len(),
                forall|j: int| 0 <= j < i ==> #[trigger] self@.guilds[j].gid != gid as int,
            decreases self.guilds@.len() - i,
        {
            if self.guilds[i].gid == gid {
                return Some(i);
            }
            i = i + 1;
        }
        None
    }

    /// Index of this member's record, if one exists.
    fn find_member(&self, gid: i64, uid: i64) -> (r: Option<usize>)
        ensures
            match r {
                Some(i) => i < self.members@.len() && self@.members[i as int].gid == gid as int
                    && self@.members[i as int].uid == uid as int,
                None => !has_member(self@, gid as int, uid as int),
            },
    {
        let mut i: usize = 0;
        while i < self.members.len()
            invariant
                i <= self.members@.len(),
                forall|j: int|
                    0 <= j < i ==> !(#[trigger] self@.members[j].gid == gid as int
                        && self@.members[j].uid == uid as int),
            decreases self.members@.len() - i,
        {
            if self.members[i].gid == gid && self.members[i].uid == uid {
                return Some(i);
            }
            i = i + 1;
        }
        None
    }

    /// Register a guild: its window state starts with rank counter 0 and
    /// the pre-epoch hit time, so the first check-in always rolls over.
    pub fn register_guild(&mut self, gid: i64) -> (r: Result<(), NalgangError>)
        requires
            inv(old(self)@),
        ensures
            inv(final(self)@),
            has_guild(old(self)@, gid as int) ==> r == Err::<(), NalgangError>(
                NalgangError::DuplicateGuildRegister,
            ) && final(self)@ == old(self)@,
            !has_guild(old(self)@, gid as int) ==> r == Ok::<(), NalgangError>(())
                && final(self)@ == (EngineV {
                guilds: old(self)@.guilds.push(
                    (GuildStateV { gid: gid as int, hit_count: 0, hit_time: PRE_EPOCH as int }),
                ),
                ..old(self)@
            }),
    {
        match self.find_guild(gid) {
            Some(_) => Err(NalgangError::DuplicateGuildRegister),
            None => {
                self.guilds.push(GuildState { gid, hit_count: 0, hit_time: PRE_EPOCH });
                proof {
                    assert(self@.guilds =~= old(self)@.guilds.push(
                        (GuildStateV { gid: gid as int, hit_count: 0, hit_time: PRE_EPOCH as int }),
                    ));
                    assert(self@ =~= (EngineV { guilds: self@.guilds, ..old(self)@ }));
                }
                Ok(())
            },
        }
    }

    /// An owned copy of a daily row.
    fn duplicate_daily(e: &DailyEntry) -> (r: DailyEntry)
        ensures
            r@ == e@,
    {
        DailyEntry { gid: e.gid, uid: e.uid, message: e.message.clone(), hit_time: e.hit_time }
    }

    /// Remove every daily row of one guild: the guild-level day rollover.
    fn daily_attendance_clear(&mut self, gid: i64)
        ensures
            final(self)@ == (EngineV {
                daily: daily_without_guild(old(self)@.daily, gid as int),
                ..old(self)@
            }),
    {
        let mut kept: Vec<DailyEntry> = Vec::new();
        let mut i: usize = 0;
        while i < self.daily.len()
            invariant
                *self == *old(self),
                i <= self.daily@.len(),
                kept@.map_values(|e: DailyEntry| e@) =~= daily_without_guild(
                    self@.daily.take(i as int),
                    gid as int,
                ),
            decreases self.daily@.len() - i,
        {
            proof {
                assert(self@.daily.take(i + 1).drop_last() =~= self@.daily.take(i as int));
                assert(self@.daily.take(i + 1).last() == self@.daily[i as int]);
            }
            if self.daily[i].gid != gid {
                let e = Self::duplicate_daily(&self.daily[i]);
                kept.push(e);
            }
            i = i + 1;
        }
        proof {
            assert(self@.daily.take(self.daily@.len() as int) =~= self@.daily);
        }
        self.daily = kept;
        proof {
            assert(self@ =~= (EngineV {
                daily: daily_without_guild(old(self)@.daily, gid as int),
                ..old(self)@
            }));
        }
    }

    /// One check-in attempt by a member of a guild at a given instant.
    ///
    /// When the member and the guild are registered and the member has no
    /// accepted check-in inside the current day window, the check-in is
    /// accepted: the guild's window state, the member's score, streak and
    /// last check-in time, the daily board and the history all advance
    /// together as [`spec_check_in`] states, and the points earned are
    /// returned.  Otherwise the state is unchanged and the rejection
    /// names the reason.
    pub fn check_in(&mut self, gid: i64, uid: i64, instant: i64, message: String) -> (r: Result<
        i64,
        NalgangError,
    >)
        requires
            inv(old(self)@),
            valid_instant(instant as int),
            check_in_headroom(old(self)@, gid as int, uid as int),
        ensures
            inv(final(self)@),
            final(self)@ == spec_check_in(
                old(self)@,
                gid as int,
                uid as int,
                instant as int,
                message@,
            ).0,
            r == spec_check_in(old(self)@, gid as int, uid as int, instant as int, message@).1,
    {
        let ghost pre = self@;
        let ghost msg = message@;
        let mi = match self.find_member(gid, uid) {
            None => {
                return Err(NalgangError::MemberNotExist);
            },
            Some(i) => i,
        };
        let gi = match self.find_guild(gid) {
            None => {
                return Err(NalgangError::GuildNotExist);
            },
            Some(i) => i,
        };
        proof {
            assert(has_member(pre, gid as int, uid as int));
            assert(has_guild(pre, gid as int));
            let k = member_i(pre, gid as int, uid as int);
            if k != mi as int {
                assert(!(pre.members[k].gid == pre.members[mi as int].gid && pre.members[k].uid
                    == pre.members[mi as int].uid));
            }
            let kg = guild_i(pre, gid as int);
            if kg != gi as int {
                assert(pre.guilds[kg].gid != pre.guilds[gi as int].gid);
            }
            assert(guild_ok(pre.guilds[gi as int]));
            assert(member_ok(pre.members[mi as int]));
        }
        let member = self.members[mi];
        let guild = self.guilds[gi];
        proof {
            lemma_day_window_start_bounds(guild.hit_time as int);
        }
        let rank_window_start = timestamp_round_down(guild.hit_time);
        let rolled = instant >= rank_window_start + DAY_SECONDS;
        let rank: i64;
        if rolled {
            self.daily_attendance_clear(gid);
            rank = 0;
        } else {
            let dup = match member.hit_time {
                Some(h) => h >= rank_window_start,
                None => false,
            };
            if dup {
                return Err(NalgangError::DuplicateAttendance);
            }
            rank = guild.hit_count + 1;
        }
        let ghost mid = self@;
        self.guilds[gi] = GuildState { gid: guild.gid, hit_count: rank, hit_time: instant };
        let combo: i64 = match member.hit_time {
            None => 1,
            Some(h) => {
                proof {
                    lemma_day_window_start_bounds(h as int);
                }
                let combo_boundary = timestamp_round_down(h) + 2 * DAY_SECONDS;
                if instant >= combo_boundary {
                    1
                } else {
                    member.combo + 1
                }
            },
        };
        let earned = earned_attendance_point(rank, combo);
        let new_score = member.score + earned;
        self.members[mi] = MemberRecord {
            gid: member.gid,
            uid: member.uid,
            score: new_score,
            combo,
            hit_time: Some(instant),
        };
        let cloned_message = message.clone();
        self.daily.push(DailyEntry { gid, uid, message: cloned_message, hit_time: instant });
        self.history.push(
            HistoryEntry {
                gid,
                uid,
                message,
                hit_time: instant,
                score: new_score,
                combo,
                rank,
            },
        );
        proof {
            let gidi = gid as int;
            let uidi = uid as int;
            let ti = instant as int;
            let g = pre.guilds[guild_i(pre, gidi)];
            let m = pre.members[member_i(pre, gidi, uidi)];
            let s_rank = next_rank(g, ti);
            let s_combo = next_combo(m, ti);
            let pts = spec_points_for(s_rank, s_combo);
            assert(rank as int == s_rank);
            assert(combo as int == s_combo);
            assert(earned as int == pts);
            assert(mid.daily == if rolls_over(g.hit_time, ti) {
                daily_without_guild(pre.daily, gidi)
            } else {
                pre.daily
            });
            let post = spec_check_in(pre, gidi, uidi, ti, msg).0;
            assert(self@.guilds =~= post.guilds);
            assert(self@.members =~= post.members);
            assert(self@.daily =~= post.daily);
            assert(self@.history =~= post.history);
            assert(self@ =~= post);
            assert forall|i: int, j: int|
                0 <= i < j < self@.guilds.len() implies #[trigger] self@.guilds[i].gid
                != #[trigger] self@.guilds[j].gid by {
                assert(pre.guilds[i].gid != pre.guilds[j].gid);
            }
            assert forall|i: int, j: int|
                0 <= i < j < self@.members.len() implies !(#[trigger] self@.members[i].gid
                == #[trigger] self@.members[j].gid && self@.members[i].uid
                == self@.members[j].uid) by {
                assert(!(pre.members[i].gid == pre.members[j].gid && pre.members[i].uid
                    == pre.members[j].uid));
            }
            assert forall|i: int| 0 <= i < self@.guilds.len() implies guild_ok(
                #[trigger] self@.guilds[i],
            ) by {
                assert(guild_ok(pre.guilds[i]));
            }
            assert forall|i: int| 0 <= i < self@.members.len() implies member_ok(
                #[trigger] self@.members[i],
            ) by {
                assert(member_ok(pre.members[i]));
            }
        }
        Ok(earned)
    }

    /// Current score and streak of a member: read-only.
    pub fn get_score(&self, gid: i64, uid: i64) -> (r: Result<(i64, i64), NalgangError>)
        requires
            inv(self@),
        ensures
            has_member(self@, gid as int, uid as int) ==> ({
                let m = self@.members[member_i(self@, gid as int, uid as int)];
                r matches Ok(p) && p.0 == m.score && p.1 == m.combo
            }),
            !has_member(self@, gid as int, uid as int) ==> r == Err::<(i64, i64), NalgangError>(
                NalgangError::MemberNotExist,
            ),
    {
        match self.find_member(gid, uid) {
            None => Err(NalgangError::MemberNotExist),
            Some(i) => {
                proof {
                    let k = member_i(self@, gid as int, uid as int);
                    if k != i as int {
                        assert(!(self@.members[k].gid == self@.members[i as int].gid
                            && self@.members[k].uid == self@.members[i as int].uid));
                    }
                }
                Ok((self.members[i].score, self.members[i].combo))
            },
        }
    }

    /// Load a member's stored standing into the caller's handle.
    pub fn command_point(&self, member: &mut NalgangMember) -> (r: Result<(), NalgangError>)
        requires
            inv(self@),
        ensures
            final(member).uid == old(member).uid,
            final(member).gid == old(member).gid,
            has_member(self@, old(member).gid as int, old(member).uid as int) ==> ({
                let m = self@.members[member_i(
                    self@,
                    old(member).gid as int,
                    old(member).uid as int,
                )];
                &&& r == Ok::<(), NalgangError>(())
                &&& final(member).score matches Some(s) && s == m.score
                &&& final(member).combo matches Some(c) && c == m.combo
                &&& match m.hit_time {
                    Some(h) => final(member).hit_time matches Some(x) && x == h,
                    None => final(member).hit_time is None,
                }
            }),
            !has_member(self@, old(member).gid as int, old(member).uid as int) ==> r == Err::<
                (),
                NalgangError,
            >(NalgangError::MemberNotExist) && *final(member) == *old(member),
    {
        match self.find_member(member.gid, member.uid) {
            None => Err(NalgangError::MemberNotExist),
            Some(i) => {
                proof {
                    let k = member_i(self@, member.gid as int, member.uid as int);
                    if k != i as int {
                        assert(!(self@.members[k].gid == self@.members[i as int].gid
                            && self@.members[k].uid == self@.members[i as int].uid));
                    }
                }
                let rec = self.members[i];
                member.score = Some(rec.score);
                member.combo = Some(rec.combo);
                member.hit_time = rec.hit_time;
                Ok(())
            },
        }
    }

    /// The guild's members with their scores, sorted by score descending;
    /// members of equal score keep their stored (registration) order.
    #[verifier::loop_isolation(false)]
    pub fn get_ranking(&self, gid: i64) -> (r: Vec<(i64, i64)>)
        ensures
            sorted_by_score_desc(r@),
            r@.map_values(|p: (i64, i64)| (p.0 as int, p.1 as int)).to_multiset() == guild_scores(
                self@.members,
                gid as int,
            ).to_multiset(),
    {
        broadcast use vstd::seq_lib::group_to_multiset_ensures;
        broadcast use vstd::seq_lib::to_multiset_insert;

        let ghost f = |p: (i64, i64)| (p.0 as int, p.1 as int);
        let mut out: Vec<(i64, i64)> = Vec::new();
        proof {
            assert(guild_scores(self@.members.take(0), gid as int) =~= Seq::<(int, int)>::empty());
            assert(out@.map_values(f) =~= Seq::<(int, int)>::empty());
        }
        let mut i: usize = 0;
        while i < self.members.len()
            invariant
                i <= self.members@.len(),
                sorted_by_score_desc(out@),
                out@.map_values(f).to_multiset() == guild_scores(
                    self@.members.take(i as int),
                    gid as int,
                ).to_multiset(),
            decreases self.members@.len() - i,
        {
            proof {
                assert(self@.members.take(i + 1).drop_last() =~= self@.members.take(i as int));
                assert(self@.members.take(i + 1).last() == self@.members[i as int]);
            }
            let m = self.members[i];
            if m.gid == gid {
                let e = (m.uid, m.score);
                let ghost o = out@;
                let mut p: usize = 0;
                while p < out.len() && out[p].1 >= e.1
                    invariant
                        out@ == o,
                        p <= out@.len(),
                        forall|q: int| 0 <= q < p ==> (#[trigger] out@[q]).1 >= e.1,
                    decreases out@.len() - p,
                {
                    p = p + 1;
                }
                out.insert(p, e);
                proof {
                    o.insert_ensures(p as int, e);
                    o.map_values(f).insert_ensures(p as int, f(e));
                    assert forall|a: int, b: int| 0 <= a < b < out@.len() implies (
                    #[trigger] out@[a]).1 >= (#[trigger] out@[b]).1 by {
                        if a < p && b > p {
                            assert(out@[a] == o[a]);
                            assert(out@[b] == o[b - 1]);
                        }
                        if a == p && b > p {
                            assert(o[p as int].1 < e.1);
                            assert(out@[b] == o[b - 1]);
                        }
                    }
                    assert(out@.map_values(f) =~= o.map_values(f).insert(p as int, f(e)));
                    assert(guild_scores(self@.members.take(i + 1), gid as int) == guild_scores(
                        self@.members.take(i as int),
                        gid as int,
                    ).push((m.uid as int, m.score as int)));
                    assert(f(e) == (m.uid as int, m.score as int));
                }
            }
            i = i + 1;
        }
        proof {
            assert(self@.members.take(self.members@.len() as int) =~= self@.members);
        }
        out
    }

    /// The daily board: this guild's check-ins whose time falls inside
    /// the day window containing `instant`, sorted by check-in time
    /// ascending; rows of equal time keep their stored order.
    #[verifier::loop_isolation(false)]
    pub fn get_todays_check_ins(&self, gid: i64, instant: i64) -> (r: Vec<DailyEntry>)
        requires
            valid_instant(instant as int),
        ensures
            sorted_by_time_asc(r@.map_values(|e: DailyEntry| e@)),
            r@.map_values(|e: DailyEntry| e@).to_multiset() == todays_daily(
                self@.daily,
                gid as int,
                spec_day_window_start(instant as int),
            ).to_multiset(),
    {
        broadcast use vstd::seq_lib::group_to_multiset_ensures;
        broadcast use vstd::seq_lib::to_multiset_insert;

        let ghost f = |e: DailyEntry| e@;
        proof {
            lemma_day_window_start_bounds(instant as int);
        }
        let ws = timestamp_round_down(instant);
        let ghost wsi = ws as int;
        let mut out: Vec<DailyEntry> = Vec::new();
        proof {
            assert(todays_daily(self@.daily.take(0), gid as int, wsi) =~= Seq::<
                DailyEntryV,
            >::empty());
            assert(out@.map_values(f) =~= Seq::<DailyEntryV>::empty());
        }
        let mut i: usize = 0;
        while i < self.daily.len()
            invariant
                i <= self.daily@.len(),
                wsi == ws as int,
                sorted_by_time_asc(out@.map_values(f)),
                out@.map_values(f).to_multiset() == todays_daily(
                    self@.daily.take(i as int),
                    gid as int,
                    wsi,
                ).to_multiset(),
            decreases self.daily@.len() - i,
        {
            proof {
                assert(self@.daily.take(i + 1).drop_last() =~= self@.daily.take(i as int));
                assert(self@.daily.take(i + 1).last() == self@.daily[i as int]);
            }
            let within = self.daily[i].gid == gid && self.daily[i].hit_time >= ws
                && self.daily[i].hit_time < ws + DAY_SECONDS;
            if within {
                let e = Self::duplicate_daily(&self.daily[i]);
                let ghost o = out@;
                let mut p: usize = 0;
                while p < out.len() && out[p].hit_time <= e.hit_time
                    invariant
                        out@ == o,
                        p <= out@.len(),
                        forall|q: int| 0 <= q < p ==> (#[trigger] out@[q]).hit_time <= e.hit_time,
                    decreases out@.len() - p,
                {
                    p = p + 1;
                }
                out.insert(p, e);
                proof {
                    o.insert_ensures(p as int, e);
                    o.map_values(f).insert_ensures(p as int, f(e));
                    let n = out@.map_values(f);
                    assert(n =~= o.map_values(f).insert(p as int, f(e)));
                    assert forall|a: int, b: int| 0 <= a < b < n.len() implies (
                    #[trigger] n[a]).hit_time <= (#[trigger] n[b]).hit_time by {
                        if a < p && b > p {
                            assert(n[a] == o.map_values(f)[a]);
                            assert(n[b] == o.map_values(f)[b - 1]);
                        }
                        if a == p && b > p {
                            assert(o.map_values(f)[p as int].hit_time > f(e).hit_time);
                            assert(n[b] == o.map_values(f)[b - 1]);
                        }
                    }
                    assert(todays_daily(self@.daily.take(i + 1), gid as int, wsi) == todays_daily(
                        self@.daily.take(i as int),
                        gid as int,
                        wsi,
                    ).push(self@.daily[i as int]));
                    assert(f(e) == self@.daily[i as int]);
                }
            }
            i = i + 1;
        }
        proof {
            assert(self@.daily.take(self.daily@.len() as int) =~= self@.daily);
        }
        out
    }

    /// The guild's current rank counter and last accepted check-in time.
    pub fn guild_state(&self, gid: i64) -> (r: Option<(i64, i64)>)
        requires
            inv(self@),
        ensures
            match r {
                Some(p) => has_guild(self@, gid as int) && p.0 == self@.guilds[guild_i(
                    self@,
                    gid as int,
                )].hit_count && p.1 == self@.guilds[guild_i(self@, gid as int)].hit_time,
                None => !has_guild(self@, gid as int),
            },
    {
        match self.find_guild(gid) {
            None => None,
            Some(i) => {
                proof {
                    let k = guild_i(self@, gid as int);
                    if k != i as int {
                        assert(self@.guilds[k].gid != self@.guilds[i as int].gid);
                    }
                }
                Some((self.guilds[i].hit_count, self.guilds[i].hit_time))
            },
        }
    }

    /// Number of audit rows written so far.
    pub fn history_count(&self) -> (n: usize)
        ensures
            n == self@.history.len(),
    {
        self.history.len()
    }

    /// One audit row.
    pub fn history_at(&self, i: usize) -> (r: &HistoryEntry)
        requires
            i < self@.history.len(),
        ensures
            r@ == self@.history[i as int],
    {
        &self.history[i]
    }

    /// Number of rows currently on the daily board, over all guilds.
    pub fn daily_count(&self) -> (n: usize)
        ensures
            n == self@.daily.len(),
    {
        self.daily.len()
    }

    /// Register a member of a guild, with zero score, zero streak, and no
    /// check-in time yet.
    pub fn register_member(&mut self, gid: i64, uid: i64) -> (r: Result<(), NalgangError>)
        requires
            inv(old(self)@),
        ensures
            inv(final(self)@),
            has_member(old(self)@, gid as int, uid as int) ==> r == Err::<(), NalgangError>(
                NalgangError::DuplicateMemberRegister,
            ) && final(self)@ == old(self)@,
            !has_member(old(self)@, gid as int, uid as int) ==> r == Ok::<(), NalgangError>(())
                && final(self)@ == (EngineV {
                members: old(self)@.members.push(
                    (MemberV { gid: gid as int, uid: uid as int, score: 0, combo: 0, hit_time: None }),
                ),
                ..old(self)@
            }),
    {
        match self.find_member(gid, uid) {
            Some(_) => Err(NalgangError::DuplicateMemberRegister),
            None => {
                self.members.push(MemberRecord { gid, uid, score: 0, combo: 0, hit_time: None });
                proof {
                    assert(self@.members =~= old(self)@.members.push(
                        (MemberV {
                            gid: gid as int,
                            uid: uid as int,
                            score: 0,
                            combo: 0,
                            hit_time: None,
                        }),
                    ));
                    assert(self@ =~= (EngineV { members: self@.members, ..old(self)@ }));
                }
                Ok(())
            },
        }
    }
}

} // verus!
