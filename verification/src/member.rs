//! A member's standing as callers pass it around: identity plus the
//! optionally loaded score, streak and last check-in time.

use vstd::prelude::*;

verus! {

/// Per-member data for one guild.  The optional fields are `None` until
/// they are loaded from the engine or filled by [`NalgangMember::update_data`].
#[derive(Clone, Copy, Debug, PartialEq, Eq, Structural)]
pub struct NalgangMember {
    pub uid: i64,
    pub gid: i64,
    pub score: Option<i64>,
    pub combo: Option<i64>,
    pub hit_time: Option<i64>,
}

impl NalgangMember {
    /// A member handle built from plain ids, with no standing loaded yet.
    pub fn new_explict(user_id: i64, guild_id: i64) -> (r: Self)
        ensures
            r.uid == user_id,
            r.gid == guild_id,
            r.score is None,
            r.combo is None,
            r.hit_time is None,
    {
        NalgangMember { uid: user_id, gid: guild_id, score: None, combo: None, hit_time: None }
    }

    /// Fill in the loaded standing; the identity is untouched.
    pub fn update_data(&mut self, score: i64, combo: i64, hit_time: i64)
        ensures
            final(self).uid == old(self).uid,
            final(self).gid == old(self).gid,
            final(self).score == Some(score),
            final(self).combo == Some(combo),
            final(self).hit_time == Some(hit_time),
    {
        self.score = Some(score);
        self.combo = Some(combo);
        self.hit_time = Some(hit_time);
    }
}

} // verus!
