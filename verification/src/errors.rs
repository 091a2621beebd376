//! Expected domain outcomes of the attendance commands.  All of these are
//! typed results returned to the caller, not faults.

use vstd::prelude::*;

verus! {

/// Rejections the attendance engine can answer with.
#[derive(Clone, Copy, Debug, PartialEq, Eq, Structural)]
pub enum NalgangError {
    /// The member already has an accepted check-in in the current window.
    DuplicateAttendance,
    /// The member is already registered.
    DuplicateMemberRegister,
    /// The guild is already registered.
    DuplicateGuildRegister,
    /// No record exists for this guild and member.
    MemberNotExist,
    /// No attendance state exists for this guild.
    GuildNotExist,
}

impl NalgangError {
    /// The variant's stable name as a character sequence.
    pub open spec fn spec_name(self) -> Seq<char> {
        match self {
            NalgangError::DuplicateAttendance => "DuplicateAttendance"@,
            NalgangError::DuplicateMemberRegister => "DuplicateMemberRegister"@,
            NalgangError::DuplicateGuildRegister => "DuplicateGuildRegister"@,
            NalgangError::MemberNotExist => "MemberNotExist"@,
            NalgangError::GuildNotExist => "GuildNotExist"@,
        }
    }

    /// Short stable name of the variant, for callers that render messages.
    pub fn describe(&self) -> (r: &'static str)
        ensures
            r@ == self.spec_name(),
    {
        match self {
            NalgangError::DuplicateAttendance => "DuplicateAttendance",
            NalgangError::DuplicateMemberRegister => "DuplicateMemberRegister",
            NalgangError::DuplicateGuildRegister => "DuplicateGuildRegister",
            NalgangError::MemberNotExist => "MemberNotExist",
            NalgangError::GuildNotExist => "GuildNotExist",
        }
    }
}

} // verus!
