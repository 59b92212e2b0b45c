//! Approvals of paths by the user.

use vstd::prelude::*;

verus! {

/// Why a path needs the user's approval.
#[derive(Debug, Clone, Copy, PartialEq, Eq, Structural)]
pub enum ApprovalReason {
    OutsideWorkspace,
    HiddenPath,
}

impl ApprovalReason {
    /// The reason in words.
    pub fn label(&self) -> (r: &'static str)
        ensures
            r@ == match *self {
                ApprovalReason::OutsideWorkspace => "outside the workspace"@,
                ApprovalReason::HiddenPath => "hidden path"@,
            },
    {
        match self {
            ApprovalReason::OutsideWorkspace => "outside the workspace",
            ApprovalReason::HiddenPath => "hidden path",
        }
    }
}

/// What came of asking the user.
#[derive(Debug, Clone, Copy, PartialEq, Eq, Structural)]
pub enum ApprovalReply {
    ChannelClosed,
    Dropped,
    Answered(bool),
}

/// Whether the path is approved, or why not.
pub fn approval_from(reply: ApprovalReply) -> (r: Result<(), String>)
    ensures
        match reply {
            ApprovalReply::ChannelClosed => r matches Err(e) && e@ == "approval channel closed"@,
            ApprovalReply::Dropped => r matches Err(e) && e@ == "approval cancelled"@,
            ApprovalReply::Answered(true) => r is Ok,
            ApprovalReply::Answered(false) => r matches Err(e) && e@ == "denied by user"@,
        },
{
    match reply {
        ApprovalReply::ChannelClosed => Err("approval channel closed".to_owned()),
        ApprovalReply::Dropped => Err("approval cancelled".to_owned()),
        ApprovalReply::Answered(allowed) => {
            if allowed {
                Ok(())
            } else {
                Err("denied by user".to_owned())
            }
        },
    }
}

}
