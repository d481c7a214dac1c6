//! The approval gate's answers: what the gateway learns from the approver.
//!
//! Without an approval store nothing is approved: a gateway started without
//! one never runs an L3+ tool.
use vstd::prelude::*;
use crate::approval::{Request, Status, status_text};
use crate::gateway::admission::ApprovalFacts;
use crate::text::owned;

verus! {

/// The approval state of one call.
pub struct Approval {
    /// Whether the call may run now.
    pub approved: bool,
    /// `pending`, `approved` or `rejected`.
    pub status: String,
    pub request_id: String,
    /// Validity after approval, in seconds.
    pub ttl: u64,
}

impl Approval {
    /// What the approval store's request says of the call.
    pub fn from_request(req: &Request) -> (r: Approval)
        ensures
            r.approved == (req.status == Status::Approved),
            r.status@ == status_text(req.status),
            r.request_id == req.id,
            r.ttl == req.ttl,
    {
        Approval {
            approved: req.status == Status::Approved,
            status: owned(req.status.as_str()),
            request_id: req.id.clone(),
            ttl: req.ttl,
        }
    }

    /// The answer as the admission flow takes it.
    pub fn facts(&self) -> (r: ApprovalFacts)
        ensures
            r.approved == self.approved,
            r.status == self.status,
            r.request_id == self.request_id,
            r.ttl_secs == self.ttl,
    {
        ApprovalFacts {
            approved: self.approved,
            status: self.status.clone(),
            request_id: self.request_id.clone(),
            ttl_secs: self.ttl,
        }
    }
}

/// Approves nothing. The default, and fail-closed.
#[derive(Clone, Copy, Debug)]
pub struct DenyApprover;

impl DenyApprover {
    /// Every call stays pending.
    pub fn approve(&self) -> (r: Approval)
        ensures
            !r.approved,
            r.status@ == status_text(Status::Pending),
            r.request_id@ == Seq::<char>::empty(),
            r.ttl == 0,
    {
        Approval {
            approved: false,
            status: owned(Status::Pending.as_str()),
            request_id: String::new(),
            ttl: 0,
        }
    }
}

} // verus!
