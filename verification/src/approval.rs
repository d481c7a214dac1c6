//! Approval requests, bound to a fingerprint of (actor, tool, arguments)
//! and used once.
//!
//! A store keeps the requests; what it does with them is decided here:
//! which answer a call gets ([`ensure_step`]), what a decision writes
//! ([`decide`]), and what a new request holds ([`pending_request`]).
use vstd::prelude::*;
use vstd::utf8::encode_utf8;
use vstd::slice::slice_to_vec;
use crate::canon::{canon_entries, canonical_object, last_wins, law_sort_ignores_insertion_order, sort_entries};
use crate::digest::{hex_lower, hex_text, random_bytes, sha256_hex, sha256_of, lemma_hex_lower_len};
use crate::json::{Json, JsonV, json_text, jv_entries};
use crate::text::{concat, str_eq};
use crate::clock::{rfc3339_parse, rfc3339_secs, truncate_to_second};

verus! {

/// The validity of an approval where the tool names none, in seconds. No
/// approval is valid without limit.
pub const DEFAULT_TTL: u64 = 3600;

/// Nanoseconds in a second.
pub const NANOS_PER_SEC: u64 = 1_000_000_000;

#[derive(Clone, Copy, PartialEq, Eq, Debug, Structural)]
pub enum Status {
    Pending,
    Approved,
    Rejected,
    /// Used by one execution; it cannot be used again.
    Consumed,
    Expired,
}

pub open spec fn status_text(s: Status) -> Seq<char> {
    match s {
        Status::Pending => "pending"@,
        Status::Approved => "approved"@,
        Status::Rejected => "rejected"@,
        Status::Consumed => "consumed"@,
        Status::Expired => "expired"@,
    }
}

pub open spec fn status_named(t: Seq<char>) -> Option<Status> {
    if t == "pending"@ {
        Some(Status::Pending)
    } else if t == "approved"@ {
        Some(Status::Approved)
    } else if t == "rejected"@ {
        Some(Status::Rejected)
    } else if t == "consumed"@ {
        Some(Status::Consumed)
    } else if t == "expired"@ {
        Some(Status::Expired)
    } else {
        None
    }
}

impl Status {
    pub fn as_str(self) -> (r: &'static str)
        ensures
            r@ == status_text(self),
    {
        match self {
            Status::Pending => "pending",
            Status::Approved => "approved",
            Status::Rejected => "rejected",
            Status::Consumed => "consumed",
            Status::Expired => "expired",
        }
    }

    pub fn parse(s: &str) -> (r: Option<Status>)
        ensures
            r == status_named(s@),
    {
        if str_eq(s, "pending") {
            Some(Status::Pending)
        } else if str_eq(s, "approved") {
            Some(Status::Approved)
        } else if str_eq(s, "rejected") {
            Some(Status::Rejected)
        } else if str_eq(s, "consumed") {
            Some(Status::Consumed)
        } else if str_eq(s, "expired") {
            Some(Status::Expired)
        } else {
            None
        }
    }
}

/// Each status reads back from its text.
pub proof fn law_status_round_trip(s: Status)
    ensures
        status_named(status_text(s)) == Some(s),
{
    reveal_strlit("pending");
    reveal_strlit("approved");
    reveal_strlit("rejected");
    reveal_strlit("consumed");
    reveal_strlit("expired");
    assert("pending"@[0] == 'p' && "approved"@[0] == 'a' && "rejected"@[0] == 'r');
    assert("consumed"@[0] == 'c' && "expired"@[0] == 'e');
}

/// Why a store refused.
#[derive(Debug)]
pub enum Error {
    NotFound,
    NotPending,
    /// The request changed between reading and writing it.
    Raced,
    /// The one who asked tried to decide; carries the requester.
    SelfApproval(String),
    NoApprover,
    /// A failure of the store itself.
    Other(String),
}

/// An approval request. Instants are nanoseconds since the Unix epoch.
pub struct Request {
    pub id: String,
    pub fingerprint: String,
    pub actor: String,
    pub tool: String,
    pub args: Vec<(String, Json)>,
    pub status: Status,
    pub requested_at: i64,
    pub decided_by: String,
    pub decided_at: Option<i64>,
    pub note: String,
    /// Validity after approval, in seconds.
    pub ttl: u64,
    /// `None` until approved: the clock runs from the decision.
    pub expires_at: Option<i64>,
}

impl Request {
    /// Past the expiry instant; the instant itself is still valid.
    pub open spec fn expired_at(&self, now: i64) -> bool {
        match self.expires_at {
            Some(e) => now > e,
            None => false,
        }
    }

    pub fn expired(&self, now: i64) -> (r: bool)
        ensures
            r == self.expired_at(now),
    {
        match self.expires_at {
            Some(e) => now > e,
            None => false,
        }
    }
}

pub open spec fn effective_ttl_spec(ttl: u64) -> u64 {
    if ttl == 0 {
        DEFAULT_TTL
    } else {
        ttl
    }
}

/// A zero validity means the default.
pub fn effective_ttl(ttl: u64) -> (r: u64)
    ensures
        r == effective_ttl_spec(ttl),
{
    if ttl == 0 {
        DEFAULT_TTL
    } else {
        ttl
    }
}

/// The bytes a fingerprint hashes: actor, a zero byte, tool, a zero byte,
/// and the compact JSON of the arguments with keys sorted at every depth.
pub open spec fn fingerprint_input(actor: Seq<char>, tool: Seq<char>, args: Seq<(String, Json)>) -> Seq<u8> {
    encode_utf8(actor) + seq![0u8] + encode_utf8(tool) + seq![0u8] + encode_utf8(
        json_text(JsonV::Object(sort_entries(canon_entries(args)))),
    )
}

pub open spec fn fingerprint_spec(actor: Seq<char>, tool: Seq<char>, args: Seq<(String, Json)>) -> Seq<char> {
    hex_lower(sha256_of(fingerprint_input(actor, tool, args)))
}

/// The fingerprint of (actor, tool, arguments): lowercase hex SHA-256.
/// Sorting the keys is the canonical form, so the order in which the
/// arguments were inserted does not count.
pub fn fingerprint(actor: &str, tool: &str, args: &Vec<(String, Json)>) -> (r: String)
    ensures
        r@ == fingerprint_spec(actor@, tool@, args@),
        r@.len() == 64,
{
    let sorted = canonical_object(args);
    let text = Json::Object(sorted).to_text();
    let mut bytes = slice_to_vec(actor.as_bytes());
    bytes.push(0u8);
    let mut t = slice_to_vec(tool.as_bytes());
    bytes.append(&mut t);
    bytes.push(0u8);
    let mut a = slice_to_vec(text.as_str().as_bytes());
    bytes.append(&mut a);
    assert(bytes@ =~= fingerprint_input(actor@, tool@, args@));
    sha256_hex(bytes.as_slice())
}

/// Arguments that a map would hold alike give one fingerprint, whatever
/// order their keys were inserted in.
pub proof fn law_fingerprint_ignores_insertion_order(
    actor: Seq<char>,
    tool: Seq<char>,
    a: Seq<(String, Json)>,
    b: Seq<(String, Json)>,
)
    requires
        last_wins(canon_entries(a)) == last_wins(canon_entries(b)),
    ensures
        fingerprint_spec(actor, tool, a) == fingerprint_spec(actor, tool, b),
{
    law_sort_ignores_insertion_order(canon_entries(a), canon_entries(b));
}

/// A new request id: `req_` and 12 random lowercase hex digits.
pub fn new_id() -> (r: String)
    ensures
        exists|b: Seq<u8>| b.len() == 6 && r@ == "req_"@ + hex_lower(b),
        r@.len() == 16,
{
    let b = random_bytes(6);
    let h = hex_text(b.as_slice());
    proof {
        lemma_hex_lower_len(b@);
        reveal_strlit("req_");
    }
    concat("req_", h.as_str())
}

/// What a store does for a call, given the newest live request with the
/// call's fingerprint.
#[derive(Clone, Copy, PartialEq, Eq, Debug, Structural)]
pub enum EnsureStep {
    /// Answer with the request as it stands (pending or rejected).
    Return,
    /// Mark it consumed and answer `Approved`: the call may run now.
    Consume,
    /// The approval has expired: mark it so and create a new pending request.
    ExpireThenCreate,
    /// Create a new pending request.
    Create,
}

pub open spec fn ensure_step_spec(existing: Option<Request>, now: i64) -> EnsureStep {
    match existing {
        None => EnsureStep::Create,
        Some(r) => match r.status {
            Status::Pending | Status::Rejected => EnsureStep::Return,
            Status::Approved => if r.expired_at(now) {
                EnsureStep::ExpireThenCreate
            } else {
                EnsureStep::Consume
            },
            Status::Consumed | Status::Expired => EnsureStep::Create,
        },
    }
}

/// Decides how a store settles a call: a valid approval is consumed, an
/// expired one is replaced by a new pending request, a pending or rejected
/// one is answered as it is (no duplicate is made), and where none lives a
/// pending request is created.
pub fn ensure_step(existing: &Option<Request>, now: i64) -> (r: EnsureStep)
    ensures
        r == ensure_step_spec(*existing, now),
{
    match existing {
        None => EnsureStep::Create,
        Some(r) => match r.status {
            Status::Pending | Status::Rejected => EnsureStep::Return,
            Status::Approved => if r.expired(now) {
                EnsureStep::ExpireThenCreate
            } else {
                EnsureStep::Consume
            },
            Status::Consumed | Status::Expired => EnsureStep::Create,
        },
    }
}

/// An approval serves one execution: a valid approval is consumed; a
/// consumed request is no longer live, so the same call next finds no live
/// request, or at most the consumed one, and needs a new request either
/// way.
pub proof fn law_single_use(r: Request, now: i64, later: i64)
    requires
        r.status == Status::Approved,
        !r.expired_at(now),
    ensures
        ensure_step_spec(Some(r), now) == EnsureStep::Consume,
        !live(Status::Consumed),
        ensure_step_spec(Some(Request { status: Status::Consumed, ..r }), later) == EnsureStep::Create,
        ensure_step_spec(None, later) == EnsureStep::Create,
{
}

/// An expired approval never lets a call run: it is replaced by a new
/// pending request.
pub proof fn law_expired_approval_is_replaced(r: Request, now: i64)
    requires
        r.status == Status::Approved,
        r.expired_at(now),
    ensures
        ensure_step_spec(Some(r), now) == EnsureStep::ExpireThenCreate,
        !live(Status::Expired),
{
}

/// The new pending request a store creates for a call. Its validity is
/// fixed when it is requested, its arguments are kept key-sorted, and its
/// request time is the given instant at whole seconds (`requested_at`, as
/// the store reads it back).
pub fn pending_request(
    id: String,
    fingerprint: String,
    actor: &str,
    tool: &str,
    args: &Vec<(String, Json)>,
    ttl: u64,
    requested_at: i64,
) -> (r: Request)
    ensures
        r.id@ == id@,
        r.fingerprint@ == fingerprint@,
        r.actor@ == actor@,
        r.tool@ == tool@,
        jv_entries(r.args@) == sort_entries(canon_entries(args@)),
        r.status == Status::Pending,
        r.requested_at == requested_at,
        r.decided_by@ == Seq::<char>::empty(),
        r.decided_at.is_none(),
        r.note@ == Seq::<char>::empty(),
        r.ttl == effective_ttl_spec(ttl),
        r.expires_at.is_none(),
{
    Request {
        id,
        fingerprint,
        actor: actor.to_string(),
        tool: tool.to_string(),
        args: canonical_object(args),
        status: Status::Pending,
        requested_at,
        decided_by: String::new(),
        decided_at: None,
        note: String::new(),
        ttl: effective_ttl(ttl),
        expires_at: None,
    }
}

/// The statuses a store still settles calls against; a consumed or
/// expired request is finished, and the next call makes a new one.
pub open spec fn live(s: Status) -> bool {
    s == Status::Pending || s == Status::Approved || s == Status::Rejected
}

/// What a store does to settle a call, given the newest live request with
/// the call's fingerprint: the new status of that request, if it changes;
/// whether the answer is a new request to insert; and the answer.
pub struct Settlement {
    pub mark: Option<Status>,
    pub insert: bool,
    pub answer: Request,
}

/// A new pending request for a call, under a fresh id, requested at `now`
/// as the store reads it back (whole seconds).
pub open spec fn fresh_request(
    r: Request,
    id: Seq<char>,
    actor: Seq<char>,
    tool: Seq<char>,
    args: Seq<(String, Json)>,
    ttl: u64,
    now: i64,
) -> bool {
    &&& r.id@ == id
    &&& r.fingerprint@ == fingerprint_spec(actor, tool, args)
    &&& r.actor@ == actor
    &&& r.tool@ == tool
    &&& jv_entries(r.args@) == sort_entries(canon_entries(args))
    &&& r.status == Status::Pending
    &&& r.requested_at == match rfc3339_parse(rfc3339_secs(now)) {
        Some(x) => x,
        None => now,
    }
    &&& r.decided_by@.len() == 0
    &&& r.decided_at.is_none()
    &&& r.note@.len() == 0
    &&& r.ttl == effective_ttl_spec(ttl)
    &&& r.expires_at.is_none()
}

/// Settles a call at `now`: a valid approval is answered as it is and
/// marked consumed, so it serves this one call; an expired one is marked
/// expired and a new pending request under `fresh_id` is made; a pending
/// or rejected one is answered as it is; and where none lives a new
/// pending request is made.
pub fn settle(
    existing: Option<Request>,
    actor: &str,
    tool: &str,
    args: &Vec<(String, Json)>,
    ttl: u64,
    now: i64,
    fresh_id: String,
) -> (r: Settlement)
    ensures
        match ensure_step_spec(existing, now) {
            EnsureStep::Return => r.mark is None && !r.insert && Some(r.answer) == existing,
            EnsureStep::Consume => r.mark == Some(Status::Consumed) && !r.insert && Some(r.answer) == existing
                && r.answer.status == Status::Approved,
            EnsureStep::ExpireThenCreate => r.mark == Some(Status::Expired) && r.insert && fresh_request(
                r.answer,
                fresh_id@,
                actor@,
                tool@,
                args@,
                ttl,
                now,
            ),
            EnsureStep::Create => r.mark is None && r.insert && fresh_request(
                r.answer,
                fresh_id@,
                actor@,
                tool@,
                args@,
                ttl,
                now,
            ),
        },
{
    let step = ensure_step(&existing, now);
    match existing {
        Some(e) => match step {
            EnsureStep::Return => {
                return Settlement { mark: None, insert: false, answer: e };
            },
            EnsureStep::Consume => {
                return Settlement { mark: Some(Status::Consumed), insert: false, answer: e };
            },
            _ => {},
        },
        None => {},
    }
    let mark = if step == EnsureStep::ExpireThenCreate {
        Some(Status::Expired)
    } else {
        None
    };
    let fp = fingerprint(actor, tool, args);
    let answer = pending_request(fresh_id, fp, actor, tool, args, ttl, truncate_to_second(now));
    Settlement { mark, insert: true, answer }
}

/// The validity of an approval in nanoseconds.
pub open spec fn ttl_nanos(ttl: u64) -> int {
    effective_ttl_spec(ttl) * NANOS_PER_SEC
}

/// The request's decision is well-formed and owed: it is pending, someone
/// decides, and it is not the requester.
pub open spec fn decidable(req: Request, by: Seq<char>) -> bool {
    by.len() > 0 && req.status == Status::Pending && by != req.actor@
}

/// Approves or rejects a pending request at `now`. The requester cannot
/// decide their own request, neither to approve nor to reject it. An
/// approval is valid from the decision (not from the request) for the
/// request's validity; a rejection never expires.
pub fn decide(req: &mut Request, approve: bool, by: &str, note: &str, now: i64) -> (r: Result<(), Error>)
    requires
        decidable(*old(req), by@) && approve ==> now + ttl_nanos(old(req).ttl) <= i64::MAX,
    ensures
        by@.len() == 0 <==> r matches Err(Error::NoApprover),
        (by@.len() > 0 && old(req).status != Status::Pending) <==> r matches Err(Error::NotPending),
        (by@.len() > 0 && old(req).status == Status::Pending && by@ == old(req).actor@) <==> (r matches Err(
            Error::SelfApproval(a),
        ) && a@ == old(req).actor@),
        r is Ok <==> decidable(*old(req), by@),
        r is Err ==> *final(req) == *old(req),
        r is Ok ==> {
            &&& final(req).status == (if approve {
                Status::Approved
            } else {
                Status::Rejected
            })
            &&& final(req).decided_by@ == by@
            &&& final(req).decided_at == Some(now)
            &&& final(req).note@ == note@
            &&& final(req).expires_at == (if approve {
                Some((now + ttl_nanos(old(req).ttl)) as i64)
            } else {
                None
            })
            &&& final(req).id == old(req).id
            &&& final(req).fingerprint == old(req).fingerprint
            &&& final(req).actor == old(req).actor
            &&& final(req).tool == old(req).tool
            &&& final(req).args == old(req).args
            &&& final(req).requested_at == old(req).requested_at
            &&& final(req).ttl == old(req).ttl
        },
        r is Ok && approve ==> !final(req).expired_at((now + ttl_nanos(old(req).ttl)) as i64),
        r is Ok && approve && now + ttl_nanos(old(req).ttl) < i64::MAX ==> final(req).expired_at(
            (now + ttl_nanos(old(req).ttl) + 1) as i64,
        ),
        r is Ok && !approve ==> forall|t: i64| !#[trigger] final(req).expired_at(t),
{
    let none = String::new();
    if str_eq(by, none.as_str()) {
        return Err(Error::NoApprover);
    }
    assert(by@.len() > 0) by {
        if by@.len() == 0 {
            assert(by@ =~= none@);
        }
    }
    if req.status != Status::Pending {
        return Err(Error::NotPending);
    }
    if str_eq(by, req.actor.as_str()) {
        return Err(Error::SelfApproval(req.actor.clone()));
    }
    let expires = if approve {
        let ttl = effective_ttl(req.ttl);
        assert((ttl as i128) * (NANOS_PER_SEC as i128) <= 18_446_744_073_709_551_615i128 * 1_000_000_000i128) by (nonlinear_arith)
            requires
                ttl <= 18_446_744_073_709_551_615u64;
        let e: i128 = (now as i128) + (ttl as i128) * (NANOS_PER_SEC as i128);
        Some(e as i64)
    } else {
        None
    };
    req.status = if approve {
        Status::Approved
    } else {
        Status::Rejected
    };
    req.decided_by = by.to_string();
    req.decided_at = Some(now);
    req.note = note.to_string();
    req.expires_at = expires;
    Ok(())
}

/// How many requests a listing returns: a limit of zero or less means 50.
pub fn list_limit(limit: i64) -> (r: i64)
    ensures
        r == (if limit <= 0 {
            50
        } else {
            limit
        }),
{
    if limit <= 0 {
        50
    } else {
        limit
    }
}

} // verus!
