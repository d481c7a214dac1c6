//! The order in which a call is admitted.
//!
//! ```text
//! A. tool lookup (the registry is the allowlist)
//! B. rate limit
//! C. cost ceiling
//! D. input schema
//! E. policy (role permissions, principal scope, attribute rules)
//! F. high-risk (L4) block
//! G. approval gate (unapproved means a dry run)
//! H. pre-execution audit of L3 and above (fail-closed)
//! ```
//!
//! The outside work of each step (the registry, the limiter, the budget
//! tracker, the schema check, the policy engine, the approver, the audit
//! log) is done by the caller; an [`Admission`] takes each answer and says
//! what to do next. Every refusal is recorded with the decision `denied`;
//! the audit entry before an L3+ execution is the only one whose failure
//! stops the call.
use vstd::prelude::*;
use crate::registry::{RiskLevel, risk_label};
use crate::policy::{Decision, DecisionV};
use crate::budget::{Exceeded, exceeded_text};
use crate::gateway::{Error, ErrorV, rate_limit_for, rate_limit_spec, denial_codes};
use crate::text::{owned, concat, concat3, debug_quote, debug_text, int_to_string, int_text, str_eq};
use crate::registry::{strs, Spec};
use crate::inventory::{Inventory, SystemV, generic_request_path, request_path_spec};

verus! {

#[derive(Clone, Copy, PartialEq, Eq, Debug, Structural)]
pub enum Stage {
    Lookup,
    RateLimit,
    Budget,
    Input,
    Policy,
    Approval,
    PreAudit,
    Execute,
    Done,
}

/// What admission needs to know of the tool once it is found.
pub struct ToolFacts {
    pub rate_limit_per_min: i64,
    pub risk_level: RiskLevel,
    pub fallback: String,
    /// Where to ask for access to the tool's system.
    pub access_path: String,
}

/// Where to ask for access to `system`: what the inventory says for it
/// (its own path, or the generic guidance for a system it does not know),
/// and the generic guidance when there is no inventory.
pub open spec fn access_path_spec(inventory: Option<Map<Seq<char>, SystemV>>, system: Seq<char>) -> Seq<char> {
    match inventory {
        Some(m) => if m.contains_key(system) {
            request_path_spec(m[system].owner_team, m[system].contact)
        } else {
            generic_request_path()
        },
        None => generic_request_path(),
    }
}

pub open spec fn inventory_view(inventory: Option<&Inventory>) -> Option<Map<Seq<char>, SystemV>> {
    match inventory {
        Some(i) => Some(i@),
        None => None,
    }
}

/// Where to ask for access to `system`, with or without an inventory.
pub fn access_request_path(inventory: Option<&Inventory>, system: &str) -> (r: String)
    requires
        inventory matches Some(i) ==> i.wf(),
    ensures
        r@ == access_path_spec(inventory_view(inventory), system@),
{
    match inventory {
        Some(i) => i.access_request_path(system),
        None => owned("담당 부서에 접근 요청을 제출하세요"),
    }
}

impl ToolFacts {
    /// What admission needs of a registered tool: its limit, risk and
    /// fallback from its declaration, and where to ask for access to its
    /// system.
    pub fn of(spec: &Spec, inventory: Option<&Inventory>) -> (r: ToolFacts)
        requires
            inventory matches Some(i) ==> i.wf(),
        ensures
            r.rate_limit_per_min == spec.rate_limit_per_min,
            r.risk_level == spec.risk_level,
            r.fallback@ == spec.fallback@,
            r.access_path@ == access_path_spec(inventory_view(inventory), spec.system@),
    {
        ToolFacts {
            rate_limit_per_min: spec.rate_limit_per_min,
            risk_level: spec.risk_level,
            fallback: spec.fallback.clone(),
            access_path: access_request_path(inventory, spec.system.as_str()),
        }
    }
}

/// What the approver answered.
pub struct ApprovalFacts {
    /// Whether the call may run now.
    pub approved: bool,
    /// `pending`, `approved` or `rejected`.
    pub status: String,
    pub request_id: String,
    /// How long an approval of the request stays valid, in seconds.
    pub ttl_secs: u64,
}

/// An audit entry's verdict.
pub struct Audit {
    /// `allowed` or `denied`.
    pub decision: String,
    pub reason: String,
    pub error: String,
}

pub struct AuditV {
    pub decision: Seq<char>,
    pub reason: Seq<char>,
    pub error: Seq<char>,
}

impl View for Audit {
    type V = AuditV;

    open spec fn view(&self) -> AuditV {
        AuditV { decision: self.decision@, reason: self.reason@, error: self.error@ }
    }
}

/// What to do next.
pub enum Action {
    /// Count the call against the limiter under this key.
    CheckRate { key: String, limit: i64 },
    /// Ask the budget tracker about this key.
    CheckBudget { key: String },
    /// Check the arguments against the tool's input schema.
    ValidateInput,
    /// Ask the policy engine.
    Evaluate,
    /// Ask the approver.
    Approve,
    /// Record the entry that must precede an L3+ execution.
    PreAudit { reason: String },
    /// Record this entry and end with this error.
    Refuse { audit: Audit, error: Error },
    /// Record this entry and end with a dry run.
    DryRun { audit: Audit },
    /// End with this error; the audit log could not be written.
    Abort { error: Error },
    /// Run the adapter.
    Execute,
}

pub enum ActionV {
    CheckRate { key: Seq<char>, limit: i64 },
    CheckBudget { key: Seq<char> },
    ValidateInput,
    Evaluate,
    Approve,
    PreAudit { reason: Seq<char> },
    Refuse { audit: AuditV, error: ErrorV },
    DryRun { audit: AuditV },
    Abort { error: ErrorV },
    Execute,
}

impl View for Action {
    type V = ActionV;

    open spec fn view(&self) -> ActionV {
        match self {
            Action::CheckRate { key, limit } => ActionV::CheckRate { key: key@, limit: *limit },
            Action::CheckBudget { key } => ActionV::CheckBudget { key: key@ },
            Action::ValidateInput => ActionV::ValidateInput,
            Action::Evaluate => ActionV::Evaluate,
            Action::Approve => ActionV::Approve,
            Action::PreAudit { reason } => ActionV::PreAudit { reason: reason@ },
            Action::Refuse { audit, error } => ActionV::Refuse { audit: audit@, error: error@ },
            Action::DryRun { audit } => ActionV::DryRun { audit: audit@ },
            Action::Abort { error } => ActionV::Abort { error: error@ },
            Action::Execute => ActionV::Execute,
        }
    }
}

/// The state of one call's admission.
pub struct Admission {
    stage: Stage,
    tool: String,
    user_id: String,
    budget_key: String,
    allow_high_risk: bool,
    limit: i64,
    risk: RiskLevel,
    fallback: String,
    access_path: String,
    approval_required: bool,
    allow_reason: String,
    approval_status: String,
    approval_id: String,
    approval_ttl: u64,
    rate_ok: bool,
    budget_ok: bool,
    input_ok: bool,
    allowed: bool,
    approved: bool,
    audited: bool,
    charged: bool,
}

pub struct AdmissionV {
    pub stage: Stage,
    pub tool: Seq<char>,
    pub user_id: Seq<char>,
    pub budget_key: Seq<char>,
    pub allow_high_risk: bool,
    pub limit: i64,
    pub risk: RiskLevel,
    pub fallback: Seq<char>,
    pub access_path: Seq<char>,
    pub approval_required: bool,
    pub allow_reason: Seq<char>,
    pub approval_status: Seq<char>,
    pub approval_id: Seq<char>,
    pub approval_ttl: u64,
    pub rate_ok: bool,
    pub budget_ok: bool,
    pub input_ok: bool,
    pub allowed: bool,
    pub approved: bool,
    pub audited: bool,
    /// The call's final entry was recorded and its cost charged.
    pub charged: bool,
}

impl View for Admission {
    type V = AdmissionV;

    closed spec fn view(&self) -> AdmissionV {
        AdmissionV {
            stage: self.stage,
            tool: self.tool@,
            user_id: self.user_id@,
            budget_key: self.budget_key@,
            allow_high_risk: self.allow_high_risk,
            limit: self.limit,
            risk: self.risk,
            fallback: self.fallback@,
            access_path: self.access_path@,
            approval_required: self.approval_required,
            allow_reason: self.allow_reason@,
            approval_status: self.approval_status@,
            approval_id: self.approval_id@,
            approval_ttl: self.approval_ttl,
            rate_ok: self.rate_ok,
            budget_ok: self.budget_ok,
            input_ok: self.input_ok,
            allowed: self.allowed,
            approved: self.approved,
            audited: self.audited,
            charged: self.charged,
        }
    }
}

/// Everything that must have been cleared before the adapter runs: the
/// tool exists, the rate and the budget allow it, the input fits, the
/// policy allows it, an L4 tool runs only where high risk is enabled, an
/// approval the policy asks for was given, and an L3+ call was audited.
pub open spec fn cleared(a: AdmissionV) -> bool {
    &&& a.rate_ok
    &&& a.budget_ok
    &&& a.input_ok
    &&& a.allowed
    &&& (a.risk.rank_spec() >= 4 ==> a.allow_high_risk)
    &&& (a.approval_required ==> a.approved)
    &&& (a.risk.rank_spec() >= 3 ==> a.audited)
}

/// A refusal is always recorded as `denied`, under a denial code.
pub open spec fn refusal_ok(r: ActionV) -> bool {
    match r {
        ActionV::Refuse { audit, error } => audit.decision == "denied"@ && denial_codes().contains(error.code),
        ActionV::DryRun { audit } => audit.decision == "allowed"@,
        ActionV::Execute => false,
        _ => true,
    }
}

/// The guarantees of every step: the adapter runs only once everything is
/// cleared, and refusals are recorded as denials.
pub open spec fn step_ok(after: AdmissionV, r: ActionV) -> bool {
    &&& (r is Execute ==> cleared(after) && after.stage == Stage::Execute)
    &&& (!(r is Execute) ==> refusal_ok(r))
}

pub open spec fn refuse_v(reason: Seq<char>, error: Seq<char>, code: Seq<char>, message: Seq<char>, fallback: Seq<char>) -> ActionV {
    ActionV::Refuse {
        audit: AuditV { decision: "denied"@, reason, error },
        error: ErrorV { code, message, fallback },
    }
}

fn refuse(reason: &str, error: String, code: &str, message: String, fallback: &str) -> (r: Action)
    ensures
        r@ == refuse_v(reason@, error@, code@, message@, fallback@),
{
    Action::Refuse {
        audit: Audit { decision: owned("denied"), reason: owned(reason), error },
        error: Error { code: owned(code), message, fallback: owned(fallback) },
    }
}

proof fn lemma_denial(code: Seq<char>, i: int)
    requires
        0 <= i < 8,
        denial_codes()[i] == code,
    ensures
        denial_codes().contains(code),
{
}

/// `items` joined by `sep`.
pub open spec fn join(items: Seq<Seq<char>>, sep: Seq<char>) -> Seq<char>
    decreases items.len(),
{
    if items.len() == 0 {
        Seq::empty()
    } else if items.len() == 1 {
        items[0]
    } else {
        join(items.drop_last(), sep) + sep + items.last()
    }
}

/// `items` joined by `sep`.
pub fn join_strings(items: &Vec<String>, sep: &str) -> (r: String)
    ensures
        r@ == join(strs(items@), sep@),
{
    let mut out = String::new();
    let mut i: usize = 0;
    while i < items.len()
        invariant
            i <= items.len(),
            out@ == join(strs(items@).take(i as int), sep@),
        decreases items.len() - i,
    {
        assert(strs(items@).take(i + 1).drop_last() =~= strs(items@).take(i as int));
        if i > 0 {
            out.append(sep);
        }
        out.append(items[i].as_str());
        i = i + 1;
    }
    assert(strs(items@).take(items@.len() as int) =~= strs(items@));
    out
}

/// What an allowed call is recorded with: the policy's reason, and the
/// rules that fired.
pub open spec fn allow_reason_spec(d: DecisionV) -> Seq<char> {
    if d.matched_rules.len() == 0 {
        d.reason
    } else {
        d.reason + " [규칙: "@ + join(d.matched_rules, ", "@) + "]"@
    }
}

impl Admission {
    /// The admission of a call of `tool` by `user_id` in `session_id`.
    /// Its first step is to look the tool up.
    pub fn new(tool: &str, user_id: &str, session_id: &str, allow_high_risk: bool) -> (r: Admission)
        ensures
            r@.stage == Stage::Lookup,
            r@.tool == tool@,
            r@.user_id == user_id@,
            r@.budget_key == if session_id@.len() == 0 {
                user_id@
            } else {
                session_id@
            },
            r@.allow_high_risk == allow_high_risk,
            r@.approval_status == "n/a"@,
            r@.approval_id.len() == 0,
            r@.approval_ttl == 0,
            !r@.rate_ok && !r@.budget_ok && !r@.input_ok && !r@.allowed && !r@.approved && !r@.audited,
            !r@.charged,
    {
        Admission {
            stage: Stage::Lookup,
            tool: owned(tool),
            user_id: owned(user_id),
            budget_key: if session_id.is_empty() {
                owned(user_id)
            } else {
                owned(session_id)
            },
            allow_high_risk,
            limit: 0,
            risk: RiskLevel::L1,
            fallback: String::new(),
            access_path: String::new(),
            approval_required: false,
            allow_reason: String::new(),
            approval_status: owned("n/a"),
            approval_id: String::new(),
            approval_ttl: 0,
            rate_ok: false,
            budget_ok: false,
            input_ok: false,
            allowed: false,
            approved: false,
            audited: false,
            charged: false,
        }
    }

    pub fn stage(&self) -> (r: Stage)
        ensures
            r == self@.stage,
    {
        self.stage
    }

    /// The approval's status (`n/a` when none was needed) and request id.
    pub fn approval(&self) -> (r: (String, String))
        ensures
            r.0@ == self@.approval_status,
            r.1@ == self@.approval_id,
    {
        (self.approval_status.clone(), self.approval_id.clone())
    }

    /// How long the approval stays valid once granted, in seconds; 0 until
    /// the approver has answered.
    pub fn approval_ttl(&self) -> (r: u64)
        ensures
            r == self@.approval_ttl,
    {
        self.approval_ttl
    }

    /// The reason an allowed call is recorded with.
    pub fn allow_reason(&self) -> (r: String)
        ensures
            r@ == self@.allow_reason,
    {
        self.allow_reason.clone()
    }

    /// A. The registry's answer: an unknown tool does not exist.
    pub fn on_tool(&mut self, facts: Option<ToolFacts>) -> (r: Action)
        requires
            old(self)@.stage == Stage::Lookup,
        ensures
            final(self)@.charged == old(self)@.charged,
            step_ok(final(self)@, r@),
            match facts {
                None => final(self)@.stage == Stage::Done && r@ == refuse_v(
                    "등록되지 않은 도구"@,
                    "unknown tool"@,
                    "not_found"@,
                    "도구 "@ + debug_text(old(self)@.tool) + " 은(는) 등록되어 있지 않습니다."@,
                    Seq::empty(),
                ),
                Some(f) => final(self)@ == (AdmissionV {
                    stage: Stage::RateLimit,
                    limit: rate_limit_spec(f.rate_limit_per_min),
                    risk: f.risk_level,
                    fallback: f.fallback@,
                    access_path: f.access_path@,
                    ..old(self)@
                }) && r@ == (ActionV::CheckRate {
                    key: old(self)@.user_id + ":"@ + old(self)@.tool,
                    limit: rate_limit_spec(f.rate_limit_per_min),
                }),
            },
    {
        match facts {
            None => {
                self.stage = Stage::Done;
                let message = concat3("도구 ", debug_quote(self.tool.as_str()).as_str(), " 은(는) 등록되어 있지 않습니다.");
                proof {
                    lemma_denial("not_found"@, 0);
                }
                let none = String::new();
                refuse("등록되지 않은 도구", owned("unknown tool"), "not_found", message, none.as_str())
            },
            Some(f) => {
                self.stage = Stage::RateLimit;
                self.limit = rate_limit_for(f.rate_limit_per_min);
                self.risk = f.risk_level;
                self.fallback = f.fallback;
                self.access_path = f.access_path;
                Action::CheckRate { key: concat3(self.user_id.as_str(), ":", self.tool.as_str()), limit: self.limit }
            },
        }
    }

    /// B. The limiter's answer.
    pub fn on_rate(&mut self, allowed: bool) -> (r: Action)
        requires
            old(self)@.stage == Stage::RateLimit,
        ensures
            final(self)@.charged == old(self)@.charged,
            step_ok(final(self)@, r@),
            !allowed ==> final(self)@.stage == Stage::Done && r@ == refuse_v(
                "레이트 리밋 초과"@,
                "rate limited"@,
                "rate_limited"@,
                "도구 "@ + debug_text(old(self)@.tool) + " 호출이 분당 "@ + int_text(old(self)@.limit as int)
                    + "회 한도를 넘었습니다."@,
                old(self)@.fallback,
            ),
            allowed ==> final(self)@ == (AdmissionV { stage: Stage::Budget, rate_ok: true, ..old(self)@ })
                && r@ == (ActionV::CheckBudget { key: old(self)@.budget_key }),
    {
        if !allowed {
            self.stage = Stage::Done;
            let a = concat3("도구 ", debug_quote(self.tool.as_str()).as_str(), " 호출이 분당 ");
            let message = concat3(a.as_str(), int_to_string(self.limit as i128).as_str(), "회 한도를 넘었습니다.");
            proof {
                lemma_denial("rate_limited"@, 3);
            }
            return refuse("레이트 리밋 초과", owned("rate limited"), "rate_limited", message, self.fallback.as_str());
        }
        self.stage = Stage::Budget;
        self.rate_ok = true;
        Action::CheckBudget { key: self.budget_key.clone() }
    }

    /// C. The budget tracker's answer.
    pub fn on_budget(&mut self, check: Result<(), Exceeded>) -> (r: Action)
        requires
            old(self)@.stage == Stage::Budget,
        ensures
            final(self)@.charged == old(self)@.charged,
            step_ok(final(self)@, r@),
            match check {
                Err(e) => final(self)@.stage == Stage::Done && r@ == refuse_v(
                    "세션 비용 상한 초과"@,
                    exceeded_text(e.key@, e.spent_micros, e.limit_micros),
                    "budget_exceeded"@,
                    exceeded_text(e.key@, e.spent_micros, e.limit_micros),
                    old(self)@.fallback,
                ),
                Ok(()) => final(self)@ == (AdmissionV { stage: Stage::Input, budget_ok: true, ..old(self)@ }) && r@
                    == ActionV::ValidateInput,
            },
    {
        match check {
            Err(e) => {
                self.stage = Stage::Done;
                let text = e.text();
                proof {
                    lemma_denial("budget_exceeded"@, 4);
                }
                refuse("세션 비용 상한 초과", text.clone(), "budget_exceeded", text, self.fallback.as_str())
            },
            Ok(()) => {
                self.stage = Stage::Input;
                self.budget_ok = true;
                Action::ValidateInput
            },
        }
    }

    /// D. The input schema's answer: what is wrong, if anything.
    pub fn on_input(&mut self, problem: Option<String>) -> (r: Action)
        requires
            old(self)@.stage == Stage::Input,
        ensures
            final(self)@.charged == old(self)@.charged,
            step_ok(final(self)@, r@),
            match problem {
                Some(p) => final(self)@.stage == Stage::Done && r@ == refuse_v(
                    "입력 스키마 검증 실패"@,
                    p@,
                    "invalid_input"@,
                    "입력이 도구 계약을 만족하지 않습니다: "@ + p@,
                    old(self)@.fallback,
                ),
                None => final(self)@ == (AdmissionV { stage: Stage::Policy, input_ok: true, ..old(self)@ }) && r@
                    == ActionV::Evaluate,
            },
    {
        match problem {
            Some(p) => {
                self.stage = Stage::Done;
                let message = concat("입력이 도구 계약을 만족하지 않습니다: ", p.as_str());
                proof {
                    lemma_denial("invalid_input"@, 1);
                }
                refuse("입력 스키마 검증 실패", p, "invalid_input", message, self.fallback.as_str())
            },
            None => {
                self.stage = Stage::Policy;
                self.input_ok = true;
                Action::Evaluate
            },
        }
    }

    fn approve_or_go(&mut self) -> (r: Action)
        requires
            old(self)@.allowed,
            old(self)@.rate_ok && old(self)@.budget_ok && old(self)@.input_ok,
            old(self)@.risk.rank_spec() >= 4 ==> old(self)@.allow_high_risk,
        ensures
            step_ok(final(self)@, r@),
            old(self)@.approval_required ==> final(self)@ == (AdmissionV { stage: Stage::Approval, ..old(self)@ }) && r@
                == ActionV::Approve,
            !old(self)@.approval_required ==> final(self)@ == go_on(old(self)@).0 && r@ == go_on(old(self)@).1,
    {
        if self.approval_required {
            self.stage = Stage::Approval;
            return Action::Approve;
        }
        self.pre_audit_or_execute()
    }

    fn pre_audit_or_execute(&mut self) -> (r: Action)
        requires
            cleared(AdmissionV { audited: true, ..old(self)@ }),
        ensures
            final(self)@.charged == old(self)@.charged,
            final(self)@ == go_on(old(self)@).0,
            r@ == go_on(old(self)@).1,
            step_ok(final(self)@, r@),
    {
        if self.risk.rank() >= 3 {
            self.stage = Stage::PreAudit;
            return Action::PreAudit { reason: concat("고위험 실행 의도(pre-execution) — ", self.allow_reason.as_str()) };
        }
        self.stage = Stage::Execute;
        Action::Execute
    }

    /// E and F. The policy's decision; an allowed L4 tool is still blocked
    /// unless high risk is enabled.
    pub fn on_decision(&mut self, d: &Decision) -> (r: Action)
        requires
            old(self)@.stage == Stage::Policy,
            old(self)@.rate_ok && old(self)@.budget_ok && old(self)@.input_ok,
        ensures
            final(self)@.charged == old(self)@.charged,
            step_ok(final(self)@, r@),
            !d@.allowed ==> final(self)@.stage == Stage::Done && r@ == refuse_v(
                d@.reason,
                "policy denied: "@ + d@.rule_id,
                "permission_denied"@,
                d@.reason,
                "권한이 필요하면 "@ + old(self)@.access_path,
            ),
            d@.allowed && old(self)@.risk.rank_spec() >= 4 && !old(self)@.allow_high_risk ==> final(self)@.stage
                == Stage::Done && r@ == refuse_v(
                "고위험(L4) 작업은 기본 차단됨"@,
                "high risk blocked"@,
                "high_risk_blocked"@,
                risk_label(old(self)@.risk) + " 도구 "@ + debug_text(old(self)@.tool) + " 은(는) 보안 심사 전까지 실행할 수 없습니다."@,
                old(self)@.fallback,
            ),
            d@.allowed && !(old(self)@.risk.rank_spec() >= 4 && !old(self)@.allow_high_risk) ==> {
                let next = AdmissionV {
                    allowed: true,
                    approval_required: d@.approval_required,
                    allow_reason: allow_reason_spec(d@),
                    ..old(self)@
                };
                if d@.approval_required {
                    final(self)@ == (AdmissionV { stage: Stage::Approval, ..next }) && r@ == ActionV::Approve
                } else {
                    final(self)@ == go_on(next).0 && r@ == go_on(next).1
                }
            },
    {
        if !d.allowed {
            self.stage = Stage::Done;
            proof {
                lemma_denial("permission_denied"@, 2);
            }
            return refuse(
                d.reason.as_str(),
                concat("policy denied: ", d.rule_id.as_str()),
                "permission_denied",
                d.reason.clone(),
                concat("권한이 필요하면 ", self.access_path.as_str()).as_str(),
            );
        }
        if self.risk.rank() >= 4 && !self.allow_high_risk {
            self.stage = Stage::Done;
            let a = concat(self.risk.label(), " 도구 ");
            let message = concat3(a.as_str(), debug_quote(self.tool.as_str()).as_str(), " 은(는) 보안 심사 전까지 실행할 수 없습니다.");
            proof {
                lemma_denial("high_risk_blocked"@, 5);
            }
            return refuse("고위험(L4) 작업은 기본 차단됨", owned("high risk blocked"), "high_risk_blocked", message, self.fallback.as_str());
        }
        self.allowed = true;
        self.approval_required = d.approval_required;
        self.allow_reason = if d.matched_rules.len() == 0 {
            d.reason.clone()
        } else {
            let a = concat(d.reason.as_str(), " [규칙: ");
            concat3(a.as_str(), join_strings(&d.matched_rules, ", ").as_str(), "]")
        };
        self.approve_or_go()
    }

    /// G. The approver's answer, or why it could not answer.
    pub fn on_approval(&mut self, answer: Result<ApprovalFacts, String>) -> (r: Action)
        requires
            old(self)@.stage == Stage::Approval,
            old(self)@.allowed && old(self)@.rate_ok && old(self)@.budget_ok && old(self)@.input_ok,
            old(self)@.risk.rank_spec() >= 4 ==> old(self)@.allow_high_risk,
        ensures
            final(self)@.charged == old(self)@.charged,
            step_ok(final(self)@, r@),
            match answer {
                Err(e) => final(self)@.stage == Stage::Done && r@ == refuse_v(
                    "승인 처리 오류"@,
                    e@,
                    "approval_error"@,
                    "승인 상태를 확인할 수 없어 실행을 중단했습니다: "@ + e@,
                    old(self)@.fallback,
                ),
                Ok(ap) => {
                    let next = AdmissionV {
                        approval_status: ap.status@,
                        approval_id: ap.request_id@,
                        approval_ttl: ap.ttl_secs,
                        ..old(self)@
                    };
                    if ap.status@ == "rejected"@ {
                        final(self)@.stage == Stage::Done && r@ == refuse_v(
                            "관리자가 승인을 거부함"@,
                            Seq::empty(),
                            "approval_rejected"@,
                            "승인 요청 "@ + ap.request_id@ + " 이(가) 거부되었습니다."@,
                            old(self)@.fallback,
                        )
                    } else if !ap.approved {
                        final(self)@ == (AdmissionV { stage: Stage::Done, ..next }) && r@ == (ActionV::DryRun {
                            audit: AuditV {
                                decision: "allowed"@,
                                reason: "승인 대기(dry-run) — "@ + old(self)@.allow_reason,
                                error: Seq::empty(),
                            },
                        })
                    } else {
                        final(self)@ == go_on(AdmissionV { approved: true, ..next }).0 && r@ == go_on(
                            AdmissionV { approved: true, ..next },
                        ).1
                    }
                },
            },
    {
        match answer {
            Err(e) => {
                self.stage = Stage::Done;
                let message = concat("승인 상태를 확인할 수 없어 실행을 중단했습니다: ", e.as_str());
                proof {
                    lemma_denial("approval_error"@, 7);
                }
                refuse("승인 처리 오류", e, "approval_error", message, self.fallback.as_str())
            },
            Ok(ap) => {
                self.approval_status = ap.status;
                self.approval_id = ap.request_id;
                self.approval_ttl = ap.ttl_secs;
                if str_eq(self.approval_status.as_str(), "rejected") {
                    self.stage = Stage::Done;
                    let message = concat3("승인 요청 ", self.approval_id.as_str(), " 이(가) 거부되었습니다.");
                    proof {
                        lemma_denial("approval_rejected"@, 6);
                    }
                    return refuse("관리자가 승인을 거부함", String::new(), "approval_rejected", message, self.fallback.as_str());
                }
                if !ap.approved {
                    self.stage = Stage::Done;
                    return Action::DryRun {
                        audit: Audit {
                            decision: owned("allowed"),
                            reason: concat("승인 대기(dry-run) — ", self.allow_reason.as_str()),
                            error: String::new(),
                        },
                    };
                }
                self.approved = true;
                self.pre_audit_or_execute()
            },
        }
    }

    /// The call's final audit entry. Every exit (a refusal, a dry run, an
    /// abort, or the end of an execution, failed or not) records exactly one,
    /// and with it the turn's cost is added to the session's budget: a
    /// refused call has already cost the model's turn. The pre-execution
    /// entry of an L3+ call adds nothing. Returns the budget key to charge the
    /// first time, `None` once charged.
    pub fn charge(&mut self) -> (r: Option<String>)
        ensures
            final(self)@ == charge_spec(old(self)@).0,
            r matches Some(k) ==> charge_spec(old(self)@).1 == Some(k@),
            r is None ==> charge_spec(old(self)@).1 is None,
    {
        if self.charged {
            None
        } else {
            self.charged = true;
            Some(self.budget_key.clone())
        }
    }

    /// H. Whether the pre-execution entry was recorded: without it an L3+
    /// call does not run.
    pub fn on_pre_audit(&mut self, recorded: bool) -> (r: Action)
        requires
            old(self)@.stage == Stage::PreAudit,
            cleared(AdmissionV { audited: true, ..old(self)@ }),
        ensures
            final(self)@.charged == old(self)@.charged,
            step_ok(final(self)@, r@),
            !recorded ==> final(self)@.stage == Stage::Done && r@ == (ActionV::Abort {
                error: ErrorV {
                    code: "audit_unavailable"@,
                    message: "감사 기록을 보장할 수 없어 실행을 중단했습니다."@,
                    fallback: old(self)@.fallback,
                },
            }),
            recorded ==> final(self)@ == (AdmissionV { stage: Stage::Execute, audited: true, ..old(self)@ }) && r@
                == ActionV::Execute,
    {
        if !recorded {
            self.stage = Stage::Done;
            return Action::Abort {
                error: Error {
                    code: owned("audit_unavailable"),
                    message: owned("감사 기록을 보장할 수 없어 실행을 중단했습니다."),
                    fallback: self.fallback.clone(),
                },
            };
        }
        self.stage = Stage::Execute;
        self.audited = true;
        Action::Execute
    }
}

/// The final entry's charge: the budget key the first time, nothing after.
pub open spec fn charge_spec(a: AdmissionV) -> (AdmissionV, Option<Seq<char>>) {
    if a.charged {
        (a, None)
    } else {
        (AdmissionV { charged: true, ..a }, Some(a.budget_key))
    }
}

/// A call's cost is added once: the admission's steps never charge, the
/// first final entry charges the session's key, and any later one charges
/// nothing.
pub proof fn law_cost_charged_once(a: AdmissionV)
    requires
        !a.charged,
    ensures
        charge_spec(a).1 == Some(a.budget_key),
        charge_spec(charge_spec(a).0).1 is None,
        charge_spec(charge_spec(a).0).0 == charge_spec(a).0,
{
}

/// After the checks: an L3+ call records its intent first, anything else
/// runs.
pub open spec fn go_on(a: AdmissionV) -> (AdmissionV, ActionV) {
    if a.risk.rank_spec() >= 3 {
        (
            AdmissionV { stage: Stage::PreAudit, ..a },
            ActionV::PreAudit { reason: "고위험 실행 의도(pre-execution) — "@ + a.allow_reason },
        )
    } else {
        (AdmissionV { stage: Stage::Execute, ..a }, ActionV::Execute)
    }
}

} // verus!
