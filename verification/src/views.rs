//! The view models the console and the command line share, and the rules
//! by which records become rows.
use vstd::prelude::*;
use crate::approval::{Request, Status};
use crate::audit::{Entry, Filter};
use crate::auth::{Identity, IdentityV};
use crate::inventory::{Inventory, System, Capability, Sensitivity, capability_text, data_kind_text, interface_text, impact_text, auth_text, realtime_text};
use crate::breaker::{Status as BreakerStatus, state_text};
use crate::wiring::Health;
use crate::policy::{PolicyError, validate_allowlists};
use crate::registry::{Registry, Spec, risk_label, sensitivity_text, strs};
use crate::text::{concat, int_text, int_to_string, owned, str_eq};

verus! {

/// One tool call, as the console lists it.
pub struct CallRow {
    pub timestamp: i64,
    pub actor: String,
    pub tool: String,
    pub system: String,
    pub access: String,
    pub decision: String,
    pub reason: String,
    pub approval_status: String,
    pub approval_id: String,
    pub request_id: String,
    pub session_id: String,
    pub masked: bool,
    pub latency_ms: i64,
    pub input_tokens: i64,
    pub output_tokens: i64,
    pub cost_micros: i64,
    pub error: String,
    pub prompt: String,
    pub injection: String,
}

impl CallRow {
    /// The row of an audit record: the same fields, without the maps.
    pub fn from_entry(e: Entry) -> (r: CallRow)
        ensures
            r.timestamp == e.timestamp && r.actor == e.actor && r.tool == e.tool && r.system == e.system
                && r.access == e.access && r.decision == e.decision && r.reason == e.reason,
            r.approval_status == e.approval_status && r.approval_id == e.approval_id && r.request_id
                == e.request_id && r.session_id == e.session_id && r.masked == e.masked,
            r.latency_ms == e.latency_ms && r.input_tokens == e.input_tokens && r.output_tokens == e.output_tokens
                && r.cost_micros == e.cost_micros && r.error == e.error && r.prompt == e.prompt && r.injection
                == e.injection,
    {
        CallRow {
            timestamp: e.timestamp,
            actor: e.actor,
            tool: e.tool,
            system: e.system,
            access: e.access,
            decision: e.decision,
            reason: e.reason,
            approval_status: e.approval_status,
            approval_id: e.approval_id,
            request_id: e.request_id,
            session_id: e.session_id,
            masked: e.masked,
            latency_ms: e.latency_ms,
            input_tokens: e.input_tokens,
            output_tokens: e.output_tokens,
            cost_micros: e.cost_micros,
            error: e.error,
            prompt: e.prompt,
            injection: e.injection,
        }
    }
}

/// What the console filters calls by.
pub struct CallFilter {
    pub tool: String,
    pub actor: String,
    pub session_id: String,
    pub decision: String,
    pub errors_only: bool,
    pub masked_only: bool,
    pub injection_only: bool,
    pub since: Option<i64>,
    pub limit: i64,
}

impl CallFilter {
    /// The audit filter it asks for: any system.
    pub fn to_filter(&self) -> (r: Filter)
        ensures
            r.tool == self.tool && r.actor == self.actor && r.session_id == self.session_id && r.decision
                == self.decision,
            r.errors_only == self.errors_only && r.masked_only == self.masked_only && r.injection_only
                == self.injection_only && r.since == self.since && r.limit == self.limit,
            r.system@.len() == 0,
    {
        Filter {
            actor: self.actor.clone(),
            tool: self.tool.clone(),
            system: String::new(),
            session_id: self.session_id.clone(),
            decision: self.decision.clone(),
            errors_only: self.errors_only,
            masked_only: self.masked_only,
            injection_only: self.injection_only,
            since: self.since,
            limit: self.limit,
        }
    }
}

/// The status a listing asks for: none (all) for an empty text or `all`,
/// and for a text that names no status.
pub fn status_filter(status: &str) -> (r: Option<Status>)
    ensures
        r == (if status@.len() == 0 || status@ == "all"@ {
            None
        } else {
            crate::approval::status_named(status@)
        }),
{
    let none = String::new();
    if str_eq(status, none.as_str()) || str_eq(status, "all") {
        proof {
            if status@ == none@ {
                assert(status@.len() == 0);
            }
        }
        None
    } else {
        proof {
            if status@.len() == 0 {
                assert(status@ =~= none@);
            }
        }
        Status::parse(status)
    }
}

/// A listing's size: 100 when none is set.
pub fn view_limit(limit: i64) -> (r: i64)
    ensures
        r == (if limit <= 0 {
            100
        } else {
            limit
        }),
{
    if limit <= 0 {
        100
    } else {
        limit
    }
}

pub open spec fn remaining_spec(status: Status, expires_at: Option<i64>, now: i64) -> Seq<char> {
    if status == Status::Expired {
        "만료됨"@
    } else if status == Status::Consumed {
        "사용됨"@
    } else {
        match expires_at {
            None => "-"@,
            Some(e) => if now > e {
                "만료됨"@
            } else {
                let secs = (e - now) / 1_000_000_000;
                if secs >= 3600 {
                    int_text(secs / 3600) + "시간 "@ + int_text((secs % 3600) / 60) + "분"@
                } else if secs >= 60 {
                    int_text(secs / 60) + "분 "@ + int_text(secs % 60) + "초"@
                } else {
                    int_text(secs) + "초"@
                }
            },
        }
    }
}

/// The time an approval has left, for people: expired or used requests say
/// so, a request with no expiry shows `-`, an approval past its expiry is
/// expired (even if its status has not caught up), and otherwise hours and
/// minutes, minutes and seconds, or seconds.
pub fn remaining(r: &Request, now: i64) -> (t: String)
    ensures
        t@ == remaining_spec(r.status, r.expires_at, now),
{
    if r.status == Status::Expired {
        return owned("만료됨");
    }
    if r.status == Status::Consumed {
        return owned("사용됨");
    }
    let exp = match r.expires_at {
        None => {
            return owned("-");
        },
        Some(e) => e,
    };
    if r.expired(now) {
        return owned("만료됨");
    }
    let d: i128 = (exp as i128) - (now as i128);
    let secs: i128 = d / 1_000_000_000;
    if secs >= 3600 {
        let h = int_to_string(secs / 3600);
        let m = int_to_string((secs % 3600) / 60);
        let a = concat(h.as_str(), "시간 ");
        let b = concat(a.as_str(), m.as_str());
        concat(b.as_str(), "분")
    } else if secs >= 60 {
        let m = int_to_string(secs / 60);
        let s = int_to_string(secs % 60);
        let a = concat(m.as_str(), "분 ");
        let b = concat(a.as_str(), s.as_str());
        concat(b.as_str(), "초")
    } else {
        let s = int_to_string(secs);
        concat(s.as_str(), "초")
    }
}

/// Whether the console draws decision buttons for a request (never for
/// the requester: a convenience only, the store refuses it anyway), and
/// whether it is the viewer's own pending request.
pub fn row_flags(status: Status, actor: &str, viewer: &str) -> (r: (bool, bool))
    ensures
        r.0 == (status == Status::Pending && actor@ != viewer@),
        r.1 == (status == Status::Pending && actor@ == viewer@),
{
    let own = str_eq(actor, viewer);
    (status == Status::Pending && !own, own && status == Status::Pending)
}

/// Whether a tool's oldest record is past its retention: only for a
/// positive retention, counting whole days (truncated toward zero).
pub open spec fn retention_over_spec(days: i64, oldest: Option<i64>, now: i64) -> bool {
    days > 0 && match oldest {
        Some(f) => {
            let d = now - f;
            (if d >= 0 {
                d / 86_400_000_000_000
            } else {
                -((-d) / 86_400_000_000_000)
            }) > days
        },
        None => false,
    }
}

pub fn retention_over(days: i64, oldest: Option<i64>, now: i64) -> (r: bool)
    ensures
        r == retention_over_spec(days, oldest, now),
        r == (days > 0 && match oldest {
            Some(f) => {
                let d = now - f;
                (if d >= 0 {
                    d / 86_400_000_000_000
                } else {
                    -((-d) / 86_400_000_000_000)
                }) > days
            },
            None => false,
        }),
{
    if days <= 0 {
        return false;
    }
    match oldest {
        Some(f) => {
            let d: i128 = (now as i128) - (f as i128);
            let whole: i128 = if d >= 0 {
                d / 86_400_000_000_000
            } else {
                -((-d) / 86_400_000_000_000)
            };
            whole > days as i128
        },
        None => false,
    }
}

/// A tool as the inventory page lists it.
pub struct ToolInfo {
    pub name: String,
    pub system: String,
    pub access: String,
    pub risk_level: String,
    pub sensitivity: String,
    pub approval_ttl_secs: u64,
    pub log_retention_days: i64,
    pub required_permissions: Vec<String>,
}

impl ToolInfo {
    pub fn from_spec(s: &Spec) -> (r: ToolInfo)
        ensures
            r.name == s.name && r.system == s.system,
            r.access@ == (if s.access == crate::registry::Access::Read { "read"@ } else { "write"@ }),
            r.risk_level@ == risk_label(s.risk_level),
            r.sensitivity@ == sensitivity_text(s.sensitivity),
            r.approval_ttl_secs == s.approval_ttl_secs,
            r.log_retention_days == s.log_retention_days,
            r.required_permissions@ == s.required_permissions@,
    {
        ToolInfo {
            name: s.name.clone(),
            system: s.system.clone(),
            access: owned(s.access.as_str()),
            risk_level: owned(s.risk_level.label()),
            sensitivity: owned(s.sensitivity.as_str()),
            approval_ttl_secs: s.approval_ttl_secs,
            log_retention_days: s.log_retention_days,
            required_permissions: crate::registry::copy_strings(&s.required_permissions),
        }
    }
}

/// An agent as the console lists it.
pub struct AgentRow {
    pub user_id: String,
    pub roles: Vec<String>,
    pub allowed_tools: Vec<String>,
    pub allowed_systems: Vec<String>,
    pub has_token: bool,
    /// The token's expiry for people (`무기한` when it has none).
    pub expiry: String,
    pub token_sha256: String,
    pub token_expires_at: Option<i64>,
}

impl AgentRow {
    /// The row of a principal; `expiry` is its expiry as people read it.
    pub fn from_identity(p: &Identity, expiry: String) -> (r: AgentRow)
        ensures
            r.user_id == p.user_id,
            r.roles@ == p.roles@,
            r.allowed_tools@ == p.allowed_tools@,
            r.allowed_systems@ == p.allowed_systems@,
            r.has_token == (p.token_sha256@.len() > 0),
            r.expiry == expiry,
            r.token_sha256 == p.token_sha256,
            r.token_expires_at == p.token_expires_at,
    {
        let none = String::new();
        let with_token = !str_eq(p.token_sha256.as_str(), none.as_str());
        proof {
            if p.token_sha256@.len() == 0 {
                assert(p.token_sha256@ =~= none@);
            }
        }
        AgentRow {
            user_id: p.user_id.clone(),
            roles: crate::registry::copy_strings(&p.roles),
            allowed_tools: crate::registry::copy_strings(&p.allowed_tools),
            allowed_systems: crate::registry::copy_strings(&p.allowed_systems),
            has_token: with_token,
            expiry,
            token_sha256: p.token_sha256.clone(),
            token_expires_at: p.token_expires_at,
        }
    }
}

/// Why an agent's scope was refused.
pub enum ScopeError {
    /// A role no policy defines.
    UnknownRole(String),
    /// A tool or system that does not exist.
    Policy(PolicyError),
}

/// The first role that is not among the known ones.
pub open spec fn first_unknown_role(roles: Seq<Seq<char>>, known: Seq<Seq<char>>) -> Option<Seq<char>>
    decreases roles.len(),
{
    if roles.len() == 0 {
        None
    } else if !known.contains(roles[0]) {
        Some(roles[0])
    } else {
        first_unknown_role(roles.drop_first(), known)
    }
}

/// Checks that an agent's scope names roles, tools and systems that exist:
/// roles first, then (where a registry and an inventory are at hand) the
/// tools and systems, as a principal's allow-lists are checked.
pub fn validate_agent_scope(
    known_roles: &Vec<String>,
    roles: &Vec<String>,
    candidate: Identity,
    reg: Option<&Registry>,
    inv: Option<&Inventory>,
) -> (r: Result<(), ScopeError>)
    requires
        reg matches Some(g) ==> g.wf(),
        inv matches Some(i) ==> i.wf(),
    ensures
        first_unknown_role(strs(roles@), strs(known_roles@)) matches Some(x) ==> (r matches Err(
            ScopeError::UnknownRole(y),
        ) && y@ == x),
        first_unknown_role(strs(roles@), strs(known_roles@)) is None ==> match (reg, inv) {
            (Some(g), Some(i)) => match crate::policy::allowlist_problem(seq![candidate@], g@, i@, 0) {
                Some(e) => r matches Err(ScopeError::Policy(x)) && x@ == e,
                None => r is Ok,
            },
            _ => r is Ok,
        },
{
    let mut k: usize = 0;
    assert(strs(roles@).skip(0) =~= strs(roles@));
    while k < roles.len()
        invariant
            k <= roles@.len(),
            first_unknown_role(strs(roles@), strs(known_roles@)) == first_unknown_role(
                strs(roles@).skip(k as int),
                strs(known_roles@),
            ),
        decreases roles.len() - k,
    {
        let ghost t = strs(roles@).skip(k as int);
        assert(t[0] == roles@[k as int]@);
        assert(t.drop_first() =~= strs(roles@).skip(k + 1));
        let present = crate::text::vec_has(known_roles, roles[k].as_str());
        proof {
            assert(crate::text::seq_has(known_roles@, roles@[k as int]@) == strs(known_roles@).contains(roles@[k as int]@)) by {
                if strs(known_roles@).contains(roles@[k as int]@) {
                    let j = choose|j: int| 0 <= j < strs(known_roles@).len() && strs(known_roles@)[j] == roles@[k as int]@;
                    assert(known_roles@[j]@ == roles@[k as int]@);
                }
                if crate::text::seq_has(known_roles@, roles@[k as int]@) {
                    let j = choose|j: int| 0 <= j < known_roles@.len() && known_roles@[j]@ == roles@[k as int]@;
                    assert(strs(known_roles@)[j] == roles@[k as int]@);
                }
            }
        }
        if !present {
            return Err(ScopeError::UnknownRole(roles[k].clone()));
        }
        k = k + 1;
    }
    assert(strs(roles@).skip(k as int) =~= Seq::<Seq<char>>::empty());
    match (reg, inv) {
        (Some(g), Some(i)) => {
            let ghost cv = candidate@;
            let ids: Vec<Identity> = vec![candidate];
            assert(ids@.map_values(|x: Identity| x@) =~= seq![cv]);
            match validate_allowlists(ids.as_slice(), g, i) {
                Ok(()) => Ok(()),
                Err(e) => Err(ScopeError::Policy(e)),
            }
        },
        _ => Ok(()),
    }
}

/// A legacy system's health, with who to call when it is down.
pub struct HealthRow {
    pub system: String,
    pub healthy: bool,
    pub latency_nanos: u64,
    pub impact: String,
    pub owner: String,
    pub contact: String,
    pub error: String,
}

impl HealthRow {
    /// The row of a health check; `sys` is the system's inventory entry, if any.
    pub fn from_health(h: Health, sys: Option<System>) -> (r: HealthRow)
        ensures
            r.system == h.system,
            r.healthy == h.healthy,
            r.latency_nanos == h.latency_nanos,
            r.error == h.error,
            r.impact@ == (match sys {
                Some(s) => impact_text(s.failure_impact),
                None => Seq::empty(),
            }),
            r.owner@ == (match sys {
                Some(s) => s.owner_team@,
                None => Seq::empty(),
            }),
            r.contact@ == (match sys {
                Some(s) => s.contact@,
                None => Seq::empty(),
            }),
    {
        let (impact, owner, contact) = match sys {
            Some(s) => (owned(s.failure_impact.as_str()), s.owner_team, s.contact),
            None => (String::new(), String::new(), String::new()),
        };
        HealthRow {
            system: h.system,
            healthy: h.healthy,
            latency_nanos: h.latency_nanos,
            impact,
            owner,
            contact,
            error: h.error,
        }
    }
}

/// A circuit as the console lists it.
pub struct BreakerRow {
    pub system: String,
    pub state: String,
    pub failures: i64,
    pub retry_in_nanos: u64,
}

impl BreakerRow {
    pub fn from_status(s: BreakerStatus) -> (r: BreakerRow)
        ensures
            r.system == s.key,
            r.state@ == state_text(s.state),
            r.failures == s.failures,
            r.retry_in_nanos == s.retry_in,
    {
        BreakerRow {
            system: s.key,
            state: owned(s.state.as_str()),
            failures: s.failures,
            retry_in_nanos: s.retry_in,
        }
    }
}

/// A legacy system as the inventory page lists it.
pub struct SystemInfo {
    pub name: String,
    pub display_name: String,
    pub interface: String,
    pub capabilities: Vec<String>,
    pub data_sensitivity: Vec<String>,
    pub owner_team: String,
    pub contact: String,
    pub auth_method: String,
    pub failure_impact: String,
    pub realtime: String,
}

pub open spec fn capability_texts(c: Seq<Capability>) -> Seq<Seq<char>> {
    Seq::new(c.len(), |i: int| capability_text(c[i]))
}

pub open spec fn data_kind_texts(d: Seq<Sensitivity>) -> Seq<Seq<char>> {
    Seq::new(d.len(), |i: int| data_kind_text(d[i]))
}

impl SystemInfo {
    pub fn from_system(s: &System) -> (r: SystemInfo)
        ensures
            r.name == s.name,
            r.display_name == s.display_name,
            r.interface@ == interface_text(s.interface),
            strs(r.capabilities@) == capability_texts(s.capabilities@),
            strs(r.data_sensitivity@) == data_kind_texts(s.data_sensitivity@),
            r.owner_team == s.owner_team,
            r.contact == s.contact,
            r.auth_method@ == auth_text(s.auth_method),
            r.failure_impact@ == impact_text(s.failure_impact),
            r.realtime@ == realtime_text(s.realtime),
    {
        let mut caps: Vec<String> = Vec::new();
        let mut i: usize = 0;
        while i < s.capabilities.len()
            invariant
                i <= s.capabilities.len(),
                caps@.len() == i,
                forall|k: int| 0 <= k < i ==> #[trigger] caps@[k]@ == capability_text(s.capabilities@[k]),
            decreases s.capabilities.len() - i,
        {
            caps.push(owned(s.capabilities[i].as_str()));
            i = i + 1;
        }
        let mut kinds: Vec<String> = Vec::new();
        let mut j: usize = 0;
        while j < s.data_sensitivity.len()
            invariant
                j <= s.data_sensitivity.len(),
                kinds@.len() == j,
                forall|k: int| 0 <= k < j ==> #[trigger] kinds@[k]@ == data_kind_text(s.data_sensitivity@[k]),
            decreases s.data_sensitivity.len() - j,
        {
            kinds.push(owned(s.data_sensitivity[j].as_str()));
            j = j + 1;
        }
        assert(strs(caps@) =~= capability_texts(s.capabilities@));
        assert(strs(kinds@) =~= data_kind_texts(s.data_sensitivity@));
        SystemInfo {
            name: s.name.clone(),
            display_name: s.display_name.clone(),
            interface: owned(s.interface.as_str()),
            capabilities: caps,
            data_sensitivity: kinds,
            owner_team: s.owner_team.clone(),
            contact: s.contact.clone(),
            auth_method: owned(s.auth_method.as_str()),
            failure_impact: owned(s.failure_impact.as_str()),
            realtime: owned(s.realtime.as_str()),
        }
    }
}

/// The last day at a glance.
pub struct Dashboard {
    pub calls: usize,
    pub denied: usize,
    pub errors: usize,
    pub masked: usize,
    /// Calls with an injection signal.
    pub flagged: usize,
    pub pending: usize,
    pub unhealthy: usize,
    /// Flows whose compensation failed: someone has to look at them.
    pub failed_flows: usize,
    pub costly: Vec<crate::budget::Entry>,
    pub eval_enabled: bool,
    pub eval_turns: usize,
    pub eval_unrated: usize,
    pub eval_thumbs_rate: String,
}

pub open spec fn unhealthy_in(rows: Seq<HealthRow>) -> nat
    decreases rows.len(),
{
    if rows.len() == 0 {
        0
    } else {
        unhealthy_in(rows.drop_last()) + if rows.last().healthy { 0nat } else { 1nat }
    }
}

/// How many of the systems are down.
pub fn unhealthy_count(rows: &Vec<HealthRow>) -> (n: usize)
    ensures
        n == unhealthy_in(rows@),
{
    let mut n: usize = 0;
    let mut i: usize = 0;
    while i < rows.len()
        invariant
            i <= rows.len(),
            n == unhealthy_in(rows@.subrange(0, i as int)),
            n <= i,
        decreases rows.len() - i,
    {
        assert(rows@.subrange(0, i as int) =~= rows@.subrange(0, i + 1).drop_last());
        if !rows[i].healthy {
            n = n + 1;
        }
        i = i + 1;
    }
    assert(rows@.subrange(0, i as int) =~= rows@);
    n
}

/// An approval request as the console lists it.
pub struct ApprovalRow {
    pub id: String,
    pub actor: String,
    pub tool: String,
    pub status: String,
    pub requested_at: i64,
    pub decided_by: String,
    /// Validity after approval, in seconds.
    pub ttl: u64,
    pub expires_at: Option<i64>,
    pub remaining: String,
    pub args: Vec<(String, crate::json::Json)>,
    /// Whether the viewer gets decision buttons (never on their own request).
    pub decidable: bool,
    /// Whether it is the viewer's own pending request.
    pub own: bool,
}

impl ApprovalRow {
    /// The row of a request for `viewer` at `now`.
    pub fn from_request(r: Request, viewer: &str, now: i64) -> (row: ApprovalRow)
        ensures
            row.id == r.id && row.actor == r.actor && row.tool == r.tool,
            row.status@ == crate::approval::status_text(r.status),
            row.requested_at == r.requested_at,
            row.decided_by == r.decided_by,
            row.ttl == r.ttl,
            row.expires_at == r.expires_at,
            row.remaining@ == remaining_spec(r.status, r.expires_at, now),
            row.args == r.args,
            row.decidable == (r.status == Status::Pending && r.actor@ != viewer@),
            row.own == (r.status == Status::Pending && r.actor@ == viewer@),
    {
        let (decidable, own) = row_flags(r.status, r.actor.as_str(), viewer);
        let remaining = remaining(&r, now);
        ApprovalRow {
            status: owned(r.status.as_str()),
            id: r.id,
            actor: r.actor,
            tool: r.tool,
            requested_at: r.requested_at,
            decided_by: r.decided_by,
            ttl: r.ttl,
            expires_at: r.expires_at,
            remaining,
            args: r.args,
            decidable,
            own,
        }
    }
}

/// A tool's audit retention as the console lists it.
pub struct RetentionRow {
    pub tool: String,
    pub days: i64,
    pub oldest: Option<i64>,
    /// Records older than the retention period remain.
    pub over: bool,
}

impl RetentionRow {
    pub fn new(tool: String, days: i64, oldest: Option<i64>, now: i64) -> (r: RetentionRow)
        ensures
            r.tool == tool && r.days == days && r.oldest == oldest,
            r.over == retention_over_spec(days, oldest, now),
    {
        let over = retention_over(days, oldest, now);
        RetentionRow { tool, days, oldest, over }
    }
}

/// What the agent page offers: the roles, tools and systems an agent can be
/// scoped to, and the agents.
pub struct AgentCatalog {
    pub roles: Vec<String>,
    pub tools: Vec<String>,
    pub systems: Vec<String>,
    pub agents: Vec<AgentRow>,
}

} // verus!
