use ai_bridge::console::since_hours;
use ai_bridge::approval::{Request, Status};
use ai_bridge::archive::{choose_target, ArchiveTarget, SyslogExporter};
use ai_bridge::breaker::{State, Status as BreakerStatus};
use ai_bridge::console::{same_origin, agent_snippet, AgentForm, AgentFormError, ConfigForm, ConfigIntent, DecideForm};
use ai_bridge::inventory::{AuthMethod, Capability, FailureImpact, Interface, Realtime, Sensitivity, System};
use ai_bridge::probe::{live, ready};
use ai_bridge::views::{
    remaining, retention_over, row_flags, status_filter, unhealthy_count, view_limit, ApprovalRow, BreakerRow, HealthRow,
    RetentionRow, SystemInfo,
};
use ai_bridge::wiring::Health;

const SEC: i64 = 1_000_000_000;
const NOW: i64 = 1_783_674_000 * SEC;

fn req(status: Status, expires_in: Option<i64>) -> Request {
    Request {
        id: "req_1".into(),
        fingerprint: String::new(),
        actor: "emp-1".into(),
        tool: "t".into(),
        args: vec![],
        status,
        requested_at: NOW,
        decided_by: String::new(),
        decided_at: None,
        note: String::new(),
        ttl: 3600,
        expires_at: expires_in.map(|s| NOW + s * SEC),
    }
}

#[test]
fn remaining_reports_terminal_states_plainly() {
    assert_eq!(remaining(&req(Status::Expired, None), NOW), "만료됨");
    assert_eq!(remaining(&req(Status::Consumed, None), NOW), "사용됨");
    assert_eq!(remaining(&req(Status::Pending, None), NOW), "-");
}

#[test]
fn remaining_counts_down() {
    assert_eq!(remaining(&req(Status::Approved, Some(3700)), NOW), "1시간 1분");
    assert_eq!(remaining(&req(Status::Approved, Some(90)), NOW), "1분 30초");
    assert_eq!(remaining(&req(Status::Approved, Some(30)), NOW), "30초");
}

#[test]
fn an_expired_approval_says_so_even_if_status_lags() {
    assert_eq!(remaining(&req(Status::Approved, Some(-1)), NOW), "만료됨");
}

#[test]
fn listing_filters_and_limits() {
    assert_eq!(status_filter(""), None);
    assert_eq!(status_filter("all"), None);
    assert_eq!(status_filter("pending"), Some(Status::Pending));
    assert_eq!(status_filter("nonsense"), None);
    assert_eq!(view_limit(0), 100);
    assert_eq!(view_limit(7), 7);
}

#[test]
fn the_requester_gets_no_decision_buttons() {
    assert_eq!(row_flags(Status::Pending, "emp-1", "emp-1"), (false, true));
    assert_eq!(row_flags(Status::Pending, "emp-1", "mgr-1"), (true, false));
    assert_eq!(row_flags(Status::Approved, "emp-1", "mgr-1"), (false, false));
}

#[test]
fn retention_is_over_only_past_the_period() {
    let day = 86_400 * SEC;
    assert!(retention_over(30, Some(NOW - 31 * day), NOW));
    assert!(!retention_over(30, Some(NOW - 30 * day), NOW));
    assert!(!retention_over(0, Some(NOW - 999 * day), NOW));
    assert!(!retention_over(30, None, NOW));
}

fn system(name: &str) -> System {
    System {
        name: name.into(),
        display_name: "ERP".into(),
        interface: Interface::Rest,
        base_url: "https://erp".into(),
        data_sensitivity: vec![Sensitivity::Financial, Sensitivity::General],
        capabilities: vec![Capability::Read, Capability::Update],
        owner_team: "재무팀".into(),
        contact: "fin@example.com".into(),
        auth_method: AuthMethod::ApiKey,
        failure_impact: FailureImpact::High,
        realtime: Realtime::Batch,
    }
}

fn health(name: &str, healthy: bool, error: &str) -> Health {
    Health { system: name.into(), healthy, latency_nanos: 5, error: error.into() }
}

#[test]
fn health_rows_name_who_to_call() {
    let r = HealthRow::from_health(health("erp", false, "down"), Some(system("erp")));
    assert_eq!(r.impact, "high");
    assert_eq!(r.owner, "재무팀");
    assert_eq!(r.contact, "fin@example.com");
    assert_eq!(r.error, "down");
    let u = HealthRow::from_health(health("x", true, ""), None);
    assert_eq!(u.impact, "");
    assert_eq!(unhealthy_count(&vec![r, u]), 1);
}

#[test]
fn breaker_and_system_rows_use_their_texts() {
    let b = BreakerRow::from_status(BreakerStatus {
        key: "erp".into(),
        state: State::HalfOpen,
        failures: 3,
        last_failure: "503".into(),
        retry_in: 0,
    });
    assert_eq!(b.state, "half-open");
    assert_eq!(b.failures, 3);
    let s = SystemInfo::from_system(&system("erp"));
    assert_eq!(s.interface, "rest");
    assert_eq!(s.capabilities, vec!["read", "update"]);
    assert_eq!(s.data_sensitivity, vec!["financial", "general"]);
    assert_eq!(s.auth_method, "api_key");
    assert_eq!(s.realtime, "batch");
}

#[test]
fn liveness_ignores_dependencies() {
    let p = live("ai-bridge 0.1.0".into());
    assert_eq!(p.status, "ok");
    assert!(p.checks.is_empty());
}

#[test]
fn readiness_needs_tools_policy_and_healthy_adapters() {
    let hs = vec![health("crm", true, ""), health("erp", false, "")];
    let (st, ok) = ready(true, true, &hs);
    assert!(!ok);
    assert_eq!(st.status, "not_ready");
    assert_eq!(st.unhealthy, vec!["erp"]);
    let checks: Vec<(String, String)> = st.checks;
    assert_eq!(checks[0], ("adapter:crm".to_string(), "ok".to_string()));
    assert_eq!(checks[1], ("adapter:erp".to_string(), "unhealthy".to_string()));
    assert!(checks.contains(&("tools".to_string(), "ok".to_string())));

    let (st, ok) = ready(true, false, &vec![health("crm", true, "")]);
    assert!(!ok);
    assert!(st.checks.contains(&("policy".to_string(), "missing".to_string())));

    let (st, ok) = ready(true, true, &vec![]);
    assert!(ok);
    assert_eq!(st.status, "ok");
}

#[test]
fn build_exporter_requires_exactly_one_target() {
    assert!(choose_target("", "", false).is_err());
    assert!(choose_target("/tmp/a", "siem:514", false).is_err());
    assert!(choose_target("/tmp/a", "", true).is_err());
    assert_eq!(choose_target("/tmp/a", "", false), Ok(ArchiveTarget::Directory));
    assert_eq!(choose_target("", "siem:514", false), Ok(ArchiveTarget::Syslog));
    assert_eq!(choose_target("", "", true), Ok(ArchiveTarget::Discard));
}

#[test]
fn syslog_lines_are_rfc5424_with_a_default_tag() {
    let x = SyslogExporter::new("siem:514".into(), String::new());
    assert_eq!(x.tag, "ai-bridge");
    assert_eq!(x.line("2026-07-10T09:00:00Z", "{}"), "<134>1 2026-07-10T09:00:00Z - ai-bridge - - - {}\n");
}

#[test]
fn console_forms_read_their_intent() {
    let d = DecideForm { action: "approve".into(), note: String::new() };
    assert_eq!(d.decision(), Some(true));
    assert_eq!(DecideForm { action: "reject".into(), note: String::new() }.decision(), Some(false));
    assert_eq!(DecideForm { action: "x".into(), note: String::new() }.decision(), None);
    let c = ConfigForm { intent: "reload_bundle".into(), body: String::new() };
    assert_eq!(c.intent(), Some(ConfigIntent::ReloadBundle));
    assert_eq!(ConfigForm { intent: "?".into(), body: String::new() }.intent(), None);
}

#[test]
fn agent_registration_checks_the_form() {
    let f = AgentForm {
        intent: "register".into(),
        user_id: "agent.bot-1".into(),
        roles: vec!["sales".into()],
        tools: vec!["get_invoice_status".into()],
        systems: vec![],
    };
    assert!(f.check().is_ok());
    assert!(!f.removes());
    let id = f.identity("abc");
    assert_eq!(id.kind, "agent");
    assert_eq!(id.token_sha256, "abc");
    let bad = AgentForm { user_id: "a b".into(), ..f_clone(&f) };
    assert_eq!(bad.check(), Err(AgentFormError::BadUserId));
    let long = AgentForm { user_id: "a".repeat(65), ..f_clone(&f) };
    assert_eq!(long.check(), Err(AgentFormError::BadUserId));
    let none = AgentForm { roles: vec![], ..f_clone(&f) };
    assert_eq!(none.check(), Err(AgentFormError::NoRoles));
    assert_eq!(AgentFormError::NoRoles.message(), "역할을 하나 이상 선택하세요.");
}

fn f_clone(f: &AgentForm) -> AgentForm {
    AgentForm {
        intent: f.intent.clone(),
        user_id: f.user_id.clone(),
        roles: f.roles.clone(),
        tools: f.tools.clone(),
        systems: f.systems.clone(),
    }
}

#[test]
fn the_agent_snippet_lists_only_what_is_set() {
    let s = agent_snippet("bot", &vec!["sales".into()], &vec!["t1".into()], &vec![], "h");
    assert_eq!(
        s,
        "  - user_id: bot\n    kind: agent\n    roles:\n      - sales\n    allowed_tools:\n      - t1\n    token_sha256: h\n"
    );
}

#[test]
fn a_post_with_neither_header_is_rejected() {
    assert!(!same_origin(None, None, None));
}

#[test]
fn sec_fetch_site_wins_when_present() {
    assert!(same_origin(Some("same-origin"), None, None));
    for v in ["same-site", "cross-site", "none"] {
        assert!(!same_origin(Some(v), None, None), "sec-fetch-site={v}");
    }
}

#[test]
fn sec_fetch_site_is_preferred_over_a_forged_origin() {
    assert!(!same_origin(Some("cross-site"), Some("console.local"), Some("console.local")));
}

#[test]
fn origin_is_compared_against_host_when_sec_fetch_site_is_absent() {
    assert!(same_origin(None, Some("console.local"), Some("console.local")));
    assert!(!same_origin(None, Some("evil.example"), Some("console.local")));
}

#[test]
fn approval_rows_carry_buttons_and_time_left() {
    let mine = ApprovalRow::from_request(req(Status::Pending, None), "emp-1", NOW);
    assert!(!mine.decidable);
    assert!(mine.own);
    assert_eq!(mine.status, "pending");
    assert_eq!(mine.remaining, "-");
    let other = ApprovalRow::from_request(req(Status::Approved, Some(90)), "mgr-1", NOW);
    assert!(!other.decidable);
    assert_eq!(other.remaining, "1분 30초");
}

#[test]
fn retention_rows_flag_overdue_records() {
    let day = 86_400 * SEC;
    assert!(RetentionRow::new("t".into(), 30, Some(NOW - 40 * day), NOW).over);
    assert!(!RetentionRow::new("t".into(), 30, None, NOW).over);
}

#[test]
fn since_reads_hours_with_or_without_the_unit() {
    assert_eq!(since_hours(Some("48h"), 24), 48);
    assert_eq!(since_hours(Some("6"), 24), 6);
    assert_eq!(since_hours(Some("soon"), 24), 24);
    assert_eq!(since_hours(None, 24), 24);
}
