use ai_bridge::gateway::admission::{access_request_path, Action, Admission, ToolFacts};
use ai_bridge::inventory::{AuthMethod, Capability, FailureImpact, Interface, Inventory, Realtime, System};
use ai_bridge::policy::{Decision, Obligations};
use ai_bridge::auth::Identity;
use ai_bridge::gateway::admission::Audit;
use ai_bridge::gateway::output::{call_entry, dry_run_result, executed_result, prompt_flag, Shaped};
use ai_bridge::gateway::{Call, Usage};
use ai_bridge::injection::Verdict;
use ai_bridge::gateway::{adapter_error, fallback_suffix, rate_limit_for, Error};
use ai_bridge::json::Json;
use ai_bridge::registry::{Access, RiskLevel, Sensitivity, Spec};
use ai_bridge::transient::{temporary, Cause};

fn spec() -> Spec {
    Spec {
        name: String::new(),
        description: String::new(),
        system: "erp".into(),
        access: Access::Read,
        risk_level: RiskLevel::L1,
        sensitivity: Sensitivity::Internal,
        required_permissions: vec![],
        approval_required: false,
        approval_ttl_secs: 0,
        rate_limit_per_min: 0,
        timeout_ms: 0,
        max_retries: 0,
        log_retention_days: 0,
        mask_fields: vec![],
        fallback: "재무팀에 문의하세요".into(),
        input_schema: Json::Null,
        output_schema: Json::Null,
    }
}

#[test]
fn business_errors_map_to_adapter_error() {
    let e = adapter_error(&vec![Cause::Other], "송장 INV-9999 을(를) 찾을 수 없습니다", &spec());
    assert_eq!(e.code, "adapter_error");
    assert_eq!(e.fallback, "재무팀에 문의하세요");
}

#[test]
fn deadline_maps_to_timeout() {
    let e = adapter_error(&vec![Cause::DeadlineExceeded], "deadline", &spec());
    assert_eq!(e.code, "timeout");
}

#[test]
fn transient_failures_map_to_unavailable() {
    let e = adapter_error(&temporary(vec![Cause::Other]), "ERP 503", &spec());
    assert_eq!(e.code, "unavailable");
}

#[test]
fn an_open_circuit_maps_to_unavailable_with_retry_hint() {
    let e = adapter_error(&vec![Cause::CircuitOpen(25_000_000_000)], "open", &spec());
    assert_eq!(e.code, "unavailable");
    assert!(e.message.contains("25초 후 재시도"));
}

#[test]
fn error_display_includes_the_fallback() {
    let e = Error::new("permission_denied", "권한이 없습니다", "재무팀에 문의하세요");
    assert_eq!(e.text(), "[permission_denied] 권한이 없습니다 (대안: 재무팀에 문의하세요)");
    let e = Error::new("timeout", "지연", "");
    assert_eq!(e.text(), "[timeout] 지연");
}

#[test]
fn rate_limit_defaults_to_sixty_and_fallback_suffix_only_when_set() {
    assert_eq!(rate_limit_for(0), 60);
    assert_eq!(rate_limit_for(5), 5);
    assert_eq!(fallback_suffix(""), "");
    assert_eq!(fallback_suffix("x"), " (대안: x)");
}

#[test]
fn a_call_is_charged_once_to_its_session() {
    let mut a = Admission::new("t", "emp-1", "sess-9", false);
    assert_eq!(a.charge(), Some("sess-9".to_string()));
    assert_eq!(a.charge(), None);
    let mut b = Admission::new("t", "emp-1", "", false);
    assert_eq!(b.charge(), Some("emp-1".to_string()));
}

fn erp_inventory(team: &str, contact: &str) -> Inventory {
    Inventory::new(vec![System {
        name: "erp".into(),
        display_name: "ERP".into(),
        interface: Interface::Rest,
        base_url: "https://erp.example".into(),
        data_sensitivity: vec![ai_bridge::inventory::Sensitivity::General],
        capabilities: vec![Capability::Read],
        owner_team: team.into(),
        contact: contact.into(),
        auth_method: AuthMethod::Sso,
        failure_impact: FailureImpact::Low,
        realtime: Realtime::Realtime,
    }])
}

fn refusal_fallback(facts: ToolFacts) -> String {
    let mut a = Admission::new("erp_lookup", "emp-1", "sess-1", false);
    assert!(matches!(a.on_tool(Some(facts)), Action::CheckRate { .. }));
    assert!(matches!(a.on_rate(true), Action::CheckBudget { .. }));
    assert!(matches!(a.on_budget(Ok(())), Action::ValidateInput));
    assert!(matches!(a.on_input(None), Action::Evaluate));
    let d = Decision {
        allowed: false,
        reason: "역할 권한 없음".into(),
        rule_id: "role.permission".into(),
        approval_required: false,
        obligations: Obligations::none(),
        matched_rules: vec![],
    };
    match a.on_decision(&d) {
        Action::Refuse { error, .. } => {
            assert_eq!(error.code, "permission_denied");
            assert_eq!(error.message, "역할 권한 없음");
            error.fallback
        },
        _ => panic!("a denied decision must refuse"),
    }
}

#[test]
fn a_permission_refusal_points_to_the_owner_in_the_inventory() {
    let inv = erp_inventory("재무팀", "fin@example.com");
    assert_eq!(access_request_path(Some(&inv), "erp"), "재무팀(fin@example.com)에 접근 요청을 제출하세요");
    let facts = ToolFacts::of(&spec(), Some(&inv));
    assert_eq!(facts.fallback, "재무팀에 문의하세요");
    assert_eq!(refusal_fallback(facts), "권한이 필요하면 재무팀(fin@example.com)에 접근 요청을 제출하세요");
    let team_only = erp_inventory("재무팀", "");
    assert_eq!(access_request_path(Some(&team_only), "erp"), "재무팀에 접근 요청을 제출하세요");
}

#[test]
fn without_an_owner_a_refusal_gives_the_generic_path() {
    assert_eq!(refusal_fallback(ToolFacts::of(&spec(), None)), "권한이 필요하면 담당 부서에 접근 요청을 제출하세요");
    let inv = erp_inventory("재무팀", "fin@example.com");
    assert_eq!(access_request_path(Some(&inv), "crm"), "담당 부서에 접근 요청을 제출하세요");
}

#[test]
fn a_dry_run_answers_with_the_summary_and_no_data() {
    let r = dry_run_result("process_refund", "pending", "apr_1", "req_1", "승인이 필요합니다".into());
    assert!(r.dry_run && !r.masked && !r.narrowed && r.data.is_empty());
    assert_eq!((r.tool.as_str(), r.approval_status.as_str(), r.approval_id.as_str()), ("process_refund", "pending", "apr_1"));
    assert_eq!((r.summary.as_str(), r.request_id.as_str()), ("승인이 필요합니다", "req_1"));
}

#[test]
fn an_executed_call_answers_with_its_shaped_output() {
    let shaped = Shaped {
        data: vec![("name".into(), Json::Str("***".into()))],
        masked: true,
        narrowed: true,
        injection: None,
    };
    let r = executed_result("crm_lookup", shaped, "n/a", "", "req_2");
    assert!(!r.dry_run && r.masked && r.narrowed && r.summary.is_empty());
    assert_eq!(Json::Object(r.data).to_text(), r#"{"name":"***"}"#);
    assert_eq!((r.tool.as_str(), r.approval_status.as_str(), r.request_id.as_str()), ("crm_lookup", "n/a", "req_2"));
}

#[test]
fn the_prompt_flag_names_the_rules_that_fired() {
    let v = Verdict { suspicious: true, patterns: vec!["override_instructions".into(), "reveal_prompt".into()] };
    assert_eq!(prompt_flag(&v), "프롬프트: override_instructions, reveal_prompt");
    assert_eq!(prompt_flag(&Verdict { suspicious: false, patterns: vec![] }), "");
}

#[test]
fn a_call_entry_records_who_what_and_the_verdict() {
    let id = Identity {
        user_id: "emp-1".into(),
        session_id: "sess-1".into(),
        kind: String::new(),
        roles: vec![],
        department: String::new(),
        permissions: vec![],
        allowed_tools: vec![],
        allowed_systems: vec![],
        token_sha256: String::new(),
        token_expires_at: None,
        attributes: vec![],
    };
    let call = Call {
        tool: "erp_lookup".into(),
        args: vec![("id".into(), Json::Str("7".into()))],
        prompt: "조회해 줘".into(),
        usage: Usage { input_tokens: 10, output_tokens: 20, cost_micros: 300 },
    };
    let verdict = Audit { decision: "denied".into(), reason: "역할 권한 없음".into(), error: "permission_denied".into() };
    let e = call_entry(&id, &spec(), &call, &verdict, "n/a", "", "req_3", None, false, "프롬프트: reveal_prompt", 5, 12);
    assert_eq!((e.id, e.timestamp, e.latency_ms), (0, 5, 12));
    assert_eq!((e.actor.as_str(), e.session_id.as_str(), e.tool.as_str()), ("emp-1", "sess-1", "erp_lookup"));
    assert_eq!((e.system.as_str(), e.access.as_str()), ("erp", "read"));
    assert_eq!((e.decision.as_str(), e.reason.as_str(), e.error.as_str()), ("denied", "역할 권한 없음", "permission_denied"));
    assert_eq!((e.approval_status.as_str(), e.request_id.as_str()), ("n/a", "req_3"));
    assert_eq!(Json::Object(e.input.unwrap()).to_text(), r#"{"id":"7"}"#);
    assert!(e.output.is_none());
    assert_eq!((e.input_tokens, e.output_tokens, e.cost_micros), (10, 20, 300));
    assert_eq!((e.prompt.as_str(), e.injection.as_str()), ("조회해 줘", "프롬프트: reveal_prompt"));
}
