use ai_bridge::gateway::{CallResult, Usage};
use ai_bridge::json::{Json, Number};
use ai_bridge::mcp::{annotate, annotated_description, dry_run_payload, error_payload, hints, observability};
use ai_bridge::registry::{Access, RiskLevel, Sensitivity, Spec};

fn spec(name: &str, access: Access, risk: RiskLevel) -> Spec {
    Spec {
        name: name.into(),
        description: "설명".into(),
        system: "erp".into(),
        access,
        risk_level: risk,
        sensitivity: Sensitivity::Internal,
        required_permissions: vec![],
        approval_required: false,
        approval_ttl_secs: 0,
        rate_limit_per_min: 0,
        timeout_ms: 0,
        max_retries: 0,
        log_retention_days: 0,
        mask_fields: vec![],
        fallback: String::new(),
        input_schema: Json::Null,
        output_schema: Json::Null,
    }
}

fn get<'a>(es: &'a [(String, Json)], k: &str) -> Option<&'a Json> {
    es.iter().find(|(n, _)| n == k).map(|(_, v)| v)
}

#[test]
fn risk_level_maps_to_standard_annotations() {
    let a = hints(&spec("get_invoice_status", Access::Read, RiskLevel::L1));
    assert!(a.read_only);
    assert!(!a.destructive);
    assert!(a.idempotent);
    assert!(!a.open_world);
    let a = hints(&spec("draft_purchase_request", Access::Write, RiskLevel::L2));
    assert!(!a.read_only);
    assert!(!a.destructive);
    let a = hints(&spec("create_support_ticket", Access::Write, RiskLevel::L3));
    assert!(a.destructive);
    let a = hints(&spec("process_refund", Access::Write, RiskLevel::L4));
    assert!(a.destructive);
}

#[test]
fn description_carries_the_risk_metadata() {
    let d = annotated_description(&spec("process_refund", Access::Write, RiskLevel::L4));
    assert!(d.contains("시스템=erp"));
    assert!(d.contains("위험=L4"));
    assert!(d.contains("기본차단"));
    assert!(d.contains("승인필요"));
    let d = annotated_description(&spec("get_invoice_status", Access::Read, RiskLevel::L1));
    assert!(!d.contains("승인필요"));
}

#[test]
fn meta_is_read_but_never_required() {
    let (prompt, usage) = observability(&None);
    assert!(prompt.is_empty());
    assert_eq!(usage, Usage { input_tokens: 0, output_tokens: 0, cost_micros: 0 });
    let n = |i| Json::Num(Number::Int(i));
    let meta = vec![
        ("ai.bridge/prompt".to_string(), Json::Str("INV-1 결제됐어?".into())),
        ("ai.bridge/input_tokens".to_string(), n(1500)),
        ("ai.bridge/output_tokens".to_string(), n(200)),
        ("ai.bridge/cost_micros".to_string(), n(4200)),
    ];
    let (prompt, usage) = observability(&Some(meta));
    assert_eq!(prompt, "INV-1 결제됐어?");
    assert_eq!(usage.input_tokens, 1500);
    assert_eq!(usage.cost_micros, 4200);
}

#[test]
fn malformed_meta_is_ignored_not_rejected() {
    let meta = vec![("ai.bridge/input_tokens".to_string(), Json::Str("not-a-number".into()))];
    let (_, usage) = observability(&Some(meta));
    assert_eq!(usage.input_tokens, 0);
}

#[test]
fn gateway_errors_become_tool_results_not_protocol_errors() {
    let (text, s) = error_payload("permission_denied", "권한이 없습니다", "재무팀에 문의하세요");
    assert_eq!(get(&s, "error_code").unwrap().to_text(), "\"permission_denied\"");
    assert_eq!(get(&s, "fallback").unwrap().to_text(), Json::Str("재무팀에 문의하세요".into()).to_text());
    assert!(text.contains("permission_denied"));
    let (_, s) = error_payload("timeout", "지연", "");
    assert!(get(&s, "fallback").is_none());
}

fn result() -> CallResult {
    CallResult {
        tool: "get_customer_profile".into(),
        data: vec![("name".to_string(), Json::Str("김철수".into()))],
        masked: true,
        narrowed: true,
        dry_run: false,
        approval_status: "n/a".into(),
        approval_id: String::new(),
        summary: String::new(),
        request_id: "req-abc".into(),
    }
}

#[test]
fn results_carry_the_judgment_fields() {
    let p = annotate(&result());
    assert_eq!(get(&p, "_masked").unwrap().to_text(), "true");
    assert_eq!(get(&p, "_narrowed").unwrap().to_text(), "true");
    assert_eq!(get(&p, "_request_id").unwrap().to_text(), "\"req-abc\"");
    assert_eq!(get(&p, "name").unwrap().to_text(), Json::Str("김철수".into()).to_text());
    let keys: Vec<&str> = p.iter().map(|(k, _)| k.as_str()).collect();
    let mut sorted = keys.clone();
    sorted.sort();
    assert_eq!(keys, sorted);
}

#[test]
fn a_dry_run_payload_names_its_approval() {
    let mut r = result();
    r.dry_run = true;
    r.approval_id = "req_1".into();
    let p = dry_run_payload(&r);
    assert_eq!(get(&p, "approval_id").unwrap().to_text(), "\"req_1\"");
}
