use ai_bridge::json::Json;
use ai_bridge::registry::{validate_spec, Access, Registry, RiskLevel, Sensitivity, Spec};

fn obj() -> Json {
    Json::Object(vec![
        ("type".to_string(), Json::Str("object".into())),
        ("properties".to_string(), Json::Object(vec![])),
        ("additionalProperties".to_string(), Json::Bool(false)),
    ])
}

fn ok_spec() -> Spec {
    Spec {
        name: "get_invoice_status".into(),
        description: "송장 상태 조회".into(),
        system: "erp".into(),
        access: Access::Read,
        risk_level: RiskLevel::L1,
        sensitivity: Sensitivity::Internal,
        required_permissions: vec!["erp.invoice.read".into()],
        approval_required: false,
        approval_ttl_secs: 0,
        rate_limit_per_min: 60,
        timeout_ms: 0,
        max_retries: 0,
        log_retention_days: 90,
        mask_fields: vec![],
        fallback: "재무팀에 문의하세요".into(),
        input_schema: obj(),
        output_schema: obj(),
    }
}

#[test]
fn registers_a_valid_tool() {
    let mut r = Registry::new();
    assert!(r.register(ok_spec()).is_ok());
    assert_eq!(r.len(), 1);
    assert!(r.lookup("get_invoice_status").is_some());
}

#[test]
fn rejects_duplicate_registration() {
    let mut r = Registry::new();
    r.register(ok_spec()).unwrap();
    assert!(r.register(ok_spec()).is_err());
}

#[test]
fn replace_upserts_without_duplicate_error() {
    let mut r = Registry::new();
    r.register(ok_spec()).unwrap();
    assert!(r.replace(ok_spec()).is_ok());
    assert_eq!(r.len(), 1);
}

#[test]
fn rejects_write_tool_at_l1() {
    let mut s = ok_spec();
    s.access = Access::Write;
    s.risk_level = RiskLevel::L1;
    assert!(Registry::new().register(s).is_err());
}

#[test]
fn rejects_read_tool_above_l2() {
    let mut s = ok_spec();
    s.access = Access::Read;
    s.risk_level = RiskLevel::L3;
    assert!(Registry::new().register(s).is_err());
}

#[test]
fn rejects_write_tool_with_retries() {
    let mut s = ok_spec();
    s.access = Access::Write;
    s.risk_level = RiskLevel::L3;
    s.max_retries = 2;
    assert!(Registry::new().register(s).is_err());
}

#[test]
fn allows_write_tool_at_l3_without_retries() {
    let mut s = ok_spec();
    s.name = "create_support_ticket".into();
    s.access = Access::Write;
    s.risk_level = RiskLevel::L3;
    s.max_retries = 0;
    assert!(Registry::new().register(s).is_ok());
}

#[test]
fn rejects_missing_schemas() {
    let mut s = ok_spec();
    s.input_schema = Json::Null;
    assert!(Registry::new().register(s).is_err());
    let mut s = ok_spec();
    s.output_schema = Json::Null;
    assert!(Registry::new().register(s).is_err());
}

#[test]
fn rejects_missing_permissions_and_fallback() {
    let mut s = ok_spec();
    s.required_permissions = vec![];
    assert!(Registry::new().register(s).is_err());
    let mut s = ok_spec();
    s.fallback = String::new();
    assert!(Registry::new().register(s).is_err());
}

#[test]
fn rejects_nonpositive_rate_limit_and_retention() {
    let mut s = ok_spec();
    s.rate_limit_per_min = 0;
    assert!(Registry::new().register(s).is_err());
    let mut s = ok_spec();
    s.log_retention_days = 0;
    assert!(Registry::new().register(s).is_err());
}

#[test]
fn rejects_approval_ttl_on_plain_l1_read_tool() {
    let mut s = ok_spec();
    s.approval_ttl_secs = 3600;
    assert!(Registry::new().register(s).is_err());
}

#[test]
fn specs_are_sorted_by_name() {
    let mut r = Registry::new();
    let mut b = ok_spec();
    b.name = "b_tool".into();
    let mut a = ok_spec();
    a.name = "a_tool".into();
    r.register(b).unwrap();
    r.register(a).unwrap();
    assert_eq!(r.specs().iter().map(|s| s.name.as_str()).collect::<Vec<_>>(), vec!["a_tool", "b_tool"]);
    assert_eq!(r.names(), vec!["a_tool", "b_tool"]);
}

#[test]
fn unregister_removes_only_a_known_tool() {
    let mut r = Registry::new();
    r.register(ok_spec()).unwrap();
    assert!(r.unregister("nope").is_err());
    assert!(r.unregister("get_invoice_status").is_ok());
    assert!(r.is_empty());
}

#[test]
fn validate_spec_accepts_the_reference_tool() {
    assert!(validate_spec(&ok_spec()).is_ok());
    assert_eq!(RiskLevel::L3.label(), "L3(실행 보조형)");
    assert_eq!(Access::parse("WRITE").unwrap(), Access::Write);
    assert_eq!(Sensitivity::parse("restricted"), Sensitivity::Restricted);
}
