use ai_bridge::inventory::{AuthMethod, Capability, FailureImpact, Interface, Inventory, Realtime, Sensitivity, System};
use ai_bridge::json::Json;
use ai_bridge::registry::Registry;
use ai_bridge::toolcatalog::{build_spec, build_specs, BuildError, Catalog, CatalogError, ToolYaml};

fn system(name: &str, caps: Vec<Capability>, base_url: &str) -> System {
    System {
        name: name.into(),
        display_name: name.into(),
        interface: Interface::Rest,
        base_url: base_url.into(),
        data_sensitivity: vec![Sensitivity::General],
        capabilities: caps,
        owner_team: "고객지원팀".into(),
        contact: "help@example.com".into(),
        auth_method: AuthMethod::Sso,
        failure_impact: FailureImpact::Low,
        realtime: Realtime::Realtime,
    }
}

fn inv() -> Inventory {
    Inventory::new(vec![
        system("ticket", vec![Capability::Read, Capability::Create], "https://ticket.example"),
        system("crm", vec![Capability::Read], "https://crm.example"),
    ])
}

fn closed() -> Json {
    Json::Object(vec![
        ("type".to_string(), Json::Str("object".into())),
        ("properties".to_string(), Json::Object(vec![])),
        ("additionalProperties".to_string(), Json::Bool(false)),
    ])
}

fn raw(name: &str, system: &str, perm: &str) -> ToolYaml {
    ToolYaml {
        name: name.into(),
        description: String::new(),
        system: system.into(),
        base_url: String::new(),
        access: String::new(),
        risk_level: String::new(),
        sensitivity: String::new(),
        required_permissions: vec![perm.into()],
        rate_limit_per_min: 0,
        log_retention_days: 0,
        timeout_ms: 0,
        max_retries: 0,
        approval_ttl_hours: 0,
        fallback: String::new(),
        mask_fields: vec![],
        input_schema: closed(),
        output_schema: closed(),
    }
}

fn valid() -> ToolYaml {
    let mut r = raw("remote_lookup", "ticket", "ticket.read");
    r.description = "원격 조회".into();
    r.access = "read".into();
    r.risk_level = "L1".into();
    r
}

fn apply(cat: &mut Catalog, reg: &mut Registry, raws: Vec<ToolYaml>) -> Result<(usize, usize), CatalogError> {
    let inv = inv();
    let specs = build_specs(&raws, Some(&inv))?;
    cat.reload(reg, specs.into_iter().map(|(s, _)| s).collect())
}

#[test]
fn registers_tools_from_yaml() {
    let mut reg = Registry::new();
    let mut cat = Catalog::new();
    assert_eq!(apply(&mut cat, &mut reg, vec![valid()]).unwrap(), (1, 0));
    assert!(reg.lookup("remote_lookup").is_some());
    assert_eq!(cat.owned, vec!["remote_lookup"]);
}

#[test]
fn reload_replaces_previously_owned_tools() {
    let mut reg = Registry::new();
    let mut cat = Catalog::new();
    apply(&mut cat, &mut reg, vec![valid()]).unwrap();
    assert_eq!(apply(&mut cat, &mut reg, vec![]).unwrap(), (0, 1));
    assert!(reg.lookup("remote_lookup").is_none());
}

#[test]
fn base_url_falls_back_to_inventory() {
    let inv = inv();
    let (_, base) = build_spec(&valid(), Some(&inv)).unwrap();
    assert_eq!(base, "https://ticket.example");
}

#[test]
fn rejects_write_tool_on_read_only_system() {
    let mut r = raw("bad_write", "crm", "crm.customer.read");
    r.access = "write".into();
    r.risk_level = "L3".into();
    let inv = inv();
    assert!(matches!(build_spec(&r, Some(&inv)), Err(BuildError::NoWriteCapability(_))));
}

#[test]
fn rejects_unknown_system() {
    let r = raw("t", "nope", "x");
    let inv = inv();
    assert!(matches!(build_spec(&r, Some(&inv)), Err(BuildError::UnknownSystem(_))));
}

#[test]
fn toolcatalog_rejects_duplicate_names() {
    let inv = inv();
    let raws = vec![raw("dup", "ticket", "ticket.read"), raw("dup", "ticket", "ticket.read")];
    assert!(matches!(build_specs(&raws, Some(&inv)), Err(CatalogError::Duplicate(_))));
}

#[test]
fn dynamic_tools_still_face_registry_validation() {
    let mut r = raw("no_schema", "ticket", "ticket.read");
    r.input_schema = Json::Null;
    r.output_schema = Json::Null;
    let mut reg = Registry::new();
    let mut cat = Catalog::new();
    assert!(apply(&mut cat, &mut reg, vec![r]).is_err());
}

#[test]
fn failed_reload_leaves_no_half_applied_tools() {
    let good = raw("good", "ticket", "ticket.read");
    let mut bad = raw("bad", "ticket", "ticket.read");
    bad.input_schema = Json::Null;
    bad.output_schema = Json::Null;
    let mut reg = Registry::new();
    let mut cat = Catalog::new();
    assert!(apply(&mut cat, &mut reg, vec![good, bad]).is_err());
    assert!(reg.lookup("good").is_none());
    assert!(cat.owned.is_empty());
}

#[test]
fn a_tool_needs_a_name_and_a_system() {
    let inv = inv();
    assert!(matches!(build_spec(&raw("", "ticket", "p"), Some(&inv)), Err(BuildError::NameRequired)));
    assert!(matches!(build_spec(&raw("t", "", "p"), Some(&inv)), Err(BuildError::SystemRequired)));
}

#[test]
fn approval_validity_is_counted_in_hours() {
    let inv = inv();
    let mut r = valid();
    r.approval_ttl_hours = 2;
    assert_eq!(build_spec(&r, Some(&inv)).unwrap().0.approval_ttl_secs, 7200);
    r.approval_ttl_hours = 10_000_000;
    assert_eq!(build_spec(&r, Some(&inv)).unwrap().0.approval_ttl_secs, 36_000_000_000);
    r.approval_ttl_hours = -1;
    assert_eq!(build_spec(&r, Some(&inv)).unwrap().0.approval_ttl_secs, 0);
}
