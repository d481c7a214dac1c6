use ai_bridge::inventory::{
    validate, AuthMethod, Capability, FailureImpact, Interface, Inventory, Realtime, Sensitivity, System,
};

fn sys(name: &str) -> System {
    System {
        name: name.into(),
        display_name: name.into(),
        interface: Interface::Memory,
        base_url: String::new(),
        data_sensitivity: vec![Sensitivity::General],
        capabilities: vec![Capability::Read],
        owner_team: "IT운영팀".into(),
        contact: "it-ops@example.com".into(),
        auth_method: AuthMethod::Sso,
        failure_impact: FailureImpact::Low,
        realtime: Realtime::Realtime,
    }
}

#[test]
fn inventory_rejects_duplicate_names() {
    assert!(validate(&[sys("a"), sys("a")]).is_err());
}

#[test]
fn rejects_base_url_on_non_network_interface() {
    let mut s = sys("a");
    s.base_url = "https://x".into();
    assert!(validate(&[s]).is_err());
}

#[test]
fn allows_base_url_on_rest() {
    let mut s = sys("a");
    s.interface = Interface::Rest;
    s.base_url = "https://x".into();
    assert!(validate(&[s]).is_ok());
}

#[test]
fn rejects_missing_owner_team() {
    let mut s = sys("a");
    s.owner_team = String::new();
    assert!(validate(&[s]).is_err());
}

#[test]
fn rejects_empty_capabilities_and_empty_inventory() {
    let mut s = sys("a");
    s.capabilities = vec![];
    assert!(validate(&[s]).is_err());
    assert!(validate(&[]).is_err());
}

#[test]
fn write_capability_detection() {
    let mut s = sys("a");
    assert!(!s.allows_write());
    s.capabilities.push(Capability::Create);
    assert!(s.allows_write());
}

#[test]
fn access_request_path_names_the_team() {
    assert_eq!(sys("a").access_request_path(), "IT운영팀(it-ops@example.com)에 접근 요청을 제출하세요");
}

#[test]
fn unknown_system_falls_back_to_generic_guidance() {
    let inv = Inventory::new(vec![sys("a")]);
    assert_eq!(inv.access_request_path("nope"), "담당 부서에 접근 요청을 제출하세요");
}

#[test]
fn rollback_restores_previous_snapshot() {
    let mut inv = Inventory::new(vec![sys("a")]);
    inv.replace(vec![sys("a"), sys("b")]).unwrap();
    assert_eq!(inv.len(), 2);
    inv.rollback().unwrap();
    assert_eq!(inv.len(), 1);
}

#[test]
fn inventory_rollback_without_snapshot_errors() {
    assert!(Inventory::new(vec![sys("a")]).rollback().is_err());
}

#[test]
fn inventory_lookup_and_listing_follow_the_names() {
    let inv = Inventory::new(vec![sys("b"), sys("a")]);
    assert!(inv.lookup("a").is_some());
    assert!(inv.lookup("zz").is_none());
    let names: Vec<String> = inv.systems().into_iter().map(|s| s.name).collect();
    assert_eq!(names, vec!["a", "b"]);
    assert!(!inv.is_empty());
}

#[test]
fn enum_texts_match_the_inventory_file() {
    assert_eq!(Interface::Mainframe.as_str(), "mainframe");
    assert_eq!(FailureImpact::High.as_str(), "high");
    assert_eq!(Realtime::NearRealtime.as_str(), "near_realtime");
    assert_eq!(AuthMethod::NoAuth.as_str(), "none");
    assert_eq!(Sensitivity::TradeSecret.as_str(), "trade_secret");
    assert_eq!(Capability::Approve.as_str(), "approve");
}

#[test]
fn an_unchecked_list_keeps_the_last_system_of_a_name() {
    let mut second = sys("a");
    second.display_name = "second".into();
    let inv = Inventory::new(vec![sys("a"), sys("b"), second]);
    assert_eq!(inv.len(), 2);
    assert_eq!(inv.lookup("a").unwrap().display_name, "second");
    assert!(validate(&[sys("a"), sys("b")]).is_ok());
}
