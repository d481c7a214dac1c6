use ai_bridge::auth::Identity;
use ai_bridge::json::{Decimal, Json, Number};
use ai_bridge::policy::{
    predicate_matches, validate, validate_predicate, value_text_of, Config, Effect, Engine, Obligations, Predicate,
    Role, Rule,
};
use ai_bridge::registry::{Access, RiskLevel, Sensitivity, Spec};

fn obj() -> Json {
    Json::Object(vec![("type".to_string(), Json::Str("object".to_string()))])
}

fn spec(name: &str, risk: RiskLevel) -> Spec {
    Spec {
        name: name.into(),
        description: "d".into(),
        system: "crm".into(),
        access: Access::Read,
        risk_level: risk,
        sensitivity: Sensitivity::Internal,
        required_permissions: vec!["crm.customer.read".into()],
        approval_required: false,
        approval_ttl_secs: 0,
        rate_limit_per_min: 60,
        timeout_ms: 0,
        max_retries: 0,
        log_retention_days: 90,
        mask_fields: vec![],
        fallback: "f".into(),
        input_schema: obj(),
        output_schema: obj(),
    }
}

fn identity(user: &str, roles: &[&str]) -> Identity {
    Identity {
        user_id: user.into(),
        session_id: String::new(),
        kind: String::new(),
        roles: roles.iter().map(|r| r.to_string()).collect(),
        department: String::new(),
        permissions: vec![],
        allowed_tools: vec![],
        allowed_systems: vec![],
        token_sha256: String::new(),
        token_expires_at: None,
        attributes: vec![],
    }
}

fn sales() -> Identity {
    let mut id = identity("emp-sales-01", &["sales"]);
    id.attributes = vec![(
        "managed_customers".into(),
        Json::Array(vec![Json::Str("CUST-1001".into()), Json::Str("CUST-1002".into())]),
    )];
    id
}

fn pred() -> Predicate {
    Predicate {
        attribute: String::new(),
        arg: String::new(),
        equals: None,
        not_equals: None,
        in_: vec![],
        not_in: vec![],
        gt: None,
        gte: None,
        lt: None,
        lte: None,
        in_attribute: String::new(),
        not_in_attribute: String::new(),
    }
}

fn none() -> Obligations {
    Obligations { mask_fields: vec![], redact_fields: vec![], max_rows: 0 }
}

fn rule(id: &str, effect: Effect, tools: &[&str]) -> Rule {
    Rule {
        id: id.into(),
        description: String::new(),
        effect,
        applies_to_tools: tools.iter().map(|t| t.to_string()).collect(),
        applies_to_roles: vec![],
        applies_to_systems: vec![],
        when: vec![],
        obligations: none(),
    }
}

fn cfg_with(rules: Vec<Rule>) -> Config {
    Config {
        version: "t".into(),
        roles: vec![("sales".to_string(), Role { permissions: vec!["crm.customer.read".into()] })],
        rules,
    }
}

fn num(i: i128) -> Json {
    Json::Num(Number::Int(i))
}

fn s(t: &str) -> Json {
    Json::Str(t.into())
}

fn dec(d: i64) -> Decimal {
    Decimal { digits: d, scale: 0 }
}

fn args(kv: Vec<(&str, Json)>) -> Vec<(String, Json)> {
    kv.into_iter().map(|(k, v)| (k.to_string(), v)).collect()
}

#[test]
fn denies_when_permission_is_missing() {
    let e = Engine::new(cfg_with(vec![]));
    let mut id = sales();
    id.roles = vec!["hr".into()];
    let d = e.evaluate(&id, &spec("get_customer_profile", RiskLevel::L1), &args(vec![]));
    assert!(!d.allowed);
    assert_eq!(d.rule_id, "rbac.missing_permission");
}

#[test]
fn wildcard_permission_grants_everything() {
    let mut cfg = cfg_with(vec![]);
    cfg.roles.push(("admin".into(), Role { permissions: vec!["*".into()] }));
    let e = Engine::new(cfg);
    let id = identity("admin-1", &["admin"]);
    assert!(e.evaluate(&id, &spec("get_customer_profile", RiskLevel::L1), &args(vec![])).allowed);
}

#[test]
fn agent_scope_narrows_even_when_rbac_allows() {
    let e = Engine::new(cfg_with(vec![]));
    let mut id = sales();
    id.allowed_tools = vec!["some_other_tool".into()];
    let d = e.evaluate(&id, &spec("get_customer_profile", RiskLevel::L1), &args(vec![]));
    assert!(!d.allowed);
    assert_eq!(d.rule_id, "principal.out_of_scope");
}

#[test]
fn l3_requires_approval_by_risk_alone() {
    let e = Engine::new(cfg_with(vec![]));
    let mut sp = spec("create_support_ticket", RiskLevel::L3);
    sp.access = Access::Write;
    let d = e.evaluate(&sales(), &sp, &args(vec![]));
    assert!(d.allowed);
    assert!(d.approval_required);
}

#[test]
fn l2_does_not_require_approval_by_risk() {
    let e = Engine::new(cfg_with(vec![]));
    let mut sp = spec("draft_purchase_request", RiskLevel::L2);
    sp.access = Access::Write;
    let d = e.evaluate(&sales(), &sp, &args(vec![]));
    assert!(d.allowed);
    assert!(!d.approval_required);
}

#[test]
fn require_approval_rule_escalates_an_l2_tool() {
    let mut r = rule("bulk-laptop", Effect::RequireApproval, &["draft_purchase_request"]);
    let mut item = pred();
    item.arg = "item".into();
    item.equals = Some("노트북".into());
    let mut qty = pred();
    qty.arg = "quantity".into();
    qty.gte = Some(dec(10));
    r.when = vec![item, qty];
    let e = Engine::new(cfg_with(vec![r]));
    let sp = spec("draft_purchase_request", RiskLevel::L2);

    let d = e.evaluate(&sales(), &sp, &args(vec![("item", s("노트북")), ("quantity", num(10))]));
    assert!(d.allowed && d.approval_required);
    assert_eq!(d.matched_rules, vec!["bulk-laptop"]);

    let d = e.evaluate(&sales(), &sp, &args(vec![("item", s("노트북")), ("quantity", num(9))]));
    assert!(!d.approval_required);
    let d = e.evaluate(&sales(), &sp, &args(vec![("item", s("모니터")), ("quantity", num(50))]));
    assert!(!d.approval_required);
}

#[test]
fn first_deny_wins_and_short_circuits() {
    let mut deny = rule("deny-it", Effect::Deny, &["get_customer_profile"]);
    let mut p = pred();
    p.attribute = "network_zone".into();
    p.not_equals = Some("internal".into());
    deny.when = vec![p];
    let mut ob = rule("obligate-it", Effect::AllowWithObligations, &["get_customer_profile"]);
    ob.obligations = Obligations { mask_fields: vec!["phone".into()], redact_fields: vec![], max_rows: 0 };
    let e = Engine::new(cfg_with(vec![deny, ob]));
    let d = e.evaluate(&sales(), &spec("get_customer_profile", RiskLevel::L1), &args(vec![]));
    assert!(!d.allowed);
    assert_eq!(d.rule_id, "deny-it");
    assert_eq!(d.matched_rules, vec!["deny-it"]);
    assert!(d.obligations.is_zero());
}

#[test]
fn not_equals_fires_on_missing_attribute_fail_closed() {
    let mut p = pred();
    p.attribute = "network_zone".into();
    p.not_equals = Some("internal".into());
    assert!(predicate_matches(&p, &sales(), &args(vec![])));
}

#[test]
fn equals_does_not_fire_on_missing_attribute() {
    let mut p = pred();
    p.attribute = "network_zone".into();
    p.equals = Some("internal".into());
    assert!(!predicate_matches(&p, &sales(), &args(vec![])));
}

#[test]
fn not_in_fires_on_missing_but_in_does_not() {
    let mut not_in = pred();
    not_in.attribute = "business_purpose".into();
    not_in.not_in = vec!["customer_support".into()];
    let mut is_in = pred();
    is_in.attribute = "business_purpose".into();
    is_in.in_ = vec!["customer_support".into()];
    assert!(predicate_matches(&not_in, &sales(), &args(vec![])));
    assert!(!predicate_matches(&is_in, &sales(), &args(vec![])));
}

#[test]
fn numeric_comparison_never_fires_on_missing_arg() {
    let mut p = pred();
    p.arg = "amount".into();
    p.gte = Some(dec(5_000_000));
    assert!(!predicate_matches(&p, &sales(), &args(vec![])));
    assert!(predicate_matches(&p, &sales(), &args(vec![("amount", num(5_000_000))])));
    assert!(!predicate_matches(&p, &sales(), &args(vec![("amount", num(4_999_999))])));
}

#[test]
fn not_in_attribute_treats_missing_arg_as_not_in_list() {
    let mut p = pred();
    p.arg = "customer_id".into();
    p.not_in_attribute = "managed_customers".into();
    assert!(!predicate_matches(&p, &sales(), &args(vec![("customer_id", s("CUST-1001"))])));
    assert!(predicate_matches(&p, &sales(), &args(vec![("customer_id", s("CUST-9999"))])));
    assert!(predicate_matches(&p, &sales(), &args(vec![])));
}

#[test]
fn booleans_stringify_like_go() {
    assert_eq!(value_text_of(&Json::Bool(false)), "false");
    assert_eq!(value_text_of(&Json::Bool(true)), "true");
    assert_eq!(value_text_of(&num(10)), "10");
    assert_eq!(value_text_of(&s("x")), "x");
}

#[test]
fn obligations_merge_union_fields_and_min_nonzero_max_rows() {
    let a = Obligations { mask_fields: vec!["amount".into()], redact_fields: vec!["signed_at".into()], max_rows: 3 };
    let b = Obligations { mask_fields: vec!["amount".into(), "phone".into()], redact_fields: vec![], max_rows: 1 };
    let m = a.merge(&b);
    assert_eq!(m.mask_fields, vec!["amount", "phone"]);
    assert_eq!(m.redact_fields, vec!["signed_at"]);
    assert_eq!(m.max_rows, 1);
}

#[test]
fn zero_max_rows_never_overrides_a_set_limit() {
    let a = Obligations { mask_fields: vec![], redact_fields: vec![], max_rows: 3 };
    let b = none();
    assert_eq!(a.merge(&b).max_rows, 3);
    assert_eq!(b.merge(&a).max_rows, 3);
}

#[test]
fn multiple_obligation_rules_accumulate_across_the_whole_scan() {
    let mut r1 = rule("summary-only", Effect::AllowWithObligations, &["search_contracts"]);
    r1.obligations = Obligations { mask_fields: vec!["amount".into()], redact_fields: vec!["signed_at".into()], max_rows: 3 };
    let mut r2 = rule("unfiltered-narrowed", Effect::AllowWithObligations, &["search_contracts"]);
    let mut p = pred();
    p.arg = "keyword".into();
    p.equals = Some(String::new());
    r2.when = vec![p];
    r2.obligations = Obligations { mask_fields: vec![], redact_fields: vec![], max_rows: 1 };
    let e = Engine::new(cfg_with(vec![r1, r2]));
    let sp = spec("search_contracts", RiskLevel::L1);

    let d = e.evaluate(&sales(), &sp, &args(vec![("keyword", s("x"))]));
    assert_eq!(d.obligations.max_rows, 3);

    let d = e.evaluate(&sales(), &sp, &args(vec![("keyword", s(""))]));
    assert_eq!(d.obligations.max_rows, 1);
    assert_eq!(d.obligations.mask_fields, vec!["amount"]);
    assert_eq!(d.matched_rules.len(), 2);
}

#[test]
fn role_scoped_obligations_differ_by_role() {
    let mut r = rule("support-masked", Effect::AllowWithObligations, &["get_customer_profile"]);
    r.applies_to_roles = vec!["support".into()];
    r.obligations = Obligations { mask_fields: vec!["phone".into(), "email".into()], redact_fields: vec![], max_rows: 0 };
    let mut cfg = cfg_with(vec![r]);
    cfg.roles.push(("support".into(), Role { permissions: vec!["crm.customer.read".into()] }));
    let e = Engine::new(cfg);
    let sp = spec("get_customer_profile", RiskLevel::L1);
    let support = identity("sup-1", &["support"]);
    assert_eq!(e.evaluate(&support, &sp, &args(vec![])).obligations.mask_fields, vec!["phone", "email"]);
    assert!(e.evaluate(&sales(), &sp, &args(vec![])).obligations.is_zero());
}

#[test]
fn visible_checks_rbac_and_scope_but_not_abac() {
    let mut deny_all = rule("deny", Effect::Deny, &[]);
    let mut p = pred();
    p.attribute = "network_zone".into();
    p.not_equals = Some("internal".into());
    deny_all.when = vec![p];
    let e = Engine::new(cfg_with(vec![deny_all]));
    let sp = spec("get_customer_profile", RiskLevel::L1);
    assert!(e.visible(&sales(), &sp));
    assert!(!e.evaluate(&sales(), &sp, &args(vec![])).allowed);
}

#[test]
fn rejects_deny_rule_without_predicates() {
    let cfg = cfg_with(vec![rule("oops", Effect::Deny, &[])]);
    assert!(validate(&cfg).is_err());
}

#[test]
fn allows_obligation_rule_without_predicates() {
    let mut r = rule("always", Effect::AllowWithObligations, &[]);
    r.obligations = Obligations { mask_fields: vec!["phone".into()], redact_fields: vec![], max_rows: 0 };
    assert!(validate(&cfg_with(vec![r])).is_ok());
}

fn a_equals_b() -> Predicate {
    let mut p = pred();
    p.arg = "a".into();
    p.equals = Some("b".into());
    p
}

#[test]
fn rejects_obligations_on_deny_rule() {
    let mut r = rule("x", Effect::Deny, &[]);
    r.when = vec![a_equals_b()];
    r.obligations = Obligations { mask_fields: vec![], redact_fields: vec![], max_rows: 1 };
    assert!(validate(&cfg_with(vec![r])).is_err());
}

#[test]
fn rejects_duplicate_rule_ids() {
    let r = || {
        let mut r = rule("dup", Effect::Deny, &[]);
        r.when = vec![a_equals_b()];
        r
    };
    assert!(validate(&cfg_with(vec![r(), r()])).is_err());
}

#[test]
fn rejects_predicate_with_two_operators() {
    let mut p = pred();
    p.arg = "a".into();
    p.equals = Some("x".into());
    p.gte = Some(dec(1));
    assert!(validate_predicate(&p).is_err());
}

#[test]
fn rejects_predicate_with_no_operator_or_no_target() {
    let mut p = pred();
    p.arg = "a".into();
    assert!(validate_predicate(&p).is_err());
    let mut q = pred();
    q.equals = Some("x".into());
    assert!(validate_predicate(&q).is_err());
}

#[test]
fn rejects_in_attribute_on_an_attribute_target() {
    let mut p = pred();
    p.attribute = "x".into();
    p.in_attribute = "managed_customers".into();
    assert!(validate_predicate(&p).is_err());
}

#[test]
fn schema_fields_walks_nested_objects_and_arrays() {
    let typ = |t: &str| ("type".to_string(), s(t));
    let rrn = Json::Object(vec![typ("string")]);
    let customer = Json::Object(vec![typ("object"), ("properties".into(), Json::Object(vec![("rrn".into(), rrn)]))]);
    let amount = Json::Object(vec![typ("integer")]);
    let item = Json::Object(vec![typ("object"), ("properties".into(), Json::Object(vec![("amount".into(), amount)]))]);
    let contracts = Json::Object(vec![typ("array"), ("items".into(), item)]);
    let schema = Json::Object(vec![
        typ("object"),
        ("properties".into(), Json::Object(vec![("customer".into(), customer), ("contracts".into(), contracts)])),
    ]);
    let f = ai_bridge::policy::schema_fields(&schema);
    assert!(f.contains(&"customer".to_string()) && f.contains(&"rrn".to_string()) && f.contains(&"amount".to_string()));
}
