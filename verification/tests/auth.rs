use ai_bridge::auth::{
    generate_token, internal_hit, load_directory, parse_prefixes, remove_principal_from_file, token_hash, upsert_principal_in_file,
    AuthError, Directory, Enricher, Identity, PrincipalFile, RequestContext, TokenResolver,
};
use ai_bridge::json::Json;

const SEC: i64 = 1_000_000_000;
const NOW: i64 = 1_783_674_000 * SEC;

fn blank(user: &str) -> Identity {
    Identity {
        user_id: user.into(),
        session_id: String::new(),
        kind: String::new(),
        roles: vec![],
        department: String::new(),
        permissions: vec![],
        allowed_tools: vec![],
        allowed_systems: vec![],
        token_sha256: String::new(),
        token_expires_at: None,
        attributes: vec![],
    }
}

fn human() -> Identity {
    let mut id = blank("emp-sales-01");
    id.roles = vec!["sales".into()];
    id
}

fn agent(token: &str) -> Identity {
    let mut id = blank("agent-support-bot");
    id.kind = "agent".into();
    id.roles = vec!["support".into()];
    id.token_sha256 = token_hash(token);
    id
}

fn ctx(pairs: &[(&str, &str)]) -> RequestContext {
    let mut rc = RequestContext::new();
    for (k, v) in pairs {
        rc.set(k, v);
    }
    rc
}

fn resolver(ids: Vec<Identity>) -> TokenResolver {
    TokenResolver::new(Directory::new(ids), "X-User-Id")
}

fn enricher() -> Enricher {
    Enricher {
        start_hour: 0,
        end_hour: 0,
        internal_prefixes: vec![],
        trust_forwarded_for: false,
        default_zone: String::new(),
        default_llm_destination: String::new(),
        default_business_purpose: String::new(),
        trust_policy_headers: false,
    }
}

fn attr(id: &Identity, k: &str) -> String {
    id.attr(k).map(|v| v.to_text()).unwrap_or_default()
}

#[test]
fn empty_allowlists_impose_no_restriction() {
    assert!(human().allows_tool("anything", "any_system"));
}

#[test]
fn allowlists_only_narrow() {
    let mut a = agent("t");
    a.allowed_tools = vec!["get_ticket_status".into()];
    a.allowed_systems = vec!["ticket".into()];
    assert!(a.allows_tool("get_ticket_status", "ticket"));
    assert!(!a.allows_tool("process_refund", "ticket"));
    assert!(!a.allows_tool("get_ticket_status", "erp"));
}

#[test]
fn human_resolves_via_header() {
    let r = resolver(vec![human()]);
    let id = r.resolve_at(&ctx(&[("X-User-Id", "emp-sales-01")]), NOW).unwrap();
    assert_eq!(id.user_id, "emp-sales-01");
}

#[test]
fn agent_cannot_authenticate_via_header_alone() {
    let r = resolver(vec![agent("secret")]);
    let err = r.resolve_at(&ctx(&[("X-User-Id", "agent-support-bot")]), NOW).unwrap_err();
    assert!(matches!(err, AuthError::AgentNeedsToken(_)));
    assert!(err.message("").contains("토큰 인증이 필요합니다"));
}

#[test]
fn agent_resolves_via_bearer_token() {
    let r = resolver(vec![agent("secret")]);
    let id = r.resolve_at(&ctx(&[("Authorization", "Bearer secret")]), NOW).unwrap();
    assert_eq!(id.user_id, "agent-support-bot");
    assert!(id.is_agent());
}

#[test]
fn bearer_token_wins_over_header_and_does_not_fall_back() {
    let r = resolver(vec![human(), agent("secret")]);
    let err = r
        .resolve_at(&ctx(&[("Authorization", "Bearer wrong"), ("X-User-Id", "emp-sales-01")]), NOW)
        .unwrap_err();
    assert!(matches!(err, AuthError::InvalidToken));
    assert!(err.message("").contains("유효하지 않은 에이전트 토큰"));
}

#[test]
fn expired_token_is_rejected() {
    let mut a = agent("secret");
    a.token_expires_at = Some(NOW - 3600 * SEC);
    let r = resolver(vec![a]);
    let err = r.resolve_at(&ctx(&[("Authorization", "Bearer secret")]), NOW).unwrap_err();
    assert!(matches!(err, AuthError::TokenExpired));
    assert!(err.message("").contains("만료"));
}

#[test]
fn unknown_subject_error_does_not_leak_who_exists() {
    let r = resolver(vec![human()]);
    let err = r.resolve_at(&ctx(&[("X-User-Id", "nobody")]), NOW).unwrap_err();
    assert_eq!(err.message(""), "auth: 알 수 없는 호출 주체입니다");
    assert!(!err.message("").contains("emp-sales-01"));
}

#[test]
fn missing_header_is_rejected_not_downgraded_to_anonymous() {
    let r = resolver(vec![human()]);
    assert!(r.resolve_at(&ctx(&[]), NOW).is_err());
}

#[test]
fn enricher_overwrites_subject_claimed_attributes() {
    let mut id = human();
    id.attributes.push(("business_hours".into(), Json::Str("true".into())));
    id.attributes.push(("network_zone".into(), Json::Str("internal".into())));
    let out = enricher().enrich_at(&id, &ctx(&[]), NOW, 5, 10);
    assert_eq!(attr(&out, "network_zone"), "\"external\"");
    assert_eq!(attr(&out, "business_hours"), "\"false\"");
}

#[test]
fn unknown_source_ip_is_external_fail_closed() {
    let mut e = enricher();
    e.internal_prefixes = parse_prefixes(&vec!["10.0.0.0/8".into()]).unwrap();
    let out = e.enrich_at(&human(), &ctx(&[]), NOW, 0, 10);
    assert_eq!(attr(&out, "network_zone"), "\"external\"");
}

#[test]
fn internal_cidr_matches_peer_address() {
    let mut e = enricher();
    e.internal_prefixes = parse_prefixes(&vec!["10.0.0.0/8".into()]).unwrap();
    let rc = ctx(&[("X-Gateway-Remote-Addr", "10.1.2.3:5555")]);
    assert_eq!(e.remote_ip(&rc), "10.1.2.3");
    let out = e.enrich_at(&human(), &rc, NOW, 0, 10);
    assert_eq!(attr(&out, "network_zone"), "\"internal\"");
}

#[test]
fn forwarded_for_is_ignored_unless_trusted() {
    let rc = ctx(&[("X-Forwarded-For", "10.0.0.9"), ("X-Gateway-Remote-Addr", "203.0.113.7:443")]);
    let prefixes = parse_prefixes(&vec!["10.0.0.0/8".into()]).unwrap();
    let mut e = enricher();
    e.internal_prefixes = prefixes.clone();
    assert_eq!(e.remote_ip(&rc), "203.0.113.7");
    assert_eq!(attr(&e.enrich_at(&human(), &rc, NOW, 0, 10), "network_zone"), "\"external\"");
    let mut t = enricher();
    t.internal_prefixes = prefixes;
    t.trust_forwarded_for = true;
    assert_eq!(t.remote_ip(&rc), "10.0.0.9");
    assert_eq!(attr(&t.enrich_at(&human(), &rc, NOW, 0, 10), "network_zone"), "\"internal\"");
}

#[test]
fn prefixes_are_kept_trimmed_and_blank_ones_skipped() {
    let got = parse_prefixes(&vec![" 10.0.0.0/8 ".into(), "  ".into(), "fd00::/8".into()]).unwrap();
    assert_eq!(got, vec!["10.0.0.0/8".to_string(), "fd00::/8".to_string()]);
    assert!(parse_prefixes(&vec!["10.0.0.0/8".into(), "10.0.0.0".into()]).is_err());
}

#[test]
fn source_addresses_are_looked_up_in_the_prefixes() {
    let prefixes = parse_prefixes(&vec!["10.0.0.0/8".into(), "fd00::/8".into()]).unwrap();
    assert_eq!(internal_hit(&prefixes, "10.1.2.3"), Some(true));
    assert_eq!(internal_hit(&prefixes, "192.168.1.1"), Some(false));
    assert_eq!(internal_hit(&prefixes, "fd00::1"), Some(true));
    assert_eq!(internal_hit(&prefixes, "::1"), Some(false));
    assert_eq!(internal_hit(&prefixes, "not-an-address"), None);
    assert_eq!(internal_hit(&prefixes, "10.0.0.0/8"), None);
    assert_eq!(internal_hit(&Vec::new(), "10.1.2.3"), Some(false));
}

#[test]
fn a_source_that_is_not_an_address_gets_the_default_zone() {
    let mut e = enricher();
    e.internal_prefixes = parse_prefixes(&vec!["10.0.0.0/8".into()]).unwrap();
    e.default_zone = "dmz".into();
    let rc = ctx(&[("X-Gateway-Remote-Addr", "gateway.local")]);
    assert_eq!(e.zone_of(&rc), "dmz");
    let rc = ctx(&[("X-Gateway-Remote-Addr", "[fd00::7]:443")]);
    assert_eq!(e.zone_of(&rc), "external");
}

#[test]
fn llm_destination_normalizes_unknown_values_to_external() {
    let mut e = enricher();
    e.default_llm_destination = "bogus".into();
    let out = e.enrich_at(&human(), &ctx(&[]), NOW, 0, 10);
    assert_eq!(attr(&out, "llm_destination"), "\"external\"");
}

#[test]
fn policy_context_headers_ignored_unless_trusted() {
    let mut e = enricher();
    e.default_business_purpose = "sales_followup".into();
    let rc = ctx(&[("X-Verified-Business-Purpose", "forged")]);
    assert_eq!(attr(&e.enrich_at(&human(), &rc, NOW, 0, 10), "business_purpose"), "\"sales_followup\"");
    e.trust_policy_headers = true;
    assert_eq!(e.business_purpose(&rc), "forged");
}

#[test]
fn business_hours_zero_range_means_no_restriction() {
    let e = enricher();
    assert!(e.in_business_hours(0, 3));
    assert!(!e.in_business_hours(6, 3));
    let mut nine_to_six = enricher();
    nine_to_six.start_hour = 9;
    nine_to_six.end_hour = 18;
    assert!(nine_to_six.in_business_hours(2, 9));
    assert!(!nine_to_six.in_business_hours(2, 18));
}

#[test]
fn generated_tokens_are_unique_and_hash_stably() {
    let a = generate_token();
    let b = generate_token();
    assert_ne!(a, b);
    assert_eq!(a.len(), 64);
    assert_eq!(token_hash(&a), token_hash(&a));
    assert_ne!(token_hash(&a), token_hash(&b));
}

#[test]
fn auth_rollback_without_snapshot_errors() {
    let mut r = resolver(vec![human()]);
    assert!(r.rollback().is_err());
}

#[test]
fn reload_then_rollback_restores_previous_directory() {
    let mut r = resolver(vec![blank("a")]);
    assert_eq!(r.principal_count(), 1);
    r.reload(b"two", Directory::new(vec![blank("a"), blank("b")]), Ok(())).unwrap();
    assert_eq!(r.principal_count(), 2);
    r.rollback().unwrap();
    assert_eq!(r.principal_count(), 1);
}

#[test]
fn failed_reload_leaves_active_directory_untouched() {
    let mut r = resolver(vec![blank("a")]);
    assert!(r.reload(b"b", Directory::new(vec![blank("b")]), Err("nope".into())).is_err());
    assert_eq!(r.identities()[0].user_id, "a");
}

fn list(ids: Vec<Identity>) -> PrincipalFile {
    PrincipalFile { single: blank(""), principals: ids }
}

#[test]
fn rejects_both_user_id_and_principals() {
    let f = PrincipalFile { single: blank("a"), principals: vec![blank("b")] };
    assert!(load_directory(f).is_err());
}

#[test]
fn rejects_duplicate_user_ids() {
    assert!(load_directory(list(vec![blank("a"), blank("a")])).is_err());
}

#[test]
fn only_requires_exactly_one_principal() {
    assert!(Directory::new(vec![human()]).only().is_ok());
    assert!(Directory::new(vec![human(), agent("t")]).only().is_err());
}

#[test]
fn upsert_cannot_flip_kind_between_human_and_agent() {
    let mut a = agent("t");
    a.user_id = "a".into();
    let mut h = blank("a");
    h.roles = vec!["sales".into()];
    assert!(upsert_principal_in_file(list(vec![h]), &a).is_err());
}

#[test]
fn upsert_adds_then_updates() {
    let mut h = blank("a");
    h.roles = vec!["sales".into()];
    let v = upsert_principal_in_file(list(vec![h]), &agent("t")).unwrap();
    assert_eq!(v.len(), 2);
    let d = load_directory(list(v.iter().map(|p| p.copy()).collect())).unwrap();
    assert!(d.lookup("agent-support-bot").unwrap().is_agent());
    let mut a2 = agent("t2");
    a2.roles = vec!["hr".into()];
    let v = upsert_principal_in_file(list(v), &a2).unwrap();
    assert_eq!(v.len(), 2);
    assert_eq!(load_directory(list(v)).unwrap().lookup("agent-support-bot").unwrap().roles, vec!["hr"]);
}

#[test]
fn cannot_remove_last_principal() {
    assert!(remove_principal_from_file(list(vec![blank("a")]), "a").is_err());
}

#[test]
fn plaintext_tokens_never_reach_the_file() {
    let token = "super-secret-token";
    let v = upsert_principal_in_file(list(vec![blank("a")]), &agent(token)).unwrap();
    let stored: Vec<&Identity> = v.iter().filter(|p| p.user_id == "agent-support-bot").collect();
    assert_eq!(stored[0].token_sha256, token_hash(token));
    assert!(v.iter().all(|p| !p.token_sha256.contains(token)));
}

#[test]
fn errors_name_the_file_they_concern() {
    let e = match load_directory(list(vec![blank("a"), blank("a")])) {
        Err(e) => e,
        Ok(_) => panic!("a duplicate user id was accepted"),
    };
    assert_eq!(e.message("p.yaml"), "principal file p.yaml: duplicate user_id \"a\"");
    let e = Directory::new(vec![blank("a"), blank("b")]).only().unwrap_err();
    assert_eq!(e.message(""), "auth: 주체가 2명입니다(a, b). 하나를 골라 지정하세요");
}

#[test]
fn bad_cidr_is_loud_not_silent() {
    assert!(parse_prefixes(&vec!["not-a-cidr".into()]).is_err());
}
