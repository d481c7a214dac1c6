use ai_bridge::audit::{hash_input, integrity_hash, seal, verify_chain, Entry, Filter, GroupBy, Link};
use ai_bridge::clock::{parse_rfc3339, to_rfc3339, to_rfc3339_nanos, truncate_to_second, TestClock};
use ai_bridge::json::{Json, Number};

const SEC: i64 = 1_000_000_000;
const AT_0900: i64 = 1_783_674_000 * SEC;

fn n(i: i128) -> Json {
    Json::Num(Number::Int(i))
}

fn blank() -> Entry {
    Entry {
        id: 0,
        timestamp: 0,
        actor: String::new(),
        tool: String::new(),
        system: String::new(),
        access: String::new(),
        decision: String::new(),
        reason: String::new(),
        approval_status: String::new(),
        approval_id: String::new(),
        request_id: String::new(),
        session_id: String::new(),
        masked: false,
        input: None,
        output: None,
        latency_ms: 0,
        input_tokens: 0,
        output_tokens: 0,
        cost_micros: 0,
        error: String::new(),
        prompt: String::new(),
        injection: String::new(),
    }
}

fn entry() -> Entry {
    let mut e = blank();
    e.id = 1;
    e.timestamp = AT_0900;
    e.actor = "emp-sales-01".into();
    e.tool = "get_invoice_status".into();
    e.system = "erp".into();
    e.access = "read".into();
    e.decision = "allowed".into();
    e.input = Some(vec![("invoice_id".to_string(), Json::Str("INV-1".into()))]);
    e
}

#[test]
fn hash_is_stable_for_the_same_entry() {
    let e = entry();
    assert_eq!(integrity_hash("", &e), integrity_hash("", &e));
    assert_eq!(integrity_hash("", &e).len(), 64);
}

#[test]
fn hash_changes_when_any_field_changes() {
    let base = integrity_hash("", &entry());
    let mut tampered = entry();
    tampered.decision = "denied".into();
    assert_ne!(integrity_hash("", &tampered), base);
    let mut tampered = entry();
    tampered.actor = "someone-else".into();
    assert_ne!(integrity_hash("", &tampered), base);
}

#[test]
fn hash_depends_on_the_previous_link() {
    let e = entry();
    assert_ne!(integrity_hash("", &e), integrity_hash("abc", &e));
}

#[test]
fn map_keys_are_sorted_not_insertion_ordered() {
    let mut a = blank();
    a.input = Some(vec![("b".to_string(), n(1)), ("a".to_string(), n(2))]);
    let mut b = blank();
    b.input = Some(vec![("a".to_string(), n(2)), ("b".to_string(), n(1))]);
    assert_eq!(integrity_hash("", &a), integrity_hash("", &b));
}

#[test]
fn hash_input_uses_go_field_names_in_declaration_order() {
    let s = hash_input("", &entry());
    assert!(s.starts_with(r#"{"Prev":"","Entry":{"ID":1,"Timestamp":"2026-07-10T09:00:00Z","Actor":"emp-sales-01""#));
    assert!(s.contains(r#""Output":null"#));
}

#[test]
fn group_by_columns_are_the_four_known() {
    assert_eq!(GroupBy::Actor.column(), "actor");
    assert_eq!(GroupBy::Tool.column(), "tool");
    assert_eq!(GroupBy::System.column(), "system");
    assert_eq!(GroupBy::parse("session_id"), Some(GroupBy::Session));
}

#[test]
fn a_sealed_chain_verifies_and_tampering_is_found() {
    let first = seal(entry(), 1, "");
    let mut second_entry = entry();
    second_entry.decision = "denied".into();
    let second = seal(second_entry, 2, &first.entry_hash);
    let rows = vec![first, second];
    assert_eq!(verify_chain(&rows), Ok(()));

    let mut rows = rows;
    rows[1].entry.actor = "intruder".into();
    assert_eq!(verify_chain(&rows), Err(2));
}

#[test]
fn deleting_a_link_breaks_the_chain() {
    let first = seal(entry(), 1, "");
    let second = seal(entry(), 2, &first.entry_hash);
    let third = seal(entry(), 3, &second.entry_hash);
    let rows: Vec<Link> = vec![first, third];
    assert_eq!(verify_chain(&rows), Err(3));
}

#[test]
fn sealing_stores_the_timestamp_at_whole_seconds() {
    let l = seal(entry(), 7, "");
    assert_eq!(l.entry.id, 7);
    let mut e = entry();
    e.timestamp = AT_0900 + 750_000_000;
    let m = seal(e, 7, "");
    assert_eq!(m.entry.timestamp, AT_0900);
    assert_eq!(m.entry_hash, l.entry_hash);
}

#[test]
fn a_filter_carries_its_fields() {
    let f = Filter {
        actor: "a".into(),
        tool: String::new(),
        system: String::new(),
        session_id: String::new(),
        decision: "denied".into(),
        errors_only: false,
        masked_only: false,
        injection_only: true,
        since: None,
        limit: 10,
    };
    assert!(f.injection_only);
}

#[test]
fn test_clock_advances() {
    let mut c = TestClock::epoch();
    let t0 = c.read();
    c.advance(3 * 3600 * SEC);
    assert_eq!(c.read() - t0, 3 * 3600 * SEC);
}

#[test]
fn rfc3339_is_second_precision() {
    assert_eq!(to_rfc3339(AT_0900), "2026-07-10T09:00:00Z");
}

#[test]
fn truncate_drops_subsecond() {
    assert_eq!(to_rfc3339(truncate_to_second(AT_0900 + 750_000_000)), "2026-07-10T09:00:00Z");
}

#[test]
fn rfc3339_round_trips() {
    assert_eq!(parse_rfc3339("2026-07-10T09:00:00Z"), Some(AT_0900));
    assert_eq!(parse_rfc3339("not a time"), None);
    assert_eq!(to_rfc3339_nanos(AT_0900 + 5), "2026-07-10T09:00:00.000000005Z");
}
