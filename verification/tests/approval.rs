use ai_bridge::approval::{
    decide, ensure_step, fingerprint, list_limit, new_id, pending_request, settle, EnsureStep, Error, Request, Status,
    DEFAULT_TTL,
};
use ai_bridge::gateway::approver::{Approval, DenyApprover};
use ai_bridge::json::{Json, Number};

const SEC: i64 = 1_000_000_000;
const NOW: i64 = 1_783_674_000 * SEC;

fn n(i: i128) -> Json {
    Json::Num(Number::Int(i))
}

fn args(kv: Vec<(&str, Json)>) -> Vec<(String, Json)> {
    kv.into_iter().map(|(k, v)| (k.to_string(), v)).collect()
}

fn request(status: Status, ttl: u64, expires_at: Option<i64>) -> Request {
    Request {
        id: "req_1".into(),
        fingerprint: String::new(),
        actor: "emp-1".into(),
        tool: "process_refund".into(),
        args: vec![],
        status,
        requested_at: NOW,
        decided_by: String::new(),
        decided_at: None,
        note: String::new(),
        ttl,
        expires_at,
    }
}

#[test]
fn fingerprint_is_stable() {
    let a = args(vec![("invoice_id", Json::Str("INV-1".into())), ("amount", n(100))]);
    assert_eq!(fingerprint("emp-1", "process_refund", &a), fingerprint("emp-1", "process_refund", &a));
}

#[test]
fn fingerprint_ignores_arg_insertion_order() {
    let m1 = args(vec![("b", n(2)), ("a", n(1))]);
    let m2 = args(vec![("a", n(1)), ("b", n(2))]);
    assert_eq!(fingerprint("x", "t", &m1), fingerprint("x", "t", &m2));
}

#[test]
fn fingerprint_binds_to_actor_tool_and_args() {
    let a = args(vec![("amount", n(100))]);
    let base = fingerprint("emp-1", "t", &a);
    assert_ne!(fingerprint("emp-2", "t", &a), base);
    assert_ne!(fingerprint("emp-1", "other", &a), base);
    assert_ne!(fingerprint("emp-1", "t", &args(vec![("amount", n(101))])), base);
    assert_eq!(base.len(), 64);
}

#[test]
fn expiry_boundary_is_exclusive() {
    let mut r = request(Status::Approved, 60, Some(NOW + 60 * SEC));
    r.decided_at = Some(NOW);
    assert!(!r.expired(NOW + 60 * SEC));
    assert!(r.expired(NOW + 61 * SEC));
}

#[test]
fn unapproved_request_never_expires() {
    let r = request(Status::Pending, DEFAULT_TTL, None);
    assert!(!r.expired(NOW + 365 * 86_400 * SEC));
}

#[test]
fn ids_are_unique_and_prefixed() {
    let a = new_id();
    let b = new_id();
    assert_ne!(a, b);
    assert!(a.starts_with("req_"));
    assert_eq!(a.len(), 4 + 12);
}

#[test]
fn status_names_round_trip() {
    for s in [Status::Pending, Status::Approved, Status::Rejected, Status::Consumed, Status::Expired] {
        assert_eq!(Status::parse(s.as_str()), Some(s));
    }
    assert_eq!(Status::parse("bogus"), None);
}

#[test]
fn an_approval_is_used_once_and_an_expired_one_is_replaced() {
    assert_eq!(ensure_step(&None, NOW), EnsureStep::Create);
    let ok = request(Status::Approved, 60, Some(NOW + 60 * SEC));
    assert_eq!(ensure_step(&Some(ok), NOW), EnsureStep::Consume);
    let late = request(Status::Approved, 60, Some(NOW + 60 * SEC));
    assert_eq!(ensure_step(&Some(late), NOW + 61 * SEC), EnsureStep::ExpireThenCreate);
    assert_eq!(ensure_step(&Some(request(Status::Consumed, 60, None)), NOW), EnsureStep::Create);
    assert_eq!(ensure_step(&Some(request(Status::Pending, 60, None)), NOW), EnsureStep::Return);
    assert_eq!(ensure_step(&Some(request(Status::Rejected, 60, None)), NOW), EnsureStep::Return);
}

#[test]
fn a_new_request_is_pending_with_the_default_ttl() {
    let r = pending_request("req_x".into(), "fp".into(), "emp-1", "t", &args(vec![("b", n(2)), ("a", n(1))]), 0, NOW);
    assert_eq!(r.status, Status::Pending);
    assert_eq!(r.ttl, DEFAULT_TTL);
    assert_eq!(r.args[0].0, "a");
    assert!(r.expires_at.is_none());
}

#[test]
fn the_requester_cannot_decide_their_own_request() {
    let mut r = request(Status::Pending, 60, None);
    match decide(&mut r, true, "emp-1", "", NOW) {
        Err(Error::SelfApproval(who)) => assert_eq!(who, "emp-1"),
        other => panic!("unexpected {other:?}"),
    }
    assert_eq!(r.status, Status::Pending);
    assert!(matches!(decide(&mut r, true, "", "", NOW), Err(Error::NoApprover)));
}

#[test]
fn approval_starts_the_clock_and_rejection_never_expires() {
    let mut r = request(Status::Pending, 60, None);
    decide(&mut r, true, "mgr-1", "ok", NOW).unwrap();
    assert_eq!(r.status, Status::Approved);
    assert_eq!(r.decided_by, "mgr-1");
    assert_eq!(r.expires_at, Some(NOW + 60 * SEC));
    assert!(matches!(decide(&mut r, false, "mgr-2", "", NOW), Err(Error::NotPending)));

    let mut q = request(Status::Pending, 60, None);
    decide(&mut q, false, "mgr-1", "no", NOW).unwrap();
    assert_eq!(q.status, Status::Rejected);
    assert_eq!(q.expires_at, None);
}

#[test]
fn list_limit_defaults_to_fifty() {
    assert_eq!(list_limit(0), 50);
    assert_eq!(list_limit(-1), 50);
    assert_eq!(list_limit(5), 5);
}

#[test]
fn the_default_approver_denies_everything() {
    let a = DenyApprover.approve();
    assert!(!a.approved);
    assert_eq!(a.status, "pending");
}

#[test]
fn an_approval_follows_the_stored_request() {
    let r = request(Status::Approved, 60, Some(NOW + 60 * SEC));
    let a = Approval::from_request(&r);
    assert!(a.approved);
    assert_eq!(a.status, "approved");
    assert_eq!(a.request_id, "req_1");
    assert_eq!(a.ttl, 60);
    let p = Approval::from_request(&request(Status::Pending, 60, None));
    assert!(!p.approved);
    assert_eq!(p.facts().status, "pending");
}

#[test]
fn a_settled_approval_serves_one_call() {
    let a = args(vec![("invoice_id", Json::Str("INV-1".into())), ("amount", n(100))]);
    let first = settle(None, "emp-1", "process_refund", &a, 0, NOW, "req_a".into());
    assert!(first.insert && first.mark.is_none());
    assert_eq!(first.answer.status, Status::Pending);
    assert_eq!(first.answer.id, "req_a");
    assert_eq!(first.answer.fingerprint, fingerprint("emp-1", "process_refund", &a));
    let mut req = first.answer;
    assert!(decide(&mut req, true, "manager-01", "", NOW).is_ok());
    let second = settle(Some(req), "emp-1", "process_refund", &a, 0, NOW + SEC, "req_b".into());
    assert_eq!(second.mark, Some(Status::Consumed));
    assert!(!second.insert);
    assert_eq!(second.answer.status, Status::Approved);
    assert_eq!(second.answer.id, "req_a");
    // The consumed request is no longer live: the next call starts over.
    let third = settle(None, "emp-1", "process_refund", &a, 0, NOW + 2 * SEC, "req_c".into());
    assert!(third.insert);
    assert_eq!(third.answer.status, Status::Pending);
    assert_eq!(third.answer.id, "req_c");
}

#[test]
fn an_expired_approval_is_marked_and_replaced() {
    let a = args(vec![("amount", n(100))]);
    let mut req = settle(None, "emp-1", "process_refund", &a, 60, NOW, "req_a".into()).answer;
    assert!(decide(&mut req, true, "manager-01", "", NOW).is_ok());
    let at_expiry = settle(Some(req), "emp-1", "process_refund", &a, 60, NOW + 60 * SEC, "req_b".into());
    assert_eq!(at_expiry.mark, Some(Status::Consumed));
    let mut req = settle(None, "emp-1", "process_refund", &a, 60, NOW, "req_c".into()).answer;
    assert!(decide(&mut req, true, "manager-01", "", NOW).is_ok());
    let late = settle(Some(req), "emp-1", "process_refund", &a, 60, NOW + 61 * SEC, "req_d".into());
    assert_eq!(late.mark, Some(Status::Expired));
    assert!(late.insert);
    assert_eq!(late.answer.status, Status::Pending);
    assert_eq!(late.answer.id, "req_d");
    let rejected = {
        let mut r = settle(None, "emp-1", "process_refund", &a, 60, NOW, "req_e".into()).answer;
        assert!(decide(&mut r, false, "manager-01", "no", NOW).is_ok());
        settle(Some(r), "emp-1", "process_refund", &a, 60, NOW + SEC, "req_f".into())
    };
    assert!(rejected.mark.is_none() && !rejected.insert);
    assert_eq!(rejected.answer.status, Status::Rejected);
    assert_eq!(rejected.answer.id, "req_e");
}
