use ai_bridge::budget::Memory as Budget;
use ai_bridge::config_reload::{BundleReload, ReloadAction, ReloadEvent};
use ai_bridge::ratelimit::Memory as Limiter;
use ai_bridge::retention::{cutoff, plan, Policy, PurgeEvent, PurgeRun, PurgeStep, NANOS_PER_DAY};
use ai_bridge::templates::{dash, decision_class, duration};

const SEC: i64 = 1_000_000_000;
const NOW: i64 = 1_783_674_000 * SEC;

#[test]
fn no_limit_never_blocks() {
    let mut t = Budget::new(0);
    t.add("s", 1_000_000);
    assert!(t.check("s").is_ok());
    assert_eq!(t.remaining("s"), -1);
}

#[test]
fn blocks_only_after_exceeding() {
    let mut t = Budget::new(1000);
    t.add("s", 400);
    assert!(t.check("s").is_ok());
    assert_eq!(t.remaining("s"), 600);
    t.add("s", 700);
    let err = t.check("s").unwrap_err();
    assert_eq!(err.spent_micros, 1100);
    assert_eq!(err.limit_micros, 1000);
    assert_eq!(t.remaining("s"), 0);
    assert_eq!(err.text(), "budget: 세션 \"s\" 이(가) 비용 상한을 초과했습니다(사용 1100, 상한 1000 micros)");
}

#[test]
fn budget_keys_are_independent() {
    let mut t = Budget::new(100);
    t.add("hungry", 500);
    assert!(t.check("hungry").is_err());
    assert!(t.check("thrifty").is_ok());
}

#[test]
fn zero_cost_creates_no_entry() {
    let mut t = Budget::new(1000);
    t.add("s", 0);
    assert!(t.snapshot().is_empty());
}

#[test]
fn snapshot_is_sorted_by_spend_descending() {
    let mut t = Budget::new(0);
    t.add("cheap", 10);
    t.add("expensive", 1000);
    t.add("medium", 100);
    let keys: Vec<String> = t.snapshot().into_iter().map(|e| e.key).collect();
    assert_eq!(keys, vec!["expensive", "medium", "cheap"]);
}

#[test]
fn adds_accumulate_without_loss() {
    let mut t = Budget::new(0);
    for _ in 0..100 {
        t.add("s", 10);
    }
    let snap = t.snapshot();
    assert_eq!(snap.len(), 1);
    assert_eq!(snap[0].spent_micros, 1000);
}

#[test]
fn allows_up_to_the_limit_then_denies() {
    let mut l = Limiter::new();
    for _ in 0..3 {
        assert!(l.allow_at("k", 3, NOW));
    }
    assert!(!l.allow_at("k", 3, NOW));
}

#[test]
fn ratelimit_keys_are_independent() {
    let mut l = Limiter::new();
    assert!(l.allow_at("a", 1, NOW));
    assert!(l.allow_at("b", 1, NOW));
    assert!(!l.allow_at("a", 1, NOW));
}

#[test]
fn nonpositive_limit_is_unlimited() {
    let mut l = Limiter::new();
    for _ in 0..100 {
        assert!(l.allow_at("k", 0, NOW));
    }
}

#[test]
fn window_resets_after_a_minute() {
    let mut l = Limiter::new();
    assert!(l.allow_at("k", 1, NOW));
    assert!(!l.allow_at("k", 1, NOW));
    assert!(l.allow_at("k", 1, NOW + 61 * SEC));
}

#[test]
fn exactly_the_limit_passes_in_one_window() {
    let mut l = Limiter::new();
    let allowed = (0..50).filter(|_| l.allow_at("k", 10, NOW)).count();
    assert_eq!(allowed, 10);
}

#[test]
fn retention_zero_keeps_forever() {
    let mut p = Policy::new(0);
    p.set("keep", 0);
    p.set("short", 30);
    let (sweeps, skipped) = plan(&p, NOW);
    assert_eq!(sweeps.len(), 1);
    assert_eq!(sweeps[0].tool.as_deref(), Some("short"));
    assert_eq!(sweeps[0].before, cutoff(NOW, 30));
    assert_eq!(cutoff(NOW, 30), NOW - 30 * NANOS_PER_DAY);
    assert_eq!(skipped, vec!["keep"]);
}

#[test]
fn default_retention_skips_explicitly_listed_tools() {
    let mut p = Policy::new(90);
    p.set("a", 30);
    let (sweeps, _) = plan(&p, NOW);
    assert_eq!(sweeps.len(), 2);
    assert!(sweeps[1].tool.is_none());
    assert_eq!(sweeps[1].exclude, vec!["a"]);
}

#[test]
fn export_failure_deletes_nothing() {
    let mut p = Policy::new(0);
    p.set("t", 30);
    let (mut run, step) = PurgeRun::start(&p, NOW);
    assert!(matches!(step, PurgeStep::Select(0)));
    assert!(matches!(run.on(PurgeEvent::Batch(vec![1, 2, 3])), PurgeStep::Export));
    assert!(matches!(run.on(PurgeEvent::ExportFailed), PurgeStep::Abort));
    assert_eq!(run.out.deleted, 0);
}

#[test]
fn archives_then_deletes_only_expired_records() {
    let mut p = Policy::new(0);
    p.set("t", 30);
    let (mut run, _) = PurgeRun::start(&p, NOW);
    run.on(PurgeEvent::Batch(vec![4, 5]));
    match run.on(PurgeEvent::Exported) {
        PurgeStep::Delete(ids) => assert_eq!(ids, vec![4, 5]),
        _ => panic!("expected a delete of the exported batch"),
    }
    assert!(matches!(run.on(PurgeEvent::Deleted(2)), PurgeStep::Select(0)));
    assert!(matches!(run.on(PurgeEvent::Batch(vec![])), PurgeStep::Done));
    assert_eq!(run.out.deleted, 2);
    assert_eq!(run.out.by_tool, vec![("t".to_string(), 2)]);
}

#[test]
fn purge_across_multiple_batches() {
    let mut p = Policy::new(0);
    p.set("t", 1);
    let (mut run, _) = PurgeRun::start(&p, NOW);
    for batch in [vec![1, 2], vec![3]] {
        run.on(PurgeEvent::Batch(batch.clone()));
        run.on(PurgeEvent::Exported);
        run.on(PurgeEvent::Deleted(batch.len() as i64));
    }
    assert!(matches!(run.on(PurgeEvent::Batch(vec![])), PurgeStep::Done));
    assert_eq!(run.out.deleted, 3);
}

#[test]
fn a_policy_failure_stops_the_bundle_with_nothing_to_undo() {
    let mut b = BundleReload::new();
    assert_eq!(b.on(ReloadEvent::Policy(Some(Err("bad".into())))), ReloadAction::Finish);
    assert!(!b.out.rolled_back);
    assert_eq!(b.decision(), "denied");
}

#[test]
fn a_later_failure_rolls_back_every_earlier_step() {
    let mut b = BundleReload::new();
    assert_eq!(b.on(ReloadEvent::Policy(Some(Ok("v2".into())))), ReloadAction::ReloadInventory);
    assert_eq!(b.on(ReloadEvent::Inventory(Some(Ok("6".into())))), ReloadAction::ReloadCatalog);
    assert_eq!(b.on(ReloadEvent::Catalog(Some(Err("dup".into())))), ReloadAction::RollbackAll);
    assert_eq!(b.on(ReloadEvent::AllRolledBack), ReloadAction::Finish);
    assert!(b.out.rolled_back);
    assert!(!b.touch_stamp());
    assert_eq!(b.decision(), "denied");
}

#[test]
fn a_full_bundle_is_allowed_and_wakes_the_cluster() {
    let mut b = BundleReload::new();
    b.on(ReloadEvent::Policy(Some(Ok("v2".into()))));
    b.on(ReloadEvent::Inventory(None));
    b.on(ReloadEvent::Catalog(Some(Ok("1".into()))));
    assert_eq!(b.on(ReloadEvent::Principal(Some(Ok(())))), ReloadAction::Finish);
    assert_eq!(b.decision(), "allowed");
    assert!(b.touch_stamp());
    assert!(b.ok_step_count() >= 2);
}

#[test]
fn console_texts() {
    assert_eq!(dash(""), "-");
    assert_eq!(dash("x"), "x");
    assert_eq!(duration(0), "-");
    assert_eq!(duration(7200), "2시간");
    assert_eq!(duration(90), "1분");
    assert_eq!(duration(5), "5초");
    assert_eq!(decision_class("allowed"), "tag allow");
    assert_eq!(decision_class("denied"), "tag deny");
    assert_eq!(decision_class("dry_run"), "tag muted");
}
