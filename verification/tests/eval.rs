use ai_bridge::eval::golden::{check, halts, is_subsequence, CheckResult, Expect, Observed, Report};
use ai_bridge::eval::judge::{
    build_user_message, judge_json_span, judge_labels, judge_max_tokens, judge_note, looks_like_legacy_claim,
    RuleRubric,
};
use ai_bridge::eval::{
    args_digest, compute_content_hash, is_known_label, validate_rating, validate_turn, Outcome, RatingCheck, Scale,
    Source, ToolStep, Turn,
};
use ai_bridge::eval::stats::{label_names, label_order, stats_queries};
use ai_bridge::json::{Json, Number};

fn obs(trail: &[(&str, &str)], reply: &str) -> Observed {
    Observed {
        reply: reply.into(),
        trail: trail.iter().map(|(n, d)| ToolStep::named(n, d)).collect(),
        outcome: "completed".into(),
        cost_micros: 0,
        exec_error: String::new(),
    }
}

#[test]
fn check_collects_all_failures_not_just_the_first() {
    let mut exp = Expect::none();
    exp.reply_contains = vec!["paid".into(), "INV-1".into()];
    exp.tools_called = vec!["missing_tool".into()];
    let r = check(&exp, &obs(&[], "nothing"));
    assert!(!r.pass);
    assert_eq!(r.failures.len(), 3);
}

#[test]
fn ordered_tools_must_be_a_subsequence_not_contiguous() {
    let mut exp = Expect::none();
    exp.tools_called_ordered = vec!["a".into(), "c".into()];
    assert!(check(&exp, &obs(&[("a", "allowed"), ("b", "allowed"), ("c", "allowed")], "")).pass);
    assert!(!check(&exp, &obs(&[("c", "allowed"), ("a", "allowed")], "")).pass);
}

#[test]
fn tool_decisions_look_at_the_last_occurrence() {
    let mut exp = Expect::none();
    exp.tool_decisions = vec![("t".to_string(), "allowed".to_string())];
    assert!(check(&exp, &obs(&[("t", "dry_run"), ("t", "allowed")], "")).pass);
    assert!(!check(&exp, &obs(&[("t", "allowed"), ("t", "dry_run")], "")).pass);
}

#[test]
fn a_missing_tool_in_tool_decisions_is_a_failure() {
    let mut exp = Expect::none();
    exp.tool_decisions = vec![("t".to_string(), "allowed".to_string())];
    assert!(!check(&exp, &obs(&[], "")).pass);
}

#[test]
fn max_cost_is_only_checked_when_set() {
    let mut o = obs(&[], "");
    o.cost_micros = 5000;
    assert!(check(&Expect::none(), &o).pass);
    let mut exp = Expect::none();
    exp.max_cost_micros = 1000;
    assert!(!check(&exp, &o).pass);
}

#[test]
fn subsequences_skip_but_keep_order() {
    let v = |xs: &[&str]| xs.iter().map(|x| x.to_string()).collect::<Vec<String>>();
    assert!(is_subsequence(&v(&["a", "c"]), &v(&["a", "b", "c"])));
    assert!(!is_subsequence(&v(&["c", "a"]), &v(&["a", "b", "c"])));
    assert!(halts("approval_rejected"));
}

fn turn(reply: &str, trail: &[(&str, &str)], outcome: &str) -> Turn {
    Turn {
        turn_id: "t1".into(),
        session_id: String::new(),
        actor: String::new(),
        agent_id: String::new(),
        timestamp: None,
        channel: String::new(),
        model: String::new(),
        prompt: String::new(),
        reply: reply.into(),
        tool_trail: trail.iter().map(|(n, d)| ToolStep::named(n, d)).collect(),
        outcome: outcome.into(),
        input_tokens: 0,
        output_tokens: 0,
        cost_micros: 0,
        content_hash: String::new(),
    }
}

#[test]
fn a_clean_grounded_reply_scores_high() {
    let r = RuleRubric.evaluate(&turn(
        "송장 INV-2026-0001 은 결제 완료(paid)되었습니다.",
        &[("get_invoice_status", "allowed")],
        "completed",
    ));
    assert!(r.score > 90);
    assert!(r.labels.is_empty());
}

#[test]
fn claiming_success_after_a_denial_is_flagged_as_hallucination() {
    let r = RuleRubric.evaluate(&turn("환불됐습니다.", &[("process_refund", "denied")], "completed"));
    assert!(r.labels.contains(&"hallucination".to_string()));
    assert!(r.score < 60);
}

#[test]
fn a_dry_run_reply_that_ignores_approval_is_policy_blind() {
    let r = RuleRubric.evaluate(&turn("티켓을 생성했습니다.", &[("create_support_ticket", "dry_run")], "completed"));
    assert!(r.labels.contains(&"policy_blind".to_string()));
}

#[test]
fn a_legacy_claim_without_any_tool_call_is_a_hallucination() {
    let r = RuleRubric.evaluate(&turn("INV-2026-0001 은 미납입니다.", &[], "completed"));
    assert!(r.labels.contains(&"hallucination".to_string()));
    assert!(looks_like_legacy_claim("INV-2026-0001 은 미납입니다."));
}

#[test]
fn the_minimum_dimension_caps_the_score() {
    let r = RuleRubric.evaluate(&turn("환불됐습니다.", &[("process_refund", "denied")], "completed"));
    assert_eq!(r.penalties, vec![("factual".to_string(), 45), ("factual".to_string(), 10)]);
    let min_dim = r.dims.iter().map(|(_, v)| *v).min().unwrap();
    assert_eq!(r.score, min_dim);
    assert_eq!(r.score, 45);
}

#[test]
fn judge_json_is_extracted_from_code_fences() {
    let span = judge_json_span("```json\n{\"score\":0.3,\"labels\":[\"wrong_fact\"],\"note\":\"틀림\"}\n```").unwrap();
    assert_eq!(span, "{\"score\":0.3,\"labels\":[\"wrong_fact\"],\"note\":\"틀림\"}");
    let v = Json::Object(vec![
        ("labels".to_string(), Json::Array(vec![Json::Str("wrong_fact".into())])),
        ("note".to_string(), Json::Str("틀림".into())),
    ]);
    assert_eq!(judge_labels(&v), vec!["wrong_fact"]);
    assert_eq!(judge_note(&v), "틀림");
}

#[test]
fn judge_json_filters_unknown_labels() {
    let v = Json::Object(vec![(
        "labels".to_string(),
        Json::Array(vec![Json::Str("wrong_fact".into()), Json::Str("made_up_label".into())]),
    )]);
    assert_eq!(judge_labels(&v), vec!["wrong_fact"]);
    assert!(judge_json_span("no json here").is_err());
}

#[test]
fn the_grading_prompt_carries_the_turn_and_a_token_floor() {
    let m = build_user_message(&turn("답", &[("t", "allowed")], "completed"));
    assert!(m.contains("답"));
    assert!(judge_max_tokens(0) > 0);
}

#[test]
fn content_hash_is_stable_and_sensitive() {
    let trail = vec![ToolStep::named("get_invoice_status", "allowed")];
    let a = compute_content_hash("q", "a", &trail);
    assert_eq!(a, compute_content_hash("q", "a", &trail));
    assert_ne!(a, compute_content_hash("q", "different", &trail));
    assert_ne!(a, compute_content_hash("q", "a", &vec![]));
}

#[test]
fn args_digest_ignores_key_order() {
    let n = |i| Json::Num(Number::Int(i));
    let m1 = vec![("b".to_string(), n(2)), ("a".to_string(), n(1))];
    let m2 = vec![("a".to_string(), n(1)), ("b".to_string(), n(2))];
    assert_eq!(args_digest(&m1), args_digest(&m2));
    assert_eq!(args_digest(&vec![]), "");
}

fn rating() -> RatingCheck {
    RatingCheck {
        turn_id: "t1".into(),
        source: "human_user".into(),
        scale: "thumbs".into(),
        rater_id: "u1".into(),
        score_in_range: true,
        score_text: "1".into(),
        labels: vec![],
        bad_dim: None,
    }
}

#[test]
fn rating_validation_rejects_bad_values() {
    assert!(validate_rating(&rating()).is_ok());
    let mut bad = rating();
    bad.score_in_range = false;
    bad.score_text = "1.5".into();
    assert!(validate_rating(&bad).is_err());
    let mut bad = rating();
    bad.source = "made_up".into();
    assert!(validate_rating(&bad).is_err());
    let mut bad = rating();
    bad.labels = vec!["not_a_label".into()];
    assert!(validate_rating(&bad).is_err());
    let mut bad = rating();
    bad.rater_id = String::new();
    assert!(validate_rating(&bad).is_err());
}

#[test]
fn empty_turn_is_rejected() {
    let mut t = turn("", &[], "");
    t.turn_id = String::new();
    assert!(validate_turn(&t).is_err());
    t.prompt = "hi".into();
    assert!(validate_turn(&t).is_ok());
    t.outcome = "exploded".into();
    assert!(validate_turn(&t).is_err());
}

#[test]
fn names_round_trip() {
    assert_eq!(Source::parse(Source::HumanReviewer.as_str()), Some(Source::HumanReviewer));
    assert_eq!(Scale::parse("thumbs"), Some(Scale::Thumbs));
    assert_eq!(Outcome::parse("halted"), Some(Outcome::Halted));
    assert!(is_known_label("hallucination"));
    assert!(!is_known_label("nope"));
}

#[test]
fn the_rubric_rates_as_itself_for_the_turn() {
    let r = RuleRubric.evaluate(&turn("환불됐습니다.", &[("process_refund", "denied")], "halted"));
    assert_eq!(r.labels, vec!["hallucination", "wrong_fact"]);
    assert_eq!(r.score, 20);
    assert_eq!(
        r.dims,
        vec![
            ("factual".to_string(), 20),
            ("complete".to_string(), 100),
            ("grounded".to_string(), 100),
            ("policy".to_string(), 100)
        ]
    );
    assert_eq!(r.turn_id, "t1");
    assert_eq!(r.source, "auto_rubric");
    assert_eq!(r.scale, "likert5");
    assert_eq!(r.rater_id, "system:judge");
    assert_eq!(r.rubric_id, "rule-rubric");
    assert_eq!(r.rubric_version, "1");
    assert_eq!(Source::parse(&r.source), Some(Source::AutoRubric));
    assert_eq!(Scale::parse(&r.scale), Some(Scale::Likert5));
}

#[test]
fn an_empty_completed_reply_is_incomplete_and_dimensions_stop_at_zero() {
    let r = RuleRubric.evaluate(&turn("", &[], "completed"));
    assert_eq!(r.labels, vec!["incomplete"]);
    assert_eq!(r.score, 50);
}

fn stat_filter(source: &str, scale: &str, since: Option<i64>) -> ai_bridge::eval::StatFilter {
    ai_bridge::eval::StatFilter { source: source.into(), scale: scale.into(), since }
}

#[test]
fn turn_statistics_keep_rating_filters_in_the_join() {
    let q = stats_queries(ai_bridge::eval::GroupBy::Agent, &stat_filter("user", "thumbs", Some(0)));
    assert_eq!(q.len(), 1);
    let (sql, binds) = &q[0];
    assert!(sql.starts_with("SELECT t.agent_id AS k, COUNT(DISTINCT t.turn_id) AS turns"));
    assert!(sql.ends_with(
        "LEFT JOIN eval_rating r ON r.turn_id = t.turn_id AND r.source = ? AND r.scale = ? WHERE 1=1 AND t.ts >= ? GROUP BY k ORDER BY ratings DESC, turns DESC"
    ));
    assert_eq!(binds, &vec!["user".to_string(), "thumbs".to_string(), "1970-01-01T00:00:00Z".to_string()]);
    let q = stats_queries(ai_bridge::eval::GroupBy::Channel, &stat_filter("", "", None));
    assert!(q[0].0.ends_with("ON r.turn_id = t.turn_id WHERE 1=1 GROUP BY k ORDER BY ratings DESC, turns DESC"));
    assert!(q[0].1.is_empty());
}

#[test]
fn rating_statistics_filter_the_ratings() {
    let q = stats_queries(ai_bridge::eval::GroupBy::Scale, &stat_filter("", "likert5", None));
    assert!(q[0].0.starts_with("SELECT scale AS k, 0 AS turns, COUNT(*) AS ratings"));
    assert!(q[0].0.ends_with("FROM eval_rating WHERE 1=1 AND scale = ? GROUP BY k ORDER BY ratings DESC"));
    assert_eq!(q[0].1, vec!["likert5".to_string()]);
}

#[test]
fn label_statistics_count_each_known_label() {
    let q = stats_queries(ai_bridge::eval::GroupBy::Label, &stat_filter("auto_rubric", "ignored", None));
    assert_eq!(q.len(), 10);
    assert_eq!(
        q[0].0,
        "SELECT COUNT(*) AS ratings, COALESCE(AVG(score),0) AS avg_score FROM eval_rating WHERE labels_json LIKE ? AND source = ?"
    );
    assert_eq!(q[0].1, vec!["%\"wrong_fact\"%".to_string(), "auto_rubric".to_string()]);
    assert_eq!(q[9].1[0], "%\"other\"%");
}

#[test]
fn labels_are_listed_most_rated_first_without_the_unrated() {
    assert_eq!(label_order(&vec![0, 3, 5, 3, 0, 1]), vec![2, 1, 3, 5]);
    assert!(label_order(&vec![0, 0]).is_empty());
    let names = label_names();
    assert_eq!(names.len(), 10);
    assert_eq!((names[0].as_str(), names[7].as_str()), ("wrong_fact", "hallucination"));
}

fn observed(reply: &str) -> Observed {
    Observed { reply: reply.into(), trail: vec![], outcome: "completed".into(), cost_micros: 0, exec_error: String::new() }
}

#[test]
fn a_report_keeps_every_case_in_order() {
    let mut r = Report::new("run_1".into(), "smoke".into());
    r.add("c1", CheckResult { pass: true, failures: vec![] }, observed("one"));
    r.add("c2", CheckResult { pass: false, failures: vec!["outcome".into()] }, observed("two"));
    assert_eq!((r.pass, r.fail), (1, 1));
    assert_eq!(r.results.len(), 2);
    assert_eq!((r.results[0].case_id.as_str(), r.results[0].reply.as_str()), ("c1", "one"));
    assert!(r.results[0].pass && !r.results[1].pass);
    assert_eq!(r.results[1].failures, vec!["outcome".to_string()]);
}
