use ai_bridge::gateway::obligations::apply;
use ai_bridge::json::{Json, Number};
use ai_bridge::policy::Obligations;

fn o(kv: Vec<(&str, Json)>) -> Json {
    Json::Object(kv.into_iter().map(|(k, v)| (k.to_string(), v)).collect())
}

fn entries(j: Json) -> Vec<(String, Json)> {
    match j {
        Json::Object(es) => es,
        _ => panic!("not an object"),
    }
}

fn s(t: &str) -> Json {
    Json::Str(t.into())
}

fn n(i: i128) -> Json {
    Json::Num(Number::Int(i))
}

fn get<'a>(j: &'a Json, k: &str) -> Option<&'a Json> {
    match j {
        Json::Object(es) => es.iter().find(|(name, _)| name == k).map(|(_, v)| v),
        _ => None,
    }
}

fn arr(j: &Json) -> &Vec<Json> {
    match j {
        Json::Array(v) => v,
        _ => panic!("not an array"),
    }
}

fn ob(redact: &[&str], max_rows: i64) -> Obligations {
    Obligations { mask_fields: vec![], redact_fields: redact.iter().map(|x| x.to_string()).collect(), max_rows }
}

#[test]
fn zero_obligations_change_nothing() {
    let out = entries(o(vec![("a", n(1))]));
    let (shaped, narrowed) = apply(&out, &ob(&[], 0));
    assert_eq!(Json::Object(shaped).to_text(), Json::Object(out).to_text());
    assert!(!narrowed);
}

#[test]
fn redacted_fields_are_removed_not_masked() {
    let out = entries(o(vec![("contracts", Json::Array(vec![o(vec![("title", s("계약")), ("signed_at", s("2026-01-15"))])]))]));
    let (shaped, narrowed) = apply(&out, &ob(&["signed_at"], 0));
    assert!(narrowed);
    let shaped = Json::Object(shaped);
    let c = &arr(get(&shaped, "contracts").unwrap())[0];
    assert!(get(c, "signed_at").is_none());
    assert_eq!(get(c, "title").unwrap().to_text(), s("계약").to_text());
}

#[test]
fn redaction_is_case_insensitive_and_recursive() {
    let out = entries(o(vec![("nested", o(vec![("deep", o(vec![("RRN", s("900101-1234567"))]))]))]));
    let (shaped, _) = apply(&out, &ob(&["rrn"], 0));
    let shaped = Json::Object(shaped);
    let deep = get(get(&shaped, "nested").unwrap(), "deep").unwrap();
    assert!(get(deep, "RRN").is_none());
}

#[test]
fn max_rows_truncates_and_says_so() {
    let out = entries(o(vec![("contracts", Json::Array(vec![n(1), n(2), n(3), n(4), n(5)]))]));
    let (shaped, narrowed) = apply(&out, &ob(&[], 3));
    assert!(narrowed);
    let shaped = Json::Object(shaped);
    assert_eq!(arr(get(&shaped, "contracts").unwrap()).len(), 3);
    assert_eq!(get(&shaped, "truncated").unwrap().to_text(), "true");
    match get(&shaped, "truncated_reason").unwrap() {
        Json::Str(t) => assert!(t.contains("정책")),
        _ => panic!("reason is not a string"),
    }
}

#[test]
fn no_truncation_marker_when_under_the_limit() {
    let out = entries(o(vec![("contracts", Json::Array(vec![n(1), n(2)]))]));
    let (shaped, narrowed) = apply(&out, &ob(&[], 3));
    assert!(!narrowed);
    assert!(get(&Json::Object(shaped), "truncated").is_none());
}

#[test]
fn nested_arrays_are_not_truncated() {
    let out = entries(o(vec![("row", o(vec![("items", Json::Array(vec![n(1), n(2), n(3), n(4), n(5)]))]))]));
    let (shaped, _) = apply(&out, &ob(&[], 2));
    let shaped = Json::Object(shaped);
    assert_eq!(arr(get(get(&shaped, "row").unwrap(), "items").unwrap()).len(), 5);
}

#[test]
fn redaction_and_truncation_compose() {
    let row = |t: &str, d: &str| o(vec![("title", s(t)), ("signed_at", s(d))]);
    let out = entries(o(vec![(
        "contracts",
        Json::Array(vec![row("a", "2026-01-01"), row("b", "2026-02-01"), row("c", "2026-03-01")]),
    )]));
    let (shaped, narrowed) = apply(&out, &ob(&["signed_at"], 1));
    assert!(narrowed);
    let shaped = Json::Object(shaped);
    let rows = arr(get(&shaped, "contracts").unwrap());
    assert_eq!(rows.len(), 1);
    assert!(get(&rows[0], "signed_at").is_none());
}
