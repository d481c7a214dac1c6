use ai_bridge::json::{Json, Number};
use ai_bridge::pii::{mask_email, partial_mask, Masker};

fn obj(kv: Vec<(&str, Json)>) -> Json {
    Json::Object(kv.into_iter().map(|(k, v)| (k.to_string(), v)).collect())
}

fn s(t: &str) -> Json {
    Json::Str(t.into())
}

fn field<'a>(j: &'a Json, k: &str) -> &'a Json {
    match j {
        Json::Object(es) => &es.iter().find(|(n, _)| n == k).unwrap().1,
        _ => panic!("not an object"),
    }
}

fn text(j: &Json) -> String {
    j.to_text()
}

#[test]
fn masks_rrn_and_card_wholesale() {
    let m = Masker::new();
    let out = m.mask(&obj(vec![("note", s("주민번호 900101-1234567 입니다"))]), &vec![]);
    assert_eq!(text(field(&out, "note")), text(&s("주민번호 ******-******* 입니다")));
}

#[test]
fn phone_is_masked_before_account_pattern() {
    let m = Masker::new();
    let out = m.mask(&obj(vec![("note", s("010-1234-5678"))]), &vec![]);
    assert_eq!(text(field(&out, "note")), text(&s("010**********")));
}

#[test]
fn email_keeps_domain() {
    let m = Masker::new();
    let out = m.mask(&obj(vec![("note", s("hong@example.com"))]), &vec![]);
    assert_eq!(text(field(&out, "note")), text(&s("h***@example.com")));
}

#[test]
fn masks_by_field_name_even_when_pattern_does_not_match() {
    let m = Masker::new();
    let out = m.mask(&obj(vec![("password", s("hunter2xyz"))]), &vec![]);
    assert_eq!(text(field(&out, "password")), text(&s("hun*******")));
}

#[test]
fn extra_fields_widen_the_set() {
    let m = Masker::new();
    let out = m.mask(&obj(vec![("phone", s("unlisted-value"))]), &vec!["phone".to_string()]);
    assert_eq!(text(field(&out, "phone")), text(&s("unl***********")));
}

#[test]
fn field_name_match_does_not_recurse_into_subtree() {
    let m = Masker::new();
    let out = m.mask(&obj(vec![("account", obj(vec![("deep", s("x"))]))]), &vec![]);
    assert_eq!(text(field(&out, "account")), text(&s("***MASKED***")));
}

#[test]
fn recurses_into_arrays_and_nested_objects() {
    let m = Masker::new();
    let out = m.mask(&obj(vec![("rows", Json::Array(vec![obj(vec![("note", s("900101-1234567"))])]))]), &vec![]);
    match field(&out, "rows") {
        Json::Array(items) => assert_eq!(text(field(&items[0], "note")), text(&s("******-*******"))),
        _ => panic!("rows is not an array"),
    }
}

#[test]
fn input_is_not_mutated() {
    let m = Masker::new();
    let input = obj(vec![("note", s("900101-1234567"))]);
    let _ = m.mask(&input, &vec![]);
    assert_eq!(text(field(&input, "note")), text(&s("900101-1234567")));
}

#[test]
fn non_strings_pass_through() {
    let m = Masker::new();
    let out = m.mask(&obj(vec![("amount", Json::Num(Number::Int(1200000))), ("ok", Json::Bool(true))]), &vec![]);
    assert_eq!(text(field(&out, "amount")), "1200000");
    assert_eq!(text(field(&out, "ok")), "true");
}

#[test]
fn dates_are_not_mistaken_for_account_numbers() {
    let m = Masker::new();
    let out = m.mask(&obj(vec![("signed_at", s("2026-07-10"))]), &vec![]);
    assert_eq!(text(field(&out, "signed_at")), text(&s("2026-07-10")));
}

#[test]
fn partial_mask_keeps_a_short_prefix() {
    assert_eq!(partial_mask("hunter2xyz"), "hun*******");
    assert_eq!(mask_email("hong@example.com"), "h***@example.com");
}
