use ai_bridge::adapter::{array_prop, bool_prop, int_prop, num_prop, object, str_enum, str_prop, urlencode};
use ai_bridge::json::Json;

fn get<'a>(j: &'a Json, k: &str) -> Option<&'a Json> {
    match j {
        Json::Object(es) => es.iter().find(|(n, _)| n == k).map(|(_, v)| v),
        _ => None,
    }
}

#[test]
fn object_is_closed_by_default() {
    let s = object(&vec![("invoice_id".to_string(), str_prop("송장 번호"))], &vec!["invoice_id".to_string()]);
    assert_eq!(get(&s, "additionalProperties").unwrap().to_text(), "false");
    assert_eq!(get(&s, "required").unwrap().to_text(), "[\"invoice_id\"]");
}

#[test]
fn object_omits_required_when_empty() {
    let s = object(&vec![("q".to_string(), str_prop("검색어"))], &vec![]);
    assert!(get(&s, "required").is_none());
}

#[test]
fn property_helpers_write_type_and_description() {
    assert_eq!(int_prop("n").to_text(), "{\"description\":\"n\",\"type\":\"integer\"}");
    assert_eq!(bool_prop("b").to_text(), "{\"description\":\"b\",\"type\":\"boolean\"}");
    assert_eq!(num_prop("x").to_text(), "{\"description\":\"x\",\"type\":\"number\"}");
    let e = str_enum("s", &vec!["a".to_string(), "b".to_string()]);
    assert_eq!(get(&e, "enum").unwrap().to_text(), "[\"a\",\"b\"]");
    let a = array_prop("rows", str_prop("r"));
    assert_eq!(get(&a, "type").unwrap().to_text(), "\"array\"");
}

#[test]
fn urlencode_keeps_unreserved_and_escapes_the_rest() {
    assert_eq!(urlencode("a-b_c.d~e"), "a-b_c.d~e");
    assert_eq!(urlencode("한"), "%ED%95%9C");
    assert_eq!(urlencode("a b"), "a%20b");
}
