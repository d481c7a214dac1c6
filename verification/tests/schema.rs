use ai_bridge::json::{Json, Number};
use ai_bridge::schema::{compile, validate};

fn s(t: &str) -> Json {
    Json::Str(t.into())
}

fn invoice_schema() -> Json {
    Json::Object(vec![
        ("type".to_string(), s("object")),
        (
            "properties".to_string(),
            Json::Object(vec![("invoice_id".to_string(), Json::Object(vec![("type".to_string(), s("string"))]))]),
        ),
        ("required".to_string(), Json::Array(vec![s("invoice_id")])),
        ("additionalProperties".to_string(), Json::Bool(false)),
    ])
}

#[test]
fn accepts_valid_input() {
    let v = Json::Object(vec![("invoice_id".to_string(), s("INV-1"))]);
    assert!(validate(&v, &invoice_schema()).is_ok());
}

#[test]
fn rejects_missing_required_field() {
    assert!(validate(&Json::Object(vec![]), &invoice_schema()).is_err());
}

#[test]
fn rejects_unknown_field() {
    let v = Json::Object(vec![("invoice_id".to_string(), s("INV-1")), ("sql".to_string(), s("DROP TABLE"))]);
    assert!(validate(&v, &invoice_schema()).is_err());
}

#[test]
fn rejects_wrong_type() {
    let v = Json::Object(vec![("invoice_id".to_string(), Json::Num(Number::Int(42)))]);
    assert!(validate(&v, &invoice_schema()).is_err());
}

#[test]
fn nil_schema_is_rejected() {
    assert!(compile(&Json::Null).is_err());
    assert!(compile(&invoice_schema()).is_ok());
}

#[test]
fn format_is_asserted_not_annotated() {
    let sch = Json::Object(vec![("type".to_string(), s("string")), ("format".to_string(), s("date-time"))]);
    assert!(validate(&s("2026-07-10T09:00:00Z"), &sch).is_ok());
    assert!(validate(&s("not-a-date"), &sch).is_err());
}
