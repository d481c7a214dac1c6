//! JSON Schema (Draft 2020-12, formats asserted) for tool inputs and outputs,
//! checked by the `jsonschema` crate.
use vstd::prelude::*;
use crate::json::{Json, JsonV, Number};
use crate::text::{concat, owned};

verus! {

#[verifier::external_type_specification]
#[verifier::external_body]
pub struct ExSerdeValue(serde_json::Value);

/// What `jsonschema`'s builder reports for this schema document: `None` when
/// it compiles, else the error's text.
pub uninterp spec fn schema_build_error(doc: JsonV) -> Option<Seq<char>>;

/// What `jsonschema` reports when checking `value` against `doc` (after the
/// document compiled): `None` when it holds, else the first error's text.
pub uninterp spec fn schema_violation(value: JsonV, doc: JsonV) -> Option<Seq<char>>;

/// Converts a value into `serde_json`'s form, node for node (numbers through
/// their text).
#[verifier::external_body]
fn to_serde(v: &Json) -> serde_json::Value {
    match v {
        Json::Null => serde_json::Value::Null,
        Json::Bool(b) => serde_json::Value::Bool(*b),
        Json::Num(Number::Int(i)) => serde_json::from_str(&i.to_string()).unwrap_or_default(),
        Json::Num(Number::Float(_, t)) => serde_json::from_str(t).unwrap_or_default(),
        Json::Str(s) => serde_json::Value::String(s.clone()),
        Json::Array(a) => serde_json::Value::Array(a.iter().map(to_serde).collect()),
        Json::Object(es) => serde_json::Value::Object(es.iter().map(|(k, x)| (k.clone(), to_serde(x))).collect()),
    }
}

/// `jsonschema::options().with_draft(Draft202012).should_validate_formats(true).build(doc)`:
/// `None` when the document compiles, else the error's text.
#[verifier::external_body]
fn build(doc: &Json) -> (r: Option<String>)
    ensures
        match r {
            Some(m) => schema_build_error(doc@) == Some(m@),
            None => schema_build_error(doc@) == None::<Seq<char>>,
        },
{
    let d = to_serde(doc);
    let built = jsonschema::options().with_draft(jsonschema::Draft::Draft202012).should_validate_formats(true).build(&d);
    match built {
        Ok(_) => None,
        Err(e) => Some(e.to_string()),
    }
}

/// `Validator::validate` of `value` against the compiled `doc`: `None` when
/// the value satisfies it, else the first error's text.
#[verifier::external_body]
fn check(value: &Json, doc: &Json) -> (r: Option<String>)
    requires
        schema_build_error(doc@) is None,
    ensures
        match r {
            Some(m) => schema_violation(value@, doc@) == Some(m@),
            None => schema_violation(value@, doc@) == None::<Seq<char>>,
        },
{
    let d = to_serde(doc);
    let v = to_serde(value);
    let built = jsonschema::options().with_draft(jsonschema::Draft::Draft202012).should_validate_formats(true).build(&d);
    match built {
        Ok(validator) => validator.validate(&v).err().map(|e| e.to_string()),
        Err(e) => Some(e.to_string()),
    }
}

/// Why a schema or a value was refused.
#[derive(PartialEq, Eq, Debug)]
pub enum SchemaError {
    /// No schema document.
    Required,
    /// The document does not compile.
    Invalid(String),
    /// The value does not satisfy the schema.
    Violated(String),
}

impl SchemaError {
    /// How a failed [`validate`] reads.
    pub fn validation_text(&self) -> (r: String)
        ensures
            r@ == match *self {
                SchemaError::Violated(m) => "JSON Schema validation failed: "@ + m@,
                _ => "compile schema"@,
            },
    {
        match self {
            SchemaError::Violated(m) => concat("JSON Schema validation failed: ", m.as_str()),
            _ => owned("compile schema"),
        }
    }

    /// How a failed [`compile`] reads.
    pub fn compile_text(&self) -> (r: String)
        ensures
            r@ == match *self {
                SchemaError::Invalid(m) => "invalid JSON Schema: "@ + m@,
                _ => "schema is required"@,
            },
    {
        match self {
            SchemaError::Invalid(m) => concat("invalid JSON Schema: ", m.as_str()),
            _ => owned("schema is required"),
        }
    }
}

/// Checks that a schema document is present and compiles.
pub fn compile(doc: &Json) -> (r: Result<(), SchemaError>)
    ensures
        match r {
            Ok(()) => doc@ != JsonV::Null && schema_build_error(doc@) == None::<Seq<char>>,
            Err(SchemaError::Required) => doc@ == JsonV::Null,
            Err(SchemaError::Invalid(m)) => doc@ != JsonV::Null && schema_build_error(doc@) == Some(m@),
            Err(SchemaError::Violated(_)) => false,
        },
{
    if let Json::Null = doc {
        return Err(SchemaError::Required);
    }
    match build(doc) {
        Some(m) => Err(SchemaError::Invalid(m)),
        None => Ok(()),
    }
}

/// Checks `value` against the schema `doc`.
pub fn validate(value: &Json, doc: &Json) -> (r: Result<(), SchemaError>)
    ensures
        match r {
            Ok(()) => doc@ != JsonV::Null && schema_build_error(doc@) == None::<Seq<char>>
                && schema_violation(value@, doc@) == None::<Seq<char>>,
            Err(SchemaError::Required) => doc@ == JsonV::Null,
            Err(SchemaError::Invalid(m)) => doc@ != JsonV::Null && schema_build_error(doc@) == Some(m@),
            Err(SchemaError::Violated(m)) => doc@ != JsonV::Null && schema_build_error(doc@) == None::<Seq<char>>
                && schema_violation(value@, doc@) == Some(m@),
        },
{
    match compile(doc) {
        Err(e) => Err(e),
        Ok(()) => match check(value, doc) {
            Some(m) => Err(SchemaError::Violated(m)),
            None => Ok(()),
        },
    }
}

} // verus!
