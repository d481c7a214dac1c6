//! What the MCP server puts around a gateway call: the observability it
//! reads from a request's `_meta`, the hints and description of a tool, and
//! the payloads of a result, a dry run and an error.
use vstd::prelude::*;
use crate::canon::{sort_entries, sorted_entries};
use crate::gateway::{CallResult, Usage};
use crate::json::{Decimal, Json, JsonV, Number, NumberV, get, jv, jv_entries, lemma_jv_entries, obj_get, pow10,
    pow10_exec};
use crate::registry::{Access, RiskLevel, Spec, risk_label, sensitivity_text};
use crate::text::{concat, concat3, owned, str_eq};
use crate::gateway::admission::{join, join_strings};
use crate::registry::strs;

verus! {

pub open spec fn meta_prompt() -> Seq<char> {
    "ai.bridge/prompt"@
}

pub open spec fn meta_input_tokens() -> Seq<char> {
    "ai.bridge/input_tokens"@
}

pub open spec fn meta_output_tokens() -> Seq<char> {
    "ai.bridge/output_tokens"@
}

pub open spec fn meta_cost_micros() -> Seq<char> {
    "ai.bridge/cost_micros"@
}

/// A number read as a whole number, as the server reads counts: an integer
/// as it is (one past `i64` as the largest `i64`), a fraction truncated
/// toward zero; anything else 0.
pub open spec fn count_of(v: Option<JsonV>) -> i64 {
    match v {
        Some(JsonV::Num(NumberV::Int(i))) => if i > i64::MAX {
            i64::MAX
        } else if i < i64::MIN {
            i64::MIN
        } else {
            i as i64
        },
        Some(JsonV::Num(NumberV::Float(d, _))) => if d.scale > 18 {
            0
        } else {
            trunc_div(d.digits as int, pow10(d.scale as nat)) as i64
        },
        _ => 0,
    }
}

/// `a / b` truncated toward zero, for `b > 0`.
pub open spec fn trunc_div(a: int, b: int) -> int {
    if a >= 0 {
        a / b
    } else {
        -((-a) / b)
    }
}

fn count(meta: &Vec<(String, Json)>, key: &str) -> (r: i64)
    ensures
        r == count_of(obj_get(jv_entries(meta@), key@)),
{
    match get(meta, key) {
        Some(Json::Num(Number::Int(i))) => {
            if *i > i64::MAX as i128 {
                i64::MAX
            } else if *i < i64::MIN as i128 {
                i64::MIN
            } else {
                *i as i64
            }
        },
        Some(Json::Num(Number::Float(d, _))) => {
            if d.scale > 18 {
                0
            } else {
                let p = pow10_exec(d.scale as u32);
                let a = d.digits as i128;
                let q: i128 = if a >= 0 {
                    a / p
                } else {
                    -((-a) / p)
                };
                assert(-9_223_372_036_854_775_808 <= q <= 9_223_372_036_854_775_807) by (nonlinear_arith)
                    requires
                        a >= 0 ==> q == (a as int) / (p as int),
                        a < 0 ==> q == -((-(a as int)) / (p as int)),
                        -9_223_372_036_854_775_808 <= a <= 9_223_372_036_854_775_807,
                        p >= 1,
                ;
                q as i64
            }
        },
        _ => 0,
    }
}

pub open spec fn prompt_of(v: Option<JsonV>) -> Seq<char> {
    match v {
        Some(JsonV::Str(s)) => s,
        _ => Seq::empty(),
    }
}

/// The prompt and the usage a request's `_meta` reports. Missing or
/// malformed entries are read as empty or 0: observability never refuses a
/// call.
pub fn observability(meta: &Option<Vec<(String, Json)>>) -> (r: (String, Usage))
    ensures
        match meta {
            None => r.0@.len() == 0 && r.1 == (Usage { input_tokens: 0, output_tokens: 0, cost_micros: 0 }),
            Some(m) => {
                let es = jv_entries(m@);
                &&& r.0@ == prompt_of(obj_get(es, meta_prompt()))
                &&& r.1.input_tokens == count_of(obj_get(es, meta_input_tokens()))
                &&& r.1.output_tokens == count_of(obj_get(es, meta_output_tokens()))
                &&& r.1.cost_micros == count_of(obj_get(es, meta_cost_micros()))
            },
        },
{
    match meta {
        None => (String::new(), Usage { input_tokens: 0, output_tokens: 0, cost_micros: 0 }),
        Some(m) => {
            let prompt = match get(m, "ai.bridge/prompt") {
                Some(Json::Str(s)) => s.clone(),
                _ => String::new(),
            };
            let usage = Usage {
                input_tokens: count(m, "ai.bridge/input_tokens"),
                output_tokens: count(m, "ai.bridge/output_tokens"),
                cost_micros: count(m, "ai.bridge/cost_micros"),
            };
            (prompt, usage)
        },
    }
}

/// The MCP hints of a tool.
#[derive(Debug)]
pub struct ToolHints {
    pub title: String,
    pub read_only: bool,
    /// Hard to undo: from L3 up (an L2 draft is not).
    pub destructive: bool,
    pub idempotent: bool,
    /// Legacy systems are a closed world.
    pub open_world: bool,
}

pub fn hints(spec: &Spec) -> (r: ToolHints)
    ensures
        r.title@ == spec.name@,
        r.read_only == (spec.access == Access::Read),
        r.destructive == (spec.risk_level.rank_spec() >= RiskLevel::L3.rank_spec()),
        r.idempotent == (spec.access == Access::Read),
        !r.open_world,
{
    let read_only = spec.access == Access::Read;
    ToolHints {
        title: spec.name.clone(),
        read_only,
        destructive: spec.risk_level.rank() >= RiskLevel::L3.rank(),
        idempotent: read_only,
        open_world: false,
    }
}

pub open spec fn description_tags(spec: Spec) -> Seq<Seq<char>> {
    seq![
        "시스템="@ + spec.system@,
        "접근="@ + (if spec.access == Access::Read { "read"@ } else { "write"@ }),
        "위험="@ + risk_label(spec.risk_level),
        "민감도="@ + sensitivity_text(spec.sensitivity),
    ] + (if spec.risk_level.rank_spec() >= RiskLevel::L4.rank_spec() {
        seq!["기본차단"@]
    } else {
        Seq::empty()
    }) + (if spec.risk_level.rank_spec() >= RiskLevel::L3.rank_spec() {
        seq!["승인필요"@]
    } else {
        Seq::empty()
    })
}

/// The description with its metadata appended, for people to read.
pub fn annotated_description(spec: &Spec) -> (r: String)
    ensures
        r@ == spec.description@ + " ["@ + join(description_tags(*spec), ", "@) + "]"@,
{
    let mut tags: Vec<String> = Vec::new();
    tags.push(concat("시스템=", spec.system.as_str()));
    tags.push(concat("접근=", spec.access.as_str()));
    tags.push(concat("위험=", spec.risk_level.label()));
    tags.push(concat("민감도=", spec.sensitivity.as_str()));
    if spec.risk_level.rank() >= RiskLevel::L4.rank() {
        tags.push(owned("기본차단"));
    }
    if spec.risk_level.rank() >= RiskLevel::L3.rank() {
        tags.push(owned("승인필요"));
    }
    assert(strs(tags@) =~= description_tags(*spec));
    let joined = join_strings(&tags, ", ");
    let head = concat3(spec.description.as_str(), " [", joined.as_str());
    concat(head.as_str(), "]")
}

/// A result's payload: its data with `_masked`, `_narrowed` and
/// `_request_id` set, as a sorted map holds them.
pub fn annotate(res: &CallResult) -> (r: Vec<(String, Json)>)
    ensures
        jv_entries(r@) == sort_entries(
            jv_entries(res.data@) + seq![
                ("_masked"@, JsonV::Bool(res.masked)),
                ("_narrowed"@, JsonV::Bool(res.narrowed)),
                ("_request_id"@, JsonV::Str(res.request_id@)),
            ],
        ),
{
    let mut all = crate::auth::copy_entries(&res.data);
    let ghost d = jv_entries(all@);
    proof {
        lemma_jv_entries(all@);
    }
    all.push((owned("_masked"), Json::Bool(res.masked)));
    all.push((owned("_narrowed"), Json::Bool(res.narrowed)));
    all.push((owned("_request_id"), Json::Str(res.request_id.clone())));
    proof {
        lemma_jv_entries(all@);
        assert(jv_entries(all@) =~= d + seq![
            ("_masked"@, JsonV::Bool(res.masked)),
            ("_narrowed"@, JsonV::Bool(res.narrowed)),
            ("_request_id"@, JsonV::Str(res.request_id@)),
        ]);
    }
    sorted_entries(&all)
}

/// A dry run's payload.
pub fn dry_run_payload(res: &CallResult) -> (r: Vec<(String, Json)>)
    ensures
        jv_entries(r@) == seq![
            ("approval_id"@, JsonV::Str(res.approval_id@)),
            ("approval_status"@, JsonV::Str(res.approval_status@)),
            ("dry_run"@, JsonV::Bool(true)),
            ("request_id"@, JsonV::Str(res.request_id@)),
            ("summary"@, JsonV::Str(res.summary@)),
        ],
{
    let mut v: Vec<(String, Json)> = Vec::new();
    v.push((owned("approval_id"), Json::Str(res.approval_id.clone())));
    v.push((owned("approval_status"), Json::Str(res.approval_status.clone())));
    v.push((owned("dry_run"), Json::Bool(true)));
    v.push((owned("request_id"), Json::Str(res.request_id.clone())));
    v.push((owned("summary"), Json::Str(res.summary.clone())));
    proof {
        lemma_jv_entries(v@);
        assert(jv_entries(v@) =~= seq![
            ("approval_id"@, JsonV::Str(res.approval_id@)),
            ("approval_status"@, JsonV::Str(res.approval_status@)),
            ("dry_run"@, JsonV::Bool(true)),
            ("request_id"@, JsonV::Str(res.request_id@)),
            ("summary"@, JsonV::Str(res.summary@)),
        ]);
    }
    v
}

pub open spec fn error_text_spec(code: Seq<char>, message: Seq<char>, fallback: Seq<char>) -> Seq<char> {
    if fallback.len() == 0 {
        "["@ + code + "] "@ + message
    } else {
        "["@ + code + "] "@ + message + "\n대안: "@ + fallback
    }
}

/// A gateway refusal as a tool result (not a protocol error, so that the
/// model reads it and can correct itself): its text, and its structured
/// content (`error_code`, `error_message`, and `fallback` where there is
/// one).
pub fn error_payload(code: &str, message: &str, fallback: &str) -> (r: (String, Vec<(String, Json)>))
    ensures
        r.0@ == error_text_spec(code@, message@, fallback@),
        jv_entries(r.1@) == seq![("error_code"@, JsonV::Str(code@)), ("error_message"@, JsonV::Str(message@))]
            + (if fallback@.len() > 0 {
            seq![("fallback"@, JsonV::Str(fallback@))]
        } else {
            Seq::empty()
        }),
{
    let mut v: Vec<(String, Json)> = Vec::new();
    v.push((owned("error_code"), Json::Str(owned(code))));
    v.push((owned("error_message"), Json::Str(owned(message))));
    let none = String::new();
    let has = !str_eq(fallback, none.as_str());
    proof {
        if fallback@.len() == 0 {
            assert(fallback@ =~= none@);
        }
    }
    if has {
        v.push((owned("fallback"), Json::Str(owned(fallback))));
    }
    proof {
        lemma_jv_entries(v@);
        assert(jv_entries(v@) =~= seq![("error_code"@, JsonV::Str(code@)), ("error_message"@, JsonV::Str(message@))]
            + (if fallback@.len() > 0 {
            seq![("fallback"@, JsonV::Str(fallback@))]
        } else {
            Seq::empty()
        }));
    }
    let head = concat3("[", code, "] ");
    let t = concat(head.as_str(), message);
    let text = if has {
        concat3(t.as_str(), "\n대안: ", fallback)
    } else {
        t
    };
    (text, v)
}

} // verus!
