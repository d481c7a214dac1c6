//! After a call: the output checked against the tool's contract, narrowed by
//! the obligations, masked, and quarantined where it carries instructions.
use vstd::prelude::*;
use crate::gateway::{Error, ErrorV};
use crate::gateway::admission::{join, join_strings};
use crate::gateway::obligations::{apply, narrowed_spec, shaped_value};
use crate::injection::{Detector, name_fires};
use crate::json::{Json, JsonV, json_text, jv, jv_entries, jv_list, lemma_jv_entries, lemma_jv_list, obj_get};
use crate::pii::{Masker, mask_json};
use crate::policy::{Obligations, ObligationsV, obligations_zero};
use crate::registry::{Access, RiskLevel, Sensitivity, Spec, risk_label, strs};
use crate::canon::{canon_entries, canonical_object, sort_entries};
use crate::text::{debug_quote, debug_text, int_to_string, nat_digits};
use crate::schema::{SchemaError, schema_build_error, schema_violation, validate};
use crate::text::{concat, concat3, owned, unicode_lower};
use crate::gateway::{Call, CallResult};
use crate::gateway::admission::Audit;
use crate::audit::Entry;
use crate::auth::{Identity, copy_entries};
use crate::injection::Verdict;

verus! {

/// An output ready to hand back.
pub struct Shaped {
    pub data: Vec<(String, Json)>,
    pub masked: bool,
    /// Obligations removed fields or cut rows.
    pub narrowed: bool,
    /// The injection rules that fired on the raw output, joined by `, `.
    pub injection: Option<String>,
}

pub open spec fn entries_of(v: JsonV) -> Seq<(Seq<char>, JsonV)> {
    match v {
        JsonV::Object(es) => es,
        _ => Seq::empty(),
    }
}

/// The entries after obligations, key by key.
pub open spec fn shaped_ok(raw: Seq<(Seq<char>, JsonV)>, o: ObligationsV, sh: Seq<(Seq<char>, JsonV)>) -> bool {
    &&& obligations_zero(o) ==> sh == raw
    &&& !obligations_zero(o) ==> forall|k: Seq<char>| #[trigger] obj_get(sh, k) == shaped_value(raw, o, k)
}

pub open spec fn quarantine_reason() -> Seq<char> {
    "레거시 출력에서 프롬프트 인젝션 의심 콘텐츠가 탐지되어 격리되었습니다."@
}

/// What stands in place of an output that carries instructions.
pub open spec fn quarantine_spec(patterns: Seq<Seq<char>>, request_id: Seq<char>) -> Seq<(Seq<char>, JsonV)> {
    seq![
        ("patterns"@, JsonV::Array(Seq::new(patterns.len(), |i: int| JsonV::Str(patterns[i])))),
        ("quarantined"@, JsonV::Bool(true)),
        ("reason"@, JsonV::Str(quarantine_reason())),
        ("request_id"@, JsonV::Str(request_id)),
    ]
}

pub open spec fn contract_text(e: SchemaError) -> Seq<char> {
    match e {
        SchemaError::Violated(m) => "JSON Schema validation failed: "@ + m@,
        _ => "compile schema"@,
    }
}

fn quarantine(patterns: &Vec<String>, request_id: &str) -> (r: Vec<(String, Json)>)
    ensures
        jv_entries(r@) == quarantine_spec(strs(patterns@), request_id@),
{
    let mut items: Vec<Json> = Vec::new();
    let mut i: usize = 0;
    while i < patterns.len()
        invariant
            i <= patterns@.len(),
            items@.len() == i,
            forall|j: int| 0 <= j < i ==> (#[trigger] items@[j])@ == JsonV::Str(patterns@[j]@),
        decreases patterns.len() - i,
    {
        items.push(Json::Str(patterns[i].clone()));
        i = i + 1;
    }
    proof {
        lemma_jv_list(items@);
        assert(jv_list(items@) =~= Seq::new(strs(patterns@).len(), |j: int| JsonV::Str(strs(patterns@)[j])));
    }
    let mut v: Vec<(String, Json)> = Vec::new();
    v.push((owned("patterns"), Json::Array(items)));
    v.push((owned("quarantined"), Json::Bool(true)));
    v.push((owned("reason"), Json::Str(owned("레거시 출력에서 프롬프트 인젝션 의심 콘텐츠가 탐지되어 격리되었습니다."))));
    v.push((owned("request_id"), Json::Str(owned(request_id))));
    proof {
        lemma_jv_entries(v@);
        assert(jv_entries(v@) =~= quarantine_spec(strs(patterns@), request_id@));
    }
    v
}

fn both(a: &Vec<String>, b: &Vec<String>) -> (r: Vec<String>)
    ensures
        strs(r@) == strs(a@) + strs(b@),
{
    let mut out = crate::registry::copy_strings(a);
    let mut i: usize = 0;
    while i < b.len()
        invariant
            i <= b@.len(),
            strs(out@) == strs(a@) + strs(b@).take(i as int),
        decreases b.len() - i,
    {
        let ghost before = out@;
        out.push(b[i].clone());
        assert(strs(out@) =~= strs(before).push(b@[i as int]@));
        assert(strs(b@).take(i + 1) =~= strs(b@).take(i as int).push(b@[i as int]@));
        i = i + 1;
    }
    assert(strs(b@).take(b@.len() as int) =~= strs(b@));
    out
}

/// Shapes a legacy system's output. A tool that declares an output schema
/// refuses an output that breaks it (`invalid_output`). Otherwise the
/// output's object goes through the obligations, then masking (the tool's
/// mask fields and the obligations' together), and it counts as masked when
/// the tool's data is confidential or above or some mask field is named.
/// The raw output (before masking, so that masking cannot hide a signal) is
/// scanned for injected instructions; where some are found, the output is
/// replaced by a quarantine notice and counts as masked. Detection never
/// refuses the call.
pub fn shape_output(
    raw: &Json,
    spec: &Spec,
    obl: &Obligations,
    masker: &Masker,
    detector: &Detector,
    request_id: &str,
) -> (r: Result<Shaped, Error>)
    requires
        masker.wf(),
        detector.wf(),
    ensures
        match r {
            Err(e) => spec.output_schema@ != JsonV::Null && exists|se: SchemaError|
                {
                    &&& (match se {
                        SchemaError::Required => false,
                        SchemaError::Invalid(m) => schema_build_error(spec.output_schema@) == Some(m@),
                        SchemaError::Violated(m) => schema_build_error(spec.output_schema@) is None
                            && schema_violation(raw@, spec.output_schema@) == Some(m@),
                    })
                    &&& e@ == (ErrorV {
                        code: "invalid_output"@,
                        message: "레거시 응답이 도구 계약을 만족하지 않습니다: "@ + contract_text(se),
                        fallback: spec.fallback@,
                    })
                },
            Ok(s) => {
                &&& spec.output_schema@ != JsonV::Null ==> schema_build_error(spec.output_schema@) is None
                    && schema_violation(raw@, spec.output_schema@) is None
                &&& s.narrowed == narrowed_spec(entries_of(raw@), obl@)
                &&& exists|sh: Seq<(Seq<char>, JsonV)>| {
                    &&& shaped_ok(entries_of(raw@), obl@, sh)
                    &&& json_text(raw@).len() > 0 ==> {
                        let names = masker.names() + (strs(spec.mask_fields@) + obl@.mask_fields).map_values(
                            |f: Seq<char>| unicode_lower(f),
                        );
                        let fired = exists|y: Seq<char>| #[trigger] name_fires(y, json_text(raw@));
                        &&& !fired ==> jv_entries(s.data@) == entries_of(
                            mask_json(JsonV::Object(sh), names, masker.scrubs()),
                        ) && s.masked == (spec.sensitivity.rank_spec() >= Sensitivity::Confidential.rank_spec()
                            || spec.mask_fields@.len() + obl.mask_fields@.len() > 0) && s.injection is None
                        &&& fired ==> s.masked && (s.injection matches Some(t) && exists|ps: Seq<Seq<char>>|
                            crate::injection::strictly_sorted(ps) && (forall|y: Seq<char>| #[trigger] ps.contains(y)
                            <==> name_fires(y, json_text(raw@))) && t@ == join(ps, ", "@) && jv_entries(s.data@)
                            == quarantine_spec(ps, request_id@))
                    }
                }
            },
        },
{
    if !(match &spec.output_schema {
        Json::Null => true,
        _ => false,
    }) {
        match validate(raw, &spec.output_schema) {
            Ok(()) => {},
            Err(e) => {
                let t = e.validation_text();
                let m = concat("레거시 응답이 도구 계약을 만족하지 않습니다: ", t.as_str());
                let err = Error::new("invalid_output", m.as_str(), spec.fallback.as_str());
                proof {
                    assert(spec.output_schema@ != JsonV::Null);
                    assert(t@ == contract_text(e));
                    assert(err@ == (ErrorV {
                        code: "invalid_output"@,
                        message: "레거시 응답이 도구 계약을 만족하지 않습니다: "@ + contract_text(e),
                        fallback: spec.fallback@,
                    }));
                    assert(match e {
                        SchemaError::Required => false,
                        SchemaError::Invalid(m) => schema_build_error(spec.output_schema@) == Some(m@),
                        SchemaError::Violated(m) => schema_build_error(spec.output_schema@) is None
                            && schema_violation(raw@, spec.output_schema@) == Some(m@),
                    });
                }
                return Err(err);
            },
        }
    }
    let empty: Vec<(String, Json)> = Vec::new();
    let raw_map: &Vec<(String, Json)> = match raw {
        Json::Object(es) => es,
        _ => &empty,
    };
    proof {
        lemma_jv_entries(empty@);
        assert(jv_entries(raw_map@) == entries_of(raw@));
    }
    let (shaped, narrowed) = apply(raw_map, obl);
    let ghost sh = jv_entries(shaped@);
    assert(shaped_ok(entries_of(raw@), obl@, sh));
    let names = both(&spec.mask_fields, &obl.mask_fields);
    let ghost all_names = masker.names() + (strs(spec.mask_fields@) + obl@.mask_fields).map_values(
        |f: Seq<char>| unicode_lower(f),
    );
    let masked_value = masker.mask(&Json::Object(shaped), &names);
    assert(masked_value@ == mask_json(JsonV::Object(sh), all_names, masker.scrubs()));
    let is_masked = spec.sensitivity.rank() >= Sensitivity::Confidential.rank() || names.len() > 0;
    assert(strs(names@).len() == names@.len());
    let raw_text = raw.to_text();
    let verdict = detector.scan(raw_text.as_str());
    let ghost fired = exists|y: Seq<char>| #[trigger] name_fires(y, json_text(raw@));
    if verdict.suspicious {
        let data = quarantine(&verdict.patterns, request_id);
        let joined = join_strings(&verdict.patterns, ", ");
        proof {
            if json_text(raw@).len() > 0 {
                let ps = strs(verdict.patterns@);
                assert(ps.contains(ps[0]));
                assert(name_fires(ps[0], json_text(raw@)));
                assert(fired);
            }
        }
        return Ok(Shaped { data, masked: true, narrowed, injection: Some(joined) });
    }
    let data = match masked_value {
        Json::Object(es) => es,
        _ => Vec::new(),
    };
    proof {
        lemma_jv_entries(data@);
        assert(jv_entries(data@) == entries_of(masked_value@));
        if json_text(raw@).len() > 0 {
            assert(!fired) by {
                if fired {
                    let y = choose|y: Seq<char>| #[trigger] name_fires(y, json_text(raw@));
                    assert(strs(verdict.patterns@).contains(y));
                }
            }
        }
    }
    Ok(Shaped { data, masked: is_masked, narrowed, injection: None })
}

/// The injection flag a call starts with: `프롬프트: ` and the rules that
/// fired on its prompt, or nothing when none did. It is raised before any
/// check, so that a refused call keeps the signal too.
pub fn prompt_flag(v: &Verdict) -> (r: String)
    ensures
        r@ == (if v.suspicious {
            "프롬프트: "@ + join(strs(v.patterns@), ", "@)
        } else {
            Seq::empty()
        }),
{
    if v.suspicious {
        let joined = join_strings(&v.patterns, ", ");
        concat("프롬프트: ", joined.as_str())
    } else {
        String::new()
    }
}

/// The answer of a call that waits for approval: nothing ran and no data
/// is returned; the summary says how to get it approved.
pub fn dry_run_result(tool: &str, approval_status: &str, approval_id: &str, request_id: &str, summary: String) -> (r: CallResult)
    ensures
        r.tool@ == tool@,
        r.data@.len() == 0,
        !r.masked,
        !r.narrowed,
        r.dry_run,
        r.approval_status@ == approval_status@,
        r.approval_id@ == approval_id@,
        r.summary == summary,
        r.request_id@ == request_id@,
{
    CallResult {
        tool: owned(tool),
        data: Vec::new(),
        masked: false,
        narrowed: false,
        dry_run: true,
        approval_status: owned(approval_status),
        approval_id: owned(approval_id),
        summary,
        request_id: owned(request_id),
    }
}

/// The answer of a call that ran: its shaped output, with no summary.
pub fn executed_result(tool: &str, shaped: Shaped, approval_status: &str, approval_id: &str, request_id: &str) -> (r: CallResult)
    ensures
        r.tool@ == tool@,
        r.data == shaped.data,
        r.masked == shaped.masked,
        r.narrowed == shaped.narrowed,
        !r.dry_run,
        r.approval_status@ == approval_status@,
        r.approval_id@ == approval_id@,
        r.summary@.len() == 0,
        r.request_id@ == request_id@,
{
    CallResult {
        tool: owned(tool),
        data: shaped.data,
        masked: shaped.masked,
        narrowed: shaped.narrowed,
        dry_run: false,
        approval_status: owned(approval_status),
        approval_id: owned(approval_id),
        summary: String::new(),
        request_id: owned(request_id),
    }
}

/// The audit entry of a call: who made it, in which session, on which
/// tool and system; the verdict; the approval; the arguments as given and
/// the output as returned; the turn's usage, its prompt and its injection
/// signals. The log gives it its id.
pub fn call_entry(
    id: &Identity,
    spec: &Spec,
    call: &Call,
    verdict: &Audit,
    approval_status: &str,
    approval_id: &str,
    request_id: &str,
    output: Option<Vec<(String, Json)>>,
    masked: bool,
    injection: &str,
    timestamp: i64,
    latency_ms: i64,
) -> (r: Entry)
    ensures
        r.id == 0,
        r.timestamp == timestamp,
        r.actor@ == id.user_id@,
        r.tool@ == call.tool@,
        r.system@ == spec.system@,
        r.access@ == (if spec.access == Access::Read {
            "read"@
        } else {
            "write"@
        }),
        r.decision@ == verdict.decision@,
        r.reason@ == verdict.reason@,
        r.error@ == verdict.error@,
        r.approval_status@ == approval_status@,
        r.approval_id@ == approval_id@,
        r.request_id@ == request_id@,
        r.session_id@ == id.session_id@,
        r.masked == masked,
        r.input matches Some(v) && jv_entries(v@) == jv_entries(call.args@),
        r.output == output,
        r.latency_ms == latency_ms,
        r.input_tokens == call.usage.input_tokens,
        r.output_tokens == call.usage.output_tokens,
        r.cost_micros == call.usage.cost_micros,
        r.prompt@ == call.prompt@,
        r.injection@ == injection@,
{
    Entry {
        id: 0,
        timestamp,
        actor: id.user_id.clone(),
        tool: call.tool.clone(),
        system: spec.system.clone(),
        access: owned(spec.access.as_str()),
        decision: verdict.decision.clone(),
        reason: verdict.reason.clone(),
        approval_status: owned(approval_status),
        approval_id: owned(approval_id),
        request_id: owned(request_id),
        session_id: id.session_id.clone(),
        masked,
        input: Some(copy_entries(&call.args)),
        output,
        latency_ms,
        input_tokens: call.usage.input_tokens,
        output_tokens: call.usage.output_tokens,
        cost_micros: call.usage.cost_micros,
        error: verdict.error.clone(),
        prompt: call.prompt.clone(),
        injection: owned(injection),
    }
}

/// The call's injection flag with the output's signal added: `출력: …`,
/// after a `; ` where the prompt already raised one.
pub fn flag_output(flag: &str, signal: &str) -> (r: String)
    ensures
        r@ == (if flag@.len() == 0 {
            "출력: "@ + signal@
        } else {
            flag@ + "; 출력: "@ + signal@
        }),
{
    let none = String::new();
    if crate::text::str_eq(flag, none.as_str()) {
        concat("출력: ", signal)
    } else {
        proof {
            if flag@.len() == 0 {
                assert(flag@ =~= none@);
            }
        }
        concat3(flag, "; 출력: ", signal)
    }
}

/// A whole number of seconds as `{:?}` writes a duration (`3600s`; `0ns`
/// for none).
pub open spec fn secs_debug(secs: u64) -> Seq<char> {
    if secs == 0 {
        "0ns"@
    } else {
        nat_digits(secs as nat) + "s"@
    }
}

pub open spec fn summary_spec(
    risk: RiskLevel,
    tool: Seq<char>,
    reason: Seq<char>,
    approval_id: Seq<char>,
    system: Seq<char>,
    safe_args: Seq<char>,
    ttl_secs: u64,
) -> Seq<char> {
    risk_label(risk) + " 도구 "@ + debug_text(tool) + " 은(는) 승인이 필요합니다.\n  사유: "@ + reason
        + "\n  승인 요청 ID: "@ + approval_id + "\n  대상 시스템: "@ + system + "\n  입력: "@ + safe_args
        + "\n  승인 유효 기간: "@ + secs_debug(ttl_secs) + " (승인 시점부터)\n  관리자 승인: auditctl approve "@
        + approval_id + " -by <요청자가 아닌 사람>"@
}

/// What a dry run tells the user while the call waits for approval. The
/// arguments are shown masked.
pub fn dry_run_summary(
    risk: RiskLevel,
    tool: &str,
    reason: &str,
    approval_id: &str,
    system: &str,
    args: &Vec<(String, Json)>,
    mask_fields: &Vec<String>,
    masker: &Masker,
    ttl_secs: u64,
) -> (r: String)
    requires
        masker.wf(),
    ensures
        r@ == summary_spec(
            risk,
            tool@,
            reason@,
            approval_id@,
            system@,
            json_text(
                mask_json(
                    JsonV::Object(sort_entries(canon_entries(args@))),
                    masker.names() + strs(mask_fields@).map_values(|f: Seq<char>| unicode_lower(f)),
                    masker.scrubs(),
                ),
            ),
            ttl_secs,
        ),
{
    let safe = masker.mask(&Json::Object(canonical_object(args)), mask_fields).to_text();
    let ttl = if ttl_secs == 0 {
        owned("0ns")
    } else {
        let d = int_to_string(ttl_secs as i128);
        concat(d.as_str(), "s")
    };
    let mut s = String::new();
    s.append(risk.label());
    s.append(" 도구 ");
    s.append(debug_quote(tool).as_str());
    s.append(" 은(는) 승인이 필요합니다.\n  사유: ");
    s.append(reason);
    s.append("\n  승인 요청 ID: ");
    s.append(approval_id);
    s.append("\n  대상 시스템: ");
    s.append(system);
    s.append("\n  입력: ");
    s.append(safe.as_str());
    s.append("\n  승인 유효 기간: ");
    s.append(ttl.as_str());
    s.append(" (승인 시점부터)\n  관리자 승인: auditctl approve ");
    s.append(approval_id);
    s.append(" -by <요청자가 아닌 사람>");
    s
}

} // verus!
