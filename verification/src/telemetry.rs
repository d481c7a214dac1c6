//! What a tool call records as metrics and on its trace span.
//!
//! Metrics are operating signals, not the audit trail. Their labels never
//! carry a user id, a session id, a request id or arguments: values without
//! bound explode the number of series and leak personal data into the
//! metric store. Spans, which are samples, do carry the request and session
//! ids, to be matched with the audit log. The `decision` label tells a
//! policy that worked (`denied`) from a system in trouble (`unavailable`,
//! `timeout`).
use vstd::prelude::*;
use crate::gateway::Usage;
use crate::text::{owned, str_eq};

verus! {

/// What one call reports.
pub struct CallInfo {
    pub tool: String,
    pub system: String,
    /// `allowed` or `denied`.
    pub decision: String,
    /// An error code, or `ok`.
    pub error_code: String,
    pub latency_nanos: u64,
    pub usage: Usage,
}

#[derive(Clone, Copy, PartialEq, Eq, Debug, Structural)]
pub enum Metric {
    /// `gateway.tool.calls`
    Calls,
    /// `gateway.tool.duration`, in milliseconds.
    Duration,
    /// `gateway.llm.tokens`
    Tokens,
    /// `gateway.llm.cost_micros`
    Cost,
    /// `gateway.breaker.rejections`
    BreakerRejections,
}

/// One measurement: a metric, an amount (nanoseconds for the duration), and
/// its labels.
pub struct Record {
    pub metric: Metric,
    pub amount: u64,
    pub labels: Vec<(String, String)>,
}

/// The only label keys a metric carries.
pub open spec fn label_keys_spec() -> Seq<Seq<char>> {
    seq!["tool"@, "system"@, "decision"@, "code"@, "direction"@]
}

/// The label keys metrics may carry.
pub fn label_keys() -> (r: Vec<String>)
    ensures
        crate::registry::strs(r@) == label_keys_spec(),
{
    let mut v: Vec<String> = Vec::new();
    v.push(owned("tool"));
    v.push(owned("system"));
    v.push(owned("decision"));
    v.push(owned("code"));
    v.push(owned("direction"));
    assert(crate::registry::strs(v@) =~= label_keys_spec());
    v
}

pub open spec fn label_views(v: Seq<(String, String)>) -> Seq<(Seq<char>, Seq<char>)> {
    Seq::new(v.len(), |i: int| (v[i].0@, v[i].1@))
}

pub ghost struct RecordV {
    pub metric: Metric,
    pub amount: u64,
    pub labels: Seq<(Seq<char>, Seq<char>)>,
}

impl View for Record {
    type V = RecordV;

    open spec fn view(&self) -> RecordV {
        RecordV { metric: self.metric, amount: self.amount, labels: label_views(self.labels@) }
    }
}

pub open spec fn call_labels(i: CallInfo) -> Seq<(Seq<char>, Seq<char>)> {
    seq![("tool"@, i.tool@), ("system"@, i.system@), ("decision"@, i.decision@), ("code"@, i.error_code@)]
}

pub open spec fn when(b: bool, r: RecordV) -> Seq<RecordV> {
    if b {
        seq![r]
    } else {
        Seq::empty()
    }
}

/// The measurements of one call: a call and its duration under the four
/// call labels; input and output tokens, and cost, under the tool where
/// there are any; and a breaker rejection under the system where the call
/// was refused as unavailable.
pub open spec fn records_spec(i: CallInfo) -> Seq<RecordV> {
    seq![
        RecordV { metric: Metric::Calls, amount: 1, labels: call_labels(i) },
        RecordV { metric: Metric::Duration, amount: i.latency_nanos, labels: call_labels(i) },
    ] + when(
        i.usage.input_tokens > 0,
        RecordV {
            metric: Metric::Tokens,
            amount: i.usage.input_tokens as u64,
            labels: seq![("tool"@, i.tool@), ("direction"@, "input"@)],
        },
    ) + when(
        i.usage.output_tokens > 0,
        RecordV {
            metric: Metric::Tokens,
            amount: i.usage.output_tokens as u64,
            labels: seq![("tool"@, i.tool@), ("direction"@, "output"@)],
        },
    ) + when(
        i.usage.cost_micros > 0,
        RecordV { metric: Metric::Cost, amount: i.usage.cost_micros as u64, labels: seq![("tool"@, i.tool@)] },
    ) + when(
        i.error_code@ == "unavailable"@,
        RecordV { metric: Metric::BreakerRejections, amount: 1, labels: seq![("system"@, i.system@)] },
    )
}

fn pairs(items: Vec<(&str, &str)>) -> (r: Vec<(String, String)>)
    ensures
        label_views(r@) == Seq::new(items@.len(), |k: int| (items@[k].0@, items@[k].1@)),
{
    let mut out: Vec<(String, String)> = Vec::new();
    let mut i: usize = 0;
    while i < items.len()
        invariant
            i <= items@.len(),
            out@.len() == i,
            forall|k: int| 0 <= k < i ==> (#[trigger] out@[k]).0@ == items@[k].0@ && out@[k].1@ == items@[k].1@,
        decreases items.len() - i,
    {
        out.push((owned(items[i].0), owned(items[i].1)));
        i = i + 1;
    }
    assert(label_views(out@) =~= Seq::new(items@.len(), |k: int| (items@[k].0@, items@[k].1@)));
    out
}

/// What a call records, in order.
pub fn records(info: &CallInfo) -> (r: Vec<Record>)
    ensures
        r@.map_values(|x: Record| x@) == records_spec(*info),
{
    let mut out: Vec<Record> = Vec::new();
    let call = vec![
        ("tool", info.tool.as_str()),
        ("system", info.system.as_str()),
        ("decision", info.decision.as_str()),
        ("code", info.error_code.as_str()),
    ];
    let l1 = pairs(call);
    let call2 = vec![
        ("tool", info.tool.as_str()),
        ("system", info.system.as_str()),
        ("decision", info.decision.as_str()),
        ("code", info.error_code.as_str()),
    ];
    let l2 = pairs(call2);
    assert(label_views(l1@) =~= call_labels(*info));
    assert(label_views(l2@) =~= call_labels(*info));
    out.push(Record { metric: Metric::Calls, amount: 1, labels: l1 });
    out.push(Record { metric: Metric::Duration, amount: info.latency_nanos, labels: l2 });
    let ghost s0 = out@.map_values(|x: Record| x@);
    assert(s0 =~= seq![
        RecordV { metric: Metric::Calls, amount: 1, labels: call_labels(*info) },
        RecordV { metric: Metric::Duration, amount: info.latency_nanos, labels: call_labels(*info) },
    ]);
    if info.usage.input_tokens > 0 {
        let l = pairs(vec![("tool", info.tool.as_str()), ("direction", "input")]);
        assert(label_views(l@) =~= seq![("tool"@, info.tool@), ("direction"@, "input"@)]);
        out.push(Record { metric: Metric::Tokens, amount: info.usage.input_tokens as u64, labels: l });
    }
    let ghost s1 = out@.map_values(|x: Record| x@);
    assert(s1 =~= s0 + when(
        info.usage.input_tokens > 0,
        RecordV {
            metric: Metric::Tokens,
            amount: info.usage.input_tokens as u64,
            labels: seq![("tool"@, info.tool@), ("direction"@, "input"@)],
        },
    ));
    if info.usage.output_tokens > 0 {
        let l = pairs(vec![("tool", info.tool.as_str()), ("direction", "output")]);
        assert(label_views(l@) =~= seq![("tool"@, info.tool@), ("direction"@, "output"@)]);
        out.push(Record { metric: Metric::Tokens, amount: info.usage.output_tokens as u64, labels: l });
    }
    let ghost s2 = out@.map_values(|x: Record| x@);
    assert(s2 =~= s1 + when(
        info.usage.output_tokens > 0,
        RecordV {
            metric: Metric::Tokens,
            amount: info.usage.output_tokens as u64,
            labels: seq![("tool"@, info.tool@), ("direction"@, "output"@)],
        },
    ));
    if info.usage.cost_micros > 0 {
        let l = pairs(vec![("tool", info.tool.as_str())]);
        assert(label_views(l@) =~= seq![("tool"@, info.tool@)]);
        out.push(Record { metric: Metric::Cost, amount: info.usage.cost_micros as u64, labels: l });
    }
    let ghost s3 = out@.map_values(|x: Record| x@);
    assert(s3 =~= s2 + when(
        info.usage.cost_micros > 0,
        RecordV { metric: Metric::Cost, amount: info.usage.cost_micros as u64, labels: seq![("tool"@, info.tool@)] },
    ));
    if str_eq(info.error_code.as_str(), "unavailable") {
        let l = pairs(vec![("system", info.system.as_str())]);
        assert(label_views(l@) =~= seq![("system"@, info.system@)]);
        out.push(Record { metric: Metric::BreakerRejections, amount: 1, labels: l });
    }
    assert(out@.map_values(|x: Record| x@) =~= s3 + when(
        info.error_code@ == "unavailable"@,
        RecordV { metric: Metric::BreakerRejections, amount: 1, labels: seq![("system"@, info.system@)] },
    ));
    out
}

/// No metric label is keyed by anything but the fixed label keys: whatever
/// the call, no user, session or request id becomes a label.
pub proof fn law_labels_are_fixed(i: CallInfo)
    ensures
        forall|k: int, j: int|
            0 <= k < records_spec(i).len() && 0 <= j < records_spec(i)[k].labels.len() ==> label_keys_spec().contains(
                #[trigger] records_spec(i)[k].labels[j].0,
            ),
{
    let r = records_spec(i);
    assert forall|k: int, j: int|
        0 <= k < r.len() && 0 <= j < r[k].labels.len() implies label_keys_spec().contains(
            #[trigger] r[k].labels[j].0,
        ) by {
        let ks = label_keys_spec();
        assert(ks[0] == "tool"@ && ks[1] == "system"@ && ks[2] == "decision"@ && ks[3] == "code"@ && ks[4]
            == "direction"@);
    }
}

/// The span's error, where the call did not end `ok`.
pub fn span_error(info: &CallInfo) -> (r: Option<String>)
    ensures
        info.error_code@ == "ok"@ ==> r is None,
        info.error_code@ != "ok"@ ==> (r matches Some(e) && e@ == info.error_code@),
{
    if str_eq(info.error_code.as_str(), "ok") {
        None
    } else {
        Some(info.error_code.clone())
    }
}

} // verus!
