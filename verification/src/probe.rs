//! Kubernetes probes: is the process alive, and may it take traffic.
//!
//! A probe answers with a status and a list of checks only; it never carries
//! prompts or audit contents. Readiness looks at the adapters too: sending
//! traffic to an instance that cannot reach its legacy systems shows users
//! errors.
use vstd::prelude::*;
use crate::wiring::Health;
use crate::text::{concat, owned};

verus! {

/// A probe's answer.
pub struct ProbeStatus {
    /// `ok` or `not_ready`.
    pub status: String,
    /// Each check and its result, in key order.
    pub checks: Vec<(String, String)>,
    /// The systems whose health check failed.
    pub unhealthy: Vec<String>,
    pub version: String,
}

pub open spec fn pair_texts(v: Seq<(String, String)>) -> Seq<(Seq<char>, Seq<char>)> {
    Seq::new(v.len(), |i: int| (v[i].0@, v[i].1@))
}

pub open spec fn presence_text(present: bool) -> Seq<char> {
    if present { "ok"@ } else { "missing"@ }
}

/// The check of one adapter: `ok`, its error, or `unhealthy` when it gave none.
pub open spec fn adapter_check(h: Health) -> (Seq<char>, Seq<char>) {
    (
        "adapter:"@ + h.system@,
        if h.healthy {
            "ok"@
        } else if h.error@.len() == 0 {
            "unhealthy"@
        } else {
            h.error@
        },
    )
}

pub open spec fn ready_checks(tools: bool, policy: bool, hs: Seq<Health>) -> Seq<(Seq<char>, Seq<char>)> {
    Seq::new(hs.len(), |i: int| adapter_check(hs[i])) + seq![
        ("audit"@, "ok"@),
        ("policy"@, presence_text(policy)),
        ("process"@, "ok"@),
        ("tools"@, presence_text(tools)),
    ]
}

pub open spec fn unhealthy_systems(hs: Seq<Health>) -> Seq<Seq<char>>
    decreases hs.len(),
{
    if hs.len() == 0 {
        Seq::empty()
    } else {
        unhealthy_systems(hs.drop_last()) + if hs.last().healthy {
            Seq::<Seq<char>>::empty()
        } else {
            seq![hs.last().system@]
        }
    }
}

pub open spec fn all_healthy(hs: Seq<Health>) -> bool {
    forall|i: int| 0 <= i < hs.len() ==> #[trigger] hs[i].healthy
}

/// Whether the process is alive. Dependencies are not looked at: alive is alive.
pub fn live(version: String) -> (r: ProbeStatus)
    ensures
        r.status@ == "ok"@,
        r.checks@.len() == 0,
        r.unhealthy@.len() == 0,
        r.version == version,
{
    ProbeStatus { status: owned("ok"), checks: Vec::new(), unhealthy: Vec::new(), version }
}

/// Whether the instance may take traffic, from whether a tool registry and a
/// policy are loaded and from the adapters' health, in system order.
///
/// The second value is the readiness itself; not ready is a 503.
pub fn ready(tools: bool, policy: bool, health: &Vec<Health>) -> (r: (ProbeStatus, bool))
    ensures
        r.1 == (tools && policy && all_healthy(health@)),
        r.0.status@ == (if r.1 { "ok"@ } else { "not_ready"@ }),
        pair_texts(r.0.checks@) == ready_checks(tools, policy, health@),
        crate::registry::strs(r.0.unhealthy@) == unhealthy_systems(health@),
        r.0.version@.len() == 0,
{
    let mut checks: Vec<(String, String)> = Vec::new();
    let mut unhealthy: Vec<String> = Vec::new();
    let mut ok = tools && policy;
    let mut i: usize = 0;
    while i < health.len()
        invariant
            i <= health.len(),
            checks@.len() == i,
            forall|k: int| 0 <= k < i ==> (#[trigger] checks@[k]).0@ == adapter_check(health@[k]).0 && checks@[k].1@ == adapter_check(health@[k]).1,
            crate::registry::strs(unhealthy@) == unhealthy_systems(health@.subrange(0, i as int)),
            ok == (tools && policy && all_healthy(health@.subrange(0, i as int))),
        decreases health.len() - i,
    {
        let h = &health[i];
        let key = concat("adapter:", h.system.as_str());
        let ghost before = health@.subrange(0, i as int);
        assert(health@.subrange(0, i + 1).drop_last() =~= before);
        if h.healthy {
            checks.push((key, owned("ok")));
            assert(crate::registry::strs(unhealthy@) =~= unhealthy_systems(health@.subrange(0, i + 1)));
        } else {
            let msg = if h.error.as_str().is_empty() {
                owned("unhealthy")
            } else {
                h.error.clone()
            };
            checks.push((key, msg));
            let ghost old_u = unhealthy@;
            unhealthy.push(h.system.clone());
            assert(crate::registry::strs(unhealthy@) =~= crate::registry::strs(old_u).push(h.system@));
            assert(crate::registry::strs(unhealthy@) =~= unhealthy_systems(health@.subrange(0, i + 1)));
            ok = false;
            assert(!health@.subrange(0, i + 1)[i as int].healthy);
        }
        proof {
            let next = health@.subrange(0, i + 1);
            if ok {
                assert forall|k: int| 0 <= k < next.len() implies #[trigger] next[k].healthy by {
                    if k < i {
                        assert(next[k] == before[k]);
                    }
                }
            }
            if !(tools && policy && all_healthy(before)) {
                if tools && policy {
                    let w = choose|k: int| 0 <= k < before.len() && !(#[trigger] before[k].healthy);
                    assert(next[w] == before[w]);
                }
            }
            if !h.healthy && h.error@.len() == 0 {
                assert(h.error@ =~= Seq::<char>::empty());
            }
        }
        i = i + 1;
    }
    assert(health@.subrange(0, i as int) =~= health@);
    checks.push((owned("audit"), owned("ok")));
    checks.push((owned("policy"), owned(if policy { "ok" } else { "missing" })));
    checks.push((owned("process"), owned("ok")));
    checks.push((owned("tools"), owned(if tools { "ok" } else { "missing" })));
    let ghost n = health@.len();
    assert(pair_texts(checks@) =~= ready_checks(tools, policy, health@)) by {
        let rc = ready_checks(tools, policy, health@);
        assert forall|k: int| 0 <= k < checks@.len() implies #[trigger] pair_texts(checks@)[k] == rc[k] by {
            if k < n {
                assert(checks@[k].0@ == adapter_check(health@[k]).0);
            }
        }
        assert(rc.len() == n + 4);
    }
    let status = if ok { owned("ok") } else { owned("not_ready") };
    (ProbeStatus { status, checks, unhealthy, version: String::new() }, ok)
}

} // verus!
