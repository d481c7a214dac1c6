//! The gateway's enforcement: the errors it reports, how adapter failures
//! map to them, and the order in which a call is admitted.
//!
//! Error codes tell "not now" from "not at all", which is what a model
//! needs to decide whether to retry or give up.
use vstd::prelude::*;
use crate::transient::{Cause, temporary_spec, is_temporary};
use crate::registry::{Spec, SpecV};
use crate::text::{owned, concat, concat3, int_to_string, int_text, str_eq};

pub mod admission;
pub mod approver;
pub mod obligations;
pub mod output;

verus! {

/// One tool call.
pub struct Call {
    pub tool: String,
    pub args: Vec<(String, crate::json::Json)>,
    /// What the user said that led to the call; kept for the audit and
    /// scanned for injection.
    pub prompt: String,
    pub usage: Usage,
}

/// What a call returns.
pub struct CallResult {
    pub tool: String,
    /// The output after obligations and masking.
    pub data: Vec<(String, crate::json::Json)>,
    pub masked: bool,
    /// Obligations removed fields or cut rows.
    pub narrowed: bool,
    pub dry_run: bool,
    /// `n/a`, `pending`, `approved` or `rejected`.
    pub approval_status: String,
    pub approval_id: String,
    /// Only for a dry run.
    pub summary: String,
    pub request_id: String,
}

/// A model turn's usage, as the orchestrator reports it.
#[derive(Clone, Copy, Debug, Default, PartialEq, Eq, Structural)]
pub struct Usage {
    pub input_tokens: i64,
    pub output_tokens: i64,
    /// Cost in micros (an integer, to avoid rounding).
    pub cost_micros: i64,
}

/// Why the gateway refused or failed a call.
#[derive(Debug)]
pub struct Error {
    pub code: String,
    pub message: String,
    /// Where to go instead: a concrete path, not "ask someone".
    pub fallback: String,
}

pub struct ErrorV {
    pub code: Seq<char>,
    pub message: Seq<char>,
    pub fallback: Seq<char>,
}

impl View for Error {
    type V = ErrorV;

    open spec fn view(&self) -> ErrorV {
        ErrorV { code: self.code@, message: self.message@, fallback: self.fallback@ }
    }
}

/// ` (대안: …)` after a message when there is a fallback.
pub open spec fn fallback_suffix_spec(f: Seq<char>) -> Seq<char> {
    if f.len() == 0 {
        Seq::empty()
    } else {
        " (대안: "@ + f + ")"@
    }
}

pub fn fallback_suffix(f: &str) -> (r: String)
    ensures
        r@ == fallback_suffix_spec(f@),
{
    if f.is_empty() {
        String::new()
    } else {
        concat3(" (대안: ", f, ")")
    }
}

/// `[code] message`, then the fallback.
pub open spec fn error_text(e: ErrorV) -> Seq<char> {
    "["@ + e.code + "] "@ + e.message + fallback_suffix_spec(e.fallback)
}

impl Error {
    pub fn new(code: &str, message: &str, fallback: &str) -> (r: Error)
        ensures
            r@ == (ErrorV { code: code@, message: message@, fallback: fallback@ }),
    {
        Error { code: owned(code), message: owned(message), fallback: owned(fallback) }
    }

    /// How the error reads.
    pub fn text(&self) -> (r: String)
        ensures
            r@ == error_text(self@),
    {
        let head = concat3("[", self.code.as_str(), "] ");
        let body = concat(head.as_str(), self.message.as_str());
        concat(body.as_str(), fallback_suffix(self.fallback.as_str()).as_str())
    }
}

/// The codes of refusals the gateway itself decided: the policy worked.
/// `timeout`, `unavailable` and `adapter_error` are not among them; they
/// say a system is unwell, and are counted as allowed calls.
pub open spec fn denial_codes() -> Seq<Seq<char>> {
    seq![
        "not_found"@,
        "invalid_input"@,
        "permission_denied"@,
        "rate_limited"@,
        "budget_exceeded"@,
        "high_risk_blocked"@,
        "approval_rejected"@,
        "approval_error"@,
    ]
}

pub fn is_denial(code: &str) -> (r: bool)
    ensures
        r == denial_codes().contains(code@),
{
    let r = str_eq(code, "not_found") || str_eq(code, "invalid_input") || str_eq(code, "permission_denied")
        || str_eq(code, "rate_limited") || str_eq(code, "budget_exceeded") || str_eq(code, "high_risk_blocked")
        || str_eq(code, "approval_rejected") || str_eq(code, "approval_error");
    proof {
        let d = denial_codes();
        if r {
            if code@ == "not_found"@ {
                assert(d[0] == code@);
            } else if code@ == "invalid_input"@ {
                assert(d[1] == code@);
            } else if code@ == "permission_denied"@ {
                assert(d[2] == code@);
            } else if code@ == "rate_limited"@ {
                assert(d[3] == code@);
            } else if code@ == "budget_exceeded"@ {
                assert(d[4] == code@);
            } else if code@ == "high_risk_blocked"@ {
                assert(d[5] == code@);
            } else if code@ == "approval_rejected"@ {
                assert(d[6] == code@);
            } else {
                assert(d[7] == code@);
            }
        }
    }
    r
}

/// The rate limit a tool gets: its own, or 60 a minute when it declares 0.
pub open spec fn rate_limit_spec(limit: i64) -> i64 {
    if limit == 0 {
        60
    } else {
        limit
    }
}

pub fn rate_limit_for(limit: i64) -> (r: i64)
    ensures
        r == rate_limit_spec(limit),
{
    if limit == 0 {
        60
    } else {
        limit
    }
}

pub open spec fn pow2(n: nat) -> nat
    decreases n,
{
    if n == 0 {
        1
    } else {
        2 * pow2((n - 1) as nat)
    }
}

/// The wait before retry `attempt` (from 0): 50 ms, 100 ms, 200 ms, … in
/// nanoseconds.
pub fn retry_backoff(attempt: u32) -> (r: u64)
    requires
        attempt < 32,
    ensures
        r == 50_000_000 * pow2(attempt as nat),
{
    let mut r: u64 = 50_000_000;
    let mut i: u32 = 0;
    while i < attempt
        invariant
            i <= attempt < 32,
            r == 50_000_000 * pow2(i as nat),
            pow2(i as nat) <= 0x8000_0000,
        decreases attempt - i,
    {
        assert(pow2((i + 1) as nat) == 2 * pow2(i as nat));
        proof {
            lemma_pow2_bound((i + 1) as nat);
        }
        r = r * 2;
        i = i + 1;
    }
    r
}

proof fn lemma_pow2_bound(n: nat)
    requires
        n <= 31,
    ensures
        pow2(n) <= 0x8000_0000,
{
    lemma_pow2_mono(n, 31);
    assert(pow2(31) == 0x8000_0000) by {
        reveal_with_fuel(pow2, 32);
    }
}

proof fn lemma_pow2_mono(n: nat, m: nat)
    requires
        n <= m,
    ensures
        pow2(n) <= pow2(m),
    decreases m,
{
    if n < m {
        lemma_pow2_mono(n, (m - 1) as nat);
    }
}

/// The first open-circuit cause of a chain, with its wait.
pub open spec fn open_wait(chain: Seq<Cause>) -> Option<u64>
    decreases chain.len(),
{
    if chain.len() == 0 {
        None
    } else {
        match chain[0] {
            Cause::CircuitOpen(w) => Some(w),
            _ => open_wait(chain.drop_first()),
        }
    }
}

/// What an adapter failure becomes: an open circuit or any other transient
/// failure is `unavailable`, a deadline is `timeout`, a business error is
/// `adapter_error`; the tool's fallback goes with each. `text` is how the
/// failure reads.
pub open spec fn adapter_error_spec(chain: Seq<Cause>, text: Seq<char>, system: Seq<char>, fallback: Seq<char>) -> ErrorV {
    match open_wait(chain) {
        Some(w) => ErrorV {
            code: "unavailable"@,
            message: system + " 시스템이 일시적으로 응답하지 않아 호출을 차단했습니다("@ + int_text(
                w as int / 1_000_000_000,
            ) + "초 후 재시도)."@,
            fallback,
        },
        None => if chain.contains(Cause::DeadlineExceeded) || chain.contains(Cause::Elapsed) {
            ErrorV { code: "timeout"@, message: system + " 시스템 응답이 지연되어 호출을 중단했습니다."@, fallback }
        } else if temporary_spec(chain) {
            ErrorV { code: "unavailable"@, message: system + " 시스템 호출에 실패했습니다: "@ + text, fallback }
        } else {
            ErrorV { code: "adapter_error"@, message: text, fallback }
        },
    }
}

fn first_open_wait(chain: &Vec<Cause>) -> (r: Option<u64>)
    ensures
        r == open_wait(chain@),
{
    let mut i: usize = 0;
    assert(chain@.subrange(0, chain@.len() as int) =~= chain@);
    while i < chain.len()
        invariant
            i <= chain.len(),
            open_wait(chain@) == open_wait(chain@.subrange(i as int, chain@.len() as int)),
        decreases chain.len() - i,
    {
        assert(chain@.subrange(i as int, chain@.len() as int).drop_first() =~= chain@.subrange(i + 1, chain@.len() as int));
        match chain[i] {
            Cause::CircuitOpen(w) => {
                return Some(w);
            },
            _ => {},
        }
        i = i + 1;
    }
    None
}

fn chain_has(chain: &Vec<Cause>, c: Cause) -> (r: bool)
    ensures
        r == chain@.contains(c),
{
    let mut i: usize = 0;
    while i < chain.len()
        invariant
            i <= chain.len(),
            forall|j: int| 0 <= j < i ==> chain@[j] != c,
        decreases chain.len() - i,
    {
        if chain[i] == c {
            return true;
        }
        i = i + 1;
    }
    false
}

/// A fresh request id: `req-` and twelve lowercase hex digits from six
/// random bytes.
pub fn new_request_id() -> (r: String)
    ensures
        exists|b: Seq<u8>| b.len() == 6 && r@ == "req-"@ + crate::digest::hex_lower(b),
        r@.len() == 16,
{
    let b = crate::digest::random_bytes(6);
    let h = crate::digest::hex_text(b.as_slice());
    proof {
        crate::digest::lemma_hex_lower_len(b@);
        reveal_strlit("req-");
    }
    concat("req-", h.as_str())
}

/// Maps an adapter failure (its causes, outermost first, and how it reads)
/// to the gateway's error for a tool.
pub fn adapter_error(chain: &Vec<Cause>, text: &str, spec: &Spec) -> (r: Error)
    ensures
        r@ == adapter_error_spec(chain@, text@, spec@.system, spec@.fallback),
{
    let fallback = spec.fallback.clone();
    match first_open_wait(chain) {
        Some(w) => {
            let secs = int_to_string((w / 1_000_000_000) as i128);
            let head = concat(spec.system.as_str(), " 시스템이 일시적으로 응답하지 않아 호출을 차단했습니다(");
            let message = concat3(head.as_str(), secs.as_str(), "초 후 재시도).");
            return Error { code: owned("unavailable"), message, fallback };
        },
        None => {},
    }
    if chain_has(chain, Cause::DeadlineExceeded) || chain_has(chain, Cause::Elapsed) {
        return Error {
            code: owned("timeout"),
            message: concat(spec.system.as_str(), " 시스템 응답이 지연되어 호출을 중단했습니다."),
            fallback,
        };
    }
    if is_temporary(chain) {
        let head = concat(spec.system.as_str(), " 시스템 호출에 실패했습니다: ");
        return Error { code: owned("unavailable"), message: concat(head.as_str(), text), fallback };
    }
    Error { code: owned("adapter_error"), message: owned(text), fallback }
}

/// A business error never reads as a denial or a transient failure: the
/// codes an adapter failure maps to are never denial codes.
pub proof fn law_failures_are_not_denials(chain: Seq<Cause>, text: Seq<char>, system: Seq<char>, fallback: Seq<char>)
    ensures
        !denial_codes().contains(adapter_error_spec(chain, text, system, fallback).code),
{
    let c = adapter_error_spec(chain, text, system, fallback).code;
    reveal_strlit("unavailable");
    reveal_strlit("timeout");
    reveal_strlit("adapter_error");
    reveal_strlit("not_found");
    reveal_strlit("invalid_input");
    reveal_strlit("permission_denied");
    reveal_strlit("rate_limited");
    reveal_strlit("budget_exceeded");
    reveal_strlit("high_risk_blocked");
    reveal_strlit("approval_rejected");
    reveal_strlit("approval_error");
    if denial_codes().contains(c) {
        let i = choose|i: int| 0 <= i < denial_codes().len() && denial_codes()[i] == c;
        assert(denial_codes()[i][0] != c[0] || denial_codes()[i].len() != c.len() || denial_codes()[i][1] != c[1]);
    }
}

} // verus!
