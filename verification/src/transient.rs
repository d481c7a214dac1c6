//! Transient failures versus business errors.
//!
//! "Not now" differs from "not at all": a slow or dead system is worth
//! retrying, a missing invoice stays missing however often it is asked for.
//! The distinction drives the gateway's retries and its circuit breakers:
//! feeding business errors to a breaker would open a system's circuit
//! because someone looked up absent invoices.
//!
//! An error is read as its chain of causes, outermost first.
use vstd::prelude::*;

verus! {

/// A marker that an error is transient (an adapter wraps 5xx answers and
/// connection failures in it to ask for retries).
#[derive(Debug)]
pub struct TemporaryError {
    pub message: String,
}

/// The caller gave up.
#[derive(Clone, Copy, Debug)]
pub struct Canceled;

/// Out of time.
#[derive(Clone, Copy, Debug)]
pub struct DeadlineExceeded;

/// One cause in an error's chain, as far as the classification reads it.
#[derive(Clone, Copy, PartialEq, Eq, Debug, Structural)]
pub enum Cause {
    /// [`Canceled`].
    Canceled,
    /// [`DeadlineExceeded`].
    DeadlineExceeded,
    /// A runtime timer ran out.
    Elapsed,
    /// [`TemporaryError`].
    Temporary,
    /// A socket-level timeout.
    IoTimedOut,
    /// A connection reset by the peer.
    IoConnectionReset,
    /// An HTTP client's timeout.
    HttpTimeout,
    /// An HTTP client that could not connect.
    HttpConnect,
    /// An open circuit, with how long until a probe is let through
    /// (nanoseconds).
    CircuitOpen(u64),
    /// Anything else.
    Other,
}

/// A cause worth retrying by itself.
pub open spec fn transient_cause(c: Cause) -> bool {
    match c {
        Cause::DeadlineExceeded | Cause::Elapsed | Cause::Temporary | Cause::IoTimedOut | Cause::IoConnectionReset
        | Cause::HttpTimeout | Cause::HttpConnect => true,
        _ => false,
    }
}

/// Whether an error is worth retrying: never once the caller canceled,
/// wherever that sits in the chain; else when some cause is a deadline, a
/// temporary marker, or a socket or HTTP timeout or connection failure.
/// Everything else is a business error.
pub open spec fn temporary_spec(chain: Seq<Cause>) -> bool {
    !chain.contains(Cause::Canceled) && exists|i: int| 0 <= i < chain.len() && transient_cause(#[trigger] chain[i])
}

/// Whether an error (its causes, outermost first) is worth retrying.
pub fn is_temporary(chain: &Vec<Cause>) -> (r: bool)
    ensures
        r == temporary_spec(chain@),
{
    let mut i: usize = 0;
    while i < chain.len()
        invariant
            i <= chain.len(),
            forall|j: int| 0 <= j < i ==> chain@[j] != Cause::Canceled,
        decreases chain.len() - i,
    {
        if chain[i] == Cause::Canceled {
            return false;
        }
        i = i + 1;
    }
    let mut k: usize = 0;
    while k < chain.len()
        invariant
            k <= chain.len(),
            !chain@.contains(Cause::Canceled),
            forall|j: int| 0 <= j < k ==> !transient_cause(#[trigger] chain@[j]),
        decreases chain.len() - k,
    {
        let hit = match chain[k] {
            Cause::DeadlineExceeded | Cause::Elapsed | Cause::Temporary | Cause::IoTimedOut
            | Cause::IoConnectionReset | Cause::HttpTimeout | Cause::HttpConnect => true,
            _ => false,
        };
        if hit {
            return true;
        }
        k = k + 1;
    }
    false
}

/// Marks an error as transient: its chain gains the marker in front.
pub fn temporary(chain: Vec<Cause>) -> (r: Vec<Cause>)
    ensures
        r@ == seq![Cause::Temporary] + chain@,
{
    let mut out: Vec<Cause> = Vec::new();
    out.push(Cause::Temporary);
    let mut i: usize = 0;
    while i < chain.len()
        invariant
            i <= chain.len(),
            out@ == seq![Cause::Temporary] + chain@.take(i as int),
        decreases chain.len() - i,
    {
        out.push(chain[i]);
        assert(chain@.take(i + 1) =~= chain@.take(i as int).push(chain@[i as int]));
        i = i + 1;
    }
    assert(chain@.take(chain@.len() as int) =~= chain@);
    out
}

/// Cancellation wins: marking a canceled error as transient never makes it
/// retried, and the marker makes any other error retried.
pub proof fn law_cancel_wins(chain: Seq<Cause>)
    ensures
        chain.contains(Cause::Canceled) ==> !temporary_spec(seq![Cause::Temporary] + chain),
        !chain.contains(Cause::Canceled) ==> temporary_spec(seq![Cause::Temporary] + chain),
{
    let m = seq![Cause::Temporary] + chain;
    if chain.contains(Cause::Canceled) {
        let i = choose|i: int| 0 <= i < chain.len() && chain[i] == Cause::Canceled;
        assert(m[i + 1] == Cause::Canceled);
    } else {
        assert(transient_cause(m[0]));
        if m.contains(Cause::Canceled) {
            let i = choose|i: int| 0 <= i < m.len() && m[i] == Cause::Canceled;
            assert(chain[i - 1] == Cause::Canceled);
        }
    }
}

} // verus!
