//! Injectable clocks and the timestamp texts the stores use.
//!
//! Approval expiry, business hours and leases depend on the time; a clock
//! passed as a value lets those rules be checked without waiting. Times are
//! nanoseconds since the Unix epoch.
use vstd::prelude::*;
use chrono::{DateTime, TimeZone, Utc};

verus! {

/// `chrono::Utc::now()` in nanoseconds since the epoch (0 outside the
/// representable range). Nothing is stated of it: it is the time.
#[verifier::external_body]
pub(crate) fn wall_clock_nanos() -> (r: i64) {
    Utc::now().timestamp_nanos_opt().unwrap_or(0)
}

/// Something that tells the time.
pub trait Clock {
    fn now(&self) -> i64;
}

/// The wall clock.
#[derive(Clone, Copy, Debug, Default)]
pub struct SystemClock;

impl Clock for SystemClock {
    fn now(&self) -> i64 {
        wall_clock_nanos()
    }
}

/// A clock that stands still until it is moved forward.
#[derive(Debug)]
pub struct TestClock {
    pub at: i64,
}

/// 2026-07-10T09:00:00Z, the reference time of the conformance suites.
pub open spec fn epoch_nanos() -> i64 {
    1783674000000000000
}

impl TestClock {
    /// A clock stopped at `at`.
    pub fn new(at: i64) -> (r: TestClock)
        ensures
            r.at == at,
    {
        TestClock { at }
    }

    /// A clock stopped at 2026-07-10T09:00:00Z.
    pub fn epoch() -> (r: TestClock)
        ensures
            r.at == epoch_nanos(),
    {
        TestClock { at: 1783674000000000000 }
    }

    /// Moves the clock forward by `d` nanoseconds.
    pub fn advance(&mut self, d: i64)
        requires
            i64::MIN <= old(self).at + d <= i64::MAX,
        ensures
            final(self).at == old(self).at + d,
    {
        self.at = self.at + d;
    }

    pub fn read(&self) -> (r: i64)
        ensures
            r == self.at,
    {
        self.at
    }
}

impl Clock for TestClock {
    fn now(&self) -> i64 {
        self.at
    }
}

/// RFC 3339 text at second precision with a `Z` suffix
/// (`2026-07-10T09:00:00Z`), as chrono writes it.
pub uninterp spec fn rfc3339_secs(nanos: i64) -> Seq<char>;

/// RFC 3339 text at nanosecond precision with a `Z` suffix.
pub uninterp spec fn rfc3339_nanos_text(nanos: i64) -> Seq<char>;

/// The instant an RFC 3339 text denotes, in nanoseconds, if it parses and
/// is representable.
pub uninterp spec fn rfc3339_parse(s: Seq<char>) -> Option<i64>;

/// `DateTime::<Utc>::to_rfc3339_opts(SecondsFormat::Secs, true)`.
#[verifier::external_body]
pub fn to_rfc3339(t: i64) -> (r: String)
    ensures
        r@ == rfc3339_secs(t),
{
    Utc.timestamp_nanos(t).to_rfc3339_opts(chrono::SecondsFormat::Secs, true)
}

/// `DateTime::<Utc>::to_rfc3339_opts(SecondsFormat::Nanos, true)`.
#[verifier::external_body]
pub fn to_rfc3339_nanos(t: i64) -> (r: String)
    ensures
        r@ == rfc3339_nanos_text(t),
{
    Utc.timestamp_nanos(t).to_rfc3339_opts(chrono::SecondsFormat::Nanos, true)
}

/// `DateTime::parse_from_rfc3339`, in UTC nanoseconds.
#[verifier::external_body]
pub fn parse_rfc3339(s: &str) -> (r: Option<i64>)
    ensures
        r == rfc3339_parse(s@),
{
    DateTime::parse_from_rfc3339(s).ok().and_then(|t| t.with_timezone(&Utc).timestamp_nanos_opt())
}

/// The instant truncated to whole seconds, by writing it at second
/// precision and reading it back; an instant whose text does not read back
/// stays as it is.
pub fn truncate_to_second(t: i64) -> (r: i64)
    ensures
        r == match rfc3339_parse(rfc3339_secs(t)) {
            Some(x) => x,
            None => t,
        },
{
    let text = to_rfc3339(t);
    match parse_rfc3339(text.as_str()) {
        Some(x) => x,
        None => t,
    }
}

} // verus!
