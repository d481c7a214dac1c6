//! Per-system circuit breakers.
//!
//! After `threshold` consecutive transient failures a circuit opens and
//! calls fail fast without reaching the system; once the cooldown has
//! passed one call is let through (half-open) to probe recovery. Business
//! errors never reach this module: the caller decides what is transient.
//!
//! ```text
//! closed    --(consecutive failures >= threshold)-->  open
//! open      --(cooldown elapsed)-->                   half-open
//! half-open --(success)-->                            closed
//! half-open --(failure)-->                            open
//! ```
//!
//! Times are nanoseconds since the epoch; durations are nanoseconds.
use vstd::prelude::*;
use crate::keyed::{Keyed, sorted_keys, key_map, lemma_key_map, search, upsert};
use crate::text::owned;
use crate::clock::wall_clock_nanos;

verus! {

#[derive(Clone, Copy, PartialEq, Eq, Debug, Structural)]
pub enum State {
    Closed,
    Open,
    HalfOpen,
}

impl State {
    pub fn as_str(self) -> (r: &'static str)
        ensures
            r@ == state_text(self),
    {
        match self {
            State::Closed => "closed",
            State::Open => "open",
            State::HalfOpen => "half-open",
        }
    }
}

pub open spec fn state_text(s: State) -> Seq<char> {
    match s {
        State::Closed => "closed"@,
        State::Open => "open"@,
        State::HalfOpen => "half-open"@,
    }
}

/// A call refused because its circuit is open.
#[derive(Debug)]
pub struct ErrOpen {
    pub key: String,
    /// How long until a probe is let through.
    pub retry_in: u64,
    pub failures: i64,
}

pub open spec fn default_threshold() -> i64 {
    5
}

pub open spec fn default_cooldown() -> u64 {
    30_000_000_000
}

#[derive(Clone, Copy, Debug, PartialEq, Eq, Structural)]
pub struct Config {
    /// Consecutive failures that open a circuit (5 when not positive).
    pub threshold: i64,
    /// How long a circuit stays open (30 s when zero).
    pub cooldown: u64,
}

impl Config {
    pub fn default_config() -> (r: Config)
        ensures
            r.threshold == default_threshold(),
            r.cooldown == default_cooldown(),
    {
        Config { threshold: 5, cooldown: 30_000_000_000 }
    }

    pub open spec fn normalized_spec(self) -> Config {
        Config {
            threshold: if self.threshold <= 0 {
                default_threshold()
            } else {
                self.threshold
            },
            cooldown: if self.cooldown == 0 {
                default_cooldown()
            } else {
                self.cooldown
            },
        }
    }

    pub fn normalized(self) -> (r: Config)
        ensures
            r == self.normalized_spec(),
    {
        Config {
            threshold: if self.threshold <= 0 {
                5
            } else {
                self.threshold
            },
            cooldown: if self.cooldown == 0 {
                30_000_000_000
            } else {
                self.cooldown
            },
        }
    }
}

/// One system's circuit.
pub struct CircuitV {
    pub state: State,
    pub failures: i64,
    pub opened_at: Option<i64>,
    pub last_failure: Seq<char>,
}

struct Circuit {
    key: String,
    state: State,
    failures: i64,
    opened_at: Option<i64>,
    last_failure: String,
}

impl View for Circuit {
    type V = CircuitV;

    closed spec fn view(&self) -> CircuitV {
        CircuitV {
            state: self.state,
            failures: self.failures,
            opened_at: self.opened_at,
            last_failure: self.last_failure@,
        }
    }
}

impl Keyed for Circuit {
    closed spec fn key_of(&self) -> Seq<char> {
        self.key@
    }

    fn key(&self) -> (r: &str) {
        self.key.as_str()
    }
}

/// A circuit's state for the operations console.
#[derive(Debug)]
pub struct Status {
    pub key: String,
    pub state: State,
    pub failures: i64,
    pub last_failure: String,
    pub retry_in: u64,
}

/// The circuits, by system.
pub struct Breaker {
    circuits: Vec<Circuit>,
    cfg: Config,
}

impl View for Breaker {
    type V = Map<Seq<char>, CircuitV>;

    closed spec fn view(&self) -> Map<Seq<char>, CircuitV> {
        key_map(self.circuits@)
    }
}

/// Time since the circuit opened, never negative.
pub open spec fn elapsed(opened_at: i64, now: i64) -> int {
    if now - opened_at > 0 {
        now - opened_at
    } else {
        0
    }
}

/// What asking to call gives: `None` to go ahead, or how long to wait; and
/// the circuit after (an open one whose cooldown is over turns half-open).
pub open spec fn allow_spec(c: Option<CircuitV>, cooldown: u64, now: i64) -> (Option<int>, Option<CircuitV>) {
    match c {
        None => (None, None),
        Some(c) => if c.state != State::Open {
            (None, Some(c))
        } else {
            let opened = match c.opened_at {
                Some(t) => t,
                None => now,
            };
            let e = elapsed(opened, now);
            if e < cooldown {
                (Some(cooldown - e), Some(c))
            } else {
                (None, Some(CircuitV { state: State::HalfOpen, ..c }))
            }
        },
    }
}

/// The circuit after a transient failure at `now`: one more failure; it
/// opens when it was half-open or the failures reach the threshold.
pub open spec fn failure_spec(c: Option<CircuitV>, threshold: i64, err: Seq<char>, now: i64) -> CircuitV {
    let c0 = match c {
        Some(c) => c,
        None => CircuitV { state: State::Closed, failures: 0, opened_at: None, last_failure: Seq::empty() },
    };
    let failures = (c0.failures + 1) as i64;
    if c0.state == State::HalfOpen || failures >= threshold {
        CircuitV { state: State::Open, failures, opened_at: Some(now), last_failure: err }
    } else {
        CircuitV { failures, last_failure: err, ..c0 }
    }
}

/// The circuit after a success: closed, no failures.
pub open spec fn success_spec(c: CircuitV) -> CircuitV {
    CircuitV { state: State::Closed, failures: 0, last_failure: Seq::empty(), ..c }
}

/// How long an entry of the console shows until a probe: the rest of the
/// cooldown for an open circuit, else zero.
pub open spec fn retry_in_spec(c: CircuitV, cooldown: u64, now: i64) -> int {
    if c.state == State::Open {
        let opened = match c.opened_at {
            Some(t) => t,
            None => now,
        };
        let e = elapsed(opened, now);
        if e < cooldown {
            cooldown - e
        } else {
            0
        }
    } else {
        0
    }
}

fn elapsed_exec(opened_at: i64, now: i64) -> (r: u128)
    ensures
        r == elapsed(opened_at, now),
{
    let d: i128 = (now as i128) - (opened_at as i128);
    if d > 0 {
        d as u128
    } else {
        0
    }
}

impl Breaker {
    /// Its circuits are kept in key order, and its configuration is
    /// normalized: a positive threshold and a positive cooldown.
    pub closed spec fn wf(&self) -> bool {
        &&& sorted_keys(self.circuits@)
        &&& self.cfg.threshold > 0
        &&& self.cfg.cooldown > 0
    }

    pub closed spec fn config(&self) -> Config {
        self.cfg
    }

    /// A breaker with no circuit yet, its configuration normalized.
    pub fn new(cfg: Config) -> (r: Breaker)
        ensures
            r.wf(),
            r@ == Map::<Seq<char>, CircuitV>::empty(),
            r.config() == cfg.normalized_spec(),
    {
        Breaker { circuits: Vec::new(), cfg: cfg.normalized() }
    }

    pub fn cfg(&self) -> (r: Config)
        ensures
            r == self.config(),
            self.wf() ==> r.threshold > 0 && r.cooldown > 0,
    {
        self.cfg
    }

    /// Whether a call to `key` may go ahead at `now`. A circuit that never
    /// failed, or is not open, lets it through; an open one refuses until
    /// its cooldown has passed, and then turns half-open and lets this one
    /// call through.
    pub fn allow_at(&mut self, key: &str, now: i64) -> (r: Result<(), ErrOpen>)
        requires
            old(self).wf(),
        ensures
            final(self).wf(),
            final(self).config() == old(self).config(),
            ({
                let (wait, after) = allow_spec(
                    if old(self)@.contains_key(key@) {
                        Some(old(self)@[key@])
                    } else {
                        None
                    },
                    old(self).config().cooldown,
                    now,
                );
                &&& match wait {
                    None => r is Ok,
                    Some(w) => r matches Err(e) && e.key@ == key@ && e.retry_in == w && e.failures
                        == old(self)@[key@].failures,
                }
                &&& match after {
                    Some(c) => final(self)@ == old(self)@.insert(key@, c),
                    None => final(self)@ == old(self)@,
                }
            }),
    {
        proof {
            lemma_key_map(self.circuits@);
        }
        let i = match search(&self.circuits, key) {
            Err(_) => {
                return Ok(());
            },
            Ok(i) => i,
        };
        assert(self@[key@] == self.circuits@[i as int]@);
        if self.circuits[i].state != State::Open {
            return Ok(());
        }
        let opened = match self.circuits[i].opened_at {
            Some(t) => t,
            None => now,
        };
        let e = elapsed_exec(opened, now);
        if e < self.cfg.cooldown as u128 {
            return Err(ErrOpen {
                key: owned(key),
                retry_in: (self.cfg.cooldown as u128 - e) as u64,
                failures: self.circuits[i].failures,
            });
        }
        let ghost before = self.circuits@;
        let c = Circuit {
            key: self.circuits[i].key.clone(),
            state: State::HalfOpen,
            failures: self.circuits[i].failures,
            opened_at: self.circuits[i].opened_at,
            last_failure: self.circuits[i].last_failure.clone(),
        };
        upsert(&mut self.circuits, c);
        Ok(())
    }

    /// Records a success: the circuit closes and its count restarts.
    pub fn success(&mut self, key: &str)
        requires
            old(self).wf(),
        ensures
            final(self).wf(),
            final(self).config() == old(self).config(),
            old(self)@.contains_key(key@) ==> final(self)@ == old(self)@.insert(key@, success_spec(old(self)@[key@])),
            !old(self)@.contains_key(key@) ==> final(self)@ == old(self)@,
    {
        proof {
            lemma_key_map(self.circuits@);
        }
        match search(&self.circuits, key) {
            Err(_) => {},
            Ok(i) => {
                assert(self@[key@] == self.circuits@[i as int]@);
                let c = Circuit {
                    key: self.circuits[i].key.clone(),
                    state: State::Closed,
                    failures: 0,
                    opened_at: self.circuits[i].opened_at,
                    last_failure: String::new(),
                };
                upsert(&mut self.circuits, c);
            },
        }
    }

    /// Records a transient failure at `now` (never a business error).
    pub fn failure_at(&mut self, key: &str, err: &str, now: i64)
        requires
            old(self).wf(),
            old(self)@.contains_key(key@) ==> old(self)@[key@].failures < i64::MAX,
        ensures
            final(self).wf(),
            final(self).config() == old(self).config(),
            final(self)@ == old(self)@.insert(
                key@,
                failure_spec(
                    if old(self)@.contains_key(key@) {
                        Some(old(self)@[key@])
                    } else {
                        None
                    },
                    old(self).config().threshold,
                    err@,
                    now,
                ),
            ),
    {
        proof {
            lemma_key_map(self.circuits@);
        }
        let (state, failures, opened_at) = match search(&self.circuits, key) {
            Ok(i) => {
                assert(self@[key@] == self.circuits@[i as int]@);
                (self.circuits[i].state, self.circuits[i].failures, self.circuits[i].opened_at)
            },
            Err(_) => (State::Closed, 0, None),
        };
        let failures = failures + 1;
        let c = if state == State::HalfOpen || failures >= self.cfg.threshold {
            Circuit { key: owned(key), state: State::Open, failures, opened_at: Some(now), last_failure: owned(err) }
        } else {
            Circuit { key: owned(key), state, failures, opened_at, last_failure: owned(err) }
        };
        upsert(&mut self.circuits, c);
    }

    /// Every circuit's state at `now`, ordered by system.
    pub fn statuses_at(&self, now: i64) -> (r: Vec<Status>)
        requires
            self.wf(),
        ensures
            r@.len() == self@.len(),
            forall|i: int, j: int| 0 <= i < j < r@.len() ==> crate::text::lex_lt(#[trigger] r@[i].key@, #[trigger] r@[j].key@),
            forall|i: int| 0 <= i < r@.len() ==> {
                let s = #[trigger] r@[i];
                &&& self@.contains_key(s.key@)
                &&& s.state == self@[s.key@].state
                &&& s.failures == self@[s.key@].failures
                &&& s.last_failure@ == self@[s.key@].last_failure
                &&& s.retry_in == retry_in_spec(self@[s.key@], self.config().cooldown, now)
            },
    {
        proof {
            lemma_key_map(self.circuits@);
        }
        let mut out: Vec<Status> = Vec::new();
        let mut i: usize = 0;
        while i < self.circuits.len()
            invariant
                i <= self.circuits.len(),
                out@.len() == i,
                forall|j: int| 0 <= j < i ==> {
                    let s = #[trigger] out@[j];
                    let c = self.circuits@[j];
                    &&& s.key@ == c.key@
                    &&& s.state == c.state
                    &&& s.failures == c.failures
                    &&& s.last_failure@ == c.last_failure@
                    &&& s.retry_in == retry_in_spec(c@, self.cfg.cooldown, now)
                },
            decreases self.circuits.len() - i,
        {
            let c = &self.circuits[i];
            let retry_in: u64 = if c.state == State::Open {
                let opened = match c.opened_at {
                    Some(t) => t,
                    None => now,
                };
                let e = elapsed_exec(opened, now);
                if e < self.cfg.cooldown as u128 {
                    (self.cfg.cooldown as u128 - e) as u64
                } else {
                    0
                }
            } else {
                0
            };
            out.push(Status {
                key: c.key.clone(),
                state: c.state,
                failures: c.failures,
                last_failure: c.last_failure.clone(),
                retry_in,
            });
            i = i + 1;
        }
        proof {
            assert forall|i: int, j: int| 0 <= i < j < out@.len() implies crate::text::lex_lt(#[trigger] out@[i].key@, #[trigger] out@[j].key@) by {
                assert(crate::text::lex_lt(self.circuits@[i].key_of(), self.circuits@[j].key_of()));
            }
            assert forall|i: int| 0 <= i < out@.len() implies ({
                let s = #[trigger] out@[i];
                &&& self@.contains_key(s.key@)
                &&& s.state == self@[s.key@].state
                &&& s.failures == self@[s.key@].failures
                &&& s.last_failure@ == self@[s.key@].last_failure
                &&& s.retry_in == retry_in_spec(self@[s.key@], self.cfg.cooldown, now)
            }) by {
                assert(self@.contains_key(self.circuits@[i].key_of()));
            }
        }
        out
    }
}

/// The circuits' states at `now`, ordered by system.
pub open spec fn statuses_are(m: Map<Seq<char>, CircuitV>, cfg: Config, r: Seq<Status>, now: i64) -> bool {
    &&& r.len() == m.len()
    &&& forall|i: int, j: int| 0 <= i < j < r.len() ==> crate::text::lex_lt(#[trigger] r[i].key@, #[trigger] r[j].key@)
    &&& forall|i: int| 0 <= i < r.len() ==> {
        let s = #[trigger] r[i];
        &&& m.contains_key(s.key@)
        &&& s.state == m[s.key@].state
        &&& s.failures == m[s.key@].failures
        &&& s.last_failure@ == m[s.key@].last_failure
        &&& s.retry_in == retry_in_spec(m[s.key@], cfg.cooldown, now)
    }
}

impl Breaker {
    /// [`Breaker::allow_at`] at the wall clock's time.
    pub fn allow(&mut self, key: &str) -> (r: Result<(), ErrOpen>)
        requires
            old(self).wf(),
        ensures
            final(self).wf(),
            final(self).config() == old(self).config(),
            exists|now: i64| #[trigger] allowed_at(old(self)@, old(self).config(), key@, now, r, final(self)@),
    {
        let now = wall_clock_nanos();
        let r = self.allow_at(key, now);
        assert(allowed_at(old(self)@, old(self).config(), key@, now, r, self@));
        r
    }

    /// [`Breaker::statuses_at`] at the wall clock's time.
    pub fn statuses(&self) -> (r: Vec<Status>)
        requires
            self.wf(),
        ensures
            exists|now: i64| #[trigger] statuses_are(self@, self.config(), r@, now),
    {
        let now = wall_clock_nanos();
        let r = self.statuses_at(now);
        assert(statuses_are(self@, self.config(), r@, now));
        r
    }

    /// [`Breaker::failure_at`] at the wall clock's time.
    pub fn failure(&mut self, key: &str, err: &str)
        requires
            old(self).wf(),
            old(self)@.contains_key(key@) ==> old(self)@[key@].failures < i64::MAX,
        ensures
            final(self).wf(),
            final(self).config() == old(self).config(),
            exists|now: i64| final(self)@ == old(self)@.insert(
                key@,
                #[trigger] failure_spec(circuit_of(old(self)@, key@), old(self).config().threshold, err@, now),
            ),
    {
        let now = wall_clock_nanos();
        self.failure_at(key, err, now);
    }
}

/// The circuit of `key`, if it ever failed.
pub open spec fn circuit_of(m: Map<Seq<char>, CircuitV>, key: Seq<char>) -> Option<CircuitV> {
    if m.contains_key(key) {
        Some(m[key])
    } else {
        None
    }
}

/// `r` and `after` are what asking for `key` at `now` gives.
pub open spec fn allowed_at(
    before: Map<Seq<char>, CircuitV>,
    cfg: Config,
    key: Seq<char>,
    now: i64,
    r: Result<(), ErrOpen>,
    after: Map<Seq<char>, CircuitV>,
) -> bool {
    let (wait, next) = allow_spec(
        if before.contains_key(key) {
            Some(before[key])
        } else {
            None
        },
        cfg.cooldown,
        now,
    );
    &&& match wait {
        None => r is Ok,
        Some(w) => r matches Err(e) && e.key@ == key && e.retry_in == w && e.failures == before[key].failures,
    }
    &&& match next {
        Some(c) => after == before.insert(key, c),
        None => after == before,
    }
}

// ---------------------------------------------------------------------------
// Laws
// ---------------------------------------------------------------------------

/// `n` transient failures in a row, all at `now`.
pub open spec fn failures_in_a_row(c: Option<CircuitV>, threshold: i64, err: Seq<char>, now: i64, n: nat) -> Option<CircuitV>
    decreases n,
{
    if n == 0 {
        c
    } else {
        Some(failure_spec(failures_in_a_row(c, threshold, err, now, (n - 1) as nat), threshold, err, now))
    }
}

proof fn lemma_failures_count(threshold: i64, err: Seq<char>, now: i64, n: nat)
    requires
        threshold > 0,
        n < threshold,
    ensures
        n > 0 ==> (failures_in_a_row(None, threshold, err, now, n) matches Some(c) && c.failures == n && c.state
            == State::Closed),
    decreases n,
{
    if n > 0 {
        let prev = failures_in_a_row(None, threshold, err, now, (n - 1) as nat);
        assert(failures_in_a_row(None, threshold, err, now, n) == Some(failure_spec(prev, threshold, err, now)));
        if n > 1 {
            lemma_failures_count(threshold, err, now, (n - 1) as nat);
        } else {
            assert(prev == None::<CircuitV>);
        }
    }
}

/// A circuit that never failed opens exactly at the `threshold`-th
/// consecutive failure, and not before.
pub proof fn law_opens_at_threshold(threshold: i64, err: Seq<char>, now: i64, n: nat)
    requires
        threshold > 0,
        0 < n <= threshold,
    ensures
        failures_in_a_row(None, threshold, err, now, n) matches Some(c) && (c.state == State::Open <==> n
            == threshold),
{
    if n < threshold {
        lemma_failures_count(threshold, err, now, n);
    } else {
        let prev = failures_in_a_row(None, threshold, err, now, (n - 1) as nat);
        assert(failures_in_a_row(None, threshold, err, now, n) == Some(failure_spec(prev, threshold, err, now)));
        if n > 1 {
            lemma_failures_count(threshold, err, now, (n - 1) as nat);
        } else {
            assert(prev == None::<CircuitV>);
        }
    }
}

/// A failure while half-open reopens the circuit whatever the count, and a
/// success always closes it.
pub proof fn law_half_open(c: CircuitV, threshold: i64, err: Seq<char>, now: i64)
    requires
        c.failures < i64::MAX,
    ensures
        c.state == State::HalfOpen ==> failure_spec(Some(c), threshold, err, now).state == State::Open,
        success_spec(c).state == State::Closed,
        allow_spec(Some(success_spec(c)), default_cooldown(), now).0 is None,
{
}

/// An open circuit refuses until the cooldown has passed and then lets a
/// probe through; the wait it reports never exceeds the cooldown and
/// shrinks as time passes.
pub proof fn law_cooldown(c: CircuitV, cooldown: u64, t1: i64, t2: i64)
    requires
        c.state == State::Open,
        c.opened_at is Some,
        t1 <= t2,
    ensures
        allow_spec(Some(c), cooldown, t1).0 matches Some(w) ==> 0 < w <= cooldown,
        allow_spec(Some(c), cooldown, t1).0 matches Some(w1) ==> match allow_spec(Some(c), cooldown, t2).0 {
            Some(w2) => w2 <= w1,
            None => true,
        },
        allow_spec(Some(c), cooldown, t2).0 is None ==> (allow_spec(Some(c), cooldown, t2).1 matches Some(after)
            && after.state == State::HalfOpen),
{
}

} // verus!
