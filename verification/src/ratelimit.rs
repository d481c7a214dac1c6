//! Calls per minute, in fixed windows.
//!
//! A window starts at a key's first call and lasts a minute; at a window's
//! boundary up to twice the limit can pass in a short time, a trade-off
//! accepted for a guard whose purpose is to stop runaways. A limit that is
//! not positive means no limit. Times are nanoseconds since the epoch.
use vstd::prelude::*;
use crate::keyed::{Keyed, sorted_keys, key_map, lemma_key_map, search, upsert};
use crate::text::owned;
use crate::clock::wall_clock_nanos;

verus! {

pub open spec fn minute() -> int {
    60_000_000_000
}

/// One key's window: when it started and how many calls it counted.
pub struct WindowV {
    pub start: i64,
    pub count: i64,
}

struct Window {
    key: String,
    start: i64,
    count: i64,
}

impl View for Window {
    type V = WindowV;

    closed spec fn view(&self) -> WindowV {
        WindowV { start: self.start, count: self.count }
    }
}

impl Keyed for Window {
    closed spec fn key_of(&self) -> Seq<char> {
        self.key@
    }

    fn key(&self) -> (r: &str) {
        self.key.as_str()
    }
}

/// The window of a key after one call at `now`: a new or expired window
/// restarts at `now`; the call is counted.
pub open spec fn counted(w: Option<WindowV>, now: i64) -> WindowV {
    let w0 = match w {
        Some(w) => if now - w.start >= minute() {
            WindowV { start: now, count: 0 }
        } else {
            w
        },
        None => WindowV { start: now, count: 0 },
    };
    WindowV { start: w0.start, count: (w0.count + 1) as i64 }
}

/// The window of `key`, if it has one.
pub open spec fn window_of(m: Map<Seq<char>, WindowV>, key: Seq<char>) -> Option<WindowV> {
    if m.contains_key(key) {
        Some(m[key])
    } else {
        None
    }
}

/// A call can be counted without overflow.
pub open spec fn countable(m: Map<Seq<char>, WindowV>, key: Seq<char>) -> bool {
    m.contains_key(key) ==> m[key].count < i64::MAX
}

/// A limiter of calls per minute and key.
pub trait Limiter: View<V = Map<Seq<char>, WindowV>> {
    spec fn limiter_wf(&self) -> bool;

    /// Whether one more call for `key` fits `limit` in the current window;
    /// the call is counted when the limit is positive.
    fn allow(&mut self, key: &str, limit: i64) -> (r: bool)
        requires
            old(self).limiter_wf(),
            countable(old(self)@, key@),
        ensures
            final(self).limiter_wf(),
            limit <= 0 ==> r && final(self)@ == old(self)@,
            limit > 0 ==> exists|now: i64| {
                let w = #[trigger] counted(window_of(old(self)@, key@), now);
                &&& final(self)@ == old(self)@.insert(key@, w)
                &&& r == (w.count <= limit)
            },
    ;
}

/// Counters in process memory (one instance).
pub struct Memory {
    windows: Vec<Window>,
}

impl View for Memory {
    type V = Map<Seq<char>, WindowV>;

    closed spec fn view(&self) -> Map<Seq<char>, WindowV> {
        key_map(self.windows@)
    }
}

impl Memory {
    pub closed spec fn wf(&self) -> bool {
        sorted_keys(self.windows@)
    }

    pub fn new() -> (r: Memory)
        ensures
            r.wf(),
            r@ == Map::<Seq<char>, WindowV>::empty(),
    {
        Memory { windows: Vec::new() }
    }

    /// Counts a call for `key` at `now` against `limit`; true when it
    /// fits. A limit that is not positive allows every call and counts
    /// nothing.
    pub fn allow_at(&mut self, key: &str, limit: i64, now: i64) -> (r: bool)
        requires
            old(self).wf(),
            countable(old(self)@, key@),
        ensures
            final(self).wf(),
            limit <= 0 ==> r && final(self)@ == old(self)@,
            limit > 0 ==> final(self)@ == old(self)@.insert(key@, counted(window_of(old(self)@, key@), now)) && r == (
            counted(window_of(old(self)@, key@), now).count <= limit),
    {
        if limit <= 0 {
            return true;
        }
        proof {
            lemma_key_map(self.windows@);
        }
        let (start, count) = match search(&self.windows, key) {
            Ok(i) => {
                assert(self@[key@] == self.windows@[i as int]@);
                let w = &self.windows[i];
                if (now as i128) - (w.start as i128) >= 60_000_000_000 {
                    (now, 0)
                } else {
                    (w.start, w.count)
                }
            },
            Err(_) => (now, 0),
        };
        let count = count + 1;
        upsert(&mut self.windows, Window { key: owned(key), start, count });
        count <= limit
    }
}

impl Limiter for Memory {
    closed spec fn limiter_wf(&self) -> bool {
        self.wf()
    }

    fn allow(&mut self, key: &str, limit: i64) -> (r: bool) {
        let now = wall_clock_nanos();
        let r = self.allow_at(key, limit, now);
        if limit > 0 {
            assert(self@ == old(self)@.insert(key@, counted(window_of(old(self)@, key@), now)));
        }
        r
    }
}

/// `n` calls for one key within the same instant, from no window: the
/// window counts `n`.
pub open spec fn calls_at(now: i64, n: nat) -> WindowV
    decreases n,
{
    if n == 0 {
        WindowV { start: now, count: 0 }
    } else {
        counted(Some(calls_at(now, (n - 1) as nat)), now)
    }
}

/// Within one window exactly `limit` calls pass: the `n`-th call of a fresh
/// window is allowed if and only if `n <= limit`.
pub proof fn law_fixed_window(now: i64, n: nat, limit: i64)
    requires
        0 < n < i64::MAX,
        limit > 0,
    ensures
        calls_at(now, n).start == now,
        calls_at(now, n).count == n,
        (calls_at(now, n).count <= limit) <==> n <= limit,
    decreases n,
{
    let prev = calls_at(now, (n - 1) as nat);
    if n > 1 {
        law_fixed_window(now, (n - 1) as nat, limit);
    } else {
        assert(prev == WindowV { start: now, count: 0 });
    }
    assert(calls_at(now, n) == counted(Some(prev), now));
}

/// A window older than a minute restarts: the first call after it is
/// allowed for any positive limit.
pub proof fn law_window_resets(w: WindowV, now: i64, limit: i64)
    requires
        now - w.start >= 60_000_000_000,
        limit > 0,
    ensures
        counted(Some(w), now) == (WindowV { start: now, count: 1 }),
        counted(Some(w), now).count <= limit,
{
}

/// A window lasts a full minute: while less than sixty seconds have passed
/// since it started, a call is counted in it (same start, one more call);
/// so a key that has used its limit is refused until a minute after its
/// window began.
pub proof fn law_window_lasts_a_minute(w: WindowV, now: i64, limit: i64)
    requires
        now - w.start < 60_000_000_000,
        w.count < i64::MAX,
    ensures
        counted(Some(w), now) == (WindowV { start: w.start, count: (w.count + 1) as i64 }),
        limit > 0 && w.count >= limit ==> counted(Some(w), now).count > limit,
{
}

} // verus!
