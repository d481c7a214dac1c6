//! Per-session model-cost ceilings.
//!
//! A session that has reached its ceiling is refused from its next tool
//! call on: spent cost cannot be taken back, so the ceiling means "stop
//! here", not "never cross". The cost of refused calls is still counted.
use vstd::prelude::*;
use crate::keyed::{Keyed, sorted_keys, key_map, lemma_key_map, search, upsert};
use crate::text::{owned, concat3, debug_quote, debug_text, int_to_string, int_text};

verus! {

broadcast use vstd::seq_lib::group_to_multiset_ensures;

/// The ceiling was reached.
#[derive(Debug)]
pub struct Exceeded {
    pub key: String,
    pub spent_micros: i64,
    pub limit_micros: i64,
}

/// How the refusal reads.
pub open spec fn exceeded_text(key: Seq<char>, spent: i64, limit: i64) -> Seq<char> {
    "budget: 세션 "@ + debug_text(key) + " 이(가) 비용 상한을 초과했습니다(사용 "@ + int_text(spent as int) + ", 상한 "@
        + int_text(limit as int) + " micros)"@
}

impl Exceeded {
    pub fn text(&self) -> (r: String)
        ensures
            r@ == exceeded_text(self.key@, self.spent_micros, self.limit_micros),
    {
        let a = concat3("budget: 세션 ", debug_quote(self.key.as_str()).as_str(), " 이(가) 비용 상한을 초과했습니다(사용 ");
        let b = concat3(a.as_str(), int_to_string(self.spent_micros as i128).as_str(), ", 상한 ");
        concat3(b.as_str(), int_to_string(self.limit_micros as i128).as_str(), " micros)")
    }
}

/// One session's accumulated cost.
#[derive(Debug)]
pub struct Entry {
    pub key: String,
    pub spent_micros: i64,
}

impl View for Entry {
    type V = i64;

    open spec fn view(&self) -> i64 {
        self.spent_micros
    }
}

impl Keyed for Entry {
    open spec fn key_of(&self) -> Seq<char> {
        self.key@
    }

    fn key(&self) -> (r: &str) {
        self.key.as_str()
    }
}

impl Entry {
    pub fn copy(&self) -> (r: Entry)
        ensures
            r == *self,
    {
        Entry { key: self.key.clone(), spent_micros: self.spent_micros }
    }
}

/// Costs kept in process memory (one instance).
pub struct Memory {
    spent: Vec<Entry>,
    limit: i64,
}

impl View for Memory {
    type V = Map<Seq<char>, i64>;

    closed spec fn view(&self) -> Map<Seq<char>, i64> {
        key_map(self.spent@)
    }
}

/// What a session has spent (0 when it never reported a cost).
pub open spec fn spent_of(m: Map<Seq<char>, i64>, key: Seq<char>) -> i64 {
    if m.contains_key(key) {
        m[key]
    } else {
        0
    }
}

impl Memory {
    pub closed spec fn wf(&self) -> bool {
        sorted_keys(self.spent@)
    }

    /// The ceiling in micros; 0 means none.
    pub closed spec fn ceiling(&self) -> i64 {
        self.limit
    }

    /// The entries in key order.
    pub closed spec fn entries(&self) -> Seq<Entry> {
        self.spent@
    }

    /// A tracker with this ceiling; a ceiling that is not positive means
    /// none.
    pub fn new(limit_micros: i64) -> (r: Memory)
        ensures
            r.wf(),
            r@ == Map::<Seq<char>, i64>::empty(),
            r.ceiling() == if limit_micros > 0 {
                limit_micros
            } else {
                0
            },
    {
        Memory { spent: Vec::new(), limit: if limit_micros > 0 { limit_micros } else { 0 } }
    }

    /// Refuses a session that has spent its ceiling or more.
    pub fn check(&self, key: &str) -> (r: Result<(), Exceeded>)
        requires
            self.wf(),
        ensures
            self.ceiling() > 0 && spent_of(self@, key@) >= self.ceiling() ==> (r matches Err(e) && e.key@ == key@
                && e.spent_micros == spent_of(self@, key@) && e.limit_micros == self.ceiling()),
            !(self.ceiling() > 0 && spent_of(self@, key@) >= self.ceiling()) ==> r is Ok,
    {
        if self.limit <= 0 {
            return Ok(());
        }
        let spent = self.spent_by(key);
        if spent >= self.limit {
            return Err(Exceeded { key: owned(key), spent_micros: spent, limit_micros: self.limit });
        }
        Ok(())
    }

    fn spent_by(&self, key: &str) -> (r: i64)
        requires
            self.wf(),
        ensures
            r == spent_of(self@, key@),
    {
        proof {
            lemma_key_map(self.spent@);
        }
        match search(&self.spent, key) {
            Ok(i) => self.spent[i].spent_micros,
            Err(_) => 0,
        }
    }

    /// Adds a cost and returns the session's new total; a zero cost leaves
    /// no trace (0 is returned).
    pub fn add(&mut self, key: &str, micros: i64) -> (r: i64)
        requires
            old(self).wf(),
            i64::MIN <= spent_of(old(self)@, key@) + micros <= i64::MAX,
        ensures
            final(self).wf(),
            final(self).ceiling() == old(self).ceiling(),
            micros == 0 ==> r == 0 && final(self)@ == old(self)@,
            micros != 0 ==> r == spent_of(old(self)@, key@) + micros && final(self)@ == old(self)@.insert(key@, r),
    {
        if micros == 0 {
            return 0;
        }
        let total = self.spent_by(key) + micros;
        upsert(&mut self.spent, Entry { key: owned(key), spent_micros: total });
        total
    }

    /// What is left of the ceiling, never negative; -1 without a ceiling.
    pub fn remaining(&self, key: &str) -> (r: i64)
        requires
            self.wf(),
            self.ceiling() > 0 ==> self.ceiling() - spent_of(self@, key@) <= i64::MAX,
        ensures
            self.ceiling() <= 0 ==> r == -1,
            self.ceiling() > 0 ==> r == if self.ceiling() - spent_of(self@, key@) > 0 {
                self.ceiling() - spent_of(self@, key@)
            } else {
                0
            },
    {
        if self.limit <= 0 {
            return -1;
        }
        let left = self.limit - self.spent_by(key);
        if left > 0 {
            left
        } else {
            0
        }
    }

    /// The ceiling; 0 means none.
    pub fn limit(&self) -> (r: i64)
        ensures
            r == self.ceiling(),
    {
        self.limit
    }

    /// Every session's total, highest first.
    pub fn snapshot(&self) -> (r: Vec<Entry>)
        requires
            self.wf(),
        ensures
            r@.to_multiset() == self.entries().to_multiset(),
            r@.len() == self@.len(),
            forall|i: int| 0 <= i < r@.len() ==> self@.contains_key(#[trigger] r@[i].key@) && self@[r@[i].key@]
                == r@[i].spent_micros,
            forall|i: int, j: int| 0 <= i < j < r@.len() ==> r@[i].spent_micros >= r@[j].spent_micros,
    {
        let mut out: Vec<Entry> = Vec::new();
        let mut i: usize = 0;
        while i < self.spent.len()
            invariant
                i <= self.spent.len(),
                out@.to_multiset() == self.spent@.take(i as int).to_multiset(),
                forall|a: int, b: int| 0 <= a < b < out@.len() ==> out@[a].spent_micros >= out@[b].spent_micros,
            decreases self.spent.len() - i,
        {
            let e = self.spent[i].copy();
            // The first place whose total is below this one keeps the order
            // highest first.
            let mut at: usize = 0;
            while at < out.len() && out[at].spent_micros >= e.spent_micros
                invariant
                    at <= out.len(),
                    forall|a: int| 0 <= a < at ==> out@[a].spent_micros >= e.spent_micros,
                decreases out.len() - at,
            {
                at = at + 1;
            }
            let ghost before = out@;
            out.insert(at, e);
            proof {
                assert(out@ == before.insert(at as int, e));
                assert(self.spent@.take(i + 1) =~= self.spent@.take(i as int).push(self.spent@[i as int]));
                assert forall|a: int, b: int| 0 <= a < b < out@.len() implies out@[a].spent_micros >= out@[b].spent_micros by {
                    if b < at {
                        assert(out@[a] == before[a] && out@[b] == before[b]);
                    } else if b == at {
                        assert(out@[a] == before[a]);
                    } else if a < at {
                        assert(out@[a] == before[a] && out@[b] == before[b - 1]);
                        if at < before.len() {
                            assert(before[at as int].spent_micros < e.spent_micros);
                        }
                    } else if a == at {
                        assert(out@[b] == before[b - 1]);
                        assert(before[at as int].spent_micros < e.spent_micros);
                    } else {
                        assert(out@[a] == before[a - 1] && out@[b] == before[b - 1]);
                    }
                }
            }
            i = i + 1;
        }
        assert(self.spent@.take(self.spent@.len() as int) =~= self.spent@);
        proof {
            lemma_key_map(self.spent@);
            vstd::seq_lib::to_multiset_len(out@);
            vstd::seq_lib::to_multiset_len(self.spent@);
            assert forall|i: int| 0 <= i < out@.len() implies self@.contains_key(#[trigger] out@[i].key@) && self@[out@[i].key@]
                == out@[i].spent_micros by {
                assert(out@.to_multiset().contains(out@[i]));
                assert(self.spent@.contains(out@[i]));
                let k = choose|k: int| 0 <= k < self.spent@.len() && self.spent@[k] == out@[i];
                assert(self.spent@[k].key_of() == out@[i].key@);
            }
        }
        out
    }
}

/// The refusal depends on the session alone: spending on one session never
/// refuses another.
pub proof fn law_sessions_independent(m: Map<Seq<char>, i64>, a: Seq<char>, b: Seq<char>, micros: i64)
    requires
        a != b,
        micros != 0,
    ensures
        spent_of(m.insert(a, (spent_of(m, a) + micros) as i64), b) == spent_of(m, b),
{
}

} // verus!
