//! Enforcing retention: audit records are exported, then deleted.
//!
//! Each tool declares how many days its records are kept. Records of tools
//! that left the registry are kept by default (a default of 0): otherwise
//! renaming a tool would erase its audit trail.
//!
//! The order is the contract: export, then delete. A failed export deletes
//! nothing and stops the purge; a batch exported but not deleted is
//! exported again next time (at least once, never lost).
use vstd::prelude::*;
use crate::keyed::{Keyed, sorted_keys, upsert};
use crate::text::owned;

verus! {

/// How many records one batch exports and deletes.
pub const PURGE_BATCH: i64 = 500;

/// Nanoseconds in a day.
pub const NANOS_PER_DAY: i64 = 86_400_000_000_000;

/// The days one tool's records are kept; zero or less keeps them forever.
pub struct Retention {
    pub tool: String,
    pub days: i64,
}

impl View for Retention {
    type V = (Seq<char>, i64);

    open spec fn view(&self) -> (Seq<char>, i64) {
        (self.tool@, self.days)
    }
}

impl Keyed for Retention {
    open spec fn key_of(&self) -> Seq<char> {
        self.tool@
    }

    fn key(&self) -> (r: &str) {
        self.tool.as_str()
    }
}

/// Retention per tool.
pub struct Policy {
    /// Kept sorted by tool.
    pub by_tool: Vec<Retention>,
    /// The days for tools not listed; zero keeps them forever (the default).
    pub default: i64,
}

impl Policy {
    pub open spec fn wf(&self) -> bool {
        sorted_keys(self.by_tool@)
    }

    pub fn new(default: i64) -> (r: Policy)
        ensures
            r.wf(),
            r.by_tool@.len() == 0,
            r.default == default,
    {
        Policy { by_tool: Vec::new(), default }
    }

    /// Sets one tool's retention.
    pub fn set(&mut self, tool: &str, days: i64)
        requires
            old(self).wf(),
        ensures
            final(self).wf(),
            crate::keyed::key_map(final(self).by_tool@) == crate::keyed::key_map(old(self).by_tool@).insert(
                tool@,
                (tool@, days),
            ),
            final(self).default == old(self).default,
    {
        upsert(&mut self.by_tool, Retention { tool: owned(tool), days });
    }
}

/// What a purge did.
pub struct Purged {
    pub deleted: i64,
    /// Records deleted per tool, for tools where some were.
    pub by_tool: Vec<(String, i64)>,
    /// Tools kept forever, left alone.
    pub skipped: Vec<String>,
}

pub open spec fn cutoff_spec(now: i64, days: i64) -> int {
    now - days * NANOS_PER_DAY
}

pub open spec fn cutoff_fits(now: i64, days: i64) -> bool {
    i64::MIN <= cutoff_spec(now, days) <= i64::MAX
}

/// The instant `days` days before `now`.
pub fn cutoff(now: i64, days: i64) -> (r: i64)
    requires
        cutoff_fits(now, days),
    ensures
        r == cutoff_spec(now, days),
{
    let d: i128 = (days as i128) * (NANOS_PER_DAY as i128);
    assert(-9_223_372_036_854_775_808i128 * 86_400_000_000_000i128 <= d <= 9_223_372_036_854_775_807i128
        * 86_400_000_000_000i128) by (nonlinear_arith)
        requires
            d == (days as i128) * (NANOS_PER_DAY as i128),
            NANOS_PER_DAY == 86_400_000_000_000i64,
            i64::MIN <= days <= i64::MAX,
    ;
    ((now as i128) - d) as i64
}

/// One pass of the purge: records of one tool (or of every tool not
/// excluded) older than `before`.
pub struct Sweep {
    pub tool: Option<String>,
    pub exclude: Vec<String>,
    pub before: i64,
}

pub ghost struct SweepV {
    pub tool: Option<Seq<char>>,
    pub exclude: Seq<Seq<char>>,
    pub before: int,
}

pub open spec fn opt_text(t: Option<String>) -> Option<Seq<char>> {
    match t {
        Some(s) => Some(s@),
        None => None,
    }
}

pub open spec fn texts(v: Seq<String>) -> Seq<Seq<char>> {
    Seq::new(v.len(), |i: int| v[i]@)
}

impl View for Sweep {
    type V = SweepV;

    open spec fn view(&self) -> SweepV {
        SweepV { tool: opt_text(self.tool), exclude: texts(self.exclude@), before: self.before as int }
    }
}

/// The sweeps for the listed tools kept a limited time, in tool order.
pub open spec fn tool_sweeps(s: Seq<Retention>, now: i64) -> Seq<SweepV>
    decreases s.len(),
{
    if s.len() == 0 {
        Seq::empty()
    } else if s.last().days > 0 {
        tool_sweeps(s.drop_last(), now).push(
            SweepV { tool: Some(s.last().tool@), exclude: Seq::empty(), before: cutoff_spec(now, s.last().days) },
        )
    } else {
        tool_sweeps(s.drop_last(), now)
    }
}

/// The listed tools kept forever, in tool order.
pub open spec fn skipped_tools(s: Seq<Retention>) -> Seq<Seq<char>>
    decreases s.len(),
{
    if s.len() == 0 {
        Seq::empty()
    } else if s.last().days > 0 {
        skipped_tools(s.drop_last())
    } else {
        skipped_tools(s.drop_last()).push(s.last().tool@)
    }
}

pub open spec fn tool_names(s: Seq<Retention>) -> Seq<Seq<char>> {
    Seq::new(s.len(), |i: int| s[i].tool@)
}

/// The sweeps of a purge: each listed tool with a positive retention, in
/// tool order; then, where the default is positive, every tool not listed
/// (a tool listed as kept forever is not swept by the default either).
pub open spec fn plan_spec(p: Policy, now: i64) -> Seq<SweepV> {
    tool_sweeps(p.by_tool@, now) + if p.default > 0 {
        seq![SweepV { tool: None, exclude: tool_names(p.by_tool@), before: cutoff_spec(now, p.default) }]
    } else {
        Seq::empty()
    }
}

/// Every cutoff the policy asks for is representable.
pub open spec fn plan_fits(p: Policy, now: i64) -> bool {
    &&& forall|i: int| 0 <= i < p.by_tool@.len() && p.by_tool@[i].days > 0 ==> cutoff_fits(now, #[trigger] p.by_tool@[i].days)
    &&& p.default > 0 ==> cutoff_fits(now, p.default)
}

/// The sweeps a purge runs, and the tools it leaves alone.
pub fn plan(p: &Policy, now: i64) -> (r: (Vec<Sweep>, Vec<String>))
    requires
        plan_fits(*p, now),
    ensures
        r.0@.map_values(|s: Sweep| s@) == plan_spec(*p, now),
        texts(r.1@) == skipped_tools(p.by_tool@),
{
    let mut sweeps: Vec<Sweep> = Vec::new();
    let mut skipped: Vec<String> = Vec::new();
    let mut names: Vec<String> = Vec::new();
    let n = p.by_tool.len();
    let mut i: usize = 0;
    while i < n
        invariant
            i <= n,
            n == p.by_tool@.len(),
            plan_fits(*p, now),
            sweeps@.map_values(|s: Sweep| s@) == tool_sweeps(p.by_tool@.take(i as int), now),
            texts(skipped@) == skipped_tools(p.by_tool@.take(i as int)),
            texts(names@) == tool_names(p.by_tool@.take(i as int)),
        decreases n - i,
    {
        let r = &p.by_tool[i];
        let ghost pre = p.by_tool@.take(i as int);
        let ghost post = p.by_tool@.take(i + 1);
        assert(post.drop_last() =~= pre);
        assert(post.last() == p.by_tool@[i as int]);
        if r.days > 0 {
            let before = cutoff(now, r.days);
            let ghost old_sweeps = sweeps@;
            sweeps.push(Sweep { tool: Some(r.tool.clone()), exclude: Vec::new(), before });
            assert(sweeps@.map_values(|s: Sweep| s@) =~= old_sweeps.map_values(|s: Sweep| s@).push(
                SweepV { tool: Some(r.tool@), exclude: Seq::empty(), before: cutoff_spec(now, r.days) },
            )) by {
                assert(texts(Seq::<String>::empty()) =~= Seq::<Seq<char>>::empty());
            }
        } else {
            let ghost old_skipped = skipped@;
            skipped.push(r.tool.clone());
            assert(texts(skipped@) =~= texts(old_skipped).push(r.tool@));
        }
        let ghost old_names = names@;
        names.push(r.tool.clone());
        assert(texts(names@) =~= texts(old_names).push(r.tool@));
        assert(tool_names(post) =~= tool_names(pre).push(r.tool@));
        i = i + 1;
    }
    assert(p.by_tool@.take(n as int) =~= p.by_tool@);
    if p.default > 0 {
        let before = cutoff(now, p.default);
        let ghost old_sweeps = sweeps@;
        sweeps.push(Sweep { tool: None, exclude: names, before });
        assert(sweeps@.map_values(|s: Sweep| s@) =~= plan_spec(*p, now));
    } else {
        assert(sweeps@.map_values(|s: Sweep| s@) =~= plan_spec(*p, now));
    }
    (sweeps, skipped)
}

/// What the store reports back to a purge.
pub enum PurgeEvent {
    /// The ids of the oldest records the current sweep selects, at most a
    /// batch; none when the sweep is through.
    Batch(Vec<i64>),
    Exported,
    ExportFailed,
    /// How many of the exported records were deleted.
    Deleted(i64),
}

/// What a purge asks the store to do next.
pub enum PurgeStep {
    /// Select a batch for this sweep.
    Select(usize),
    /// Export the batch just selected.
    Export,
    /// Delete exactly these records: the batch just exported.
    Delete(Vec<i64>),
    /// The export failed: stop, delete nothing more.
    Abort,
    Done,
}

#[derive(Clone, Copy, PartialEq, Eq, Debug, Structural)]
pub enum Phase {
    Selecting,
    Exporting,
    Deleting,
    Finished,
}

/// A purge in progress.
pub struct PurgeRun {
    pub sweeps: Vec<Sweep>,
    pub at: usize,
    pub phase: Phase,
    /// The ids of the batch being exported and deleted.
    pub pending: Vec<i64>,
    /// Records deleted by the current sweep.
    pub swept: i64,
    pub out: Purged,
}

pub open spec fn expects(phase: Phase, ev: PurgeEvent) -> bool {
    match ev {
        PurgeEvent::Batch(_) => phase == Phase::Selecting,
        PurgeEvent::Exported | PurgeEvent::ExportFailed => phase == Phase::Exporting,
        PurgeEvent::Deleted(n) => phase == Phase::Deleting && n >= 0,
    }
}

impl PurgeRun {
    pub open spec fn wf(&self) -> bool {
        &&& self.at <= self.sweeps@.len()
        &&& self.phase != Phase::Finished ==> self.at < self.sweeps@.len()
        &&& 0 <= self.swept <= self.out.deleted
    }

    /// Starts a purge: the first sweep is selected, or nothing is to do.
    pub fn start(p: &Policy, now: i64) -> (r: (PurgeRun, PurgeStep))
        requires
            plan_fits(*p, now),
        ensures
            r.0.wf(),
            r.0.sweeps@.map_values(|s: Sweep| s@) == plan_spec(*p, now),
            texts(r.0.out.skipped@) == skipped_tools(p.by_tool@),
            r.0.out.deleted == 0,
            r.0.out.by_tool@.len() == 0,
            r.0.at == 0,
            r.0.swept == 0,
            plan_spec(*p, now).len() > 0 ==> r.0.phase == Phase::Selecting && r.1 matches PurgeStep::Select(0),
            plan_spec(*p, now).len() == 0 ==> r.0.phase == Phase::Finished && r.1 is Done,
    {
        let (sweeps, skipped) = plan(p, now);
        let ghost sv = sweeps@.map_values(|s: Sweep| s@);
        assert(sv.len() == sweeps@.len());
        let any = sweeps.len() > 0;
        let run = PurgeRun {
            sweeps,
            at: 0,
            phase: if any {
                Phase::Selecting
            } else {
                Phase::Finished
            },
            pending: Vec::new(),
            swept: 0,
            out: Purged { deleted: 0, by_tool: Vec::new(), skipped },
        };
        if any {
            (run, PurgeStep::Select(0))
        } else {
            (run, PurgeStep::Done)
        }
    }

    /// Takes what the store reports and says what it does next. A batch is
    /// exported before anything is deleted; only the ids just exported are
    /// deleted; a failed export stops the purge with nothing more deleted.
    pub fn on(&mut self, ev: PurgeEvent) -> (r: PurgeStep)
        requires
            old(self).wf(),
            expects(old(self).phase, ev),
            ev matches PurgeEvent::Deleted(n) ==> old(self).out.deleted + n <= i64::MAX,
        ensures
            final(self).wf(),
            final(self).sweeps == old(self).sweeps,
            final(self).out.skipped == old(self).out.skipped,
            match ev {
                PurgeEvent::Batch(ids) => if ids@.len() > 0 {
                    &&& r is Export
                    &&& final(self).phase == Phase::Exporting
                    &&& final(self).pending@ == ids@
                    &&& final(self).at == old(self).at
                    &&& final(self).out == old(self).out
                } else {
                    &&& final(self).at == old(self).at + 1
                    &&& final(self).swept == 0
                    &&& final(self).out.deleted == old(self).out.deleted
                    &&& final(self).out.by_tool@ == (match old(self).sweeps@[old(self).at as int].tool {
                        Some(t) => if old(self).swept > 0 {
                            old(self).out.by_tool@.push((t, old(self).swept))
                        } else {
                            old(self).out.by_tool@
                        },
                        None => old(self).out.by_tool@,
                    })
                    &&& final(self).at < old(self).sweeps@.len() ==> (r matches PurgeStep::Select(k) && k
                        == final(self).at && final(self).phase == Phase::Selecting)
                    &&& final(self).at == old(self).sweeps@.len() ==> (r is Done && final(self).phase
                        == Phase::Finished)
                },
                PurgeEvent::Exported => {
                    &&& r matches PurgeStep::Delete(ids) && ids@ == old(self).pending@
                    &&& final(self).phase == Phase::Deleting
                    &&& final(self).out == old(self).out
                    &&& final(self).pending == old(self).pending
                    &&& final(self).at == old(self).at
                },
                PurgeEvent::ExportFailed => {
                    &&& r is Abort
                    &&& final(self).phase == Phase::Finished
                    &&& final(self).out == old(self).out
                },
                PurgeEvent::Deleted(n) => {
                    &&& r matches PurgeStep::Select(k) && k == old(self).at
                    &&& final(self).phase == Phase::Selecting
                    &&& final(self).at == old(self).at
                    &&& final(self).swept == old(self).swept + n
                    &&& final(self).out.deleted == old(self).out.deleted + n
                    &&& final(self).out.by_tool == old(self).out.by_tool
                },
            },
    {
        match ev {
            PurgeEvent::Batch(ids) => {
                if ids.len() > 0 {
                    self.pending = ids;
                    self.phase = Phase::Exporting;
                    PurgeStep::Export
                } else {
                    let at = self.at;
                    let len = self.sweeps.len();
                    assert(at < len);
                    match &self.sweeps[at].tool {
                        Some(t) => {
                            if self.swept > 0 {
                                self.out.by_tool.push((t.clone(), self.swept));
                            }
                        },
                        None => {},
                    }
                    self.swept = 0;
                    self.at = at + 1;
                    if self.at < len {
                        self.phase = Phase::Selecting;
                        PurgeStep::Select(self.at)
                    } else {
                        self.phase = Phase::Finished;
                        PurgeStep::Done
                    }
                }
            },
            PurgeEvent::Exported => {
                self.phase = Phase::Deleting;
                PurgeStep::Delete(self.pending.clone())
            },
            PurgeEvent::ExportFailed => {
                self.phase = Phase::Finished;
                PurgeStep::Abort
            },
            PurgeEvent::Deleted(n) => {
                self.swept = self.swept + n;
                self.out.deleted = self.out.deleted + n;
                self.phase = Phase::Selecting;
                PurgeStep::Select(self.at)
            },
        }
    }
}

} // verus!
