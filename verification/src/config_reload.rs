//! Reloading the configuration bundle in order, and rolling back.
//!
//! The steps run in order, and when a later step fails the earlier ones are
//! undone: the gateway never runs on a half-applied configuration.
//!
//! 1. policy: a failure stops at once (nothing to undo);
//! 2. inventory: a failure rolls the policy back;
//! 3. tool catalog: a failure rolls back inventory and policy, and restores
//!    the catalog file;
//! 4. principals: a failure restores the catalog and rolls back inventory and
//!    policy.
//!
//! The reloads themselves touch files and shared state; here is what is
//! decided between them.
use vstd::prelude::*;
use crate::text::{concat, concat3, owned, str_eq};

verus! {

/// One step's outcome.
pub struct ReloadStepResult {
    pub name: String,
    pub ok: bool,
    pub message: String,
}

/// The bundle's outcome.
pub struct ReloadBundleResult {
    pub steps: Vec<ReloadStepResult>,
    /// Rolled back: nothing was applied.
    pub rolled_back: bool,
}

pub ghost struct StepV {
    pub name: Seq<char>,
    pub ok: bool,
    pub message: Seq<char>,
}

pub open spec fn steps_view(s: Seq<ReloadStepResult>) -> Seq<StepV> {
    Seq::new(s.len(), |i: int| StepV { name: s[i].name@, ok: s[i].ok, message: s[i].message@ })
}

impl ReloadBundleResult {
    pub fn new() -> (r: ReloadBundleResult)
        ensures
            r.steps@.len() == 0,
            !r.rolled_back,
    {
        ReloadBundleResult { steps: Vec::new(), rolled_back: false }
    }

    /// Appends one step's outcome.
    pub fn step(&mut self, name: &str, ok: bool, message: &str)
        ensures
            steps_view(final(self).steps@) == steps_view(old(self).steps@).push(
                StepV { name: name@, ok, message: message@ },
            ),
            final(self).rolled_back == old(self).rolled_back,
    {
        let ghost before = self.steps@;
        self.steps.push(ReloadStepResult { name: owned(name), ok, message: owned(message) });
        assert(steps_view(self.steps@) =~= steps_view(before).push(StepV { name: name@, ok, message: message@ }));
    }
}

/// Where the bundle reload stands.
#[derive(Clone, Copy, PartialEq, Eq, Debug, Structural)]
pub enum ReloadStage {
    Policy,
    Inventory,
    Catalog,
    Principal,
    /// Waiting for the policy rollback after an inventory failure.
    UndoPolicy,
    /// Waiting for catalog, inventory and policy to be rolled back.
    UndoAll,
    Done,
}

/// What one step did. `None` means that the step is not configured.
pub enum ReloadEvent {
    Policy(Option<Result<String, String>>),
    Inventory(Option<Result<String, String>>),
    Catalog(Option<Result<String, String>>),
    Principal(Option<Result<(), String>>),
    /// The policy rollback ran; `true` if it succeeded.
    PolicyRolledBack(bool),
    /// Catalog file, inventory and policy were rolled back.
    AllRolledBack,
}

/// What to do next.
#[derive(Clone, Copy, PartialEq, Eq, Debug, Structural)]
pub enum ReloadAction {
    ReloadInventory,
    ReloadCatalog,
    ReloadPrincipal,
    /// Roll the policy back.
    RollbackPolicy,
    /// Restore the catalog file and roll back inventory and policy.
    RollbackAll,
    /// Record the outcome; see [`BundleReload::decision`].
    Finish,
}

pub struct BundleReload {
    pub stage: ReloadStage,
    pub out: ReloadBundleResult,
    /// What the pending full rollback is said to undo.
    pub undo_label: String,
}

pub open spec fn expects(stage: ReloadStage, ev: ReloadEvent) -> bool {
    match ev {
        ReloadEvent::Policy(_) => stage == ReloadStage::Policy,
        ReloadEvent::Inventory(_) => stage == ReloadStage::Inventory,
        ReloadEvent::Catalog(_) => stage == ReloadStage::Catalog,
        ReloadEvent::Principal(_) => stage == ReloadStage::Principal,
        ReloadEvent::PolicyRolledBack(_) => stage == ReloadStage::UndoPolicy,
        ReloadEvent::AllRolledBack => stage == ReloadStage::UndoAll,
    }
}

/// Steps that applied something: successful and not a rollback.
pub open spec fn ok_steps(s: Seq<StepV>) -> nat
    decreases s.len(),
{
    if s.len() == 0 {
        0
    } else {
        ok_steps(s.drop_last()) + if s.last().ok && !(s.last().name.len() >= 8 && s.last().name.take(8)
            == "rollback"@) {
            1nat
        } else {
            0nat
        }
    }
}

impl BundleReload {
    /// Starts with the policy.
    pub fn new() -> (r: BundleReload)
        ensures
            r.stage == ReloadStage::Policy,
            r.out.steps@.len() == 0,
            !r.out.rolled_back,
    {
        BundleReload { stage: ReloadStage::Policy, out: ReloadBundleResult::new(), undo_label: String::new() }
    }

    /// Takes a step's outcome and says what comes next. A policy failure
    /// stops with nothing to undo; a later failure rolls back every earlier
    /// step, and the bundle is then marked rolled back.
    pub fn on(&mut self, ev: ReloadEvent) -> (r: ReloadAction)
        requires
            expects(old(self).stage, ev),
        ensures
            match ev {
                ReloadEvent::Policy(res) => match res {
                    None => r == ReloadAction::Finish && final(self).stage == ReloadStage::Done && steps_view(
                        final(self).out.steps@,
                    ) == steps_view(old(self).out.steps@).push(
                        StepV { name: "policy"@, ok: false, message: "정책 경로·레지스트리가 없습니다"@ },
                    ),
                    Some(Ok(m)) => r == ReloadAction::ReloadInventory && final(self).stage == ReloadStage::Inventory
                        && steps_view(final(self).out.steps@) == steps_view(old(self).out.steps@).push(
                        StepV { name: "policy"@, ok: true, message: m@ },
                    ),
                    Some(Err(e)) => r == ReloadAction::Finish && final(self).stage == ReloadStage::Done
                        && steps_view(final(self).out.steps@) == steps_view(old(self).out.steps@).push(
                        StepV { name: "policy"@, ok: false, message: e@ },
                    ),
                },
                ReloadEvent::Inventory(res) => match res {
                    None => r == ReloadAction::ReloadCatalog && final(self).stage == ReloadStage::Catalog
                        && steps_view(final(self).out.steps@) == steps_view(old(self).out.steps@).push(
                        StepV { name: "inventory"@, ok: true, message: "건너뜀(경로 없음)"@ },
                    ),
                    Some(Ok(m)) => r == ReloadAction::ReloadCatalog && final(self).stage == ReloadStage::Catalog
                        && steps_view(final(self).out.steps@) == steps_view(old(self).out.steps@).push(
                        StepV { name: "inventory"@, ok: true, message: m@ },
                    ),
                    Some(Err(e)) => r == ReloadAction::RollbackPolicy && final(self).stage
                        == ReloadStage::UndoPolicy && steps_view(final(self).out.steps@) == steps_view(
                        old(self).out.steps@,
                    ).push(StepV { name: "inventory"@, ok: false, message: e@ }),
                },
                ReloadEvent::Catalog(res) => match res {
                    None => r == ReloadAction::ReloadPrincipal && final(self).stage == ReloadStage::Principal
                        && steps_view(final(self).out.steps@) == steps_view(old(self).out.steps@).push(
                        StepV { name: "toolcatalog"@, ok: true, message: "건너뜀(비활성)"@ },
                    ),
                    Some(Ok(m)) => r == ReloadAction::ReloadPrincipal && final(self).stage
                        == ReloadStage::Principal && steps_view(final(self).out.steps@) == steps_view(
                        old(self).out.steps@,
                    ).push(StepV { name: "toolcatalog"@, ok: true, message: m@ }),
                    Some(Err(e)) => r == ReloadAction::RollbackAll && final(self).stage == ReloadStage::UndoAll
                        && final(self).undo_label@ == "policy+inventory(+catalog file)"@ && steps_view(
                        final(self).out.steps@,
                    ) == steps_view(old(self).out.steps@).push(
                        StepV { name: "toolcatalog"@, ok: false, message: e@ },
                    ),
                },
                ReloadEvent::Principal(res) => match res {
                    None => r == ReloadAction::Finish && final(self).stage == ReloadStage::Done && steps_view(
                        final(self).out.steps@,
                    ) == steps_view(old(self).out.steps@),
                    Some(Ok(())) => r == ReloadAction::Finish && final(self).stage == ReloadStage::Done
                        && steps_view(final(self).out.steps@) == steps_view(old(self).out.steps@).push(
                        StepV { name: "principal"@, ok: true, message: "주체 디렉터리 리로드"@ },
                    ),
                    Some(Err(e)) => r == ReloadAction::RollbackAll && final(self).stage == ReloadStage::UndoAll
                        && final(self).undo_label@ == "policy+inventory+catalog"@ && steps_view(
                        final(self).out.steps@,
                    ) == steps_view(old(self).out.steps@).push(
                        StepV { name: "principal"@, ok: false, message: e@ },
                    ),
                },
                ReloadEvent::PolicyRolledBack(ok) => r == ReloadAction::Finish && final(self).stage
                    == ReloadStage::Done && final(self).out.rolled_back && steps_view(final(self).out.steps@)
                    == if ok {
                    steps_view(old(self).out.steps@).push(
                        StepV { name: "rollback.policy"@, ok: true, message: "정책을 되돌렸습니다"@ },
                    )
                } else {
                    steps_view(old(self).out.steps@)
                },
                ReloadEvent::AllRolledBack => r == ReloadAction::Finish && final(self).stage == ReloadStage::Done
                    && final(self).out.rolled_back && steps_view(final(self).out.steps@) == steps_view(
                    old(self).out.steps@,
                ).push(StepV { name: "rollback"@, ok: true, message: old(self).undo_label@ }),
            },
            !(ev is PolicyRolledBack || ev is AllRolledBack) ==> final(self).out.rolled_back
                == old(self).out.rolled_back,
    {
        match ev {
            ReloadEvent::Policy(res) => match res {
                None => {
                    self.out.step("policy", false, "정책 경로·레지스트리가 없습니다");
                    self.stage = ReloadStage::Done;
                    ReloadAction::Finish
                },
                Some(Ok(m)) => {
                    self.out.step("policy", true, m.as_str());
                    self.stage = ReloadStage::Inventory;
                    ReloadAction::ReloadInventory
                },
                Some(Err(e)) => {
                    self.out.step("policy", false, e.as_str());
                    self.stage = ReloadStage::Done;
                    ReloadAction::Finish
                },
            },
            ReloadEvent::Inventory(res) => match res {
                None => {
                    self.out.step("inventory", true, "건너뜀(경로 없음)");
                    self.stage = ReloadStage::Catalog;
                    ReloadAction::ReloadCatalog
                },
                Some(Ok(m)) => {
                    self.out.step("inventory", true, m.as_str());
                    self.stage = ReloadStage::Catalog;
                    ReloadAction::ReloadCatalog
                },
                Some(Err(e)) => {
                    self.out.step("inventory", false, e.as_str());
                    self.stage = ReloadStage::UndoPolicy;
                    ReloadAction::RollbackPolicy
                },
            },
            ReloadEvent::Catalog(res) => match res {
                None => {
                    self.out.step("toolcatalog", true, "건너뜀(비활성)");
                    self.stage = ReloadStage::Principal;
                    ReloadAction::ReloadPrincipal
                },
                Some(Ok(m)) => {
                    self.out.step("toolcatalog", true, m.as_str());
                    self.stage = ReloadStage::Principal;
                    ReloadAction::ReloadPrincipal
                },
                Some(Err(e)) => {
                    self.out.step("toolcatalog", false, e.as_str());
                    self.undo_label = owned("policy+inventory(+catalog file)");
                    self.stage = ReloadStage::UndoAll;
                    ReloadAction::RollbackAll
                },
            },
            ReloadEvent::Principal(res) => match res {
                None => {
                    self.stage = ReloadStage::Done;
                    ReloadAction::Finish
                },
                Some(Ok(())) => {
                    self.out.step("principal", true, "주체 디렉터리 리로드");
                    self.stage = ReloadStage::Done;
                    ReloadAction::Finish
                },
                Some(Err(e)) => {
                    self.out.step("principal", false, e.as_str());
                    self.undo_label = owned("policy+inventory+catalog");
                    self.stage = ReloadStage::UndoAll;
                    ReloadAction::RollbackAll
                },
            },
            ReloadEvent::PolicyRolledBack(ok) => {
                if ok {
                    self.out.step("rollback.policy", true, "정책을 되돌렸습니다");
                }
                self.out.rolled_back = true;
                self.stage = ReloadStage::Done;
                ReloadAction::Finish
            },
            ReloadEvent::AllRolledBack => {
                let label = self.undo_label.clone();
                self.out.step("rollback", true, label.as_str());
                self.out.rolled_back = true;
                self.stage = ReloadStage::Done;
                ReloadAction::Finish
            },
        }
    }

    /// How many steps applied something.
    pub fn ok_step_count(&self) -> (r: usize)
        ensures
            r == ok_steps(steps_view(self.out.steps@)),
    {
        let mut n: usize = 0;
        let mut i: usize = 0;
        while i < self.out.steps.len()
            invariant
                i <= self.out.steps@.len(),
                n == ok_steps(steps_view(self.out.steps@).take(i as int)),
                n <= i,
            decreases self.out.steps.len() - i,
        {
            let s = &self.out.steps[i];
            let ghost t = steps_view(self.out.steps@).take(i + 1);
            assert(t.drop_last() =~= steps_view(self.out.steps@).take(i as int));
            assert(t.last() == StepV { name: s.name@, ok: s.ok, message: s.message@ });
            let chars = crate::text::chars_of(s.name.as_str());
            let mut is_rollback = false;
            if chars.len() >= 8 {
                let head = crate::text::slice_range(&chars, 0, 8);
                let hs = crate::text::string_of(head.as_slice());
                is_rollback = str_eq(hs.as_str(), "rollback");
                assert(head@ =~= s.name@.take(8));
            }
            if s.ok && !is_rollback {
                n = n + 1;
            }
            i = i + 1;
        }
        assert(steps_view(self.out.steps@).take(self.out.steps@.len() as int) =~= steps_view(self.out.steps@));
        n
    }

    /// The audit decision: denied when nothing applied or the bundle was
    /// rolled back.
    pub fn decision(&self) -> (r: &'static str)
        ensures
            r@ == (if ok_steps(steps_view(self.out.steps@)) == 0 || self.out.rolled_back {
                "denied"@
            } else {
                "allowed"@
            }),
    {
        let n = self.ok_step_count();
        if n == 0 || self.out.rolled_back {
            "denied"
        } else {
            "allowed"
        }
    }

    /// Other instances are woken (the reload stamp touched) only when the
    /// bundle was not rolled back.
    pub fn touch_stamp(&self) -> (r: bool)
        ensures
            r == !self.out.rolled_back,
    {
        !self.out.rolled_back
    }
}

} // verus!
