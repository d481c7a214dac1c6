//! The legacy-system inventory: what exists, what it may do, and who owns it.
//!
//! A system missing from the inventory gets no tools, and a system without a
//! write capability gets no write tools; the inventory is read by code, not
//! kept as documentation.
use vstd::prelude::*;
use crate::keyed::{Keyed, sorted_keys, key_map, lemma_key_map, lemma_key_map_has, lemma_key_map_last, upsert, lookup};
use crate::text::{concat, owned};

verus! {

/// How the gateway reaches a system.
#[derive(Clone, Copy, PartialEq, Eq, Debug, Structural)]
pub enum Interface {
    Rest,
    Soap,
    Db,
    File,
    Batch,
    Rpa,
    Mainframe,
    Memory,
}

impl Interface {
    /// Whether `base_url` means anything for this transport.
    pub fn is_network(self) -> (r: bool)
        ensures
            r == (self == Interface::Rest || self == Interface::Soap),
    {
        match self {
            Interface::Rest | Interface::Soap => true,
            _ => false,
        }
    }
}

/// What a system lets its tools do.
#[derive(Clone, Copy, PartialEq, Eq, Debug, Structural)]
pub enum Capability {
    Read,
    Create,
    Update,
    Delete,
    Approve,
}

pub open spec fn capability_text(c: Capability) -> Seq<char> {
    match c {
        Capability::Read => "read"@,
        Capability::Create => "create"@,
        Capability::Update => "update"@,
        Capability::Delete => "delete"@,
        Capability::Approve => "approve"@,
    }
}

impl Capability {
    /// The capability's name as the inventory file writes it.
    pub fn as_str(self) -> (r: &'static str)
        ensures
            r@ == capability_text(self),
    {
        match self {
            Capability::Read => "read",
            Capability::Create => "create",
            Capability::Update => "update",
            Capability::Delete => "delete",
            Capability::Approve => "approve",
        }
    }

    pub fn is_write(self) -> (r: bool)
        ensures
            r == (self != Capability::Read),
    {
        match self {
            Capability::Read => false,
            _ => true,
        }
    }
}

#[derive(Clone, Copy, PartialEq, Eq, Debug, Structural)]
pub enum FailureImpact {
    Low,
    Medium,
    High,
}

#[derive(Clone, Copy, PartialEq, Eq, Debug, Structural)]
pub enum Realtime {
    Realtime,
    NearRealtime,
    Batch,
}

#[derive(Clone, Copy, PartialEq, Eq, Debug, Structural)]
pub enum AuthMethod {
    Sso,
    ApiKey,
    DbAccount,
    Vpn,
    NoAuth,
}

/// Kind of data a system holds.
#[derive(Clone, Copy, PartialEq, Eq, Debug, Structural)]
pub enum Sensitivity {
    Personal,
    Financial,
    TradeSecret,
    General,
}

pub open spec fn interface_text(i: Interface) -> Seq<char> {
    match i {
        Interface::Rest => "rest"@,
        Interface::Soap => "soap"@,
        Interface::Db => "db"@,
        Interface::File => "file"@,
        Interface::Batch => "batch"@,
        Interface::Rpa => "rpa"@,
        Interface::Mainframe => "mainframe"@,
        Interface::Memory => "memory"@,
    }
}

pub open spec fn impact_text(f: FailureImpact) -> Seq<char> {
    match f {
        FailureImpact::Low => "low"@,
        FailureImpact::Medium => "medium"@,
        FailureImpact::High => "high"@,
    }
}

pub open spec fn realtime_text(r: Realtime) -> Seq<char> {
    match r {
        Realtime::Realtime => "realtime"@,
        Realtime::NearRealtime => "near_realtime"@,
        Realtime::Batch => "batch"@,
    }
}

pub open spec fn auth_text(a: AuthMethod) -> Seq<char> {
    match a {
        AuthMethod::Sso => "sso"@,
        AuthMethod::ApiKey => "api_key"@,
        AuthMethod::DbAccount => "db_account"@,
        AuthMethod::Vpn => "vpn"@,
        AuthMethod::NoAuth => "none"@,
    }
}

pub open spec fn data_kind_text(d: Sensitivity) -> Seq<char> {
    match d {
        Sensitivity::Personal => "personal"@,
        Sensitivity::Financial => "financial"@,
        Sensitivity::TradeSecret => "trade_secret"@,
        Sensitivity::General => "general"@,
    }
}

impl Interface {
    /// The transport's name as the inventory file writes it.
    pub fn as_str(self) -> (r: &'static str)
        ensures
            r@ == interface_text(self),
    {
        match self {
            Interface::Rest => "rest",
            Interface::Soap => "soap",
            Interface::Db => "db",
            Interface::File => "file",
            Interface::Batch => "batch",
            Interface::Rpa => "rpa",
            Interface::Mainframe => "mainframe",
            Interface::Memory => "memory",
        }
    }
}

impl FailureImpact {
    pub fn as_str(self) -> (r: &'static str)
        ensures
            r@ == impact_text(self),
    {
        match self {
            FailureImpact::Low => "low",
            FailureImpact::Medium => "medium",
            FailureImpact::High => "high",
        }
    }
}

impl Realtime {
    pub fn as_str(self) -> (r: &'static str)
        ensures
            r@ == realtime_text(self),
    {
        match self {
            Realtime::Realtime => "realtime",
            Realtime::NearRealtime => "near_realtime",
            Realtime::Batch => "batch",
        }
    }
}

impl AuthMethod {
    pub fn as_str(self) -> (r: &'static str)
        ensures
            r@ == auth_text(self),
    {
        match self {
            AuthMethod::Sso => "sso",
            AuthMethod::ApiKey => "api_key",
            AuthMethod::DbAccount => "db_account",
            AuthMethod::Vpn => "vpn",
            AuthMethod::NoAuth => "none",
        }
    }
}

impl Sensitivity {
    pub fn as_str(self) -> (r: &'static str)
        ensures
            r@ == data_kind_text(self),
    {
        match self {
            Sensitivity::Personal => "personal",
            Sensitivity::Financial => "financial",
            Sensitivity::TradeSecret => "trade_secret",
            Sensitivity::General => "general",
        }
    }
}

/// One legacy system.
pub struct System {
    pub name: String,
    pub display_name: String,
    pub interface: Interface,
    pub base_url: String,
    pub data_sensitivity: Vec<Sensitivity>,
    pub capabilities: Vec<Capability>,
    pub owner_team: String,
    pub contact: String,
    pub auth_method: AuthMethod,
    pub failure_impact: FailureImpact,
    pub realtime: Realtime,
}

/// What a system is, as plain values.
pub struct SystemV {
    pub name: Seq<char>,
    pub display_name: Seq<char>,
    pub interface: Interface,
    pub base_url: Seq<char>,
    pub data_sensitivity: Seq<Sensitivity>,
    pub capabilities: Seq<Capability>,
    pub owner_team: Seq<char>,
    pub contact: Seq<char>,
    pub auth_method: AuthMethod,
    pub failure_impact: FailureImpact,
    pub realtime: Realtime,
}

impl View for System {
    type V = SystemV;

    open spec fn view(&self) -> SystemV {
        SystemV {
            name: self.name@,
            display_name: self.display_name@,
            interface: self.interface,
            base_url: self.base_url@,
            data_sensitivity: self.data_sensitivity@,
            capabilities: self.capabilities@,
            owner_team: self.owner_team@,
            contact: self.contact@,
            auth_method: self.auth_method,
            failure_impact: self.failure_impact,
            realtime: self.realtime,
        }
    }
}

impl Keyed for System {
    open spec fn key_of(&self) -> Seq<char> {
        self.name@
    }

    fn key(&self) -> (r: &str) {
        self.name.as_str()
    }
}

/// The guidance given when access is missing and nothing is known of the
/// owner.
pub open spec fn generic_request_path() -> Seq<char> {
    "담당 부서에 접근 요청을 제출하세요"@
}

/// Where to ask for access to a system owned by `team`, reachable at
/// `contact`.
pub open spec fn request_path_spec(team: Seq<char>, contact: Seq<char>) -> Seq<char> {
    if team.len() > 0 && contact.len() > 0 {
        team + "("@ + contact + ")에 접근 요청을 제출하세요"@
    } else if team.len() > 0 {
        team + "에 접근 요청을 제출하세요"@
    } else {
        generic_request_path()
    }
}

impl System {
    /// Whether any capability writes.
    pub fn allows_write(&self) -> (r: bool)
        ensures
            r == exists|i: int| 0 <= i < self.capabilities@.len() && self.capabilities@[i] != Capability::Read,
    {
        let mut i: usize = 0;
        while i < self.capabilities.len()
            invariant
                i <= self.capabilities.len(),
                forall|j: int| 0 <= j < i ==> self.capabilities@[j] == Capability::Read,
            decreases self.capabilities.len() - i,
        {
            if self.capabilities[i].is_write() {
                return true;
            }
            i = i + 1;
        }
        false
    }

    /// Where to ask for access: the owner team and its contact, as far as
    /// they are known.
    pub fn access_request_path(&self) -> (r: String)
        ensures
            r@ == request_path_spec(self.owner_team@, self.contact@),
    {
        if !self.owner_team.as_str().is_empty() && !self.contact.as_str().is_empty() {
            let a = concat(self.owner_team.as_str(), "(");
            let b = concat(a.as_str(), self.contact.as_str());
            concat(b.as_str(), ")에 접근 요청을 제출하세요")
        } else if !self.owner_team.as_str().is_empty() {
            concat(self.owner_team.as_str(), "에 접근 요청을 제출하세요")
        } else {
            owned("담당 부서에 접근 요청을 제출하세요")
        }
    }

    pub fn copy(&self) -> (r: System)
        ensures
            r@ == self@,
    {
        let r = System {
            name: self.name.clone(),
            display_name: self.display_name.clone(),
            interface: self.interface,
            base_url: self.base_url.clone(),
            data_sensitivity: self.data_sensitivity.clone(),
            capabilities: self.capabilities.clone(),
            owner_team: self.owner_team.clone(),
            contact: self.contact.clone(),
            auth_method: self.auth_method,
            failure_impact: self.failure_impact,
            realtime: self.realtime,
        };
        assert(r.data_sensitivity@ =~= self.data_sensitivity@);
        assert(r.capabilities@ =~= self.capabilities@);
        r
    }
}

/// Why an inventory was refused.
#[derive(PartialEq, Eq, Debug)]
pub enum InventoryError {
    /// No system at all.
    Empty,
    /// The system at this position has no name.
    MissingName(usize),
    /// A name given twice.
    DuplicateName(String),
    /// A `base_url` on a transport that is not a network one.
    BaseUrlOnLocal(String),
    /// A system without any capability.
    NoCapability(String),
    /// A system without an owner team (needed to say where to ask for
    /// access).
    NoOwnerTeam(String),
    /// Rollback with no earlier snapshot.
    NoPreviousSnapshot,
}

/// What is wrong with system `i`, given the systems before it.
pub open spec fn system_problem(ss: Seq<System>, i: int) -> Option<InventoryError> {
    let s = ss[i];
    if s.name@.len() == 0 {
        Some(InventoryError::MissingName(i as usize))
    } else if exists|j: int| 0 <= j < i && #[trigger] ss[j].name@ == s.name@ {
        Some(InventoryError::DuplicateName(s.name))
    } else if !(s.interface == Interface::Rest || s.interface == Interface::Soap) && s.base_url@.len() > 0 {
        Some(InventoryError::BaseUrlOnLocal(s.name))
    } else if s.capabilities@.len() == 0 {
        Some(InventoryError::NoCapability(s.name))
    } else if s.owner_team@.len() == 0 {
        Some(InventoryError::NoOwnerTeam(s.name))
    } else {
        None
    }
}

/// The first problem among the first `k` systems.
pub open spec fn first_problem(ss: Seq<System>, k: int) -> Option<InventoryError>
    decreases k,
{
    if k <= 0 {
        None
    } else {
        match first_problem(ss, k - 1) {
            Some(e) => Some(e),
            None => system_problem(ss, k - 1),
        }
    }
}

pub proof fn lemma_first_problem_stable(ss: Seq<System>, k: int, m: int)
    requires
        0 <= k <= m,
        first_problem(ss, k) is Some,
    ensures
        first_problem(ss, m) == first_problem(ss, k),
    decreases m - k,
{
    if m > k {
        lemma_first_problem_stable(ss, k, m - 1);
    }
}

/// What validation answers for these systems.
pub open spec fn validate_spec(ss: Seq<System>) -> Result<(), InventoryError> {
    if ss.len() == 0 {
        Err(InventoryError::Empty)
    } else {
        match first_problem(ss, ss.len() as int) {
            Some(e) => Err(e),
            None => Ok(()),
        }
    }
}

/// Checks an inventory: at least one system; each named once; `base_url`
/// only on rest/soap; at least one capability; an owner team.
pub fn validate(systems: &[System]) -> (r: Result<(), InventoryError>)
    ensures
        r == validate_spec(systems@),
{
    if systems.len() == 0 {
        return Err(InventoryError::Empty);
    }
    let mut i: usize = 0;
    while i < systems.len()
        invariant
            i <= systems.len(),
            first_problem(systems@, i as int) == None::<InventoryError>,
        decreases systems.len() - i,
    {
        let s = &systems[i];
        proof {
            assert(first_problem(systems@, i + 1) == system_problem(systems@, i as int));
        }
        if s.name.as_str().is_empty() {
            proof {
                lemma_first_problem_stable(systems@, i + 1, systems@.len() as int);
            }
            return Err(InventoryError::MissingName(i));
        }
        let mut j: usize = 0;
        #[verifier::loop_isolation(false)]
        while j < i
            invariant
                j <= i < systems.len(),
                s == &systems@[i as int],
                forall|q: int| 0 <= q < j ==> systems@[q].name@ != s.name@,
            decreases i - j,
        {
            if systems[j].name == s.name {
                proof {
                    assert(systems@[j as int].name@ == systems@[i as int].name@);
                    assert(system_problem(systems@, i as int) == Some(InventoryError::DuplicateName(systems@[i as int].name)));
                    lemma_first_problem_stable(systems@, i + 1, systems@.len() as int);
                }
                return Err(InventoryError::DuplicateName(s.name.clone()));
            }
            j = j + 1;
        }
        if !s.interface.is_network() && !s.base_url.as_str().is_empty() {
            proof {
                lemma_first_problem_stable(systems@, i + 1, systems@.len() as int);
            }
            return Err(InventoryError::BaseUrlOnLocal(s.name.clone()));
        }
        if s.capabilities.len() == 0 {
            proof {
                lemma_first_problem_stable(systems@, i + 1, systems@.len() as int);
            }
            return Err(InventoryError::NoCapability(s.name.clone()));
        }
        if s.owner_team.as_str().is_empty() {
            proof {
                lemma_first_problem_stable(systems@, i + 1, systems@.len() as int);
            }
            return Err(InventoryError::NoOwnerTeam(s.name.clone()));
        }
        i = i + 1;
    }
    Ok(())
}

/// The inventory, with a one-step rollback.
pub struct Inventory {
    systems: Vec<System>,
    previous: Option<Vec<System>>,
}

impl View for Inventory {
    type V = Map<Seq<char>, SystemV>;

    closed spec fn view(&self) -> Map<Seq<char>, SystemV> {
        key_map(self.systems@)
    }
}

/// Builds the map of systems by name; a later system replaces an earlier one
/// with the same name.
fn index(systems: Vec<System>) -> (r: Vec<System>)
    ensures
        sorted_keys(r@),
        key_map(r@) == key_map(systems@),
{
    let mut out: Vec<System> = Vec::new();
    let mut i: usize = 0;
    while i < systems.len()
        invariant
            i <= systems.len(),
            sorted_keys(out@),
            key_map(out@) == key_map(systems@.take(i as int)),
        decreases systems.len() - i,
    {
        upsert(&mut out, systems[i].copy());
        assert(systems@.take(i + 1).drop_last() =~= systems@.take(i as int));
        i = i + 1;
    }
    assert(systems@.take(systems.len() as int) =~= systems@);
    out
}

impl Inventory {
    pub closed spec fn wf(&self) -> bool {
        &&& sorted_keys(self.systems@)
        &&& match self.previous {
            Some(p) => sorted_keys(p@),
            None => true,
        }
    }

    /// The snapshot a rollback would restore.
    pub closed spec fn previous_view(&self) -> Option<Map<Seq<char>, SystemV>> {
        match self.previous {
            Some(p) => Some(key_map(p@)),
            None => None,
        }
    }

    /// An inventory of these systems, without validation.
    pub fn new(systems: Vec<System>) -> (r: Inventory)
        ensures
            r.wf(),
            r@ == key_map(systems@),
            r.previous_view() == None::<Map<Seq<char>, SystemV>>,
    {
        Inventory { systems: index(systems), previous: None }
    }

    /// A validated inventory of these systems.
    pub fn from_systems(systems: Vec<System>) -> (r: Result<Inventory, InventoryError>)
        ensures
            match r {
                Ok(inv) => validate_spec(systems@) is Ok && inv.wf() && inv@ == key_map(systems@)
                    && inv.previous_view() == None::<Map<Seq<char>, SystemV>>,
                Err(e) => validate_spec(systems@) == Err::<(), InventoryError>(e),
            },
    {
        match validate(systems.as_slice()) {
            Ok(()) => Ok(Inventory::new(systems)),
            Err(e) => Err(e),
        }
    }

    /// Validates and installs new systems, keeping the current ones for
    /// rollback. On a refusal nothing changes.
    pub fn replace(&mut self, systems: Vec<System>) -> (r: Result<(), InventoryError>)
        requires
            old(self).wf(),
        ensures
            final(self).wf(),
            match r {
                Ok(()) => validate_spec(systems@) is Ok && final(self)@ == key_map(systems@)
                    && final(self).previous_view() == Some(old(self)@),
                Err(e) => validate_spec(systems@) == Err::<(), InventoryError>(e) && final(self)@ == old(self)@
                    && final(self).previous_view() == old(self).previous_view(),
            },
    {
        match validate(systems.as_slice()) {
            Err(e) => Err(e),
            Ok(()) => {
                let mut next = index(systems);
                std::mem::swap(&mut self.systems, &mut next);
                self.previous = Some(next);
                Ok(())
            },
        }
    }

    /// Swaps the active systems with the previous snapshot; a second rollback
    /// undoes the first.
    pub fn rollback(&mut self) -> (r: Result<(), InventoryError>)
        requires
            old(self).wf(),
        ensures
            final(self).wf(),
            match rolled_back((old(self)@, old(self).previous_view())) {
                Some(st) => r is Ok && (final(self)@, final(self).previous_view()) == st,
                None => r == Err::<(), InventoryError>(InventoryError::NoPreviousSnapshot) && final(self)@ == old(self)@
                    && final(self).previous_view() == old(self).previous_view(),
            },
    {
        match self.previous.take() {
            None => Err(InventoryError::NoPreviousSnapshot),
            Some(prev) => {
                let mut cur = prev;
                std::mem::swap(&mut self.systems, &mut cur);
                self.previous = Some(cur);
                Ok(())
            },
        }
    }

    /// The system with this name.
    pub fn lookup(&self, name: &str) -> (r: Option<System>)
        requires
            self.wf(),
        ensures
            match r {
                Some(s) => self@.contains_key(name@) && self@[name@] == s@,
                None => !self@.contains_key(name@),
            },
    {
        match lookup(&self.systems, name) {
            Some(s) => Some(s.copy()),
            None => None,
        }
    }

    /// All systems, ordered by name.
    pub fn systems(&self) -> (r: Vec<System>)
        requires
            self.wf(),
        ensures
            sorted_keys(r@),
            key_map(r@) == self@,
    {
        let mut out: Vec<System> = Vec::new();
        let mut i: usize = 0;
        while i < self.systems.len()
            invariant
                i <= self.systems.len(),
                out@.len() == i,
                forall|j: int| 0 <= j < i ==> (#[trigger] out@[j])@ == self.systems@[j]@,
            decreases self.systems.len() - i,
        {
            out.push(self.systems[i].copy());
            i = i + 1;
        }
        proof {
            crate::keyed::lemma_key_map_congruent(self.systems@, out@);
        }
        out
    }

    /// Number of systems.
    pub fn len(&self) -> (r: usize)
        requires
            self.wf(),
        ensures
            r == self@.len(),
    {
        proof {
            lemma_key_map(self.systems@);
        }
        self.systems.len()
    }

    pub fn is_empty(&self) -> (r: bool)
        requires
            self.wf(),
        ensures
            r == (self@.len() == 0),
    {
        self.len() == 0
    }

    /// Where to ask for access to `system`; the generic guidance for a
    /// system the inventory does not know.
    pub fn access_request_path(&self, system: &str) -> (r: String)
        requires
            self.wf(),
        ensures
            r@ == (if self@.contains_key(system@) {
                request_path_spec(self@[system@].owner_team, self@[system@].contact)
            } else {
                generic_request_path()
            }),
    {
        match lookup(&self.systems, system) {
            Some(s) => s.access_request_path(),
            None => owned("담당 부서에 접근 요청을 제출하세요"),
        }
    }
}

/// The active systems and the rollback snapshot.
pub type Snapshot = (Map<Seq<char>, SystemV>, Option<Map<Seq<char>, SystemV>>);

/// The state a rollback leaves, or `None` when there is nothing to roll back
/// to.
pub open spec fn rolled_back(st: Snapshot) -> Option<Snapshot> {
    match st.1 {
        Some(p) => Some((p, Some(st.0))),
        None => None,
    }
}

/// Rolling back twice restores the state before the first rollback.
pub proof fn law_inventory_rollback_twice(st: Snapshot)
    requires
        st.1 is Some,
    ensures
        rolled_back(st) is Some,
        rolled_back(rolled_back(st)->0) == Some(st),
{
}

/// A system is sound on its own: it has a name, a base URL only where it
/// is reached over REST or SOAP, a capability and an owner team.
pub open spec fn system_sound(s: System) -> bool {
    &&& s.name@.len() > 0
    &&& (s.interface == Interface::Rest || s.interface == Interface::Soap || s.base_url@.len() == 0)
    &&& s.capabilities@.len() > 0
    &&& s.owner_team@.len() > 0
}

proof fn lemma_first_problem_none(ss: Seq<System>, k: int)
    requires
        0 <= k <= ss.len(),
    ensures
        first_problem(ss, k) is None <==> forall|i: int| 0 <= i < k ==> (#[trigger] system_problem(ss, i)) is None,
    decreases k,
{
    if k > 0 {
        lemma_first_problem_none(ss, k - 1);
    }
}

/// An inventory passes validation exactly when it has a system, every
/// system is sound, and no two share a name.
pub proof fn law_validate_ok(ss: Seq<System>)
    ensures
        validate_spec(ss) is Ok <==> {
            &&& ss.len() > 0
            &&& forall|i: int| 0 <= i < ss.len() ==> system_sound(#[trigger] ss[i])
            &&& forall|i: int, j: int| 0 <= i < j < ss.len() ==> (#[trigger] ss[i]).name@ != (#[trigger] ss[j]).name@
        },
{
    lemma_first_problem_none(ss, ss.len() as int);
    if validate_spec(ss) is Ok {
        assert forall|i: int| 0 <= i < ss.len() implies system_sound(#[trigger] ss[i]) by {
            assert(system_problem(ss, i) is None);
        }
        assert forall|i: int, j: int| 0 <= i < j < ss.len() implies (#[trigger] ss[i]).name@ != (#[trigger] ss[j]).name@ by {
            assert(system_problem(ss, j) is None);
        }
    }
    if ss.len() > 0 && (forall|i: int| 0 <= i < ss.len() ==> system_sound(#[trigger] ss[i])) && (forall|i: int, j: int|
        0 <= i < j < ss.len() ==> (#[trigger] ss[i]).name@ != (#[trigger] ss[j]).name@) {
        assert forall|i: int| 0 <= i < ss.len() implies (#[trigger] system_problem(ss, i)) is None by {
            assert(system_sound(ss[i]));
            assert(!exists|j: int| 0 <= j < i && #[trigger] ss[j].name@ == ss[i].name@);
        }
    }
}

/// An inventory made from a list, checked or not, holds exactly the names
/// in the list, each with the last system of that name: as many systems
/// as the list has distinct names.
pub proof fn law_last_system_wins(ss: Seq<System>, n: Seq<char>)
    ensures
        key_map(ss).contains_key(n) <==> exists|i: int| 0 <= i < ss.len() && (#[trigger] ss[i]).name@ == n,
        forall|i: int|
            0 <= i < ss.len() && (#[trigger] ss[i]).name@ == n && (forall|j: int| i < j < ss.len() ==> (#[trigger] ss[j]).name@
                != n) ==> key_map(ss)[n] == ss[i]@,
        key_map(ss).dom() == ss.map_values(|s: System| s.name@).to_set(),
{
    let names = ss.map_values(|s: System| s.name@);
    assert forall|m: Seq<char>| key_map(ss).dom().contains(m) <==> #[trigger] names.to_set().contains(m) by {
        lemma_key_map_has(ss, m);
        if names.contains(m) {
            let i = choose|i: int| 0 <= i < names.len() && names[i] == m;
            assert(ss[i].key_of() == m);
        }
        if key_map(ss).dom().contains(m) {
            let i = choose|i: int| 0 <= i < ss.len() && (#[trigger] ss[i]).key_of() == m;
            assert(names[i] == m);
        }
    }
    assert(key_map(ss).dom() =~= names.to_set());
    lemma_key_map_has(ss, n);
    assert((exists|i: int| 0 <= i < ss.len() && (#[trigger] ss[i]).key_of() == n) <==> exists|i: int|
        0 <= i < ss.len() && (#[trigger] ss[i]).name@ == n);
    assert forall|i: int|
        0 <= i < ss.len() && (#[trigger] ss[i]).name@ == n && (forall|j: int| i < j < ss.len() ==> (#[trigger] ss[j]).name@
            != n) implies key_map(ss)[n] == ss[i]@ by {
        assert forall|j: int| i < j < ss.len() implies (#[trigger] ss[j]).key_of() != ss[i].key_of() by {
            assert(ss[j].name@ != n);
        }
        lemma_key_map_last(ss, i);
    }
}

/// A listing of an inventory in name order holds each system once: as
/// many as the inventory holds, each as a lookup gives it, and nothing
/// else.
pub proof fn law_listing_is_the_inventory(v: Seq<System>)
    requires
        sorted_keys(v),
    ensures
        v.len() == key_map(v).len(),
        forall|i: int| 0 <= i < v.len() ==> #[trigger] key_map(v).contains_key(v[i].name@) && key_map(v)[v[i].name@] == v[i]@,
        forall|n: Seq<char>| #[trigger] key_map(v).contains_key(n) ==> exists|i: int| 0 <= i < v.len() && v[i].name@ == n,
        forall|i: int, j: int| 0 <= i < j < v.len() ==> (#[trigger] v[i]).name@ != (#[trigger] v[j]).name@,
{
    lemma_key_map(v);
    assert forall|i: int| 0 <= i < v.len() implies #[trigger] key_map(v).contains_key(v[i].name@) && key_map(v)[v[i].name@]
        == v[i]@ by {
        assert(v[i].key_of() == v[i].name@);
        assert(key_map(v).contains_key(v[i].key_of()));
    }
    assert forall|n: Seq<char>| #[trigger] key_map(v).contains_key(n) implies exists|i: int| 0 <= i < v.len() && v[i].name@
        == n by {
        let i = choose|i: int| 0 <= i < v.len() && v[i].key_of() == n;
        assert(v[i].name@ == n);
    }
    assert forall|i: int, j: int| 0 <= i < j < v.len() implies (#[trigger] v[i]).name@ != (#[trigger] v[j]).name@ by {
        assert(crate::text::lex_lt(v[i].key_of(), v[j].key_of()));
        crate::text::lemma_lex_irreflexive(v[i].name@);
    }
}

} // verus!
