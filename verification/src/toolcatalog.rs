//! The dynamic tool catalog: tools added without rebuilding the gateway.
//!
//! No code is loaded: a catalog tool only forwards to a remote bridge
//! (`POST {base_url}/tools/{name}`). Catalog tools pass the registry's
//! checks like any other: a tool without a risk level, without schemas, or
//! a write tool that retries is refused even when declared here.
use vstd::prelude::*;
use crate::inventory::{Inventory, SystemV};
use crate::json::Json;
use crate::registry::{Access, ParseError, Registry, RegistryError, RiskLevel, Sensitivity, Spec, SpecV, strs};
use crate::text::{concat, owned, str_eq, trim, trim_spec, vec_has, seq_has, unicode_lower, unicode_upper};

verus! {

/// A tool as the catalog file declares it.
pub struct ToolYaml {
    pub name: String,
    pub description: String,
    pub system: String,
    pub base_url: String,
    pub access: String,
    pub risk_level: String,
    pub sensitivity: String,
    pub required_permissions: Vec<String>,
    pub rate_limit_per_min: i64,
    pub log_retention_days: i64,
    pub timeout_ms: i64,
    pub max_retries: i64,
    pub approval_ttl_hours: i64,
    pub fallback: String,
    pub mask_fields: Vec<String>,
    pub input_schema: Json,
    pub output_schema: Json,
}

/// Why a declared tool was refused.
#[derive(Debug)]
pub enum BuildError {
    NameRequired,
    SystemRequired,
    Access(ParseError),
    /// The system is not in the inventory.
    UnknownSystem(String),
    /// A write tool on a system with no write capability.
    NoWriteCapability(String),
    /// No base URL given and none in the inventory.
    NoBaseUrl,
    Risk(ParseError),
}

/// Why a catalog was refused.
#[derive(Debug)]
pub enum CatalogError {
    Duplicate(String),
    /// Position, name, and what is wrong with that tool.
    Tool(usize, String, BuildError),
    /// Registering this tool failed; the catalog's tools were taken out.
    Register(String, RegistryError),
}

pub open spec fn allows_write_v(s: SystemV) -> bool {
    exists|i: int| 0 <= i < s.capabilities.len() && s.capabilities[i] != crate::inventory::Capability::Read
}

/// The base URL a tool calls: its own (trimmed), else the inventory's for a
/// network system.
pub open spec fn base_url_spec(raw: ToolYaml, sys: Option<SystemV>) -> Seq<char> {
    let own = trim_spec(raw.base_url@);
    match sys {
        Some(s) => if own.len() == 0 && (s.interface == crate::inventory::Interface::Rest || s.interface
            == crate::inventory::Interface::Soap) {
            s.base_url
        } else {
            own
        },
        None => own,
    }
}

/// The access a catalog names: read when none is named.
pub open spec fn access_named(t: Seq<char>) -> Option<Access> {
    let l = unicode_lower(trim_spec(t));
    if l == ""@ || l == "read"@ {
        Some(Access::Read)
    } else if l == "write"@ {
        Some(Access::Write)
    } else {
        None
    }
}

/// The risk level a catalog names: L1 when the field is empty.
pub open spec fn risk_named(t: Seq<char>) -> Option<RiskLevel> {
    let u = unicode_upper(trim_spec(t));
    if t.len() == 0 || u == "L1"@ || u == "1"@ {
        Some(RiskLevel::L1)
    } else if u == "L2"@ || u == "2"@ {
        Some(RiskLevel::L2)
    } else if u == "L3"@ || u == "3"@ {
        Some(RiskLevel::L3)
    } else if u == "L4"@ || u == "4"@ {
        Some(RiskLevel::L4)
    } else {
        None
    }
}

/// The inventory's entry for the tool's system, where there is an
/// inventory and it has one.
pub open spec fn system_entry(raw: ToolYaml, inv: Option<Map<Seq<char>, SystemV>>) -> Option<SystemV> {
    match inv {
        Some(m) => if m.contains_key(raw.system@) {
            Some(m[raw.system@])
        } else {
            None
        },
        None => None,
    }
}

/// The first check a declaration fails, in the order they are made: 0 no
/// name, 1 no system, 2 an unknown access, 3 a system the inventory lacks,
/// 4 a write tool on a read-only system, 5 no base URL, 6 an unknown risk
/// level.
pub open spec fn build_fault(raw: ToolYaml, inv: Option<Map<Seq<char>, SystemV>>) -> Option<int> {
    if raw.name@.len() == 0 {
        Some(0)
    } else if raw.system@.len() == 0 {
        Some(1)
    } else if access_named(raw.access@) is None {
        Some(2)
    } else if inv is Some && system_entry(raw, inv) is None {
        Some(3)
    } else if inv is Some && access_named(raw.access@) == Some(Access::Write) && !allows_write_v(
        system_entry(raw, inv)->0,
    ) {
        Some(4)
    } else if base_url_spec(raw, system_entry(raw, inv)).len() == 0 {
        Some(5)
    } else if risk_named(raw.risk_level@) is None {
        Some(6)
    } else {
        None
    }
}

pub open spec fn fault_code(e: BuildError) -> int {
    match e {
        BuildError::NameRequired => 0,
        BuildError::SystemRequired => 1,
        BuildError::Access(_) => 2,
        BuildError::UnknownSystem(_) => 3,
        BuildError::NoWriteCapability(_) => 4,
        BuildError::NoBaseUrl => 5,
        BuildError::Risk(_) => 6,
    }
}

/// The access and risk names are told apart by their text.
proof fn lemma_names_distinct()
    ensures
        "write"@ != ""@,
        "write"@ != "read"@,
        "L1"@ != "L2"@ && "L1"@ != "2"@ && "L1"@ != "L3"@ && "L1"@ != "3"@ && "L1"@ != "L4"@ && "L1"@ != "4"@,
        "1"@ != "L2"@ && "1"@ != "2"@ && "1"@ != "L3"@ && "1"@ != "3"@ && "1"@ != "L4"@ && "1"@ != "4"@,
        "L2"@ != "L3"@ && "L2"@ != "3"@ && "L2"@ != "L4"@ && "L2"@ != "4"@,
        "2"@ != "L3"@ && "2"@ != "3"@ && "2"@ != "L4"@ && "2"@ != "4"@,
        "L3"@ != "L4"@ && "L3"@ != "4"@ && "3"@ != "L4"@ && "3"@ != "4"@,
{
    reveal_strlit("");
    reveal_strlit("read");
    reveal_strlit("write");
    reveal_strlit("L1");
    reveal_strlit("1");
    reveal_strlit("L2");
    reveal_strlit("2");
    reveal_strlit("L3");
    reveal_strlit("3");
    reveal_strlit("L4");
    reveal_strlit("4");
    assert("write"@.len() == 5 && ""@.len() == 0 && "read"@.len() == 4);
    assert("L1"@[1] == '1' && "L2"@[1] == '2' && "L3"@[1] == '3' && "L4"@[1] == '4');
    assert("1"@[0] == '1' && "2"@[0] == '2' && "3"@[0] == '3' && "4"@[0] == '4');
    assert("L1"@.len() == 2 && "1"@.len() == 1);
}

/// What a declaration becomes: the declaration `s` and the base URL its
/// calls go to.
pub open spec fn built_as(raw: ToolYaml, inv: Option<Map<Seq<char>, SystemV>>, s: Spec, base: Seq<char>) -> bool {
        &&& s.name == raw.name
        &&& s.system == raw.system
        &&& s.description@ == (if raw.description@.len() == 0 {
            "remote tool "@ + raw.name@
        } else {
            raw.description@
        })
        &&& !s.approval_required
        &&& s.approval_ttl_secs == (if raw.approval_ttl_hours > 0 {
            (raw.approval_ttl_hours * 3600) as u64
        } else {
            0u64
        })
        &&& s.rate_limit_per_min == (if raw.rate_limit_per_min <= 0 {
            60
        } else {
            raw.rate_limit_per_min
        })
        &&& s.timeout_ms == raw.timeout_ms
        &&& s.max_retries == raw.max_retries
        &&& s.log_retention_days == (if raw.log_retention_days <= 0 {
            90
        } else {
            raw.log_retention_days
        })
        &&& s.fallback@ == (if raw.fallback@.len() == 0 {
            "담당 시스템에 직접 요청하세요."@
        } else {
            raw.fallback@
        })
        &&& s.required_permissions@ == raw.required_permissions@
        &&& s.mask_fields@ == raw.mask_fields@
        &&& s.input_schema@ == raw.input_schema@
        &&& s.output_schema@ == raw.output_schema@
        &&& Some(s.access) == access_named(raw.access@)
        &&& Some(s.risk_level) == risk_named(raw.risk_level@)
        &&& s.sensitivity == crate::registry::sensitivity_named(raw.sensitivity@)
        &&& base.len() > 0
        &&& match inv {
            Some(m) => m.contains_key(raw.system@) && base == base_url_spec(raw, Some(m[raw.system@]))
                && (s.access == Access::Write ==> allows_write_v(m[raw.system@])),
            None => base == base_url_spec(raw, None),
        }
    }

pub open spec fn opt_inv(inv: Option<&Inventory>) -> Option<Map<Seq<char>, SystemV>> {
    match inv {
        Some(i) => Some(i@),
        None => None,
    }
}

/// Builds a tool's declaration from the catalog, with the defaults the
/// catalog gives: L1 when no risk level is named, 60 calls a minute, 90
/// days of audit retention, a generic description and fallback. Returns
/// the declaration and the base URL its calls go to.
pub fn build_spec(raw: &ToolYaml, inv: Option<&Inventory>) -> (r: Result<(Spec, String), BuildError>)
    requires
        inv matches Some(i) ==> i.wf(),
        raw.approval_ttl_hours * 3600 <= u64::MAX,
    ensures
        match build_fault(*raw, opt_inv(inv)) {
            Some(k) => r matches Err(e) && fault_code(e) == k,
            None => r is Ok,
        },
        r matches Err(BuildError::UnknownSystem(n)) ==> n == raw.system,
        r matches Err(BuildError::NoWriteCapability(n)) ==> n == raw.system,
        r matches Err(BuildError::Access(ParseError::Access(l))) ==> l@ == unicode_lower(trim_spec(raw.access@)),
        r matches Err(BuildError::Risk(ParseError::RiskLevel(u))) ==> u@ == unicode_upper(trim_spec(raw.risk_level@)),
        r matches Ok((s, base)) ==> built_as(*raw, opt_inv(inv), s, base@),
        r matches Err(BuildError::UnknownSystem(n)) ==> (inv matches Some(i) && n == raw.system
            && !i@.contains_key(raw.system@)),
        r matches Err(BuildError::NoWriteCapability(n)) ==> (inv matches Some(i) && n == raw.system
            && i@.contains_key(raw.system@) && !allows_write_v(i@[raw.system@])),
        r matches Err(BuildError::NoBaseUrl) ==> base_url_spec(
            *raw,
            match inv {
                Some(i) => if i@.contains_key(raw.system@) {
                    Some(i@[raw.system@])
                } else {
                    None
                },
                None => None,
            },
        ).len() == 0,
{
    let none = String::new();
    if str_eq(raw.name.as_str(), none.as_str()) {
        return Err(BuildError::NameRequired);
    }
    proof {
        if raw.name@.len() == 0 {
            assert(raw.name@ =~= none@);
        }
    }
    if str_eq(raw.system.as_str(), none.as_str()) {
        return Err(BuildError::SystemRequired);
    }
    proof {
        if raw.system@.len() == 0 {
            assert(raw.system@ =~= none@);
        }
    }
    let access = match Access::parse(raw.access.as_str()) {
        Ok(a) => a,
        Err(e) => {
            return Err(BuildError::Access(e));
        },
    };
    proof {
        lemma_names_distinct();
    }
    assert(access_named(raw.access@) == Some(access));
    let mut base_url = trim(raw.base_url.as_str());
    let ghost sysv: Option<SystemV> = None;
    match inv {
        Some(i) => {
            let sys = match i.lookup(raw.system.as_str()) {
                Some(s) => s,
                None => {
                    return Err(BuildError::UnknownSystem(raw.system.clone()));
                },
            };
            proof {
                sysv = Some(sys@);
            }
            if str_eq(base_url.as_str(), none.as_str()) && sys.interface.is_network() {
                base_url = sys.base_url.clone();
            }
            proof {
                if trim_spec(raw.base_url@).len() == 0 {
                    assert(trim_spec(raw.base_url@) =~= none@);
                }
            }
            if access == Access::Write && !sys.allows_write() {
                return Err(BuildError::NoWriteCapability(raw.system.clone()));
            }
        },
        None => {},
    }
    assert(base_url@ == base_url_spec(*raw, sysv));
    if str_eq(base_url.as_str(), none.as_str()) {
        return Err(BuildError::NoBaseUrl);
    }
    proof {
        if base_url@.len() == 0 {
            assert(base_url@ =~= none@);
        }
    }
    proof {
        if raw.risk_level@.len() == 0 {
            assert(raw.risk_level@ =~= none@);
        }
    }
    let risk = if str_eq(raw.risk_level.as_str(), none.as_str()) {
        RiskLevel::L1
    } else {
        match RiskLevel::parse(raw.risk_level.as_str()) {
            Ok(l) => l,
            Err(e) => {
                return Err(BuildError::Risk(e));
            },
        }
    };
    assert(Some(risk) == risk_named(raw.risk_level@));
    let description = if str_eq(raw.description.as_str(), none.as_str()) {
        concat("remote tool ", raw.name.as_str())
    } else {
        raw.description.clone()
    };
    proof {
        if raw.description@.len() == 0 {
            assert(raw.description@ =~= none@);
        }
        if raw.fallback@.len() == 0 {
            assert(raw.fallback@ =~= none@);
        }
    }
    let fallback = if str_eq(raw.fallback.as_str(), none.as_str()) {
        owned("담당 시스템에 직접 요청하세요.")
    } else {
        raw.fallback.clone()
    };
    let ttl: u64 = if raw.approval_ttl_hours > 0 {
        (raw.approval_ttl_hours as u64) * 3600
    } else {
        0
    };
    let spec = Spec {
        name: raw.name.clone(),
        description,
        system: raw.system.clone(),
        access,
        risk_level: risk,
        sensitivity: Sensitivity::parse(raw.sensitivity.as_str()),
        required_permissions: crate::registry::copy_strings(&raw.required_permissions),
        approval_required: false,
        approval_ttl_secs: ttl,
        rate_limit_per_min: if raw.rate_limit_per_min <= 0 {
            60
        } else {
            raw.rate_limit_per_min
        },
        timeout_ms: raw.timeout_ms,
        max_retries: raw.max_retries,
        log_retention_days: if raw.log_retention_days <= 0 {
            90
        } else {
            raw.log_retention_days
        },
        mask_fields: crate::registry::copy_strings(&raw.mask_fields),
        fallback,
        input_schema: raw.input_schema.copy(),
        output_schema: raw.output_schema.copy(),
    };
    Ok((spec, base_url))
}

/// An earlier declaration has the same name as the one at `k`.
pub open spec fn named_before(raws: Seq<ToolYaml>, k: int) -> bool {
    exists|a: int| 0 <= a < k && #[trigger] raws[a].name@ == raws[k].name@
}

/// The first declaration, from `k` on, that repeats a name or cannot be
/// built.
pub open spec fn first_catalog_problem(raws: Seq<ToolYaml>, inv: Option<Map<Seq<char>, SystemV>>, k: int) -> Option<int>
    decreases raws.len() - k,
{
    if k < 0 || k >= raws.len() {
        None
    } else if named_before(raws, k) || build_fault(raws[k], inv) is Some {
        Some(k)
    } else {
        first_catalog_problem(raws, inv, k + 1)
    }
}

/// Builds every tool of a catalog, in order. A name given twice, or a tool
/// that cannot be built, refuses the catalog.
pub fn build_specs(raws: &Vec<ToolYaml>, inv: Option<&Inventory>) -> (r: Result<Vec<(Spec, String)>, CatalogError>)
    requires
        inv matches Some(i) ==> i.wf(),
        forall|k: int| 0 <= k < raws@.len() ==> (#[trigger] raws@[k]).approval_ttl_hours * 3600 <= u64::MAX,
    ensures
        match first_catalog_problem(raws@, opt_inv(inv), 0) {
            None => r matches Ok(v) && v@.len() == raws@.len() && forall|k: int|
                0 <= k < raws@.len() ==> built_as(raws@[k], opt_inv(inv), (#[trigger] v@[k]).0, v@[k].1@),
            Some(k) => r matches Err(e) && (if named_before(raws@, k) {
                e matches CatalogError::Duplicate(n) && n@ == raws@[k].name@
            } else {
                e matches CatalogError::Tool(j, n, be) && j == k && n == raws@[k].name && build_fault(
                    raws@[k],
                    opt_inv(inv),
                ) == Some(fault_code(be))
            }),
        },
        r matches Ok(_) ==> forall|a: int, b: int| 0 <= a < b < raws@.len() ==> raws@[a].name@ != raws@[b].name@,
{
    let mut seen: Vec<String> = Vec::new();
    let mut out: Vec<(Spec, String)> = Vec::new();
    let mut k: usize = 0;
    while k < raws.len()
        invariant
            k <= raws@.len(),
            inv matches Some(i) ==> i.wf(),
            forall|x: int| 0 <= x < raws@.len() ==> (#[trigger] raws@[x]).approval_ttl_hours * 3600 <= u64::MAX,
            seen@.len() == k,
            forall|x: int| 0 <= x < k ==> (#[trigger] seen@[x])@ == raws@[x].name@,
            forall|a: int, b: int| 0 <= a < b < k ==> raws@[a].name@ != raws@[b].name@,
            out@.len() == k,
            forall|x: int| 0 <= x < k ==> built_as(raws@[x], opt_inv(inv), (#[trigger] out@[x]).0, out@[x].1@),
            first_catalog_problem(raws@, opt_inv(inv), 0) == first_catalog_problem(raws@, opt_inv(inv), k as int),
        decreases raws.len() - k,
    {
        let raw = &raws[k];
        if vec_has(&seen, raw.name.as_str()) {
            proof {
                let a = choose|a: int| 0 <= a < seen@.len() && #[trigger] seen@[a]@ == raw.name@;
                assert(raws@[a].name@ == raws@[k as int].name@);
            }
            return Err(CatalogError::Duplicate(raw.name.clone()));
        }
        proof {
            if named_before(raws@, k as int) {
                let a = choose|a: int| 0 <= a < k && #[trigger] raws@[a].name@ == raws@[k as int].name@;
                assert(seen@[a]@ == raw.name@);
                assert(seq_has(seen@, raw.name@));
            }
        }
        match build_spec(raw, inv) {
            Ok(t) => {
                let ghost before = out@;
                out.push(t);
                assert(forall|x: int| 0 <= x < k ==> out@[x] == before[x]);
            },
            Err(e) => {
                return Err(CatalogError::Tool(k, raw.name.clone(), e));
            },
        }
        proof {
            assert forall|a: int, b: int| 0 <= a < b < k + 1 implies raws@[a].name@ != raws@[b].name@ by {
                if b == k {
                    if raws@[a].name@ == raws@[b].name@ {
                        assert(seen@[a]@ == raw.name@);
                    }
                }
            }
        }
        seen.push(raw.name.clone());
        k = k + 1;
    }
    Ok(out)
}

/// The catalog's tools in the registry: what the manager added, so that a
/// reload takes out exactly these and leaves the built-in tools alone.
pub struct Catalog {
    pub owned: Vec<String>,
}

/// The registry after each declaration is put in, in order.
pub open spec fn put_all(m: Map<Seq<char>, SpecV>, specs: Seq<Spec>) -> Map<Seq<char>, SpecV>
    decreases specs.len(),
{
    if specs.len() == 0 {
        m
    } else {
        put_all(m, specs.drop_last()).insert(specs.last()@.name, specs.last()@)
    }
}

pub open spec fn names_of(specs: Seq<Spec>) -> Set<Seq<char>> {
    Set::new(|n: Seq<char>| exists|k: int| 0 <= k < specs.len() && specs[k]@.name == n)
}

/// The non-empty names of `v` (an empty name is never registered).
pub open spec fn name_set(v: Seq<String>) -> Set<Seq<char>> {
    Set::new(|n: Seq<char>| n.len() > 0 && exists|k: int| 0 <= k < v.len() && v[k]@ == n)
}

/// How many distinct names of `v` the map has.
pub open spec fn registered_count(v: Seq<String>, m: Map<Seq<char>, SpecV>) -> nat {
    name_set(v).filter(|n: Seq<char>| m.contains_key(n)).len()
}

proof fn lemma_name_set_next(v: Seq<String>, i: int)
    requires
        0 <= i < v.len(),
    ensures
        name_set(v.take(i + 1)) == (if v[i]@.len() > 0 {
            name_set(v.take(i)).insert(v[i]@)
        } else {
            name_set(v.take(i))
        }),
{
    let x = v[i]@;
    assert forall|n: Seq<char>| #[trigger] name_set(v.take(i + 1)).contains(n) <==> (name_set(v.take(i)).contains(n) || (n
        == x && x.len() > 0)) by {
        if name_set(v.take(i + 1)).contains(n) {
            let k = choose|k: int| 0 <= k < i + 1 && #[trigger] v.take(i + 1)[k]@ == n;
            if k < i {
                assert(v.take(i)[k]@ == n);
            }
        }
        if name_set(v.take(i)).contains(n) {
            let k = choose|k: int| 0 <= k < i && #[trigger] v.take(i)[k]@ == n;
            assert(v.take(i + 1)[k]@ == n);
        }
        if n == x && x.len() > 0 {
            assert(v.take(i + 1)[i]@ == n);
        }
    }
    if x.len() > 0 {
        assert(name_set(v.take(i + 1)) =~= name_set(v.take(i)).insert(x));
    } else {
        assert(name_set(v.take(i + 1)) =~= name_set(v.take(i)));
    }
}

proof fn lemma_name_set_finite(v: Seq<String>, i: int)
    requires
        0 <= i <= v.len(),
    ensures
        name_set(v.take(i)).finite(),
    decreases i,
{
    if i == 0 {
        assert(name_set(v.take(0)) =~= Set::empty());
    } else {
        lemma_name_set_finite(v, i - 1);
        lemma_name_set_next(v, i - 1);
    }
}

impl Catalog {
    pub fn new() -> (r: Catalog)
        ensures
            r.owned@.len() == 0,
    {
        Catalog { owned: Vec::new() }
    }

    /// Takes the previous catalog's tools out, then registers the new ones
    /// in order. When one fails, the ones just registered are taken out
    /// too: no catalog is ever half applied. Returns how many were added
    /// and how many were removed.
    #[verifier::loop_isolation(false)]
    pub fn reload(&mut self, reg: &mut Registry, specs: Vec<Spec>) -> (r: Result<(usize, usize), CatalogError>)
        requires
            old(reg).wf(),
        ensures
            final(reg).wf(),
            match r {
                Ok((added, removed)) => {
                    &&& added == specs@.len()
                    &&& removed == registered_count(old(self).owned@, old(reg)@)
                    &&& final(reg)@ == put_all(old(reg)@.remove_keys(name_set(old(self).owned@)), specs@)
                    &&& name_set(final(self).owned@) == names_of(specs@)
                },
                Err(CatalogError::Register(_, _)) => {
                    &&& final(self).owned@.len() == 0
                    &&& exists|k: int|
                        0 <= k < specs@.len() && final(reg)@ == put_all(
                            old(reg)@.remove_keys(name_set(old(self).owned@)),
                            specs@.take(k),
                        ).remove_keys(names_of(specs@.take(k)))
                },
                Err(_) => false,
            },
    {
        let ghost start = reg@;
        let ghost gone = name_set(self.owned@);
        let ghost all = specs@;
        let mut removed: usize = 0;
        let mut i: usize = 0;
        assert(name_set(self.owned@.take(0)) =~= Set::empty());
        assert(name_set(self.owned@.take(0)).filter(|n: Seq<char>| start.contains_key(n)) =~= Set::empty());
        while i < self.owned.len()
            invariant
                i <= self.owned@.len(),
                reg.wf(),
                reg@ == start.remove_keys(name_set(self.owned@.take(i as int))),
                gone == name_set(self.owned@),
                removed <= i,
                removed == registered_count(self.owned@.take(i as int), start),
            decreases self.owned.len() - i,
        {
            match reg.unregister(self.owned[i].as_str()) {
                Ok(()) => {
                    removed = removed + 1;
                },
                Err(_) => {},
            }
            proof {
                let x = self.owned@[i as int]@;
                let seen = name_set(self.owned@.take(i as int));
                lemma_name_set_next(self.owned@, i as int);
                lemma_name_set_finite(self.owned@, i as int);
                seen.lemma_len_filter(|n: Seq<char>| start.contains_key(n));
                let hit = seen.filter(|n: Seq<char>| start.contains_key(n));
                let next = name_set(self.owned@.take(i + 1)).filter(|n: Seq<char>| start.contains_key(n));
                if x.len() > 0 {
                    if seen.contains(x) || !start.contains_key(x) {
                        assert(next =~= hit);
                    } else {
                        assert(next =~= hit.insert(x));
                    }
                } else {
                    assert(next =~= hit);
                }
                assert(reg@ =~= start.remove_keys(name_set(self.owned@.take(i + 1))));
            }
            i = i + 1;
        }
        assert(self.owned@.take(i as int) =~= self.owned@);
        let ghost base = reg@;
        self.owned = Vec::new();
        let mut added: usize = 0;
        let mut specs = specs;
        let total = specs.len();
        assert(all.len() == total);
        let mut rest: Vec<Spec> = Vec::new();
        // Put the declarations in order; keep the remaining ones reversed
        // so that each is taken from the end.
        while specs.len() > 0
            invariant
                rest@.len() + specs@.len() == all.len(),
                forall|k: int| 0 <= k < rest@.len() ==> #[trigger] rest@[k] == all[all.len() - 1 - k],
                specs@ == all.take(specs@.len() as int),
            decreases specs.len(),
        {
            let s = specs.pop().unwrap();
            rest.push(s);
            assert(specs@ =~= all.take(specs@.len() as int));
        }
        while rest.len() > 0
            invariant
                reg.wf(),
                all.len() <= usize::MAX,
                base == start.remove_keys(gone),
                added + rest@.len() == all.len(),
                forall|k: int| 0 <= k < added ==> (#[trigger] all[k])@.name.len() > 0,
                forall|k: int| 0 <= k < rest@.len() ==> #[trigger] rest@[k] == all[all.len() - 1 - k],
                reg@ == put_all(base, all.take(added as int)),
                self.owned@.len() == added,
                forall|k: int| 0 <= k < added ==> (#[trigger] self.owned@[k])@ == all[k]@.name,
            decreases rest.len(),
        {
            let s = rest.pop().unwrap();
            assert(s == all[added as int]);
            let name = s.name.clone();
            match reg.replace(s) {
                Ok(()) => {
                    proof {
                        assert(all.take(added + 1).drop_last() =~= all.take(added as int));
                        assert(all.take(added + 1).last() == all[added as int]);
                    }
                    self.owned.push(name);
                    added = added + 1;
                },
                Err(e) => {
                    let ghost at = added;
                    let mut j: usize = 0;
                    while j < self.owned.len()
                        invariant
                            reg.wf(),
                            base == start.remove_keys(gone),
                            j <= self.owned@.len(),
                            self.owned@.len() == at,
                            at < all.len(),
                            forall|k: int| 0 <= k < at ==> (#[trigger] all[k])@.name.len() > 0,
                            forall|k: int| 0 <= k < at ==> (#[trigger] self.owned@[k])@ == all[k]@.name,
                            reg@ == put_all(base, all.take(at as int)).remove_keys(name_set(self.owned@.take(j as int))),
                        decreases self.owned.len() - j,
                    {
                        let _ = reg.unregister(self.owned[j].as_str());
                        proof {
                            let o = self.owned@;
                            lemma_name_set_next(o, j as int);
                            assert(reg@ =~= put_all(base, all.take(at as int)).remove_keys(name_set(o.take(j + 1))));
                        }
                        j = j + 1;
                    }
                    proof {
                        let o = self.owned@;
                        assert(o.take(j as int) =~= o);
                        assert(name_set(o) =~= names_of(all.take(at as int))) by {
                            assert forall|n: Seq<char>| name_set(o).contains(n) implies names_of(all.take(at as int)).contains(n) by {
                                let k = choose|k: int| 0 <= k < o.len() && #[trigger] o[k]@ == n;
                                assert(all.take(at as int)[k]@.name == n);
                            }
                            assert forall|n: Seq<char>| names_of(all.take(at as int)).contains(n) implies name_set(o).contains(n) by {
                                let k = choose|k: int| 0 <= k < at && #[trigger] all.take(at as int)[k]@.name == n;
                                assert(o[k]@ == n);
                            }
                        }
                    }
                    self.owned = Vec::new();
                    proof {
                        assert(base == start.remove_keys(gone));
                        assert(reg@ == put_all(start.remove_keys(gone), all.take(at as int)).remove_keys(
                            names_of(all.take(at as int)),
                        ));
                        assert(0 <= at < all.len());
                        assert(exists|k: int| 0 <= k < all.len() && reg@ == put_all(start.remove_keys(gone), all.take(k)).remove_keys(
                            names_of(all.take(k)),
                        ));
                        assert(self.owned@.len() == 0);
                    }
                    return Err(CatalogError::Register(name, e));
                },
            }
        }
        proof {
            assert(all.take(added as int) =~= all);
            assert(name_set(self.owned@) =~= names_of(all)) by {
                assert forall|n: Seq<char>| name_set(self.owned@).contains(n) implies names_of(all).contains(n) by {
                    let k = choose|k: int| 0 <= k < self.owned@.len() && #[trigger] self.owned@[k]@ == n;
                    assert(all[k]@.name == n);
                }
                assert forall|n: Seq<char>| names_of(all).contains(n) implies name_set(self.owned@).contains(n) by {
                    let k = choose|k: int| 0 <= k < all.len() && #[trigger] all[k]@.name == n;
                    assert(self.owned@[k]@ == n);
                }
            }
        }
        Ok((added, removed))
    }
}

} // verus!
