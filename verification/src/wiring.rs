//! Start-up cross-checks between the registry and the inventory.
//!
//! When the inventory and the code disagree the gateway does not start: a
//! tool of a system the inventory lacks is refused, and a write tool on a
//! system without a write capability is refused.
use vstd::prelude::*;
use crate::inventory::{Capability, Inventory, SystemV, capability_text};
use crate::keyed::{Keyed, key_map, lemma_key_map, sorted_keys, upsert, lookup};
use crate::registry::{Access, Registry, Spec, SpecV};
use crate::retention::{Policy, Retention};
use crate::text::{concat, concat3, debug_quote, debug_text, lex_lt, owned, str_eq, lemma_lex_irreflexive};

verus! {

/// The capabilities of a system, space-separated.
pub open spec fn caps_text(c: Seq<Capability>) -> Seq<char>
    decreases c.len(),
{
    if c.len() == 0 {
        Seq::empty()
    } else if c.len() == 1 {
        capability_text(c[0])
    } else {
        caps_text(c.drop_last()) + " "@ + capability_text(c.last())
    }
}

pub open spec fn allows_write_spec(s: SystemV) -> bool {
    exists|i: int| 0 <= i < s.capabilities.len() && s.capabilities[i] != Capability::Read
}

/// What is wrong with one tool against the inventory.
pub open spec fn tool_problem(t: SpecV, inv: Map<Seq<char>, SystemV>) -> Option<Seq<char>> {
    if !inv.contains_key(t.system) {
        Some(
            "인벤토리 불일치: 도구 "@ + debug_text(t.name) + ": 시스템 "@ + debug_text(t.system)
                + " 이(가) 인벤토리에 없습니다"@,
        )
    } else if t.access == Access::Write && !allows_write_spec(inv[t.system]) {
        Some(
            "인벤토리 불일치: 도구 "@ + debug_text(t.name) + ": 시스템 "@ + debug_text(t.system)
                + " 의 capabilities에 쓰기 기능이 없습니다(현재 ["@ + caps_text(inv[t.system].capabilities)
                + "])"@,
        )
    } else {
        None
    }
}

fn caps_string(c: &Vec<Capability>) -> (r: String)
    ensures
        r@ == caps_text(c@),
{
    let mut out = String::new();
    let mut i: usize = 0;
    while i < c.len()
        invariant
            i <= c@.len(),
            out@ == caps_text(c@.take(i as int)),
        decreases c.len() - i,
    {
        let ghost t = c@.take(i + 1);
        assert(t.drop_last() =~= c@.take(i as int));
        assert(t.last() == c@[i as int]);
        if i > 0 {
            out.append(" ");
        }
        out.append(c[i].as_str());
        proof {
            if i == 0 {
                assert(c@.take(0) =~= Seq::<Capability>::empty());
                assert(out@ =~= capability_text(t[0]));
            } else {
                assert(out@ =~= caps_text(t.drop_last()) + " "@ + capability_text(t.last()));
            }
        }
        i = i + 1;
    }
    assert(c@.take(c@.len() as int) =~= c@);
    out
}

/// Checks every registered tool against the inventory. The first tool, in
/// name order, with a problem is reported.
pub fn validate_inventory(reg: &Registry, inv: &Inventory) -> (r: Result<(), String>)
    requires
        reg.wf(),
        inv.wf(),
    ensures
        r is Ok <==> forall|n: Seq<char>| #[trigger] reg@.contains_key(n) ==> tool_problem(reg@[n], inv@) is None,
        r matches Err(m) ==> exists|n: Seq<char>|
            #[trigger] reg@.contains_key(n) && tool_problem(reg@[n], inv@) == Some(m@) && forall|o: Seq<char>|
                #[trigger] reg@.contains_key(o) && lex_lt(o, n) ==> tool_problem(reg@[o], inv@) is None,
{
    let specs = reg.specs();
    proof {
        lemma_key_map(specs@);
    }
    let mut i: usize = 0;
    while i < specs.len()
        invariant
            i <= specs@.len(),
            sorted_keys(specs@),
            key_map(specs@) == reg@,
            inv.wf(),
            forall|j: int| 0 <= j < specs@.len() ==> #[trigger] key_map(specs@).contains_key(specs@[j].key_of())
                && key_map(specs@)[specs@[j].key_of()] == specs@[j]@,
            forall|k: Seq<char>| #[trigger] key_map(specs@).contains_key(k) ==> exists|j: int|
                0 <= j < specs@.len() && specs@[j].key_of() == k,
            forall|j: int| 0 <= j < i ==> tool_problem(#[trigger] specs@[j]@, inv@) is None,
        decreases specs.len() - i,
    {
        let s = &specs[i];
        let ghost sv = s@;
        assert(key_map(specs@).contains_key(specs@[i as int].key_of()));
        match inv.lookup(s.system.as_str()) {
            None => {
                let a = debug_quote(s.name.as_str());
                let b = debug_quote(s.system.as_str());
                let h = concat3("인벤토리 불일치: 도구 ", a.as_str(), ": 시스템 ");
                let m = concat3(h.as_str(), b.as_str(), " 이(가) 인벤토리에 없습니다");
                proof {
                    assert(tool_problem(sv, inv@) == Some(m@));
                    assert(reg@.contains_key(s.name@));
                    assert forall|o: Seq<char>| #[trigger] reg@.contains_key(o) && lex_lt(o, s.name@) implies tool_problem(
                        reg@[o],
                        inv@,
                    ) is None by {
                        let j = choose|j: int| 0 <= j < specs@.len() && specs@[j].key_of() == o;
                        if j >= i {
                            if j > i {
                                assert(lex_lt(specs@[i as int].key_of(), specs@[j].key_of()));
                                crate::text::lemma_lex_asymmetric(o, s.name@);
                            } else {
                                lemma_lex_irreflexive(o);
                            }
                        }
                    }
                }
                return Err(m);
            },
            Some(sys) => {
                if s.access == Access::Write && !sys.allows_write() {
                    let a = debug_quote(s.name.as_str());
                    let b = debug_quote(s.system.as_str());
                    let caps = caps_string(&sys.capabilities);
                    let h = concat3("인벤토리 불일치: 도구 ", a.as_str(), ": 시스템 ");
                    let h2 = concat3(h.as_str(), b.as_str(), " 의 capabilities에 쓰기 기능이 없습니다(현재 [");
                    let m = concat3(h2.as_str(), caps.as_str(), "])");
                    proof {
                        assert(tool_problem(sv, inv@) == Some(m@));
                        assert(reg@.contains_key(s.name@));
                        assert forall|o: Seq<char>| #[trigger] reg@.contains_key(o) && lex_lt(o, s.name@) implies tool_problem(
                            reg@[o],
                            inv@,
                        ) is None by {
                            let j = choose|j: int| 0 <= j < specs@.len() && specs@[j].key_of() == o;
                            if j >= i {
                                if j > i {
                                    assert(lex_lt(specs@[i as int].key_of(), specs@[j].key_of()));
                                    crate::text::lemma_lex_asymmetric(o, s.name@);
                                } else {
                                    lemma_lex_irreflexive(o);
                                }
                            }
                        }
                    }
                    return Err(m);
                }
            },
        }
        i = i + 1;
    }
    proof {
        assert forall|n: Seq<char>| #[trigger] reg@.contains_key(n) implies tool_problem(reg@[n], inv@) is None by {
            let j = choose|j: int| 0 <= j < specs@.len() && specs@[j].key_of() == n;
            assert(tool_problem(specs@[j]@, inv@) is None);
        }
    }
    Ok(())
}

/// Some tool belongs to system `sys`.
pub open spec fn system_used(reg: Map<Seq<char>, SpecV>, sys: Seq<char>) -> bool {
    exists|n: Seq<char>| #[trigger] reg.contains_key(n) && reg[n].system == sys
}

/// The systems no tool belongs to (worth a warning, not fatal), in name
/// order.
pub fn unused_systems(reg: &Registry, inv: &Inventory) -> (r: Vec<String>)
    requires
        reg.wf(),
        inv.wf(),
    ensures
        crate::injection::strictly_sorted(crate::registry::strs(r@)),
        forall|s: Seq<char>| #[trigger] crate::registry::strs(r@).contains(s) <==> (inv@.contains_key(s)
            && !system_used(reg@, s)),
{
    let specs = reg.specs();
    let systems = inv.systems();
    proof {
        lemma_key_map(specs@);
        lemma_key_map(systems@);
    }
    let mut out: Vec<String> = Vec::new();
    let mut i: usize = 0;
    while i < systems.len()
        invariant
            i <= systems@.len(),
            sorted_keys(systems@),
            key_map(systems@) == inv@,
            sorted_keys(specs@),
            key_map(specs@) == reg@,
            forall|j: int| 0 <= j < specs@.len() ==> #[trigger] key_map(specs@).contains_key(specs@[j].key_of())
                && key_map(specs@)[specs@[j].key_of()] == specs@[j]@,
            forall|k: Seq<char>| #[trigger] key_map(specs@).contains_key(k) ==> exists|j: int|
                0 <= j < specs@.len() && specs@[j].key_of() == k,
            forall|j: int| 0 <= j < systems@.len() ==> #[trigger] key_map(systems@).contains_key(systems@[j].key_of()),
            forall|k: Seq<char>| #[trigger] key_map(systems@).contains_key(k) ==> exists|j: int|
                0 <= j < systems@.len() && systems@[j].key_of() == k,
            out@.len() <= i,
            forall|a: int, b: int| 0 <= a < b < out@.len() ==> lex_lt(#[trigger] out@[a]@, #[trigger] out@[b]@),
            forall|a: int| 0 <= a < out@.len() ==> exists|j: int| 0 <= j < i && (#[trigger] out@[a])@ == systems@[j].name@,
            forall|s: Seq<char>| #[trigger] crate::registry::strs(out@).contains(s) <==> (exists|j: int| 0 <= j < i
                && systems@[j].name@ == s && !system_used(reg@, s)),
        decreases systems.len() - i,
    {
        let name = systems[i].name.as_str();
        let mut used = false;
        let mut k: usize = 0;
        while k < specs.len()
            invariant
                k <= specs@.len(),
                used == exists|j: int| 0 <= j < k && (#[trigger] specs@[j]).system@ == name@,
            decreases specs.len() - k,
        {
            if str_eq(specs[k].system.as_str(), name) {
                used = true;
            }
            k = k + 1;
        }
        assert(used == system_used(reg@, name@)) by {
            if used {
                let j = choose|j: int| 0 <= j < specs@.len() && (#[trigger] specs@[j]).system@ == name@;
                assert(reg@.contains_key(specs@[j].key_of()));
            }
            if system_used(reg@, name@) {
                let n = choose|n: Seq<char>| #[trigger] reg@.contains_key(n) && reg@[n].system == name@;
                let j = choose|j: int| 0 <= j < specs@.len() && specs@[j].key_of() == n;
                assert(specs@[j].system@ == name@);
            }
        }
        let ghost before = out@;
        if !used {
            out.push(systems[i].name.clone());
            proof {
                assert forall|a: int, b: int| 0 <= a < b < out@.len() implies lex_lt(#[trigger] out@[a]@, #[trigger] out@[b]@) by {
                    if b == out@.len() - 1 {
                        let j = choose|j: int| 0 <= j < i && (#[trigger] before[a])@ == systems@[j].name@;
                        assert(lex_lt(systems@[j].key_of(), systems@[i as int].key_of()));
                    }
                }
                assert forall|a: int| 0 <= a < out@.len() implies exists|j: int| 0 <= j < i + 1 && (#[trigger] out@[a])@
                    == systems@[j].name@ by {
                    if a < before.len() {
                        let j = choose|j: int| 0 <= j < i && (#[trigger] before[a])@ == systems@[j].name@;
                    } else {
                        assert(out@[a]@ == systems@[i as int].name@);
                    }
                }
            }
        }
        proof {
            assert forall|s: Seq<char>| #[trigger] crate::registry::strs(out@).contains(s) <==> (exists|j: int| 0 <= j < i + 1
                && systems@[j].name@ == s && !system_used(reg@, s)) by {
                if crate::registry::strs(out@).contains(s) {
                    let a = choose|a: int| 0 <= a < crate::registry::strs(out@).len() && crate::registry::strs(out@)[a] == s;
                    if a < before.len() {
                        assert(crate::registry::strs(before)[a] == s);
                        assert(crate::registry::strs(before).contains(s));
                    } else {
                        assert(systems@[i as int].name@ == s);
                    }
                }
                if exists|j: int| 0 <= j < i + 1 && systems@[j].name@ == s && !system_used(reg@, s) {
                    let j = choose|j: int| 0 <= j < i + 1 && systems@[j].name@ == s && !system_used(reg@, s);
                    if j < i {
                        assert(crate::registry::strs(before).contains(s));
                        let a = choose|a: int| 0 <= a < crate::registry::strs(before).len() && crate::registry::strs(before)[a] == s;
                        assert(crate::registry::strs(out@)[a] == s);
                    } else {
                        assert(crate::registry::strs(out@)[out@.len() - 1] == s);
                    }
                }
            }
        }
        i = i + 1;
    }
    proof {
        assert forall|s: Seq<char>| #[trigger] crate::registry::strs(out@).contains(s) <==> (inv@.contains_key(s)
            && !system_used(reg@, s)) by {
            if crate::registry::strs(out@).contains(s) {
                let j = choose|j: int| 0 <= j < i && systems@[j].name@ == s && !system_used(reg@, s);
                assert(key_map(systems@).contains_key(systems@[j].key_of()));
            }
            if inv@.contains_key(s) && !system_used(reg@, s) {
                let j = choose|j: int| 0 <= j < systems@.len() && systems@[j].key_of() == s;
                assert(systems@[j].name@ == s);
                assert(exists|x: int| 0 <= x < i && systems@[x].name@ == s && !system_used(reg@, s));
            }
        }
        assert forall|a: int, b: int| 0 <= a < b < crate::registry::strs(out@).len() implies lex_lt(
            #[trigger] crate::registry::strs(out@)[a],
            #[trigger] crate::registry::strs(out@)[b],
        ) by {
            assert(lex_lt(out@[a]@, out@[b]@));
        }
    }
    out
}

/// Each tool's retention moves into the audit purge policy. Records of
/// tools that left the registry are kept (a default of 0): renaming a tool
/// must not erase its audit trail.
pub fn retention_policy(reg: &Registry) -> (r: Policy)
    requires
        reg.wf(),
    ensures
        r.wf(),
        r.default == 0,
        forall|n: Seq<char>| #[trigger] key_map(r.by_tool@).contains_key(n) <==> reg@.contains_key(n),
        forall|n: Seq<char>| #[trigger] reg@.contains_key(n) ==> key_map(r.by_tool@)[n] == (n, reg@[n].log_retention_days),
{
    let specs = reg.specs();
    proof {
        lemma_key_map(specs@);
    }
    let mut p = Policy::new(0);
    let mut i: usize = 0;
    while i < specs.len()
        invariant
            i <= specs@.len(),
            p.wf(),
            p.default == 0,
            sorted_keys(specs@),
            key_map(specs@) == reg@,
            forall|j: int| 0 <= j < specs@.len() ==> #[trigger] key_map(specs@).contains_key(specs@[j].key_of())
                && key_map(specs@)[specs@[j].key_of()] == specs@[j]@,
            forall|k: Seq<char>| #[trigger] key_map(specs@).contains_key(k) ==> exists|j: int|
                0 <= j < specs@.len() && specs@[j].key_of() == k,
            forall|n: Seq<char>| #[trigger] key_map(p.by_tool@).contains_key(n) <==> exists|j: int|
                0 <= j < i && specs@[j].name@ == n,
            forall|j: int| 0 <= j < i ==> key_map(p.by_tool@)[#[trigger] specs@[j].name@] == (
            specs@[j].name@,
            specs@[j].log_retention_days,
            ),
        decreases specs.len() - i,
    {
        let ghost before = key_map(p.by_tool@);
        p.set(specs[i].name.as_str(), specs[i].log_retention_days);
        proof {
            assert forall|j: int| 0 <= j < i + 1 implies key_map(p.by_tool@)[#[trigger] specs@[j].name@] == (
            specs@[j].name@,
            specs@[j].log_retention_days,
            ) by {
                if j < i {
                    assert(lex_lt(specs@[j].key_of(), specs@[i as int].key_of()));
                    lemma_lex_irreflexive(specs@[j].name@);
                }
            }
            assert forall|n: Seq<char>| #[trigger] key_map(p.by_tool@).contains_key(n) <==> exists|j: int|
                0 <= j < i + 1 && specs@[j].name@ == n by {
                if before.contains_key(n) {
                    let j = choose|j: int| 0 <= j < i && specs@[j].name@ == n;
                }
            }
        }
        i = i + 1;
    }
    proof {
        assert forall|n: Seq<char>| #[trigger] key_map(p.by_tool@).contains_key(n) <==> reg@.contains_key(n) by {
            if key_map(p.by_tool@).contains_key(n) {
                let j = choose|j: int| 0 <= j < i && specs@[j].name@ == n;
                assert(key_map(specs@).contains_key(specs@[j].key_of()));
            }
            if reg@.contains_key(n) {
                let j = choose|j: int| 0 <= j < specs@.len() && specs@[j].key_of() == n;
                assert(specs@[j].name@ == n);
                assert(exists|x: int| 0 <= x < i && specs@[x].name@ == n);
            }
        }
        assert forall|n: Seq<char>| #[trigger] reg@.contains_key(n) implies key_map(p.by_tool@)[n] == (
        n,
        reg@[n].log_retention_days,
        ) by {
            let j = choose|j: int| 0 <= j < specs@.len() && specs@[j].key_of() == n;
            assert(key_map(p.by_tool@)[specs@[j].name@] == (specs@[j].name@, specs@[j].log_retention_days));
        }
    }
    p
}

/// How many tools one system has.
pub struct SystemCount {
    pub system: String,
    pub count: usize,
}

impl View for SystemCount {
    type V = (Seq<char>, usize);

    open spec fn view(&self) -> (Seq<char>, usize) {
        (self.system@, self.count)
    }
}

impl Keyed for SystemCount {
    open spec fn key_of(&self) -> Seq<char> {
        self.system@
    }

    fn key(&self) -> (r: &str) {
        self.system.as_str()
    }
}

/// The tools of system `sys`.
pub open spec fn tools_of(reg: Map<Seq<char>, SpecV>, sys: Seq<char>) -> Set<Seq<char>> {
    reg.dom().filter(|n: Seq<char>| reg[n].system == sys)
}

/// The names of the first `i` declarations that belong to `sys`.
pub open spec fn counted(specs: Seq<Spec>, i: int, sys: Seq<char>) -> Set<Seq<char>> {
    Set::new(|n: Seq<char>| exists|j: int| 0 <= j < i && specs[j].name@ == n && specs[j].system@ == sys)
}

/// Tools per system: every inventory system (with 0 where it has none) and
/// every system a tool names, in name order.
pub fn tool_counts(reg: &Registry, inv: &Inventory) -> (r: Vec<SystemCount>)
    requires
        reg.wf(),
        inv.wf(),
    ensures
        sorted_keys(r@),
        forall|k: Seq<char>| #[trigger] key_map(r@).contains_key(k) <==> (inv@.contains_key(k) || system_used(reg@, k)),
        forall|k: Seq<char>| #[trigger] key_map(r@).contains_key(k) ==> key_map(r@)[k] == (k, tools_of(reg@, k).len() as usize)
            && tools_of(reg@, k).finite(),
{
    let specs = reg.specs();
    let systems = inv.systems();
    proof {
        lemma_key_map(specs@);
        lemma_key_map(systems@);
    }
    let mut out: Vec<SystemCount> = Vec::new();
    let mut i: usize = 0;
    while i < systems.len()
        invariant
            i <= systems@.len(),
            sorted_keys(systems@),
            sorted_keys(out@),
            forall|k: Seq<char>| #[trigger] key_map(out@).contains_key(k) <==> exists|j: int| 0 <= j < i && systems@[j].name@ == k,
            forall|k: Seq<char>| #[trigger] key_map(out@).contains_key(k) ==> key_map(out@)[k] == (k, 0usize),
        decreases systems.len() - i,
    {
        let ghost before = key_map(out@);
        upsert(&mut out, SystemCount { system: systems[i].name.clone(), count: 0 });
        proof {
            assert forall|k: Seq<char>| #[trigger] key_map(out@).contains_key(k) <==> exists|j: int| 0 <= j < i + 1
                && systems@[j].name@ == k by {
                if before.contains_key(k) {
                    let j = choose|j: int| 0 <= j < i && systems@[j].name@ == k;
                }
                if k == systems@[i as int].name@ {
                    assert(key_map(out@).contains_key(k));
                }
            }
        }
        i = i + 1;
    }
    let mut t: usize = 0;
    proof {
        assert forall|k: Seq<char>| #[trigger] counted(specs@, 0, k) =~= Set::<Seq<char>>::empty() by {}
        assert forall|k: Seq<char>| #[trigger] key_map(out@).contains_key(k) <==> (inv@.contains_key(k) || exists|j: int|
            0 <= j < 0 && specs@[j].system@ == k) by {
            if key_map(out@).contains_key(k) {
                let j = choose|j: int| 0 <= j < systems@.len() && systems@[j].name@ == k;
                assert(key_map(systems@).contains_key(systems@[j].key_of()));
            }
            if inv@.contains_key(k) {
                let j = choose|j: int| 0 <= j < systems@.len() && systems@[j].key_of() == k;
                assert(systems@[j].name@ == k);
            }
        }
        assert forall|k: Seq<char>| #[trigger] key_map(out@).contains_key(k) implies key_map(out@)[k] == (
            k,
            counted(specs@, 0, k).len() as usize,
        ) by {
            assert(counted(specs@, 0, k).len() == 0);
        }
    }
    while t < specs.len()
        invariant
            t <= specs@.len(),
            sorted_keys(specs@),
            key_map(specs@) == reg@,
            key_map(systems@) == inv@,
            sorted_keys(out@),
            forall|j: int| 0 <= j < systems@.len() ==> #[trigger] key_map(systems@).contains_key(systems@[j].key_of()),
            forall|k: Seq<char>| #[trigger] key_map(systems@).contains_key(k) ==> exists|j: int|
                0 <= j < systems@.len() && systems@[j].key_of() == k,
            forall|k: Seq<char>| #[trigger] key_map(out@).contains_key(k) <==> (inv@.contains_key(k) || exists|j: int|
                0 <= j < t && specs@[j].system@ == k),
            forall|k: Seq<char>|
                #![trigger counted(specs@, t as int, k)]
                counted(specs@, t as int, k).finite() && counted(specs@, t as int, k).len() <= t,
            forall|k: Seq<char>| #[trigger] key_map(out@).contains_key(k) ==> key_map(out@)[k] == (
            k,
            counted(specs@, t as int, k).len() as usize,
            ),
        decreases specs.len() - t,
    {
        let sys = specs[t].system.as_str();
        let ghost name = specs@[t as int].name@;
        let ghost before = key_map(out@);
        proof {
            assert forall|k: Seq<char>| #[trigger] counted(specs@, t + 1, k) == if k == sys@ {
                counted(specs@, t as int, k).insert(name)
            } else {
                counted(specs@, t as int, k)
            } by {
                if k == sys@ {
                    assert(counted(specs@, t + 1, k) =~= counted(specs@, t as int, k).insert(name));
                } else {
                    assert(counted(specs@, t + 1, k) =~= counted(specs@, t as int, k));
                }
            }
            assert(!counted(specs@, t as int, sys@).contains(name)) by {
                if counted(specs@, t as int, sys@).contains(name) {
                    let j = choose|j: int| 0 <= j < t && specs@[j].name@ == name && specs@[j].system@ == sys@;
                    assert(lex_lt(specs@[j].key_of(), specs@[t as int].key_of()));
                    lemma_lex_irreflexive(name);
                }
            }
        }
        let current: usize = match lookup(&out, sys) {
            Some(c) => c.count,
            None => 0,
        };
        assert(counted(specs@, t as int, sys@).len() <= t);
        proof {
            if !before.contains_key(sys@) {
                assert(!inv@.contains_key(sys@));
                assert(counted(specs@, t as int, sys@) =~= Set::<Seq<char>>::empty()) by {
                    if exists|n: Seq<char>| counted(specs@, t as int, sys@).contains(n) {
                        let n = choose|n: Seq<char>| counted(specs@, t as int, sys@).contains(n);
                        let j = choose|j: int| 0 <= j < t && specs@[j].name@ == n && specs@[j].system@ == sys@;
                        assert(exists|x: int| 0 <= x < t && specs@[x].system@ == sys@);
                    }
                }
            }
            assert(current == counted(specs@, t as int, sys@).len());
        }
        upsert(&mut out, SystemCount { system: specs[t].system.clone(), count: current + 1 });
        proof {
            assert forall|k: Seq<char>| #[trigger] key_map(out@).contains_key(k) <==> (inv@.contains_key(k) || exists|j: int|
                0 <= j < t + 1 && specs@[j].system@ == k) by {
                if exists|j: int| 0 <= j < t && specs@[j].system@ == k {
                    let j = choose|j: int| 0 <= j < t && specs@[j].system@ == k;
                    assert(exists|x: int| 0 <= x < t + 1 && specs@[x].system@ == k);
                }
                if exists|j: int| 0 <= j < t + 1 && specs@[j].system@ == k {
                    let j = choose|j: int| 0 <= j < t + 1 && specs@[j].system@ == k;
                    if j < t {
                        assert(before.contains_key(k));
                    }
                }
            }
        }
        t = t + 1;
    }
    proof {
        assert forall|k: Seq<char>| #[trigger] key_map(out@).contains_key(k) <==> (inv@.contains_key(k) || system_used(reg@, k)) by {
            if exists|j: int| 0 <= j < specs@.len() && specs@[j].system@ == k {
                let j = choose|j: int| 0 <= j < specs@.len() && specs@[j].system@ == k;
                assert(reg@.contains_key(specs@[j].key_of()));
            }
            if system_used(reg@, k) {
                let n = choose|n: Seq<char>| #[trigger] reg@.contains_key(n) && reg@[n].system == k;
                let j = choose|j: int| 0 <= j < specs@.len() && specs@[j].key_of() == n;
                assert(specs@[j].system@ == k);
            }
        }
        assert forall|k: Seq<char>| #[trigger] key_map(out@).contains_key(k) implies key_map(out@)[k] == (
        k,
        tools_of(reg@, k).len() as usize,
        ) && tools_of(reg@, k).finite() by {
            assert(counted(specs@, specs@.len() as int, k) =~= tools_of(reg@, k)) by {
                assert forall|n: Seq<char>| #[trigger] tools_of(reg@, k).contains(n) implies counted(specs@, specs@.len() as int, k).contains(n) by {
                    let j = choose|j: int| 0 <= j < specs@.len() && specs@[j].key_of() == n;
                }
                assert forall|n: Seq<char>| #[trigger] counted(specs@, specs@.len() as int, k).contains(n) implies tools_of(reg@, k).contains(n) by {
                    let j = choose|j: int| 0 <= j < specs@.len() && specs@[j].name@ == n && specs@[j].system@ == k;
                    assert(reg@.contains_key(specs@[j].key_of()));
                }
            }
        }
    }
    out
}

/// The state of one legacy system, as its health check found it.
pub struct Health {
    pub system: String,
    pub healthy: bool,
    pub latency_nanos: u64,
    pub error: String,
}

} // verus!

