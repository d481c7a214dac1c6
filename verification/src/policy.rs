//! Policy engine: role-based permissions, attribute-based rules, and the
//! obligations that narrow an allowed call's output.
//!
//! A rule fires only when all its predicates hold. Missing values are read
//! in the fail-closed direction: `not_equals`, `not_in` and
//! `not_in_attribute` hold when the value is missing; `equals`, `in` and the
//! numeric comparisons do not.
use vstd::prelude::*;
use crate::auth::{Identity, IdentityV, allows_tool_spec, lemma_strs_has};
use crate::json::{Json, JsonV, Decimal, NumberV, obj_get, json_text, num_order_spec, jv, jv_list, lemma_jv_list, lemma_key_index};
use crate::registry::{Spec, SpecV, RiskLevel, Registry, strs, copy_strings};
use crate::inventory::{Inventory, SystemV};
use crate::digest::{sha256_hex, sha256_of, hex_lower};
use crate::keyed::{Keyed, sorted_keys, key_map, lemma_key_map};
use crate::text::{first_bad, lemma_first_bad_congruent, lemma_first_bad_none, seq_has, vec_has, str_eq, owned, concat, concat3, debug_quote, debug_text, trim, trim_spec};

verus! {

/// What a firing rule does.
#[derive(Clone, Copy, PartialEq, Eq, Debug, Structural)]
pub enum Effect {
    /// Refuse the call (the default).
    Deny,
    /// Allow, but require human approval.
    RequireApproval,
    /// Allow, narrowing the output.
    AllowWithObligations,
}

/// What an allowed call's output must undergo.
pub struct Obligations {
    /// Fields whose values are hidden (present but masked).
    pub mask_fields: Vec<String>,
    /// Fields removed altogether.
    pub redact_fields: Vec<String>,
    /// Most elements kept in each top-level array; 0 means no limit.
    pub max_rows: i64,
}

pub struct ObligationsV {
    pub mask_fields: Seq<Seq<char>>,
    pub redact_fields: Seq<Seq<char>>,
    pub max_rows: i64,
}

impl View for Obligations {
    type V = ObligationsV;

    open spec fn view(&self) -> ObligationsV {
        ObligationsV {
            mask_fields: strs(self.mask_fields@),
            redact_fields: strs(self.redact_fields@),
            max_rows: self.max_rows,
        }
    }
}

pub open spec fn obligations_zero(o: ObligationsV) -> bool {
    o.mask_fields.len() == 0 && o.redact_fields.len() == 0 && o.max_rows == 0
}

/// The empty obligations.
pub open spec fn no_obligations() -> ObligationsV {
    ObligationsV { mask_fields: Seq::empty(), redact_fields: Seq::empty(), max_rows: 0 }
}

/// Keeps the first occurrence of each element, in order.
pub open spec fn dedup(s: Seq<Seq<char>>) -> Seq<Seq<char>>
    decreases s.len(),
{
    if s.len() == 0 {
        Seq::empty()
    } else {
        let p = dedup(s.drop_last());
        if p.contains(s.last()) {
            p
        } else {
            p.push(s.last())
        }
    }
}

/// Order-preserving union.
pub open spec fn union_spec(a: Seq<Seq<char>>, b: Seq<Seq<char>>) -> Seq<Seq<char>> {
    dedup(a + b)
}

/// The smaller positive limit; a limit that is not positive sets none.
pub open spec fn min_positive(a: i64, b: i64) -> i64 {
    if a > 0 && b > 0 {
        if a <= b {
            a
        } else {
            b
        }
    } else if a > 0 {
        a
    } else if b > 0 {
        b
    } else {
        0
    }
}

/// The narrowest result of two obligations.
pub open spec fn merge_spec(a: ObligationsV, b: ObligationsV) -> ObligationsV {
    ObligationsV {
        mask_fields: union_spec(a.mask_fields, b.mask_fields),
        redact_fields: union_spec(a.redact_fields, b.redact_fields),
        max_rows: min_positive(a.max_rows, b.max_rows),
    }
}

pub proof fn lemma_dedup_contains(s: Seq<Seq<char>>)
    ensures
        forall|x: Seq<char>| #[trigger] dedup(s).contains(x) <==> s.contains(x),
        dedup(s).no_duplicates(),
    decreases s.len(),
{
    if s.len() > 0 {
        let p = s.drop_last();
        let l = s.last();
        let dp = dedup(p);
        lemma_dedup_contains(p);
        assert(dedup(s) == if dp.contains(l) { dp } else { dp.push(l) });
        assert forall|x: Seq<char>| #[trigger] dedup(s).contains(x) <==> s.contains(x) by {
            if s.contains(x) {
                let i = choose|i: int| 0 <= i < s.len() && s[i] == x;
                if i < s.len() - 1 {
                    assert(p[i] == x);
                    assert(p.contains(x));
                    assert(dp.contains(x));
                    let k = choose|k: int| 0 <= k < dp.len() && dp[k] == x;
                    if !dp.contains(l) {
                        assert(dp.push(l)[k] == x);
                    }
                } else {
                    assert(x == l);
                    if !dp.contains(l) {
                        assert(dp.push(l)[dp.len() as int] == x);
                    }
                }
            }
            if dedup(s).contains(x) {
                let k = choose|k: int| 0 <= k < dedup(s).len() && dedup(s)[k] == x;
                if dp.contains(l) || k < dp.len() {
                    assert(dp[k] == x);
                    assert(dp.contains(x));
                    assert(p.contains(x));
                    let i = choose|i: int| 0 <= i < p.len() && p[i] == x;
                    assert(s[i] == x);
                } else {
                    assert(x == l);
                    assert(s[s.len() - 1] == x);
                }
            }
        }
    }
}

/// Appends to `out` each item of `items` that it does not hold yet.
fn absorb(out: &mut Vec<String>, items: &Vec<String>, Ghost(prefix): Ghost<Seq<Seq<char>>>)
    requires
        strs(old(out)@) == dedup(prefix),
    ensures
        strs(final(out)@) == dedup(prefix + strs(items@)),
{
    let ghost t = strs(items@);
    let mut j: usize = 0;
    while j < items.len()
        invariant
            j <= items.len(),
            t == strs(items@),
            t.len() == items@.len(),
            strs(out@) == dedup(prefix + t.take(j as int)),
        decreases items.len() - j,
    {
        let x = &items[j];
        assert(x@ == t[j as int]);
        proof {
            lemma_strs_has(out@, x@);
        }
        let seen = vec_has(out, x.as_str());
        assert((prefix + t.take(j + 1)).drop_last() =~= prefix + t.take(j as int));
        assert((prefix + t.take(j + 1)).last() == x@);
        if !seen {
            out.push(x.clone());
            assert(strs(out@) =~= dedup(prefix + t.take(j as int)).push(x@));
        }
        j = j + 1;
    }
    assert(t.take(t.len() as int) =~= t);
}

/// A union of two strings vectors, keeping first occurrences in order.
fn union(a: &Vec<String>, b: &Vec<String>) -> (r: Vec<String>)
    ensures
        strs(r@) == union_spec(strs(a@), strs(b@)),
{
    let mut out: Vec<String> = Vec::new();
    assert(strs(out@) =~= dedup(Seq::<Seq<char>>::empty()));
    absorb(&mut out, a, Ghost(Seq::empty()));
    assert(Seq::<Seq<char>>::empty() + strs(a@) =~= strs(a@));
    absorb(&mut out, b, Ghost(strs(a@)));
    out
}

impl Obligations {
    pub fn none() -> (r: Obligations)
        ensures
            r@ == no_obligations(),
    {
        let r = Obligations { mask_fields: Vec::new(), redact_fields: Vec::new(), max_rows: 0 };
        assert(r@.mask_fields =~= Seq::<Seq<char>>::empty());
        assert(r@.redact_fields =~= Seq::<Seq<char>>::empty());
        r
    }

    pub fn is_zero(&self) -> (r: bool)
        ensures
            r == obligations_zero(self@),
    {
        self.mask_fields.len() == 0 && self.redact_fields.len() == 0 && self.max_rows == 0
    }

    /// When several obligation rules fire, the narrowest result wins: field
    /// lists are united; the smallest positive `max_rows` wins, and zero
    /// (no limit) never overrides a set limit.
    pub fn merge(&self, other: &Obligations) -> (r: Obligations)
        ensures
            r@ == merge_spec(self@, other@),
    {
        let max_rows = if self.max_rows > 0 && other.max_rows > 0 {
            if self.max_rows <= other.max_rows {
                self.max_rows
            } else {
                other.max_rows
            }
        } else if self.max_rows > 0 {
            self.max_rows
        } else if other.max_rows > 0 {
            other.max_rows
        } else {
            0
        };
        Obligations {
            mask_fields: union(&self.mask_fields, &other.mask_fields),
            redact_fields: union(&self.redact_fields, &other.redact_fields),
            max_rows,
        }
    }

    pub fn copy(&self) -> (r: Obligations)
        ensures
            r@ == self@,
    {
        Obligations {
            mask_fields: copy_strings(&self.mask_fields),
            redact_fields: copy_strings(&self.redact_fields),
            max_rows: self.max_rows,
        }
    }
}

/// Merging is commutative in its row limit and in the fields it names, and
/// merging with no obligations changes neither.
pub proof fn law_merge_narrowest(a: ObligationsV, b: ObligationsV)
    ensures
        merge_spec(a, b).max_rows == merge_spec(b, a).max_rows,
        forall|x: Seq<char>| #[trigger] merge_spec(a, b).mask_fields.contains(x) <==> merge_spec(b, a).mask_fields.contains(x),
        forall|x: Seq<char>| #[trigger] merge_spec(a, b).redact_fields.contains(x) <==> merge_spec(b, a).redact_fields.contains(x),
        forall|x: Seq<char>| #[trigger] merge_spec(a, b).mask_fields.contains(x) <==> (a.mask_fields.contains(x) || b.mask_fields.contains(x)),
        forall|x: Seq<char>| #[trigger] merge_spec(a, b).redact_fields.contains(x) <==> (a.redact_fields.contains(x) || b.redact_fields.contains(x)),
        a.max_rows > 0 ==> merge_spec(a, no_obligations()).max_rows == a.max_rows,
        a.max_rows > 0 ==> merge_spec(no_obligations(), a).max_rows == a.max_rows,
        a.max_rows > 0 && b.max_rows > 0 ==> merge_spec(a, b).max_rows <= a.max_rows && merge_spec(a, b).max_rows <= b.max_rows,
{
    lemma_dedup_contains(a.mask_fields + b.mask_fields);
    lemma_dedup_contains(b.mask_fields + a.mask_fields);
    lemma_dedup_contains(a.redact_fields + b.redact_fields);
    lemma_dedup_contains(b.redact_fields + a.redact_fields);
    assert forall|s: Seq<Seq<char>>, t: Seq<Seq<char>>, x: Seq<char>| (s + t).contains(x) <==> (s.contains(x) || t.contains(x)) by {
        if (s + t).contains(x) {
            let i = choose|i: int| 0 <= i < (s + t).len() && (s + t)[i] == x;
            if i < s.len() {
                assert(s[i] == x);
            } else {
                assert(t[i - s.len()] == x);
            }
        }
        if s.contains(x) {
            let i = choose|i: int| 0 <= i < s.len() && s[i] == x;
            assert((s + t)[i] == x);
        }
        if t.contains(x) {
            let i = choose|i: int| 0 <= i < t.len() && t[i] == x;
            assert((s + t)[i + s.len()] == x);
        }
    }
}

/// A role: the permissions it grants.
pub struct Role {
    pub permissions: Vec<String>,
}

/// One condition of a rule: exactly one target (`attribute` or `arg`) and
/// exactly one operator.
pub struct Predicate {
    pub attribute: String,
    pub arg: String,
    pub equals: Option<String>,
    pub not_equals: Option<String>,
    pub in_: Vec<String>,
    pub not_in: Vec<String>,
    pub gt: Option<Decimal>,
    pub gte: Option<Decimal>,
    pub lt: Option<Decimal>,
    pub lte: Option<Decimal>,
    /// The argument's value must be in the principal's attribute list.
    pub in_attribute: String,
    /// The argument's value must not be in the principal's attribute list.
    pub not_in_attribute: String,
}

/// An attribute-based rule.
pub struct Rule {
    pub id: String,
    pub description: String,
    pub effect: Effect,
    pub applies_to_tools: Vec<String>,
    pub applies_to_roles: Vec<String>,
    pub applies_to_systems: Vec<String>,
    /// Joined by AND.
    pub when: Vec<Predicate>,
    pub obligations: Obligations,
}

/// A policy document.
pub struct Config {
    pub version: String,
    pub roles: Vec<(String, Role)>,
    pub rules: Vec<Rule>,
}

/// The outcome of evaluating a call.
pub struct Decision {
    pub allowed: bool,
    pub reason: String,
    pub rule_id: String,
    pub approval_required: bool,
    pub obligations: Obligations,
    /// Every rule that fired, in order (for the audit).
    pub matched_rules: Vec<String>,
}

pub struct DecisionV {
    pub allowed: bool,
    pub reason: Seq<char>,
    pub rule_id: Seq<char>,
    pub approval_required: bool,
    pub obligations: ObligationsV,
    pub matched_rules: Seq<Seq<char>>,
}

impl View for Decision {
    type V = DecisionV;

    open spec fn view(&self) -> DecisionV {
        DecisionV {
            allowed: self.allowed,
            reason: self.reason@,
            rule_id: self.rule_id@,
            approval_required: self.approval_required,
            obligations: self.obligations@,
            matched_rules: strs(self.matched_rules@),
        }
    }
}

// ---------------------------------------------------------------------------
// Values as the rules read them
// ---------------------------------------------------------------------------

/// How a rule reads a value as text: a string as itself, anything else as
/// its JSON text (`true`, `10`, `null`, ...).
pub open spec fn value_text(v: JsonV) -> Seq<char> {
    match v {
        JsonV::Str(s) => s,
        _ => json_text(v),
    }
}

pub fn value_text_of(v: &Json) -> (r: String)
    ensures
        r@ == value_text(v@),
{
    match v {
        Json::Str(s) => s.clone(),
        _ => v.to_text(),
    }
}

/// The texts of a list value; nothing for a value that is not a list.
pub open spec fn list_texts(v: JsonV) -> Seq<Seq<char>> {
    match v {
        JsonV::Array(items) => items.map_values(|x: JsonV| value_text(x)),
        _ => Seq::empty(),
    }
}

/// Whether `t` is among the texts of the list value `v`.
fn list_has_text(v: &Json, t: &str) -> (r: bool)
    ensures
        r == list_texts(v@).contains(t@),
{
    match v {
        Json::Array(items) => {
            proof {
                lemma_jv_list(items@);
            }
            let ghost lt = list_texts(v@);
            let mut i: usize = 0;
            while i < items.len()
                invariant
                    i <= items.len(),
                    lt == list_texts(v@),
                    lt.len() == items@.len(),
                    forall|j: int| 0 <= j < items@.len() ==> lt[j] == value_text(crate::json::jv(#[trigger] items@[j])),
                    forall|j: int| 0 <= j < i ==> lt[j] != t@,
                decreases items.len() - i,
            {
                let x = value_text_of(&items[i]);
                if str_eq(x.as_str(), t) {
                    return true;
                }
                i = i + 1;
            }
            false
        },
        _ => false,
    }
}

pub struct PredicateV {
    pub attribute: Seq<char>,
    pub arg: Seq<char>,
    pub equals: Option<Seq<char>>,
    pub not_equals: Option<Seq<char>>,
    pub in_: Seq<Seq<char>>,
    pub not_in: Seq<Seq<char>>,
    pub gt: Option<Decimal>,
    pub gte: Option<Decimal>,
    pub lt: Option<Decimal>,
    pub lte: Option<Decimal>,
    pub in_attribute: Seq<char>,
    pub not_in_attribute: Seq<char>,
}

pub open spec fn opt_view(o: Option<String>) -> Option<Seq<char>> {
    match o {
        Some(s) => Some(s@),
        None => None,
    }
}

impl View for Predicate {
    type V = PredicateV;

    open spec fn view(&self) -> PredicateV {
        PredicateV {
            attribute: self.attribute@,
            arg: self.arg@,
            equals: opt_view(self.equals),
            not_equals: opt_view(self.not_equals),
            in_: strs(self.in_@),
            not_in: strs(self.not_in@),
            gt: self.gt,
            gte: self.gte,
            lt: self.lt,
            lte: self.lte,
            in_attribute: self.in_attribute@,
            not_in_attribute: self.not_in_attribute@,
        }
    }
}

/// Whether a predicate holds for this principal and these arguments.
pub open spec fn pred_holds(p: PredicateV, id: IdentityV, args: Seq<(Seq<char>, JsonV)>) -> bool {
    if p.in_attribute.len() > 0 || p.not_in_attribute.len() > 0 {
        let attr_name = if p.in_attribute.len() == 0 {
            p.not_in_attribute
        } else {
            p.in_attribute
        };
        let list = match obj_get(id.attributes, attr_name) {
            Some(v) => list_texts(v),
            None => Seq::empty(),
        };
        let in_list = match obj_get(args, p.arg) {
            Some(v) => list.contains(value_text(v)),
            None => false,
        };
        if p.in_attribute.len() > 0 {
            in_list
        } else {
            !in_list
        }
    } else {
        let value = if p.attribute.len() > 0 {
            obj_get(id.attributes, p.attribute)
        } else {
            obj_get(args, p.arg)
        };
        if p.equals is Some {
            match value {
                Some(v) => value_text(v) == p.equals->0,
                None => false,
            }
        } else if p.not_equals is Some {
            match value {
                Some(v) => value_text(v) != p.not_equals->0,
                None => true,
            }
        } else if p.in_.len() > 0 {
            match value {
                Some(v) => p.in_.contains(value_text(v)),
                None => false,
            }
        } else if p.not_in.len() > 0 {
            match value {
                Some(v) => !p.not_in.contains(value_text(v)),
                None => true,
            }
        } else {
            match value {
                Some(JsonV::Num(n)) => if p.gt is Some {
                    num_order_spec(n, p.gt->0) > 0
                } else if p.gte is Some {
                    num_order_spec(n, p.gte->0) >= 0
                } else if p.lt is Some {
                    num_order_spec(n, p.lt->0) < 0
                } else if p.lte is Some {
                    num_order_spec(n, p.lte->0) <= 0
                } else {
                    false
                },
                _ => false,
            }
        }
    }
}

fn strings_have(v: &Vec<String>, x: &str) -> (r: bool)
    ensures
        r == strs(v@).contains(x@),
{
    proof {
        lemma_strs_has(v@, x@);
    }
    vec_has(v, x)
}

/// Whether a predicate holds.
pub fn predicate_matches(p: &Predicate, id: &Identity, args: &Vec<(String, Json)>) -> (r: bool)
    ensures
        r == pred_holds(p@, id@, crate::json::jv_entries(args@)),
{
    if !p.in_attribute.as_str().is_empty() || !p.not_in_attribute.as_str().is_empty() {
        let attr_name = if p.in_attribute.as_str().is_empty() {
            &p.not_in_attribute
        } else {
            &p.in_attribute
        };
        let in_list = match crate::json::get(args, p.arg.as_str()) {
            Some(v) => {
                let t = value_text_of(v);
                match id.attr(attr_name.as_str()) {
                    Some(l) => list_has_text(l, t.as_str()),
                    None => false,
                }
            },
            None => false,
        };
        if !p.in_attribute.as_str().is_empty() {
            return in_list;
        }
        return !in_list;
    }
    let value = if !p.attribute.as_str().is_empty() {
        id.attr(p.attribute.as_str())
    } else {
        crate::json::get(args, p.arg.as_str())
    };
    if let Some(want) = &p.equals {
        return match value {
            Some(v) => str_eq(value_text_of(v).as_str(), want.as_str()),
            None => false,
        };
    }
    if let Some(want) = &p.not_equals {
        return match value {
            Some(v) => !str_eq(value_text_of(v).as_str(), want.as_str()),
            None => true,
        };
    }
    if p.in_.len() > 0 {
        return match value {
            Some(v) => strings_have(&p.in_, value_text_of(v).as_str()),
            None => false,
        };
    }
    if p.not_in.len() > 0 {
        return match value {
            Some(v) => !strings_have(&p.not_in, value_text_of(v).as_str()),
            None => true,
        };
    }
    match value {
        Some(Json::Num(n)) => {
            if let Some(x) = &p.gt {
                n.order_against(x) > 0
            } else if let Some(x) = &p.gte {
                n.order_against(x) >= 0
            } else if let Some(x) = &p.lt {
                n.order_against(x) < 0
            } else if let Some(x) = &p.lte {
                n.order_against(x) <= 0
            } else {
                false
            }
        },
        _ => false,
    }
}


// ---------------------------------------------------------------------------
// Rules, roles and the policy document as values
// ---------------------------------------------------------------------------

impl View for Role {
    type V = Seq<Seq<char>>;

    open spec fn view(&self) -> Seq<Seq<char>> {
        strs(self.permissions@)
    }
}

pub struct RuleV {
    pub id: Seq<char>,
    pub description: Seq<char>,
    pub effect: Effect,
    pub applies_to_tools: Seq<Seq<char>>,
    pub applies_to_roles: Seq<Seq<char>>,
    pub applies_to_systems: Seq<Seq<char>>,
    pub when: Seq<PredicateV>,
    pub obligations: ObligationsV,
}

impl View for Rule {
    type V = RuleV;

    open spec fn view(&self) -> RuleV {
        RuleV {
            id: self.id@,
            description: self.description@,
            effect: self.effect,
            applies_to_tools: strs(self.applies_to_tools@),
            applies_to_roles: strs(self.applies_to_roles@),
            applies_to_systems: strs(self.applies_to_systems@),
            when: self.when@.map_values(|p: Predicate| p@),
            obligations: self.obligations@,
        }
    }
}

pub struct ConfigV {
    pub version: Seq<char>,
    pub roles: Seq<(Seq<char>, Seq<Seq<char>>)>,
    pub rules: Seq<RuleV>,
}

pub open spec fn roles_view(v: Seq<(String, Role)>) -> Seq<(Seq<char>, Seq<Seq<char>>)> {
    v.map_values(|e: (String, Role)| (e.0@, e.1@))
}

impl View for Config {
    type V = ConfigV;

    open spec fn view(&self) -> ConfigV {
        ConfigV {
            version: self.version@,
            roles: roles_view(self.roles@),
            rules: self.rules@.map_values(|r: Rule| r@),
        }
    }
}

fn copy_opt(o: &Option<String>) -> (r: Option<String>)
    ensures
        opt_view(r) == opt_view(*o),
{
    match o {
        Some(s) => Some(s.clone()),
        None => None,
    }
}

impl Predicate {
    pub fn copy(&self) -> (r: Predicate)
        ensures
            r@ == self@,
    {
        Predicate {
            attribute: self.attribute.clone(),
            arg: self.arg.clone(),
            equals: copy_opt(&self.equals),
            not_equals: copy_opt(&self.not_equals),
            in_: copy_strings(&self.in_),
            not_in: copy_strings(&self.not_in),
            gt: self.gt,
            gte: self.gte,
            lt: self.lt,
            lte: self.lte,
            in_attribute: self.in_attribute.clone(),
            not_in_attribute: self.not_in_attribute.clone(),
        }
    }
}

impl Role {
    pub fn copy(&self) -> (r: Role)
        ensures
            r@ == self@,
    {
        Role { permissions: copy_strings(&self.permissions) }
    }
}

impl Rule {
    pub fn copy(&self) -> (r: Rule)
        ensures
            r@ == self@,
    {
        let mut preds: Vec<Predicate> = Vec::new();
        let mut i: usize = 0;
        while i < self.when.len()
            invariant
                i <= self.when.len(),
                preds@.len() == i,
                forall|j: int| 0 <= j < i ==> (#[trigger] preds@[j])@ == self.when@[j]@,
            decreases self.when.len() - i,
        {
            preds.push(self.when[i].copy());
            i = i + 1;
        }
        let r = Rule {
            id: self.id.clone(),
            description: self.description.clone(),
            effect: self.effect,
            applies_to_tools: copy_strings(&self.applies_to_tools),
            applies_to_roles: copy_strings(&self.applies_to_roles),
            applies_to_systems: copy_strings(&self.applies_to_systems),
            when: preds,
            obligations: self.obligations.copy(),
        };
        assert(r@.when =~= self@.when);
        r
    }
}

impl Config {
    pub fn copy(&self) -> (r: Config)
        ensures
            r@ == self@,
    {
        let mut roles: Vec<(String, Role)> = Vec::new();
        let mut i: usize = 0;
        while i < self.roles.len()
            invariant
                i <= self.roles.len(),
                roles@.len() == i,
                forall|j: int| 0 <= j < i ==> (#[trigger] roles@[j]).0@ == self.roles@[j].0@ && roles@[j].1@
                    == self.roles@[j].1@,
            decreases self.roles.len() - i,
        {
            roles.push((self.roles[i].0.clone(), self.roles[i].1.copy()));
            i = i + 1;
        }
        let mut rules: Vec<Rule> = Vec::new();
        let mut k: usize = 0;
        while k < self.rules.len()
            invariant
                k <= self.rules.len(),
                rules@.len() == k,
                forall|j: int| 0 <= j < k ==> (#[trigger] rules@[j])@ == self.rules@[j]@,
            decreases self.rules.len() - k,
        {
            rules.push(self.rules[k].copy());
            k = k + 1;
        }
        let r = Config { version: self.version.clone(), roles, rules };
        assert(r@.roles =~= self@.roles);
        assert(r@.rules =~= self@.rules);
        r
    }
}

// ---------------------------------------------------------------------------
// Permissions
// ---------------------------------------------------------------------------

/// The permissions of the role named `name` (the first entry of that name).
pub open spec fn role_get(roles: Seq<(Seq<char>, Seq<Seq<char>>)>, name: Seq<char>) -> Option<Seq<Seq<char>>>
    decreases roles.len(),
{
    if roles.len() == 0 {
        None
    } else if roles[0].0 == name {
        Some(roles[0].1)
    } else {
        role_get(roles.drop_first(), name)
    }
}

/// Whether the role `role` grants `p`; an unknown role grants nothing.
pub open spec fn role_grants(roles: Seq<(Seq<char>, Seq<Seq<char>>)>, role: Seq<char>, p: Seq<char>) -> bool {
    match role_get(roles, role) {
        Some(ps) => ps.contains(p),
        None => false,
    }
}

/// Whether the principal holds `p`, directly or through one of its roles.
pub open spec fn grants(cfg: ConfigV, id: IdentityV, p: Seq<char>) -> bool {
    id.permissions.contains(p) || exists|k: int| 0 <= k < id.roles.len() && #[trigger] role_grants(cfg.roles, id.roles[k], p)
}

/// Whether the principal may use something that needs `need`; `"*"` grants
/// everything.
pub open spec fn has_perm(cfg: ConfigV, id: IdentityV, need: Seq<char>) -> bool {
    grants(cfg, id, "*"@) || grants(cfg, id, need)
}

fn find_role<'a>(roles: &'a Vec<(String, Role)>, name: &str) -> (r: Option<&'a Role>)
    ensures
        match r {
            Some(role) => role_get(roles_view(roles@), name@) == Some(role@),
            None => role_get(roles_view(roles@), name@) == None::<Seq<Seq<char>>>,
        },
{
    let ghost all = roles_view(roles@);
    assert(all.subrange(0, all.len() as int) =~= all);
    let mut i: usize = 0;
    while i < roles.len()
        invariant
            i <= roles.len(),
            all == roles_view(roles@),
            all.len() == roles@.len(),
            role_get(all, name@) == role_get(all.subrange(i as int, all.len() as int), name@),
        decreases roles.len() - i,
    {
        let ghost rest = all.subrange(i as int, all.len() as int);
        assert(rest[0] == (roles@[i as int].0@, roles@[i as int].1@));
        assert(rest.drop_first() =~= all.subrange(i + 1, all.len() as int));
        if str_eq(roles[i].0.as_str(), name) {
            return Some(&roles[i].1);
        }
        i = i + 1;
    }
    None
}

pub proof fn lemma_concat_contains<A>(s: Seq<A>, t: Seq<A>)
    ensures
        forall|x: A| #[trigger] (s + t).contains(x) <==> (s.contains(x) || t.contains(x)),
{
    assert forall|x: A| #[trigger] (s + t).contains(x) <==> (s.contains(x) || t.contains(x)) by {
        if (s + t).contains(x) {
            let i = choose|i: int| 0 <= i < (s + t).len() && (s + t)[i] == x;
            if i < s.len() {
                assert(s[i] == x);
            } else {
                assert(t[i - s.len()] == x);
            }
        }
        if s.contains(x) {
            let i = choose|i: int| 0 <= i < s.len() && s[i] == x;
            assert((s + t)[i] == x);
        }
        if t.contains(x) {
            let i = choose|i: int| 0 <= i < t.len() && t[i] == x;
            assert((s + t)[i + s.len()] == x);
        }
    }
}

fn append_strings(out: &mut Vec<String>, v: &Vec<String>)
    ensures
        strs(final(out)@) == strs(old(out)@) + strs(v@),
{
    let ghost start = strs(out@);
    let mut i: usize = 0;
    while i < v.len()
        invariant
            i <= v.len(),
            strs(out@) == start + strs(v@).take(i as int),
        decreases v.len() - i,
    {
        let ghost prev = out@;
        let c = v[i].clone();
        out.push(c);
        assert(out@ =~= prev.push(c));
        assert(strs(out@) =~= strs(prev).push(c@));
        assert(strs(v@).take(i + 1) =~= strs(v@).take(i as int).push(v@[i as int]@));
        assert(strs(out@) =~= start + strs(v@).take(i + 1));
        i = i + 1;
    }
    assert(strs(v@).take(v@.len() as int) =~= strs(v@));
}

/// The permissions granted directly, then those of each known role.
fn effective_permissions(cfg: &Config, id: &Identity) -> (r: Vec<String>)
    ensures
        forall|p: Seq<char>| #[trigger] strs(r@).contains(p) <==> grants(cfg@, id@, p),
{
    let mut out = copy_strings(&id.permissions);
    let mut k: usize = 0;
    while k < id.roles.len()
        invariant
            k <= id.roles.len(),
            forall|p: Seq<char>| #[trigger] strs(out@).contains(p) <==> (id@.permissions.contains(p) || exists|j: int|
                0 <= j < k && #[trigger] role_grants(cfg@.roles, id@.roles[j], p)),
        decreases id.roles.len() - k,
    {
        let ghost before = strs(out@);
        let ghost rk = id@.roles[k as int];
        assert(rk == id.roles@[k as int]@);
        match find_role(&cfg.roles, id.roles[k].as_str()) {
            Some(role) => {
                append_strings(&mut out, &role.permissions);
                proof {
                    lemma_concat_contains(before, role@);
                    assert forall|p: Seq<char>| #[trigger] strs(out@).contains(p) <==> (before.contains(p)
                        || role_grants(cfg@.roles, rk, p)) by {}
                }
            },
            None => {
                assert forall|p: Seq<char>| #[trigger] strs(out@).contains(p) <==> (before.contains(p)
                    || role_grants(cfg@.roles, rk, p)) by {}
            },
        }
        assert forall|p: Seq<char>| #[trigger] strs(out@).contains(p) <==> (id@.permissions.contains(p) || exists|j: int|
            0 <= j < k + 1 && #[trigger] role_grants(cfg@.roles, id@.roles[j], p)) by {
            assert(id@.roles[k as int] == id.roles@[k as int]@);
            if exists|j: int| 0 <= j < k + 1 && #[trigger] role_grants(cfg@.roles, id@.roles[j], p) {
                let j = choose|j: int| 0 <= j < k + 1 && #[trigger] role_grants(cfg@.roles, id@.roles[j], p);
                if j < k {
                    assert(before.contains(p));
                }
            }
        }
        k = k + 1;
    }
    out
}

/// Whether `perms` covers `need`.
fn has_permission(perms: &Vec<String>, need: &str) -> (r: bool)
    ensures
        r == (strs(perms@).contains("*"@) || strs(perms@).contains(need@)),
{
    strings_have(perms, "*") || strings_have(perms, need)
}

/// The first of `needs` that the principal lacks.
pub open spec fn first_missing(cfg: ConfigV, id: IdentityV, needs: Seq<Seq<char>>) -> Option<Seq<char>>
    decreases needs.len(),
{
    if needs.len() == 0 {
        None
    } else if !has_perm(cfg, id, needs[0]) {
        Some(needs[0])
    } else {
        first_missing(cfg, id, needs.drop_first())
    }
}

/// The first required permission of the tool that the principal lacks.
fn missing_permission(cfg: &Config, id: &Identity, needs: &Vec<String>) -> (r: Option<String>)
    ensures
        match r {
            Some(n) => first_missing(cfg@, id@, strs(needs@)) == Some(n@),
            None => first_missing(cfg@, id@, strs(needs@)) == None::<Seq<char>>,
        },
{
    let perms = effective_permissions(cfg, id);
    let ghost all = strs(needs@);
    assert(all.subrange(0, all.len() as int) =~= all);
    let mut i: usize = 0;
    while i < needs.len()
        invariant
            i <= needs.len(),
            all == strs(needs@),
            all.len() == needs@.len(),
            forall|p: Seq<char>| #[trigger] strs(perms@).contains(p) <==> grants(cfg@, id@, p),
            first_missing(cfg@, id@, all) == first_missing(cfg@, id@, all.subrange(i as int, all.len() as int)),
        decreases needs.len() - i,
    {
        let ghost rest = all.subrange(i as int, all.len() as int);
        assert(rest[0] == needs@[i as int]@);
        assert(rest.drop_first() =~= all.subrange(i + 1, all.len() as int));
        if !has_permission(&perms, needs[i].as_str()) {
            return Some(needs[i].clone());
        }
        i = i + 1;
    }
    None
}

// ---------------------------------------------------------------------------
// Rule scope and firing
// ---------------------------------------------------------------------------

/// Whether a rule's scope covers this call; an empty list puts no limit on
/// its axis.
pub open spec fn rule_applies_spec(rule: RuleV, id: IdentityV, spec: SpecV) -> bool {
    &&& (rule.applies_to_tools.len() == 0 || rule.applies_to_tools.contains(spec.name))
    &&& (rule.applies_to_systems.len() == 0 || rule.applies_to_systems.contains(spec.system))
    &&& (rule.applies_to_roles.len() == 0 || exists|k: int|
        0 <= k < rule.applies_to_roles.len() && id.roles.contains(#[trigger] rule.applies_to_roles[k]))
}

/// A rule fires only when all its predicates hold; with none it always
/// fires.
pub open spec fn rule_fires_spec(rule: RuleV, id: IdentityV, args: Seq<(Seq<char>, JsonV)>) -> bool {
    forall|k: int| 0 <= k < rule.when.len() ==> #[trigger] pred_holds(rule.when[k], id, args)
}

fn rule_applies(rule: &Rule, id: &Identity, spec: &Spec) -> (r: bool)
    ensures
        r == rule_applies_spec(rule@, id@, spec@),
{
    if rule.applies_to_tools.len() > 0 && !strings_have(&rule.applies_to_tools, spec.name.as_str()) {
        return false;
    }
    if rule.applies_to_systems.len() > 0 && !strings_have(&rule.applies_to_systems, spec.system.as_str()) {
        return false;
    }
    if rule.applies_to_roles.len() == 0 {
        return true;
    }
    let mut k: usize = 0;
    while k < rule.applies_to_roles.len()
        invariant
            k <= rule.applies_to_roles.len(),
            rule@.applies_to_tools.len() == 0 || rule@.applies_to_tools.contains(spec@.name),
            rule@.applies_to_systems.len() == 0 || rule@.applies_to_systems.contains(spec@.system),
            forall|j: int| 0 <= j < k ==> !id@.roles.contains(#[trigger] rule@.applies_to_roles[j]),
        decreases rule.applies_to_roles.len() - k,
    {
        assert(rule@.applies_to_roles[k as int] == rule.applies_to_roles@[k as int]@);
        if id.has_role(rule.applies_to_roles[k].as_str()) {
            assert(id@.roles.contains(rule@.applies_to_roles[k as int]));
            return true;
        }
        k = k + 1;
    }
    false
}

fn rule_fires(rule: &Rule, id: &Identity, args: &Vec<(String, Json)>) -> (r: bool)
    ensures
        r == rule_fires_spec(rule@, id@, crate::json::jv_entries(args@)),
{
    let mut k: usize = 0;
    while k < rule.when.len()
        invariant
            k <= rule.when.len(),
            forall|j: int| 0 <= j < k ==> #[trigger] pred_holds(rule@.when[j], id@, crate::json::jv_entries(args@)),
        decreases rule.when.len() - k,
    {
        assert(rule@.when[k as int] == rule.when@[k as int]@);
        if !predicate_matches(&rule.when[k], id, args) {
            return false;
        }
        k = k + 1;
    }
    true
}

// ---------------------------------------------------------------------------
// Evaluation
// ---------------------------------------------------------------------------

/// The state of the attribute-rule scan.
pub struct ScanV {
    /// The deny rule that ended the scan.
    pub denied_by: Option<RuleV>,
    pub matched: Seq<Seq<char>>,
    pub obligations: ObligationsV,
    /// The first approval rule that fired.
    pub escalated_by: Seq<char>,
}

pub open spec fn scan_start() -> ScanV {
    ScanV { denied_by: None, matched: Seq::empty(), obligations: no_obligations(), escalated_by: Seq::empty() }
}

/// One rule of the scan.
pub open spec fn scan_step(s: ScanV, rule: RuleV, id: IdentityV, spec: SpecV, args: Seq<(Seq<char>, JsonV)>) -> ScanV {
    if !(rule_applies_spec(rule, id, spec) && rule_fires_spec(rule, id, args)) {
        s
    } else {
        let matched = s.matched.push(rule.id);
        match rule.effect {
            Effect::Deny => ScanV {
                denied_by: Some(rule),
                matched,
                obligations: s.obligations,
                escalated_by: s.escalated_by,
            },
            Effect::AllowWithObligations => ScanV {
                denied_by: s.denied_by,
                matched,
                obligations: merge_spec(s.obligations, rule.obligations),
                escalated_by: s.escalated_by,
            },
            Effect::RequireApproval => ScanV {
                denied_by: s.denied_by,
                matched,
                obligations: s.obligations,
                escalated_by: if s.escalated_by.len() == 0 {
                    rule.id
                } else {
                    s.escalated_by
                },
            },
        }
    }
}

/// The rules in declared order; the first deny ends the scan.
pub open spec fn scan(s: ScanV, rules: Seq<RuleV>, id: IdentityV, spec: SpecV, args: Seq<(Seq<char>, JsonV)>) -> ScanV
    decreases rules.len(),
{
    if rules.len() == 0 || s.denied_by is Some {
        s
    } else {
        scan(scan_step(s, rules[0], id, spec, args), rules.drop_first(), id, spec, args)
    }
}

/// Why a deny rule refused.
pub open spec fn rule_reason(rule: RuleV) -> Seq<char> {
    if rule.description.len() == 0 {
        "정책 규칙 "@ + debug_text(rule.id) + " 에 의해 거부되었습니다"@
    } else {
        rule.description
    }
}

pub open spec fn refusal(reason: Seq<char>, rule_id: Seq<char>, matched: Seq<Seq<char>>) -> DecisionV {
    DecisionV {
        allowed: false,
        reason,
        rule_id,
        approval_required: false,
        obligations: no_obligations(),
        matched_rules: matched,
    }
}

pub open spec fn missing_reason(need: Seq<char>) -> Seq<char> {
    "권한 부족: 필요 권한 "@ + debug_text(need) + " 이(가) 없습니다"@
}

pub open spec fn scope_reason(user: Seq<char>, tool: Seq<char>, system: Seq<char>) -> Seq<char> {
    "주체 "@ + debug_text(user) + " 의 허용 범위 밖입니다(도구 "@ + debug_text(tool) + ", 시스템 "@ + debug_text(system)
        + ")"@
}

/// What an allowed call is told.
pub open spec fn allow_reason(escalated_by: Seq<char>, by_risk: bool) -> Seq<char> {
    if escalated_by.len() > 0 {
        "허용(규칙 "@ + debug_text(escalated_by) + " 에 의해 승인 필요)"@
    } else if by_risk {
        "허용(위험 등급에 따라 승인 필요)"@
    } else {
        "허용"@
    }
}

/// The decision on a call: role permissions first, then the principal's
/// scope, then the attribute rules in order, where the first deny wins.
/// An allowed call needs approval when the tool says so, when its risk is
/// L3 or above, or when an approval rule fired.
pub open spec fn evaluate_spec(cfg: ConfigV, id: IdentityV, spec: SpecV, args: Seq<(Seq<char>, JsonV)>) -> DecisionV {
    match first_missing(cfg, id, spec.required_permissions) {
        Some(need) => refusal(missing_reason(need), "rbac.missing_permission"@, Seq::empty()),
        None => if !allows_tool_spec(id, spec.name, spec.system) {
            refusal(scope_reason(id.user_id, spec.name, spec.system), "principal.out_of_scope"@, Seq::empty())
        } else {
            let s = scan(scan_start(), cfg.rules, id, spec, args);
            match s.denied_by {
                Some(rule) => refusal(rule_reason(rule), rule.id, s.matched),
                None => {
                    let by_risk = spec.risk_level.rank_spec() >= 3;
                    DecisionV {
                        allowed: true,
                        reason: allow_reason(s.escalated_by, by_risk || spec.approval_required),
                        rule_id: "default.allow"@,
                        approval_required: spec.approval_required || by_risk || s.escalated_by.len() > 0,
                        obligations: s.obligations,
                        matched_rules: s.matched,
                    }
                },
            }
        },
    }
}

/// Whether a tool may be listed to the principal: role permissions and
/// scope only. The attribute rules are not consulted, since they depend on
/// the call; listing is no security boundary.
pub open spec fn visible_spec(cfg: ConfigV, id: IdentityV, spec: SpecV) -> bool {
    first_missing(cfg, id, spec.required_permissions) is None && allows_tool_spec(id, spec.name, spec.system)
}

fn refuse(reason: String, rule_id: &str, matched: Vec<String>) -> (r: Decision)
    ensures
        r@ == refusal(reason@, rule_id@, strs(matched@)),
{
    Decision {
        allowed: false,
        reason,
        rule_id: owned(rule_id),
        approval_required: false,
        obligations: Obligations::none(),
        matched_rules: matched,
    }
}

impl Rule {
    /// Why this rule refuses: its description, or a sentence naming it.
    pub fn reason(&self) -> (r: String)
        ensures
            r@ == rule_reason(self@),
    {
        if self.description.as_str().is_empty() {
            concat3("정책 규칙 ", debug_quote(self.id.as_str()).as_str(), " 에 의해 거부되었습니다")
        } else {
            self.description.clone()
        }
    }
}

/// Evaluates a call against a policy document.
fn decide(cfg: &Config, id: &Identity, spec: &Spec, args: &Vec<(String, Json)>) -> (r: Decision)
    ensures
        r@ == evaluate_spec(cfg@, id@, spec@, crate::json::jv_entries(args@)),
{
    let ghost av = crate::json::jv_entries(args@);
    match missing_permission(cfg, id, &spec.required_permissions) {
        Some(need) => {
            let reason = concat3("권한 부족: 필요 권한 ", debug_quote(need.as_str()).as_str(), " 이(가) 없습니다");
            let r = refuse(reason, "rbac.missing_permission", Vec::new());
            assert(strs(Seq::<String>::empty()) =~= Seq::<Seq<char>>::empty());
            return r;
        },
        None => {},
    }
    if !id.allows_tool(spec.name.as_str(), spec.system.as_str()) {
        let a = concat3("주체 ", debug_quote(id.user_id.as_str()).as_str(), " 의 허용 범위 밖입니다(도구 ");
        let b = concat3(a.as_str(), debug_quote(spec.name.as_str()).as_str(), ", 시스템 ");
        let reason = concat3(b.as_str(), debug_quote(spec.system.as_str()).as_str(), ")");
        let r = refuse(reason, "principal.out_of_scope", Vec::new());
        assert(strs(Seq::<String>::empty()) =~= Seq::<Seq<char>>::empty());
        return r;
    }
    let ghost rules = cfg@.rules;
    let mut matched: Vec<String> = Vec::new();
    let mut obligations = Obligations::none();
    let mut escalated_by = String::new();
    assert(strs(matched@) =~= Seq::<Seq<char>>::empty());
    assert(rules.subrange(0, rules.len() as int) =~= rules);
    let mut i: usize = 0;
    while i < cfg.rules.len()
        invariant
            i <= cfg.rules.len(),
            rules == cfg@.rules,
            rules.len() == cfg.rules@.len(),
            av == crate::json::jv_entries(args@),
            first_missing(cfg@, id@, spec@.required_permissions) == None::<Seq<char>>,
            allows_tool_spec(id@, spec@.name, spec@.system),
            scan(scan_start(), rules, id@, spec@, av) == scan(
                ScanV { denied_by: None, matched: strs(matched@), obligations: obligations@, escalated_by: escalated_by@ },
                rules.subrange(i as int, rules.len() as int),
                id@,
                spec@,
                av,
            ),
        decreases cfg.rules.len() - i,
    {
        let rule = &cfg.rules[i];
        let ghost cur = ScanV { denied_by: None, matched: strs(matched@), obligations: obligations@, escalated_by: escalated_by@ };
        let ghost rest = rules.subrange(i as int, rules.len() as int);
        assert(rest[0] == rule@);
        assert(rest.drop_first() =~= rules.subrange(i + 1, rules.len() as int));
        if rule_applies(rule, id, spec) && rule_fires(rule, id, args) {
            let ghost prev = matched@;
            let c = rule.id.clone();
            matched.push(c);
            assert(matched@ =~= prev.push(c));
            assert(strs(matched@) =~= cur.matched.push(rule@.id));
            match rule.effect {
                Effect::Deny => {
                    let ghost next = scan_step(cur, rule@, id@, spec@, av);
                    assert(next.denied_by == Some(rule@));
                    assert(scan(next, rules.subrange(i + 1, rules.len() as int), id@, spec@, av) == next);
                    let reason = rule.reason();
                    return Decision {
                        allowed: false,
                        reason,
                        rule_id: rule.id.clone(),
                        approval_required: false,
                        obligations: Obligations::none(),
                        matched_rules: matched,
                    };
                },
                Effect::AllowWithObligations => {
                    obligations = obligations.merge(&rule.obligations);
                },
                Effect::RequireApproval => {
                    if escalated_by.as_str().is_empty() {
                        escalated_by = rule.id.clone();
                    }
                },
            }
        }
        i = i + 1;
    }
    let by_risk = spec.risk_level.rank() >= 3;
    let approval = spec.approval_required || by_risk || !escalated_by.as_str().is_empty();
    let reason = if !escalated_by.as_str().is_empty() {
        concat3("허용(규칙 ", debug_quote(escalated_by.as_str()).as_str(), " 에 의해 승인 필요)")
    } else if by_risk || spec.approval_required {
        owned("허용(위험 등급에 따라 승인 필요)")
    } else {
        owned("허용")
    };
    Decision {
        allowed: true,
        reason,
        rule_id: owned("default.allow"),
        approval_required: approval,
        obligations,
        matched_rules: matched,
    }
}


// ---------------------------------------------------------------------------
// Validation
// ---------------------------------------------------------------------------

/// What is wrong with a predicate.
#[derive(Clone, Copy, PartialEq, Eq, Debug, Structural)]
pub enum PredicateError {
    /// Not exactly one of `attribute` and `arg` is set.
    TargetCount,
    /// Not exactly one operator is set; this many are.
    OperatorCount(usize),
    /// `in_attribute` or `not_in_attribute` without `arg`.
    AttributeListNeedsArg,
}

/// Why a policy document, or a reference in it, was refused.
#[derive(PartialEq, Eq, Debug)]
pub enum PolicyError {
    /// A role with a blank name or no permission.
    RoleIncomplete(String),
    /// The rule at this position has no id.
    RuleIdMissing(usize),
    DuplicateRuleId(String),
    /// Obligations on a rule whose effect is not `allow_with_obligations`.
    ObligationsNeedAllow(String),
    /// A deny or approval rule without predicates would cover its whole
    /// scope.
    WhenRequired(String),
    /// An `allow_with_obligations` rule without any obligation.
    ObligationRequired(String),
    NegativeMaxRows(String),
    /// Rule id, predicate position, and what is wrong with it.
    BadPredicate(String, usize, PredicateError),
    VersionRequired,
    /// Role, permission that no tool requires.
    UnknownPermission(String, String),
    /// Rule id, role not defined.
    UnknownRole(String, String),
    /// Rule id, system not in the inventory.
    UnknownSystem(String, String),
    /// Rule id, tool not registered.
    UnknownTool(String, String),
    /// An argument predicate on a rule that names no tool.
    ArgNeedsTools(String),
    /// Obligations on a rule that names no tool.
    ObligationsNeedTools(String),
    /// Rule id, tool, argument the tool's input schema lacks.
    NoInputField(String, String, String),
    /// Rule id, tool, field the tool's output schema lacks.
    NoOutputField(String, String, String),
    NoPreviousVersion,
    /// Principal, allowed tool that is not registered.
    UnknownAllowedTool(String, String),
    /// Principal, allowed system not in the inventory.
    UnknownAllowedSystem(String, String),
}

/// A [`PolicyError`] with its texts as sequences.
pub enum PolicyFault {
    RoleIncomplete(Seq<char>),
    RuleIdMissing(int),
    DuplicateRuleId(Seq<char>),
    ObligationsNeedAllow(Seq<char>),
    WhenRequired(Seq<char>),
    ObligationRequired(Seq<char>),
    NegativeMaxRows(Seq<char>),
    BadPredicate(Seq<char>, int, PredicateError),
    VersionRequired,
    UnknownPermission(Seq<char>, Seq<char>),
    UnknownRole(Seq<char>, Seq<char>),
    UnknownSystem(Seq<char>, Seq<char>),
    UnknownTool(Seq<char>, Seq<char>),
    ArgNeedsTools(Seq<char>),
    ObligationsNeedTools(Seq<char>),
    NoInputField(Seq<char>, Seq<char>, Seq<char>),
    NoOutputField(Seq<char>, Seq<char>, Seq<char>),
    NoPreviousVersion,
    UnknownAllowedTool(Seq<char>, Seq<char>),
    UnknownAllowedSystem(Seq<char>, Seq<char>),
}

impl View for PolicyError {
    type V = PolicyFault;

    open spec fn view(&self) -> PolicyFault {
        match self {
            PolicyError::RoleIncomplete(a) => PolicyFault::RoleIncomplete(a@),
            PolicyError::RuleIdMissing(i) => PolicyFault::RuleIdMissing(*i as int),
            PolicyError::DuplicateRuleId(a) => PolicyFault::DuplicateRuleId(a@),
            PolicyError::ObligationsNeedAllow(a) => PolicyFault::ObligationsNeedAllow(a@),
            PolicyError::WhenRequired(a) => PolicyFault::WhenRequired(a@),
            PolicyError::ObligationRequired(a) => PolicyFault::ObligationRequired(a@),
            PolicyError::NegativeMaxRows(a) => PolicyFault::NegativeMaxRows(a@),
            PolicyError::BadPredicate(a, j, e) => PolicyFault::BadPredicate(a@, *j as int, *e),
            PolicyError::VersionRequired => PolicyFault::VersionRequired,
            PolicyError::UnknownPermission(a, b) => PolicyFault::UnknownPermission(a@, b@),
            PolicyError::UnknownRole(a, b) => PolicyFault::UnknownRole(a@, b@),
            PolicyError::UnknownSystem(a, b) => PolicyFault::UnknownSystem(a@, b@),
            PolicyError::UnknownTool(a, b) => PolicyFault::UnknownTool(a@, b@),
            PolicyError::ArgNeedsTools(a) => PolicyFault::ArgNeedsTools(a@),
            PolicyError::ObligationsNeedTools(a) => PolicyFault::ObligationsNeedTools(a@),
            PolicyError::NoInputField(a, b, c) => PolicyFault::NoInputField(a@, b@, c@),
            PolicyError::NoOutputField(a, b, c) => PolicyFault::NoOutputField(a@, b@, c@),
            PolicyError::NoPreviousVersion => PolicyFault::NoPreviousVersion,
            PolicyError::UnknownAllowedTool(a, b) => PolicyFault::UnknownAllowedTool(a@, b@),
            PolicyError::UnknownAllowedSystem(a, b) => PolicyFault::UnknownAllowedSystem(a@, b@),
        }
    }
}

pub open spec fn flag(b: bool) -> int {
    if b {
        1
    } else {
        0
    }
}

/// How many operators a predicate sets.
pub open spec fn op_count(p: PredicateV) -> int {
    flag(p.equals is Some) + flag(p.not_equals is Some) + flag(p.in_.len() > 0) + flag(p.not_in.len() > 0)
        + flag(p.gt is Some) + flag(p.gte is Some) + flag(p.lt is Some) + flag(p.lte is Some) + flag(
        p.in_attribute.len() > 0,
    ) + flag(p.not_in_attribute.len() > 0)
}

/// A predicate has exactly one target and exactly one operator, and the
/// attribute-list operators read an argument.
pub open spec fn predicate_problem(p: PredicateV) -> Option<PredicateError> {
    if flag(p.attribute.len() > 0) + flag(p.arg.len() > 0) != 1 {
        Some(PredicateError::TargetCount)
    } else if op_count(p) != 1 {
        Some(PredicateError::OperatorCount(op_count(p) as usize))
    } else if (p.in_attribute.len() > 0 || p.not_in_attribute.len() > 0) && p.arg.len() == 0 {
        Some(PredicateError::AttributeListNeedsArg)
    } else {
        None
    }
}

fn flag_exec(b: bool) -> (r: usize)
    ensures
        r == flag(b),
{
    if b {
        1
    } else {
        0
    }
}

#[verifier::spinoff_prover]
#[verifier::rlimit(40)]
fn operator_count(p: &Predicate) -> (r: usize)
    ensures
        r == op_count(p@),
{
    let f1 = flag_exec(p.equals.is_some());
    let f2 = flag_exec(p.not_equals.is_some());
    let f3 = flag_exec(p.in_.len() > 0);
    let f4 = flag_exec(p.not_in.len() > 0);
    let f5 = flag_exec(p.gt.is_some());
    let f6 = flag_exec(p.gte.is_some());
    let f7 = flag_exec(p.lt.is_some());
    let f8 = flag_exec(p.lte.is_some());
    let f9 = flag_exec(!p.in_attribute.as_str().is_empty());
    let f10 = flag_exec(!p.not_in_attribute.as_str().is_empty());
    f1 + f2 + f3 + f4 + f5 + f6 + f7 + f8 + f9 + f10
}

/// Checks one predicate.
pub fn validate_predicate(p: &Predicate) -> (r: Result<(), PredicateError>)
    ensures
        match predicate_problem(p@) {
            Some(e) => r == Err::<(), PredicateError>(e),
            None => r is Ok,
        },
{
    let a = flag_exec(!p.attribute.as_str().is_empty());
    let b = flag_exec(!p.arg.as_str().is_empty());
    if a + b != 1 {
        return Err(PredicateError::TargetCount);
    }
    let ops = operator_count(p);
    if ops != 1 {
        return Err(PredicateError::OperatorCount(ops));
    }
    if (!p.in_attribute.as_str().is_empty() || !p.not_in_attribute.as_str().is_empty()) && p.arg.as_str().is_empty() {
        return Err(PredicateError::AttributeListNeedsArg);
    }
    Ok(())
}

/// The first invalid predicate from position `j` on, with its position.
pub open spec fn first_predicate_problem(ps: Seq<PredicateV>, j: int) -> Option<(int, PredicateError)>
    decreases ps.len() - j,
{
    if j < 0 || j >= ps.len() {
        None
    } else {
        match predicate_problem(ps[j]) {
            Some(e) => Some((j, e)),
            None => first_predicate_problem(ps, j + 1),
        }
    }
}

/// What is wrong with rule `i`, given the rules before it.
pub open spec fn rule_problem(rules: Seq<RuleV>, i: int) -> Option<PolicyFault> {
    let r = rules[i];
    let allow = r.effect == Effect::AllowWithObligations;
    if r.id.len() == 0 {
        Some(PolicyFault::RuleIdMissing(i))
    } else if exists|j: int| 0 <= j < i && #[trigger] rules[j].id == r.id {
        Some(PolicyFault::DuplicateRuleId(r.id))
    } else if !allow && !obligations_zero(r.obligations) {
        Some(PolicyFault::ObligationsNeedAllow(r.id))
    } else if !allow && r.when.len() == 0 {
        Some(PolicyFault::WhenRequired(r.id))
    } else if allow && obligations_zero(r.obligations) {
        Some(PolicyFault::ObligationRequired(r.id))
    } else if allow && r.obligations.max_rows < 0 {
        Some(PolicyFault::NegativeMaxRows(r.id))
    } else {
        match first_predicate_problem(r.when, 0) {
            Some((j, e)) => Some(PolicyFault::BadPredicate(r.id, j, e)),
            None => None,
        }
    }
}

pub open spec fn first_rule_problem(rules: Seq<RuleV>, i: int) -> Option<PolicyFault>
    decreases rules.len() - i,
{
    if i < 0 || i >= rules.len() {
        None
    } else {
        match rule_problem(rules, i) {
            Some(e) => Some(e),
            None => first_rule_problem(rules, i + 1),
        }
    }
}

pub open spec fn first_role_problem(roles: Seq<(Seq<char>, Seq<Seq<char>>)>, i: int) -> Option<PolicyFault>
    decreases roles.len() - i,
{
    if i < 0 || i >= roles.len() {
        None
    } else if trim_spec(roles[i].0).len() == 0 || roles[i].1.len() == 0 {
        Some(PolicyFault::RoleIncomplete(roles[i].0))
    } else {
        first_role_problem(roles, i + 1)
    }
}

/// The structural check of a policy document: every role named and
/// granting something; every rule with a unique id, an effect consistent
/// with its obligations, and valid predicates.
pub open spec fn check_config(cfg: ConfigV) -> Option<PolicyFault> {
    match first_role_problem(cfg.roles, 0) {
        Some(e) => Some(e),
        None => first_rule_problem(cfg.rules, 0),
    }
}

fn predicates_check(rule: &Rule) -> (r: Option<(usize, PredicateError)>)
    ensures
        r matches Some((j, e)) ==> first_predicate_problem(rule@.when, 0) == Some((j as int, e)),
        r is None ==> first_predicate_problem(rule@.when, 0) is None,
{
    let mut j: usize = 0;
    while j < rule.when.len()
        invariant
            j <= rule.when.len(),
            rule@.when.len() == rule.when@.len(),
            first_predicate_problem(rule@.when, 0) == first_predicate_problem(rule@.when, j as int),
        decreases rule.when.len() - j,
    {
        assert(rule@.when[j as int] == rule.when@[j as int]@);
        match validate_predicate(&rule.when[j]) {
            Err(e) => {
                return Some((j, e));
            },
            Ok(()) => {},
        }
        j = j + 1;
    }
    None
}

/// Checks a policy document's structure (without the registry).
pub fn validate(cfg: &Config) -> (r: Result<(), PolicyError>)
    ensures
        match check_config(cfg@) {
            Some(e) => r matches Err(x) && x@ == e,
            None => r is Ok,
        },
{
    let ghost roles = cfg@.roles;
    let mut i: usize = 0;
    while i < cfg.roles.len()
        invariant
            i <= cfg.roles.len(),
            roles == cfg@.roles,
            roles.len() == cfg.roles@.len(),
            first_role_problem(roles, 0) == first_role_problem(roles, i as int),
        decreases cfg.roles.len() - i,
    {
        assert(roles[i as int] == (cfg.roles@[i as int].0@, cfg.roles@[i as int].1@));
        let name = &cfg.roles[i].0;
        if trim(name.as_str()).as_str().is_empty() || cfg.roles[i].1.permissions.len() == 0 {
            return Err(PolicyError::RoleIncomplete(name.clone()));
        }
        i = i + 1;
    }
    let ghost rules = cfg@.rules;
    let mut k: usize = 0;
    while k < cfg.rules.len()
        invariant
            k <= cfg.rules.len(),
            rules == cfg@.rules,
            rules.len() == cfg.rules@.len(),
            first_role_problem(cfg@.roles, 0) == None::<PolicyFault>,
            first_rule_problem(rules, 0) == first_rule_problem(rules, k as int),
        decreases cfg.rules.len() - k,
    {
        let rule = &cfg.rules[k];
        assert(rules[k as int] == rule@);
        if rule.id.as_str().is_empty() {
            return Err(PolicyError::RuleIdMissing(k));
        }
        let mut j: usize = 0;
        while j < k
            invariant
                j <= k < cfg.rules.len(),
                rule@.id.len() > 0,
                rules == cfg@.rules,
                first_role_problem(cfg@.roles, 0) == None::<PolicyFault>,
                first_rule_problem(rules, 0) == first_rule_problem(rules, k as int),
                rules.len() == cfg.rules@.len(),
                rule@ == rules[k as int],
                forall|m: int| 0 <= m < j ==> #[trigger] rules[m].id != rule@.id,
            decreases k - j,
        {
            assert(rules[j as int] == cfg.rules@[j as int]@);
            if str_eq(cfg.rules[j].id.as_str(), rule.id.as_str()) {
                assert(rules[j as int].id == rule@.id);
                assert(rule_problem(rules, k as int) == Some(PolicyFault::DuplicateRuleId(rule@.id)));
                return Err(PolicyError::DuplicateRuleId(rule.id.clone()));
            }
            j = j + 1;
        }
        let allow = match rule.effect {
            Effect::AllowWithObligations => true,
            _ => false,
        };
        assert(allow == (rule@.effect == Effect::AllowWithObligations));
        assert(!exists|m: int| 0 <= m < k && #[trigger] rules[m].id == rule@.id);
        if !allow && !rule.obligations.is_zero() {
            return Err(PolicyError::ObligationsNeedAllow(rule.id.clone()));
        }
        if !allow && rule.when.len() == 0 {
            return Err(PolicyError::WhenRequired(rule.id.clone()));
        }
        if allow && rule.obligations.is_zero() {
            return Err(PolicyError::ObligationRequired(rule.id.clone()));
        }
        if allow && rule.obligations.max_rows < 0 {
            return Err(PolicyError::NegativeMaxRows(rule.id.clone()));
        }
        match predicates_check(rule) {
            Some((j, e)) => {
                assert(first_predicate_problem(rule@.when, 0) == Some((j as int, e)));
                assert(!exists|m: int| 0 <= m < k && #[trigger] rules[m].id == rule@.id);
                assert(rule_problem(rules, k as int) == Some(PolicyFault::BadPredicate(rule@.id, j as int, e)));
                return Err(PolicyError::BadPredicate(rule.id.clone(), j, e));
            },
            None => {},
        }
        k = k + 1;
    }
    Ok(())
}


// ---------------------------------------------------------------------------
// Field names of a JSON schema
// ---------------------------------------------------------------------------

/// The value `obj_get` finds is one of the entries' values.
pub proof fn lemma_obj_get_member(es: Seq<(Seq<char>, JsonV)>, k: Seq<char>)
    ensures
        obj_get(es, k) matches Some(v) ==> exists|i: int| 0 <= i < es.len() && es[i].1 == v,
    decreases es.len(),
{
    if es.len() > 0 {
        if es[0].0 == k {
            assert(es[0].1 == obj_get(es, k)->0);
        } else {
            lemma_obj_get_member(es.drop_first(), k);
            if obj_get(es, k) is Some {
                let v = obj_get(es, k)->0;
                let i = choose|i: int| 0 <= i < es.drop_first().len() && es.drop_first()[i].1 == v;
                assert(es[i + 1].1 == v);
            }
        }
    }
}

/// The property names a schema declares, at any depth: under `properties`
/// (and inside each property), and under `items`.
pub open spec fn field_list(s: JsonV) -> Seq<Seq<char>>
    decreases s,
{
    match s {
        JsonV::Object(es) => {
            let props = match obj_get(es, "properties"@) {
                Some(JsonV::Object(ps)) => {
                    proof {
                        lemma_obj_get_member(es, "properties"@);
                        let i = choose|i: int| 0 <= i < es.len() && es[i].1 == JsonV::Object(ps);
                        assert(decreases_to!(s => es));
                        assert(decreases_to!(es => es[i]));
                        assert(decreases_to!(es[i] => es[i].1));
                    }
                    prop_fields(ps)
                },
                _ => Seq::empty(),
            };
            let items = match obj_get(es, "items"@) {
                Some(it) => {
                    proof {
                        lemma_obj_get_member(es, "items"@);
                        let i = choose|i: int| 0 <= i < es.len() && es[i].1 == it;
                        assert(decreases_to!(s => es));
                        assert(decreases_to!(es => es[i]));
                        assert(decreases_to!(es[i] => es[i].1));
                    }
                    field_list(it)
                },
                None => Seq::empty(),
            };
            props + items
        },
        _ => Seq::empty(),
    }
}

/// Each property's name, then the names inside it.
pub open spec fn prop_fields(ps: Seq<(Seq<char>, JsonV)>) -> Seq<Seq<char>>
    decreases ps,
{
    if ps.len() == 0 {
        Seq::empty()
    } else {
        proof {
            assert(decreases_to!(ps => ps[ps.len() - 1]));
            assert(decreases_to!(ps[ps.len() - 1] => ps[ps.len() - 1].1));
        }
        prop_fields(ps.drop_last()) + seq![ps.last().0] + field_list(ps.last().1)
    }
}

fn collect_fields(s: &Json, out: &mut Vec<String>)
    ensures
        strs(final(out)@) == strs(old(out)@) + field_list(s@),
    decreases s,
{
    match s {
        Json::Object(es) => {
            let ghost ev = crate::json::jv_entries(es@);
            let ghost start = strs(out@);
            proof {
                crate::json::lemma_jv_entries(es@);
                lemma_key_index(es@, "properties"@);
                lemma_key_index(es@, "items"@);
            }
            let ghost props: Seq<Seq<char>> = match obj_get(ev, "properties"@) {
                Some(JsonV::Object(ps)) => prop_fields(ps),
                _ => Seq::empty(),
            };
            match crate::json::find_key(es, "properties") {
                Some(i) => {
                    match &es[i].1 {
                        Json::Object(ps) => {
                            let ghost pv = crate::json::jv_entries(ps@);
                            proof {
                                crate::json::lemma_jv_entries(ps@);
                                assert(props == prop_fields(pv));
                            }
                            let mut j: usize = 0;
                            while j < ps.len()
                                invariant
                                    j <= ps.len(),
                                    pv == crate::json::jv_entries(ps@),
                                    pv.len() == ps@.len(),
                                    forall|m: int| 0 <= m < ps@.len() ==> (#[trigger] pv[m]) == (ps@[m].0@, jv(ps@[m].1)),
                                    forall|m: int| 0 <= m < ps@.len() ==> decreases_to!(*s => #[trigger] ps@[m].1),
                                    strs(out@) == start + prop_fields(pv.take(j as int)),
                                decreases ps.len() - j,
                            {
                                let ghost before = out@;
                                let name = ps[j].0.clone();
                                out.push(name);
                                assert(out@ =~= before.push(name));
                                let ghost mid = out@;
                                assert(strs(mid) =~= strs(before) + seq![ps@[j as int].0@]);
                                collect_fields(&ps[j].1, out);
                                assert(strs(out@) == strs(mid) + field_list(jv(ps@[j as int].1)));
                                assert(pv.take(j + 1).drop_last() =~= pv.take(j as int));
                                assert(pv.take(j + 1).last() == pv[j as int]);
                                assert(prop_fields(pv.take(j + 1)) == prop_fields(pv.take(j as int)) + seq![pv[j as int].0]
                                    + field_list(pv[j as int].1));
                                assert(strs(out@) =~= start + prop_fields(pv.take(j + 1)));
                                j = j + 1;
                            }
                            assert(pv.take(pv.len() as int) =~= pv);
                        },
                        _ => {},
                    }
                },
                None => {},
            }
            assert(strs(out@) == start + props);
            match crate::json::find_key(es, "items") {
                Some(i) => {
                    collect_fields(&es[i].1, out);
                },
                None => {},
            }
            assert(strs(out@) =~= start + field_list(s@));
        },
        _ => {
            assert(strs(out@) =~= strs(out@) + field_list(s@));
        },
    }
}

/// The property names a schema declares, at any depth.
pub fn schema_fields(s: &Json) -> (r: Vec<String>)
    ensures
        strs(r@) == field_list(s@),
{
    let mut out: Vec<String> = Vec::new();
    collect_fields(s, &mut out);
    assert(strs(Seq::<String>::empty()) + field_list(s@) =~= field_list(s@));
    out
}


// ---------------------------------------------------------------------------
// References to the registry and the inventory
// ---------------------------------------------------------------------------

/// Accepts what is in `pool`, and the empty text when `allow_empty`.
pub open spec fn pool_ok(pool: Seq<Seq<char>>, allow_empty: bool) -> spec_fn(Seq<char>) -> bool {
    |x: Seq<char>| (allow_empty && x.len() == 0) || pool.contains(x)
}

/// The first of `items` that `pool` lacks (an empty one passes when
/// `allow_empty`).
fn first_unknown(items: &Vec<String>, pool: &Vec<String>, allow_empty: bool) -> (r: Option<String>)
    ensures
        r matches Some(x) ==> first_bad(strs(items@), pool_ok(strs(pool@), allow_empty)) == Some(x@),
        r is None ==> first_bad(strs(items@), pool_ok(strs(pool@), allow_empty)) is None,
{
    let ghost all = strs(items@);
    let ghost ok = pool_ok(strs(pool@), allow_empty);
    assert(all.subrange(0, all.len() as int) =~= all);
    let mut i: usize = 0;
    while i < items.len()
        invariant
            i <= items.len(),
            all == strs(items@),
            all.len() == items@.len(),
            ok == pool_ok(strs(pool@), allow_empty),
            first_bad(all, ok) == first_bad(all.subrange(i as int, all.len() as int), ok),
        decreases items.len() - i,
    {
        let ghost rest = all.subrange(i as int, all.len() as int);
        assert(rest[0] == items@[i as int]@);
        assert(rest.drop_first() =~= all.subrange(i + 1, all.len() as int));
        let x = &items[i];
        let pass = (allow_empty && x.as_str().is_empty()) || strings_have(pool, x.as_str());
        assert(pass == ok(x@));
        if !pass {
            return Some(x.clone());
        }
        i = i + 1;
    }
    None
}

/// A permission some registered tool requires, or `"*"`.
pub open spec fn known_perm(tools: Map<Seq<char>, SpecV>, p: Seq<char>) -> bool {
    p == "*"@ || exists|n: Seq<char>| #[trigger] tools.contains_key(n) && tools[n].required_permissions.contains(p)
}

fn known_permissions(specs: &Vec<Spec>) -> (r: Vec<String>)
    requires
        sorted_keys(specs@),
    ensures
        forall|p: Seq<char>| #[trigger] strs(r@).contains(p) <==> known_perm(key_map(specs@), p),
{
    let mut out: Vec<String> = Vec::new();
    out.push(owned("*"));
    assert(strs(out@) =~= seq!["*"@]);
    assert forall|p: Seq<char>| #[trigger] strs(out@).contains(p) <==> p == "*"@ by {
        if p == "*"@ {
            assert(strs(out@)[0] == p);
        }
    }
    let mut i: usize = 0;
    while i < specs.len()
        invariant
            i <= specs.len(),
            forall|p: Seq<char>| #[trigger] strs(out@).contains(p) <==> (p == "*"@ || exists|k: int|
                0 <= k < i && #[trigger] specs@[k]@.required_permissions.contains(p)),
        decreases specs.len() - i,
    {
        let ghost before = strs(out@);
        append_strings(&mut out, &specs[i].required_permissions);
        proof {
            lemma_concat_contains(before, specs@[i as int]@.required_permissions);
            assert forall|p: Seq<char>| #[trigger] strs(out@).contains(p) <==> (p == "*"@ || exists|k: int|
                0 <= k < i + 1 && #[trigger] specs@[k]@.required_permissions.contains(p)) by {
                if exists|k: int| 0 <= k < i + 1 && #[trigger] specs@[k]@.required_permissions.contains(p) {
                    let k = choose|k: int| 0 <= k < i + 1 && #[trigger] specs@[k]@.required_permissions.contains(p);
                    if k < i {
                        assert(before.contains(p));
                    }
                }
            }
        }
        i = i + 1;
    }
    proof {
        lemma_key_map(specs@);
        let m = key_map(specs@);
        assert forall|p: Seq<char>| #[trigger] strs(out@).contains(p) <==> known_perm(m, p) by {
            if exists|k: int| 0 <= k < specs@.len() && #[trigger] specs@[k]@.required_permissions.contains(p) {
                let k = choose|k: int| 0 <= k < specs@.len() && #[trigger] specs@[k]@.required_permissions.contains(p);
                assert(m.contains_key(specs@[k].key_of()));
            }
            if exists|n: Seq<char>| #[trigger] m.contains_key(n) && m[n].required_permissions.contains(p) {
                let n = choose|n: Seq<char>| #[trigger] m.contains_key(n) && m[n].required_permissions.contains(p);
                let k = choose|k: int| 0 <= k < specs@.len() && specs@[k].key_of() == n;
                assert(specs@[k]@.required_permissions.contains(p));
            }
        }
    }
    out
}

pub proof fn lemma_role_get_some(roles: Seq<(Seq<char>, Seq<Seq<char>>)>, r: Seq<char>)
    ensures
        role_get(roles, r) is Some <==> exists|i: int| 0 <= i < roles.len() && #[trigger] roles[i].0 == r,
    decreases roles.len(),
{
    if roles.len() > 0 {
        lemma_role_get_some(roles.drop_first(), r);
        if exists|i: int| 0 <= i < roles.len() && #[trigger] roles[i].0 == r {
            let i = choose|i: int| 0 <= i < roles.len() && #[trigger] roles[i].0 == r;
            if i > 0 {
                assert(roles.drop_first()[i - 1].0 == r);
            }
        }
        if exists|i: int| 0 <= i < roles.drop_first().len() && #[trigger] roles.drop_first()[i].0 == r {
            let i = choose|i: int| 0 <= i < roles.drop_first().len() && #[trigger] roles.drop_first()[i].0 == r;
            assert(roles[i + 1].0 == r);
        }
    }
}

fn role_names(cfg: &Config) -> (r: Vec<String>)
    ensures
        forall|x: Seq<char>| #[trigger] strs(r@).contains(x) <==> role_get(cfg@.roles, x) is Some,
{
    let mut out: Vec<String> = Vec::new();
    let mut i: usize = 0;
    while i < cfg.roles.len()
        invariant
            i <= cfg.roles.len(),
            out@.len() == i,
            forall|j: int| 0 <= j < i ==> (#[trigger] out@[j])@ == cfg.roles@[j].0@,
        decreases cfg.roles.len() - i,
    {
        out.push(cfg.roles[i].0.clone());
        i = i + 1;
    }
    proof {
        assert forall|x: Seq<char>| #[trigger] strs(out@).contains(x) <==> role_get(cfg@.roles, x) is Some by {
            lemma_role_get_some(cfg@.roles, x);
            if strs(out@).contains(x) {
                let j = choose|j: int| 0 <= j < strs(out@).len() && strs(out@)[j] == x;
                assert(cfg@.roles[j].0 == x);
            }
            if role_get(cfg@.roles, x) is Some {
                let j = choose|j: int| 0 <= j < cfg@.roles.len() && #[trigger] cfg@.roles[j].0 == x;
                assert(strs(out@)[j] == x);
            }
        }
    }
    out
}

fn system_names(inv: &Inventory) -> (r: Vec<String>)
    requires
        inv.wf(),
    ensures
        forall|x: Seq<char>| #[trigger] strs(r@).contains(x) <==> inv@.contains_key(x),
{
    let systems = inv.systems();
    proof {
        lemma_key_map(systems@);
    }
    let mut out: Vec<String> = Vec::new();
    let mut i: usize = 0;
    while i < systems.len()
        invariant
            i <= systems.len(),
            out@.len() == i,
            forall|j: int| 0 <= j < i ==> (#[trigger] out@[j])@ == systems@[j].name@,
        decreases systems.len() - i,
    {
        out.push(systems[i].name.clone());
        i = i + 1;
    }
    proof {
        assert forall|x: Seq<char>| #[trigger] strs(out@).contains(x) <==> inv@.contains_key(x) by {
            if strs(out@).contains(x) {
                let j = choose|j: int| 0 <= j < strs(out@).len() && strs(out@)[j] == x;
                assert(systems@[j].key_of() == x);
            }
            if inv@.contains_key(x) {
                let j = choose|j: int| 0 <= j < systems@.len() && systems@[j].key_of() == x;
                assert(strs(out@)[j] == x);
            }
        }
    }
    out
}

fn tool_names(reg: &Registry) -> (r: Vec<String>)
    requires
        reg.wf(),
    ensures
        forall|x: Seq<char>| #[trigger] strs(r@).contains(x) <==> reg@.contains_key(x),
{
    let names = reg.names();
    proof {
        assert forall|x: Seq<char>| #[trigger] strs(names@).contains(x) <==> reg@.contains_key(x) by {
            if strs(names@).contains(x) {
                let j = choose|j: int| 0 <= j < strs(names@).len() && strs(names@)[j] == x;
                assert(reg@.contains_key(names@[j]@));
            }
            if reg@.contains_key(x) {
                let j = choose|j: int| 0 <= j < names@.len() && names@[j]@ == x;
                assert(strs(names@)[j] == x);
            }
        }
    }
    names
}

/// The first role that grants a permission no tool requires.
pub open spec fn role_refs_problem(roles: Seq<(Seq<char>, Seq<Seq<char>>)>, tools: Map<Seq<char>, SpecV>, i: int) -> Option<PolicyFault>
    decreases roles.len() - i,
{
    if i < 0 || i >= roles.len() {
        None
    } else {
        match first_bad(roles[i].1, |p: Seq<char>| known_perm(tools, p)) {
            Some(p) => Some(PolicyFault::UnknownPermission(roles[i].0, p)),
            None => role_refs_problem(roles, tools, i + 1),
        }
    }
}

/// The arguments the predicates of a rule read.
pub open spec fn pred_args(ps: Seq<PredicateV>) -> Seq<Seq<char>> {
    ps.map_values(|p: PredicateV| p.arg)
}

/// For the named tools from position `k` on: every argument a predicate
/// reads is an input field, every obligation field an output field.
pub open spec fn tool_fields_problem(rule: RuleV, tools: Map<Seq<char>, SpecV>, k: int) -> Option<PolicyFault>
    decreases rule.applies_to_tools.len() - k,
{
    if k < 0 || k >= rule.applies_to_tools.len() {
        None
    } else {
        let t = rule.applies_to_tools[k];
        let spec = tools[t];
        match first_bad(pred_args(rule.when), pool_ok(field_list(spec.input_schema), true)) {
            Some(a) => Some(PolicyFault::NoInputField(rule.id, t, a)),
            None => match first_bad(
                rule.obligations.mask_fields + rule.obligations.redact_fields,
                pool_ok(field_list(spec.output_schema), false),
            ) {
                Some(f) => Some(PolicyFault::NoOutputField(rule.id, t, f)),
                None => tool_fields_problem(rule, tools, k + 1),
            },
        }
    }
}

/// What is wrong with the references of one rule: unknown roles, systems
/// or tools; argument predicates or obligations that no named tool's
/// schema can confirm.
pub open spec fn rule_refs_problem(
    cfg: ConfigV,
    tools: Map<Seq<char>, SpecV>,
    systems: Map<Seq<char>, SystemV>,
    rule: RuleV,
) -> Option<PolicyFault> {
    match first_bad(rule.applies_to_roles, |r: Seq<char>| role_get(cfg.roles, r) is Some) {
        Some(r) => Some(PolicyFault::UnknownRole(rule.id, r)),
        None => match first_bad(rule.applies_to_systems, |x: Seq<char>| systems.contains_key(x)) {
            Some(x) => Some(PolicyFault::UnknownSystem(rule.id, x)),
            None => match first_bad(rule.applies_to_tools, |t: Seq<char>| tools.contains_key(t)) {
                Some(t) => Some(PolicyFault::UnknownTool(rule.id, t)),
                None => if rule.applies_to_tools.len() == 0 {
                    if exists|j: int| 0 <= j < rule.when.len() && (#[trigger] rule.when[j]).arg.len() > 0 {
                        Some(PolicyFault::ArgNeedsTools(rule.id))
                    } else if !obligations_zero(rule.obligations) {
                        Some(PolicyFault::ObligationsNeedTools(rule.id))
                    } else {
                        None
                    }
                } else {
                    tool_fields_problem(rule, tools, 0)
                },
            },
        },
    }
}

pub open spec fn first_rule_refs_problem(
    cfg: ConfigV,
    tools: Map<Seq<char>, SpecV>,
    systems: Map<Seq<char>, SystemV>,
    i: int,
) -> Option<PolicyFault>
    decreases cfg.rules.len() - i,
{
    if i < 0 || i >= cfg.rules.len() {
        None
    } else {
        match rule_refs_problem(cfg, tools, systems, cfg.rules[i]) {
            Some(e) => Some(e),
            None => first_rule_refs_problem(cfg, tools, systems, i + 1),
        }
    }
}

/// The cross-check of a policy document against the registry and the
/// inventory: a misspelt name would otherwise make a rule silently never
/// fire.
pub open spec fn references_problem(
    cfg: ConfigV,
    tools: Map<Seq<char>, SpecV>,
    systems: Map<Seq<char>, SystemV>,
) -> Option<PolicyFault> {
    match role_refs_problem(cfg.roles, tools, 0) {
        Some(e) => Some(e),
        None => first_rule_refs_problem(cfg, tools, systems, 0),
    }
}

fn predicate_args(rule: &Rule) -> (r: Vec<String>)
    ensures
        strs(r@) == pred_args(rule@.when),
{
    let mut out: Vec<String> = Vec::new();
    let mut j: usize = 0;
    while j < rule.when.len()
        invariant
            j <= rule.when.len(),
            out@.len() == j,
            forall|m: int| 0 <= m < j ==> (#[trigger] out@[m])@ == rule.when@[m].arg@,
        decreases rule.when.len() - j,
    {
        out.push(rule.when[j].arg.clone());
        j = j + 1;
    }
    assert(strs(out@) =~= pred_args(rule@.when));
    out
}

fn tool_fields(rule: &Rule, specs: &Vec<Spec>) -> (r: Option<PolicyError>)
    requires
        sorted_keys(specs@),
        forall|k: int| 0 <= k < rule@.applies_to_tools.len() ==> key_map(specs@).contains_key(
            #[trigger] rule@.applies_to_tools[k],
        ),
    ensures
        r matches Some(e) ==> tool_fields_problem(rule@, key_map(specs@), 0) == Some(e@),
        r is None ==> tool_fields_problem(rule@, key_map(specs@), 0) is None,
{
    let ghost tools = key_map(specs@);
    let args = predicate_args(rule);
    let mut outs = copy_strings(&rule.obligations.mask_fields);
    append_strings(&mut outs, &rule.obligations.redact_fields);
    let mut k: usize = 0;
    while k < rule.applies_to_tools.len()
        invariant
            k <= rule.applies_to_tools.len(),
            sorted_keys(specs@),
            tools == key_map(specs@),
            strs(args@) == pred_args(rule@.when),
            strs(outs@) == rule@.obligations.mask_fields + rule@.obligations.redact_fields,
            forall|m: int| 0 <= m < rule@.applies_to_tools.len() ==> tools.contains_key(#[trigger] rule@.applies_to_tools[m]),
            tool_fields_problem(rule@, tools, 0) == tool_fields_problem(rule@, tools, k as int),
        decreases rule.applies_to_tools.len() - k,
    {
        let t = &rule.applies_to_tools[k];
        assert(rule@.applies_to_tools[k as int] == t@);
        assert(tools.contains_key(t@));
        match crate::keyed::lookup(specs, t.as_str()) {
            Some(sp) => {
                let input = schema_fields(&sp.input_schema);
                match first_unknown(&args, &input, true) {
                    Some(a) => {
                        return Some(PolicyError::NoInputField(rule.id.clone(), t.clone(), a));
                    },
                    None => {},
                }
                let output = schema_fields(&sp.output_schema);
                match first_unknown(&outs, &output, false) {
                    Some(f) => {
                        return Some(PolicyError::NoOutputField(rule.id.clone(), t.clone(), f));
                    },
                    None => {},
                }
            },
            None => {},
        }
        k = k + 1;
    }
    None
}

/// Whether some predicate of the rule reads an argument.
fn reads_args(rule: &Rule) -> (r: bool)
    ensures
        r == exists|j: int| 0 <= j < rule@.when.len() && (#[trigger] rule@.when[j]).arg.len() > 0,
{
    let mut j: usize = 0;
    while j < rule.when.len()
        invariant
            j <= rule.when.len(),
            forall|m: int| 0 <= m < j ==> (#[trigger] rule@.when[m]).arg.len() == 0,
        decreases rule.when.len() - j,
    {
        assert(rule@.when[j as int] == rule.when@[j as int]@);
        if !rule.when[j].arg.as_str().is_empty() {
            assert((rule@.when[j as int]).arg.len() > 0);
            return true;
        }
        j = j + 1;
    }
    false
}

fn rule_refs(
    cfg: &Config,
    rule: &Rule,
    specs: &Vec<Spec>,
    roles: &Vec<String>,
    systems: &Vec<String>,
    tools: &Vec<String>,
    Ghost(sys): Ghost<Map<Seq<char>, SystemV>>,
) -> (r: Option<PolicyError>)
    requires
        sorted_keys(specs@),
        forall|x: Seq<char>| #[trigger] strs(roles@).contains(x) <==> role_get(cfg@.roles, x) is Some,
        forall|x: Seq<char>| #[trigger] strs(systems@).contains(x) <==> sys.contains_key(x),
        forall|x: Seq<char>| #[trigger] strs(tools@).contains(x) <==> key_map(specs@).contains_key(x),
    ensures
        r matches Some(e) ==> rule_refs_problem(cfg@, key_map(specs@), sys, rule@) == Some(e@),
        r is None ==> rule_refs_problem(cfg@, key_map(specs@), sys, rule@) is None,
{
    let ghost tm = key_map(specs@);
    let ghost role_ok = |x: Seq<char>| role_get(cfg@.roles, x) is Some;
    let ghost tool_ok = |x: Seq<char>| tm.contains_key(x);
    proof {
        lemma_first_bad_congruent(rule@.applies_to_roles, role_ok, pool_ok(strs(roles@), false));
        lemma_first_bad_congruent(rule@.applies_to_tools, tool_ok, pool_ok(strs(tools@), false));
        lemma_first_bad_congruent(
            rule@.applies_to_systems,
            |x: Seq<char>| sys.contains_key(x),
            pool_ok(strs(systems@), false),
        );
    }
    match first_unknown(&rule.applies_to_roles, roles, false) {
        Some(x) => {
            return Some(PolicyError::UnknownRole(rule.id.clone(), x));
        },
        None => {},
    }
    match first_unknown(&rule.applies_to_systems, systems, false) {
        Some(x) => {
            return Some(PolicyError::UnknownSystem(rule.id.clone(), x));
        },
        None => {},
    }
    match first_unknown(&rule.applies_to_tools, tools, false) {
        Some(x) => {
            return Some(PolicyError::UnknownTool(rule.id.clone(), x));
        },
        None => {},
    }
    if rule.applies_to_tools.len() == 0 {
        if reads_args(rule) {
            return Some(PolicyError::ArgNeedsTools(rule.id.clone()));
        }
        if !rule.obligations.is_zero() {
            return Some(PolicyError::ObligationsNeedTools(rule.id.clone()));
        }
        return None;
    }
    proof {
        lemma_first_bad_none(rule@.applies_to_tools, tool_ok);
        assert forall|k: int| 0 <= k < rule@.applies_to_tools.len() implies key_map(specs@).contains_key(
            #[trigger] rule@.applies_to_tools[k],
        ) by {
            assert(tool_ok(rule@.applies_to_tools[k]));
        }
    }
    tool_fields(rule, specs)
}

/// Cross-checks a policy document against the registry and the inventory:
/// role permissions that some tool requires (or `"*"`), known roles,
/// systems and tools in each rule's scope, and argument predicates and
/// obligations that the named tools' schemas confirm.
pub fn validate_references(cfg: &Config, reg: &Registry, inv: &Inventory) -> (r: Result<(), PolicyError>)
    requires
        reg.wf(),
        inv.wf(),
    ensures
        match references_problem(cfg@, reg@, inv@) {
            Some(e) => r matches Err(x) && x@ == e,
            None => r is Ok,
        },
{
    let specs = reg.specs();
    let perms = known_permissions(&specs);
    let ghost tm = key_map(specs@);
    let mut i: usize = 0;
    while i < cfg.roles.len()
        invariant
            i <= cfg.roles.len(),
            tm == reg@,
            forall|p: Seq<char>| #[trigger] strs(perms@).contains(p) <==> known_perm(tm, p),
            role_refs_problem(cfg@.roles, tm, 0) == role_refs_problem(cfg@.roles, tm, i as int),
        decreases cfg.roles.len() - i,
    {
        proof {
            let perm_ok = |p: Seq<char>| known_perm(tm, p);
            lemma_first_bad_congruent(cfg@.roles[i as int].1, perm_ok, pool_ok(strs(perms@), false));
        }
        assert(cfg@.roles[i as int] == (cfg.roles@[i as int].0@, cfg.roles@[i as int].1@));
        match first_unknown(&cfg.roles[i].1.permissions, &perms, false) {
            Some(p) => {
                return Err(PolicyError::UnknownPermission(cfg.roles[i].0.clone(), p));
            },
            None => {},
        }
        i = i + 1;
    }
    let roles = role_names(cfg);
    let systems = system_names(inv);
    let tools = tool_names(reg);
    let mut k: usize = 0;
    while k < cfg.rules.len()
        invariant
            k <= cfg.rules.len(),
            sorted_keys(specs@),
            tm == reg@,
            tm == key_map(specs@),
            role_refs_problem(cfg@.roles, tm, 0) == None::<PolicyFault>,
            forall|x: Seq<char>| #[trigger] strs(roles@).contains(x) <==> role_get(cfg@.roles, x) is Some,
            forall|x: Seq<char>| #[trigger] strs(systems@).contains(x) <==> inv@.contains_key(x),
            forall|x: Seq<char>| #[trigger] strs(tools@).contains(x) <==> reg@.contains_key(x),
            first_rule_refs_problem(cfg@, tm, inv@, 0) == first_rule_refs_problem(cfg@, tm, inv@, k as int),
        decreases cfg.rules.len() - k,
    {
        assert(cfg@.rules[k as int] == cfg.rules@[k as int]@);
        match rule_refs(cfg, &cfg.rules[k], &specs, &roles, &systems, &tools, Ghost(inv@)) {
            Some(e) => {
                return Err(e);
            },
            None => {},
        }
        k = k + 1;
    }
    Ok(())
}


/// The first principal whose scope names a tool that is not registered or
/// a system that is not in the inventory.
pub open spec fn allowlist_problem(
    ids: Seq<IdentityV>,
    tools: Map<Seq<char>, SpecV>,
    systems: Map<Seq<char>, SystemV>,
    i: int,
) -> Option<PolicyFault>
    decreases ids.len() - i,
{
    if i < 0 || i >= ids.len() {
        None
    } else {
        match first_bad(ids[i].allowed_tools, |t: Seq<char>| tools.contains_key(t)) {
            Some(t) => Some(PolicyFault::UnknownAllowedTool(ids[i].user_id, t)),
            None => match first_bad(ids[i].allowed_systems, |x: Seq<char>| systems.contains_key(x)) {
                Some(x) => Some(PolicyFault::UnknownAllowedSystem(ids[i].user_id, x)),
                None => allowlist_problem(ids, tools, systems, i + 1),
            },
        }
    }
}

/// Checks that each principal's allowed tools are registered and its
/// allowed systems are in the inventory.
pub fn validate_allowlists(ids: &[Identity], reg: &Registry, inv: &Inventory) -> (r: Result<(), PolicyError>)
    requires
        reg.wf(),
        inv.wf(),
    ensures
        match allowlist_problem(ids@.map_values(|x: Identity| x@), reg@, inv@, 0) {
            Some(e) => r matches Err(x) && x@ == e,
            None => r is Ok,
        },
{
    let ghost idv = ids@.map_values(|x: Identity| x@);
    let tools = tool_names(reg);
    let systems = system_names(inv);
    let mut i: usize = 0;
    while i < ids.len()
        invariant
            i <= ids.len(),
            idv == ids@.map_values(|x: Identity| x@),
            forall|x: Seq<char>| #[trigger] strs(tools@).contains(x) <==> reg@.contains_key(x),
            forall|x: Seq<char>| #[trigger] strs(systems@).contains(x) <==> inv@.contains_key(x),
            allowlist_problem(idv, reg@, inv@, 0) == allowlist_problem(idv, reg@, inv@, i as int),
        decreases ids.len() - i,
    {
        let id = &ids[i];
        assert(idv[i as int] == id@);
        proof {
            let reg_map = reg@;
            let inv_map = inv@;
            lemma_first_bad_congruent(
                id@.allowed_tools,
                |t: Seq<char>| reg_map.contains_key(t),
                pool_ok(strs(tools@), false),
            );
            lemma_first_bad_congruent(
                id@.allowed_systems,
                |x: Seq<char>| inv_map.contains_key(x),
                pool_ok(strs(systems@), false),
            );
        }
        match first_unknown(&id.allowed_tools, &tools, false) {
            Some(t) => {
                return Err(PolicyError::UnknownAllowedTool(id.user_id.clone(), t));
            },
            None => {},
        }
        match first_unknown(&id.allowed_systems, &systems, false) {
            Some(x) => {
                return Err(PolicyError::UnknownAllowedSystem(id.user_id.clone(), x));
            },
            None => {},
        }
        i = i + 1;
    }
    Ok(())
}

// ---------------------------------------------------------------------------
// The engine: the active document, hot reload and one-step rollback
// ---------------------------------------------------------------------------

/// The policy engine: the active document, its digest, and the previous
/// document with its digest for a rollback.
pub struct Engine {
    cfg: Config,
    digest: String,
    prev: Option<(Config, String)>,
}

pub struct EngineV {
    pub cfg: ConfigV,
    /// Lowercase hex SHA-256 of the document's bytes; empty when the engine
    /// was built from a value.
    pub digest: Seq<char>,
    pub prev: Option<(ConfigV, Seq<char>)>,
}

impl View for Engine {
    type V = EngineV;

    closed spec fn view(&self) -> EngineV {
        EngineV {
            cfg: self.cfg@,
            digest: self.digest@,
            prev: match self.prev {
                Some(p) => Some((p.0@, p.1@)),
                None => None,
            },
        }
    }
}

/// Why a document is refused on load: its structure, else a missing
/// version.
pub open spec fn admission_problem(cfg: ConfigV) -> Option<PolicyFault> {
    match check_config(cfg) {
        Some(e) => Some(e),
        None => if cfg.version.len() == 0 {
            Some(PolicyFault::VersionRequired)
        } else {
            None
        },
    }
}

/// Why a document is refused on reload: as on load, then its references.
pub open spec fn reload_problem(
    cfg: ConfigV,
    tools: Map<Seq<char>, SpecV>,
    systems: Map<Seq<char>, SystemV>,
) -> Option<PolicyFault> {
    match admission_problem(cfg) {
        Some(e) => Some(e),
        None => references_problem(cfg, tools, systems),
    }
}

/// The state after a rollback, if there is something to roll back to.
pub open spec fn rolled_back(st: EngineV) -> Option<EngineV> {
    match st.prev {
        Some(p) => Some(EngineV { cfg: p.0, digest: p.1, prev: Some((st.cfg, st.digest)) }),
        None => None,
    }
}

/// The state after installing `cfg`, read from bytes with this digest.
pub open spec fn installed(st: EngineV, cfg: ConfigV, digest: Seq<char>) -> EngineV {
    EngineV { cfg, digest, prev: Some((st.cfg, st.digest)) }
}

impl Engine {
    /// An engine over a document, with no digest and nothing to roll back
    /// to.
    pub fn new(cfg: Config) -> (r: Engine)
        ensures
            r@ == (EngineV { cfg: cfg@, digest: Seq::empty(), prev: None }),
    {
        Engine { cfg, digest: String::new(), prev: None }
    }

    /// An engine over a document read from `data`, after the structural
    /// check; a document without a version is refused.
    pub fn load(data: &[u8], cfg: Config) -> (r: Result<Engine, PolicyError>)
        ensures
            match admission_problem(cfg@) {
                Some(e) => r matches Err(x) && x@ == e,
                None => r matches Ok(eng) && eng@ == (EngineV {
                    cfg: cfg@,
                    digest: hex_lower(sha256_of(data@)),
                    prev: None,
                }),
            },
    {
        match validate(&cfg) {
            Err(e) => {
                return Err(e);
            },
            Ok(()) => {},
        }
        if cfg.version.as_str().is_empty() {
            return Err(PolicyError::VersionRequired);
        }
        Ok(Engine { cfg, digest: sha256_hex(data), prev: None })
    }

    /// The active document's version and digest.
    pub fn version(&self) -> (r: (String, String))
        ensures
            r.0@ == self@.cfg.version,
            r.1@ == self@.digest,
    {
        (self.cfg.version.clone(), self.digest.clone())
    }

    /// A copy of the active document.
    pub fn snapshot(&self) -> (r: Config)
        ensures
            r@ == self@.cfg,
    {
        self.cfg.copy()
    }

    /// Installs a document read from `data` once it passes the structural
    /// check and the cross-check against the registry and the inventory;
    /// the active one is kept for a rollback. On any refusal the active
    /// document stays. Returns the old and the new version.
    pub fn reload(&mut self, data: &[u8], cfg: Config, reg: &Registry, inv: &Inventory) -> (r: Result<(String, String), PolicyError>)
        requires
            reg.wf(),
            inv.wf(),
        ensures
            match reload_problem(cfg@, reg@, inv@) {
                Some(e) => r matches Err(x) && x@ == e && final(self)@ == old(self)@,
                None => r matches Ok(vs) && vs.0@ == old(self)@.cfg.version && vs.1@ == cfg@.version
                    && final(self)@ == installed(old(self)@, cfg@, hex_lower(sha256_of(data@))),
            },
    {
        match validate(&cfg) {
            Err(e) => {
                return Err(e);
            },
            Ok(()) => {},
        }
        if cfg.version.as_str().is_empty() {
            return Err(PolicyError::VersionRequired);
        }
        match validate_references(&cfg, reg, inv) {
            Err(e) => {
                return Err(e);
            },
            Ok(()) => {},
        }
        let new_digest = sha256_hex(data);
        let old_version = self.cfg.version.clone();
        let new_version = cfg.version.clone();
        let mut cur_cfg = cfg;
        let mut cur_digest = new_digest;
        std::mem::swap(&mut self.cfg, &mut cur_cfg);
        std::mem::swap(&mut self.digest, &mut cur_digest);
        self.prev = Some((cur_cfg, cur_digest));
        Ok((old_version, new_version))
    }

    /// Swaps the active document with the previous one, so that a second
    /// rollback undoes the first. Returns the old and the new version.
    pub fn rollback(&mut self) -> (r: Result<(String, String), PolicyError>)
        ensures
            match rolled_back(old(self)@) {
                Some(st) => r matches Ok(vs) && vs.0@ == old(self)@.cfg.version && vs.1@ == st.cfg.version
                    && final(self)@ == st,
                None => r matches Err(x) && x == PolicyError::NoPreviousVersion && final(self)@ == old(self)@,
            },
    {
        match self.prev.take() {
            None => Err(PolicyError::NoPreviousVersion),
            Some(p) => {
                let (mut prev_cfg, mut prev_digest) = p;
                let old_version = self.cfg.version.clone();
                std::mem::swap(&mut self.cfg, &mut prev_cfg);
                std::mem::swap(&mut self.digest, &mut prev_digest);
                let new_version = self.cfg.version.clone();
                self.prev = Some((prev_cfg, prev_digest));
                Ok((old_version, new_version))
            },
        }
    }

    /// Whether the tool may be listed to the principal (role permissions
    /// and scope only).
    pub fn visible(&self, id: &Identity, spec: &Spec) -> (r: bool)
        ensures
            r == visible_spec(self@.cfg, id@, spec@),
    {
        match missing_permission(&self.cfg, id, &spec.required_permissions) {
            Some(_) => false,
            None => id.allows_tool(spec.name.as_str(), spec.system.as_str()),
        }
    }

    /// The decision on a call.
    pub fn evaluate(&self, id: &Identity, spec: &Spec, args: &Vec<(String, Json)>) -> (r: Decision)
        ensures
            r@ == evaluate_spec(self@.cfg, id@, spec@, crate::json::jv_entries(args@)),
    {
        decide(&self.cfg, id, spec, args)
    }
}


// ---------------------------------------------------------------------------
// Laws
// ---------------------------------------------------------------------------

/// A second rollback undoes the first.
pub proof fn law_rollback_twice(st: EngineV)
    requires
        st.prev is Some,
    ensures
        rolled_back(st) matches Some(once) && rolled_back(once) == Some(st),
{
}

/// Rolling back right after a reload makes the previous document and
/// digest active again.
pub proof fn law_rollback_undoes_reload(st: EngineV, cfg: ConfigV, digest: Seq<char>)
    ensures
        rolled_back(installed(st, cfg, digest)) matches Some(back) && back.cfg == st.cfg && back.digest == st.digest,
{
}

proof fn lemma_scan_keeps_denial(s: ScanV, rules: Seq<RuleV>, id: IdentityV, spec: SpecV, args: Seq<(Seq<char>, JsonV)>)
    requires
        s.denied_by is Some,
    ensures
        scan(s, rules, id, spec, args) == s,
{
}

proof fn lemma_scan_reaches_deny(
    s: ScanV,
    rules: Seq<RuleV>,
    id: IdentityV,
    spec: SpecV,
    args: Seq<(Seq<char>, JsonV)>,
    k: int,
)
    requires
        0 <= k < rules.len(),
        rules[k].effect == Effect::Deny,
        rule_applies_spec(rules[k], id, spec),
        rule_fires_spec(rules[k], id, args),
    ensures
        scan(s, rules, id, spec, args).denied_by is Some,
    decreases rules.len(),
{
    if s.denied_by is None {
        let next = scan_step(s, rules[0], id, spec, args);
        if k == 0 {
            lemma_scan_keeps_denial(next, rules.drop_first(), id, spec, args);
        } else if next.denied_by is Some {
            lemma_scan_keeps_denial(next, rules.drop_first(), id, spec, args);
        } else {
            assert(rules.drop_first()[k - 1] == rules[k]);
            lemma_scan_reaches_deny(next, rules.drop_first(), id, spec, args, k - 1);
        }
    }
}

/// A deny rule that covers the call and fires refuses it, whatever other
/// rules say; the refusal carries no obligation and asks no approval.
pub proof fn law_deny_wins(cfg: ConfigV, id: IdentityV, spec: SpecV, args: Seq<(Seq<char>, JsonV)>, k: int)
    requires
        0 <= k < cfg.rules.len(),
        cfg.rules[k].effect == Effect::Deny,
        rule_applies_spec(cfg.rules[k], id, spec),
        rule_fires_spec(cfg.rules[k], id, args),
    ensures
        !evaluate_spec(cfg, id, spec, args).allowed,
        evaluate_spec(cfg, id, spec, args).obligations == no_obligations(),
        !evaluate_spec(cfg, id, spec, args).approval_required,
{
    lemma_scan_reaches_deny(scan_start(), cfg.rules, id, spec, args, k);
}

/// A rule covers the call and its predicates hold.
pub open spec fn rule_fired(r: RuleV, id: IdentityV, spec: SpecV, args: Seq<(Seq<char>, JsonV)>) -> bool {
    rule_applies_spec(r, id, spec) && rule_fires_spec(r, id, args)
}

/// The ids of the rules that fire, in declared order.
pub open spec fn fired_ids(rules: Seq<RuleV>, id: IdentityV, spec: SpecV, args: Seq<(Seq<char>, JsonV)>) -> Seq<Seq<char>>
    decreases rules.len(),
{
    if rules.len() == 0 {
        Seq::empty()
    } else {
        (if rule_fired(rules[0], id, spec, args) {
            seq![rules[0].id]
        } else {
            Seq::empty()
        }) + fired_ids(rules.drop_first(), id, spec, args)
    }
}

/// `o` merged, in declared order, with the obligations of every obligation
/// rule that fires.
pub open spec fn fired_obligations(
    o: ObligationsV,
    rules: Seq<RuleV>,
    id: IdentityV,
    spec: SpecV,
    args: Seq<(Seq<char>, JsonV)>,
) -> ObligationsV
    decreases rules.len(),
{
    if rules.len() == 0 {
        o
    } else {
        let next = if rule_fired(rules[0], id, spec, args) && rules[0].effect == Effect::AllowWithObligations {
            merge_spec(o, rules[0].obligations)
        } else {
            o
        };
        fired_obligations(next, rules.drop_first(), id, spec, args)
    }
}

/// Some approval rule with an id fires. (The escalation is known by the
/// rule's id, so a rule without one escalates nothing; a checked document
/// has none.)
pub open spec fn approval_rule_fires(rules: Seq<RuleV>, id: IdentityV, spec: SpecV, args: Seq<(Seq<char>, JsonV)>) -> bool {
    exists|k: int| 0 <= k < rules.len() && #[trigger] rule_fired(rules[k], id, spec, args) && rules[k].effect
        == Effect::RequireApproval && rules[k].id.len() > 0
}

/// No deny rule fires.
pub open spec fn no_deny_fires(rules: Seq<RuleV>, id: IdentityV, spec: SpecV, args: Seq<(Seq<char>, JsonV)>) -> bool {
    forall|k: int| 0 <= k < rules.len() && #[trigger] rule_fired(rules[k], id, spec, args) ==> rules[k].effect
        != Effect::Deny
}

proof fn lemma_scan_without_denial(
    s: ScanV,
    rules: Seq<RuleV>,
    id: IdentityV,
    spec: SpecV,
    args: Seq<(Seq<char>, JsonV)>,
)
    requires
        s.denied_by is None,
    ensures
        scan(s, rules, id, spec, args).denied_by is None <==> no_deny_fires(rules, id, spec, args),
        no_deny_fires(rules, id, spec, args) ==> {
            let t = scan(s, rules, id, spec, args);
            &&& t.matched == s.matched + fired_ids(rules, id, spec, args)
            &&& t.obligations == fired_obligations(s.obligations, rules, id, spec, args)
            &&& (t.escalated_by.len() > 0 <==> (s.escalated_by.len() > 0 || approval_rule_fires(rules, id, spec, args)))
        },
    decreases rules.len(),
{
    if rules.len() == 0 {
        assert(s.matched + Seq::<Seq<char>>::empty() =~= s.matched);
    } else {
        let r0 = rules[0];
        let rest = rules.drop_first();
        let next = scan_step(s, r0, id, spec, args);
        if rule_fired(r0, id, spec, args) && r0.effect == Effect::Deny {
            assert(!no_deny_fires(rules, id, spec, args)) by {
                assert(rule_fired(rules[0], id, spec, args));
            }
            lemma_scan_keeps_denial(next, rest, id, spec, args);
        } else {
            lemma_scan_without_denial(next, rest, id, spec, args);
            assert(no_deny_fires(rules, id, spec, args) <==> no_deny_fires(rest, id, spec, args)) by {
                if no_deny_fires(rest, id, spec, args) {
                    assert forall|k: int| 0 <= k < rules.len() && #[trigger] rule_fired(rules[k], id, spec, args) implies rules[k].effect != Effect::Deny by {
                        if k > 0 {
                            assert(rules[k] == rest[k - 1]);
                        }
                    }
                }
                if no_deny_fires(rules, id, spec, args) {
                    assert forall|k: int| 0 <= k < rest.len() && #[trigger] rule_fired(rest[k], id, spec, args) implies rest[k].effect != Effect::Deny by {
                        assert(rest[k] == rules[k + 1]);
                    }
                }
            }
            assert(approval_rule_fires(rules, id, spec, args) <==> ((rule_fired(r0, id, spec, args) && r0.effect
                == Effect::RequireApproval && r0.id.len() > 0) || approval_rule_fires(rest, id, spec, args))) by {
                if approval_rule_fires(rules, id, spec, args) {
                    let k = choose|k: int| 0 <= k < rules.len() && #[trigger] rule_fired(rules[k], id, spec, args)
                        && rules[k].effect == Effect::RequireApproval && rules[k].id.len() > 0;
                    if k > 0 {
                        assert(rest[k - 1] == rules[k]);
                    }
                }
                if approval_rule_fires(rest, id, spec, args) {
                    let k = choose|k: int| 0 <= k < rest.len() && #[trigger] rule_fired(rest[k], id, spec, args)
                        && rest[k].effect == Effect::RequireApproval && rest[k].id.len() > 0;
                    assert(rules[k + 1] == rest[k]);
                }
                if rule_fired(r0, id, spec, args) && r0.effect == Effect::RequireApproval && r0.id.len() > 0 {
                    assert(rule_fired(rules[0], id, spec, args));
                }
            }
            if rule_fired(r0, id, spec, args) {
                assert(s.matched + fired_ids(rules, id, spec, args) =~= s.matched.push(r0.id) + fired_ids(rest, id, spec, args));
            } else {
                assert(s.matched + fired_ids(rules, id, spec, args) =~= s.matched + fired_ids(rest, id, spec, args));
            }
        }
    }
}

/// An allowed call is allowed by default, never by a rule: it needs
/// approval exactly when the tool asks for it, its risk is L3 or above, or
/// an approval rule with an id fired; its matched rules are every rule that fired, in
/// declared order; and its obligations are those of every obligation rule
/// that fired, merged in order.
pub proof fn law_allowed_decision(cfg: ConfigV, id: IdentityV, spec: SpecV, args: Seq<(Seq<char>, JsonV)>)
    requires
        evaluate_spec(cfg, id, spec, args).allowed,
    ensures
        ({
            let d = evaluate_spec(cfg, id, spec, args);
            &&& d.rule_id == "default.allow"@
            &&& d.approval_required == (spec.approval_required || spec.risk_level.rank_spec() >= 3
                || approval_rule_fires(cfg.rules, id, spec, args))
            &&& d.matched_rules == fired_ids(cfg.rules, id, spec, args)
            &&& d.obligations == fired_obligations(no_obligations(), cfg.rules, id, spec, args)
            &&& no_deny_fires(cfg.rules, id, spec, args)
        }),
{
    lemma_scan_without_denial(scan_start(), cfg.rules, id, spec, args);
    assert(Seq::<Seq<char>>::empty() + fired_ids(cfg.rules, id, spec, args) =~= fired_ids(cfg.rules, id, spec, args));
}

/// Listing consults role permissions and scope only: two documents with
/// the same roles list the same tools, whatever their rules; and every
/// allowed call is on a listed tool.
pub proof fn law_visible_ignores_rules(c1: ConfigV, c2: ConfigV, id: IdentityV, spec: SpecV, args: Seq<(Seq<char>, JsonV)>)
    requires
        c1.roles == c2.roles,
    ensures
        visible_spec(c1, id, spec) == visible_spec(c2, id, spec),
        evaluate_spec(c1, id, spec, args).allowed ==> visible_spec(c1, id, spec),
{
    lemma_first_missing_roles(c1, c2, id, spec.required_permissions);
}

proof fn lemma_first_missing_roles(c1: ConfigV, c2: ConfigV, id: IdentityV, needs: Seq<Seq<char>>)
    requires
        c1.roles == c2.roles,
    ensures
        first_missing(c1, id, needs) == first_missing(c2, id, needs),
    decreases needs.len(),
{
    if needs.len() > 0 {
        assert(grants(c1, id, "*"@) == grants(c2, id, "*"@));
        assert(grants(c1, id, needs[0]) == grants(c2, id, needs[0]));
        lemma_first_missing_roles(c1, c2, id, needs.drop_first());
    }
}

/// An allowed call on a tool of risk L3 or above always needs approval.
pub proof fn law_high_risk_needs_approval(cfg: ConfigV, id: IdentityV, spec: SpecV, args: Seq<(Seq<char>, JsonV)>)
    requires
        spec.risk_level.rank_spec() >= 3,
        evaluate_spec(cfg, id, spec, args).allowed,
    ensures
        evaluate_spec(cfg, id, spec, args).approval_required,
{
}

/// Missing values are read in the fail-closed direction: for a well-formed
/// predicate whose value is absent, `not_equals`, `not_in` and
/// `not_in_attribute` hold, and `equals`, `in`, `in_attribute` and the
/// numeric comparisons do not.
pub proof fn law_missing_values(p: PredicateV, id: IdentityV, args: Seq<(Seq<char>, JsonV)>)
    requires
        predicate_problem(p) is None,
        p.attribute.len() > 0 ==> obj_get(id.attributes, p.attribute) is None,
        p.arg.len() > 0 ==> obj_get(args, p.arg) is None,
    ensures
        (p.not_equals is Some || p.not_in.len() > 0 || p.not_in_attribute.len() > 0) ==> pred_holds(p, id, args),
        (p.equals is Some || p.in_.len() > 0 || p.in_attribute.len() > 0 || p.gt is Some || p.gte is Some
            || p.lt is Some || p.lte is Some) ==> !pred_holds(p, id, args),
{
}

/// The number `n` is below the decimal `d` = `d.digits / 10^d.scale`,
/// compared by cross-multiplying the two fractions.
pub open spec fn num_below(n: NumberV, d: Decimal) -> bool {
    match n {
        NumberV::Int(i) => i * crate::json::pow10(d.scale as nat) < d.digits,
        NumberV::Float(e, _) => e.digits * crate::json::pow10(d.scale as nat) < d.digits * crate::json::pow10(
            e.scale as nat,
        ),
    }
}

/// The number `n` is above the decimal `d`.
pub open spec fn num_above(n: NumberV, d: Decimal) -> bool {
    match n {
        NumberV::Int(i) => i * crate::json::pow10(d.scale as nat) > d.digits,
        NumberV::Float(e, _) => e.digits * crate::json::pow10(d.scale as nat) > d.digits * crate::json::pow10(
            e.scale as nat,
        ),
    }
}

/// A comparison predicate on a number holds as its operator says: `gt`
/// when the value is above the bound, `gte` when it is not below, `lt`
/// when it is below, `lte` when it is not above; the first operator given,
/// in that order, decides; with none the predicate does not hold. The
/// value is the attribute's when the predicate names one, else the
/// argument's.
pub proof fn law_comparisons_mean_what_they_say(p: PredicateV, id: IdentityV, args: Seq<(Seq<char>, JsonV)>, n: NumberV)
    requires
        p.in_attribute.len() == 0,
        p.not_in_attribute.len() == 0,
        p.equals is None,
        p.not_equals is None,
        p.in_.len() == 0,
        p.not_in.len() == 0,
        (if p.attribute.len() > 0 {
            obj_get(id.attributes, p.attribute)
        } else {
            obj_get(args, p.arg)
        }) == Some(JsonV::Num(n)),
    ensures
        p.gt is Some ==> (pred_holds(p, id, args) <==> num_above(n, p.gt->0)),
        p.gt is None && p.gte is Some ==> (pred_holds(p, id, args) <==> !num_below(n, p.gte->0)),
        p.gt is None && p.gte is None && p.lt is Some ==> (pred_holds(p, id, args) <==> num_below(n, p.lt->0)),
        p.gt is None && p.gte is None && p.lt is None && p.lte is Some ==> (pred_holds(p, id, args)
            <==> !num_above(n, p.lte->0)),
        p.gt is None && p.gte is None && p.lt is None && p.lte is None ==> !pred_holds(p, id, args),
{
}

} // verus!
