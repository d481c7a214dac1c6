//! Tool metadata, risk levels, and the registry that refuses unsafe tool
//! declarations.
//!
//! An unregistered tool cannot be called. Registration rejects the
//! combinations that compile but fail in operation: a write tool declared as
//! a lookup, a read tool behind an approval gate, a write tool that retries,
//! a tool without schemas.
use vstd::prelude::*;
use crate::json::{Json, JsonV};
use crate::keyed::{Keyed, sorted_keys, key_map, lemma_key_map, upsert, lookup, remove_key, search};
use crate::schema::{self, schema_build_error};
use crate::text::{trim, trim_spec, to_uppercase, to_lowercase, unicode_upper, unicode_lower, str_eq};

verus! {

/// Risk level. Approval gates follow the level, not read/write.
#[derive(Clone, Copy, PartialEq, Eq, PartialOrd, Ord, Debug, Structural)]
pub enum RiskLevel {
    /// Lookup: runs as is.
    L1,
    /// Drafting aid: a write without effect; no approval.
    L2,
    /// Execution aid: needs approval.
    L3,
    /// Autonomous execution: blocked unless explicitly allowed, and needs
    /// approval.
    L4,
}

impl RiskLevel {
    pub open spec fn rank_spec(self) -> int {
        match self {
            RiskLevel::L1 => 1,
            RiskLevel::L2 => 2,
            RiskLevel::L3 => 3,
            RiskLevel::L4 => 4,
        }
    }

    /// 1 to 4; levels compare by it.
    pub fn rank(self) -> (r: u8)
        ensures
            r == self.rank_spec(),
    {
        match self {
            RiskLevel::L1 => 1,
            RiskLevel::L2 => 2,
            RiskLevel::L3 => 3,
            RiskLevel::L4 => 4,
        }
    }

    /// `L1(조회형)` and the like.
    pub fn label(self) -> (r: &'static str)
        ensures
            r@ == risk_label(self),
    {
        match self {
            RiskLevel::L1 => "L1(조회형)",
            RiskLevel::L2 => "L2(작성 보조형)",
            RiskLevel::L3 => "L3(실행 보조형)",
            RiskLevel::L4 => "L4(자동 실행형)",
        }
    }

    /// Parses `L1`..`L4` or `1`..`4`, ignoring case and surrounding
    /// whitespace.
    pub fn parse(s: &str) -> (r: Result<RiskLevel, ParseError>)
        ensures
            ({
                let u = unicode_upper(trim_spec(s@));
                match r {
                    Ok(l) => (l == RiskLevel::L1 && (u == "L1"@ || u == "1"@)) || (l == RiskLevel::L2 && (u
                        == "L2"@ || u == "2"@)) || (l == RiskLevel::L3 && (u == "L3"@ || u == "3"@)) || (l
                        == RiskLevel::L4 && (u == "L4"@ || u == "4"@)),
                    Err(ParseError::RiskLevel(got)) => got@ == u && u != "L1"@ && u != "1"@ && u != "L2"@ && u
                        != "2"@ && u != "L3"@ && u != "3"@ && u != "L4"@ && u != "4"@,
                    Err(_) => false,
                }
            }),
    {
        let t = trim(s);
        let u = to_uppercase(t.as_str());
        let us = u.as_str();
        if str_eq(us, "L1") || str_eq(us, "1") {
            Ok(RiskLevel::L1)
        } else if str_eq(us, "L2") || str_eq(us, "2") {
            Ok(RiskLevel::L2)
        } else if str_eq(us, "L3") || str_eq(us, "3") {
            Ok(RiskLevel::L3)
        } else if str_eq(us, "L4") || str_eq(us, "4") {
            Ok(RiskLevel::L4)
        } else {
            Err(ParseError::RiskLevel(u))
        }
    }
}

pub open spec fn risk_label(l: RiskLevel) -> Seq<char> {
    match l {
        RiskLevel::L1 => "L1(조회형)"@,
        RiskLevel::L2 => "L2(작성 보조형)"@,
        RiskLevel::L3 => "L3(실행 보조형)"@,
        RiskLevel::L4 => "L4(자동 실행형)"@,
    }
}

/// Why a text did not parse.
#[derive(PartialEq, Eq, Debug)]
pub enum ParseError {
    /// Not a risk level; carries the normalized text.
    RiskLevel(String),
    /// Not an access kind; carries the normalized text.
    Access(String),
}

/// Read or write.
#[derive(Clone, Copy, PartialEq, Eq, Debug, Structural)]
pub enum Access {
    Read,
    Write,
}

impl Access {
    pub fn as_str(self) -> (r: &'static str)
        ensures
            r@ == (if self == Access::Read { "read"@ } else { "write"@ }),
    {
        match self {
            Access::Read => "read",
            Access::Write => "write",
        }
    }

    /// `""` or `read`, or `write`, ignoring case and surrounding whitespace.
    pub fn parse(s: &str) -> (r: Result<Access, ParseError>)
        ensures
            ({
                let l = unicode_lower(trim_spec(s@));
                match r {
                    Ok(a) => (a == Access::Read && (l == ""@ || l == "read"@)) || (a == Access::Write && l == "write"@),
                    Err(ParseError::Access(got)) => got@ == l && l != ""@ && l != "read"@ && l != "write"@,
                    Err(_) => false,
                }
            }),
    {
        let t = trim(s);
        let l = to_lowercase(t.as_str());
        let ls = l.as_str();
        if str_eq(ls, "") || str_eq(ls, "read") {
            Ok(Access::Read)
        } else if str_eq(ls, "write") {
            Ok(Access::Write)
        } else {
            Err(ParseError::Access(l))
        }
    }
}

/// Data sensitivity, ordered.
#[derive(Clone, Copy, PartialEq, Eq, Debug, Structural)]
pub enum Sensitivity {
    Public,
    Internal,
    Confidential,
    Restricted,
}

/// `public`, `confidential`, `restricted`, ignoring case and surrounding
/// whitespace; anything else is `internal`.
pub open spec fn sensitivity_named(t: Seq<char>) -> Sensitivity {
    let l = unicode_lower(trim_spec(t));
    if l == "public"@ {
        Sensitivity::Public
    } else if l == "confidential"@ {
        Sensitivity::Confidential
    } else if l == "restricted"@ {
        Sensitivity::Restricted
    } else {
        Sensitivity::Internal
    }
}

pub open spec fn sensitivity_text(s: Sensitivity) -> Seq<char> {
    match s {
        Sensitivity::Public => "public"@,
        Sensitivity::Internal => "internal"@,
        Sensitivity::Confidential => "confidential"@,
        Sensitivity::Restricted => "restricted"@,
    }
}

impl Sensitivity {
    pub fn as_str(self) -> (r: &'static str)
        ensures
            r@ == sensitivity_text(self),
    {
        match self {
            Sensitivity::Public => "public",
            Sensitivity::Internal => "internal",
            Sensitivity::Confidential => "confidential",
            Sensitivity::Restricted => "restricted",
        }
    }

    pub open spec fn rank_spec(self) -> int {
        match self {
            Sensitivity::Public => 0,
            Sensitivity::Internal => 1,
            Sensitivity::Confidential => 2,
            Sensitivity::Restricted => 3,
        }
    }

    pub fn rank(self) -> (r: u8)
        ensures
            r == self.rank_spec(),
    {
        match self {
            Sensitivity::Public => 0,
            Sensitivity::Internal => 1,
            Sensitivity::Confidential => 2,
            Sensitivity::Restricted => 3,
        }
    }

    /// `public`, `confidential`, `restricted`; anything else is `internal`.
    pub fn parse(s: &str) -> (r: Sensitivity)
        ensures
            r == sensitivity_named(s@),
    {
        let t = trim(s);
        let l = to_lowercase(t.as_str());
        let ls = l.as_str();
        if str_eq(ls, "public") {
            Sensitivity::Public
        } else if str_eq(ls, "confidential") {
            Sensitivity::Confidential
        } else if str_eq(ls, "restricted") {
            Sensitivity::Restricted
        } else {
            Sensitivity::Internal
        }
    }
}

/// A tool's declaration.
pub struct Spec {
    pub name: String,
    pub description: String,
    pub system: String,
    pub access: Access,
    pub risk_level: RiskLevel,
    pub sensitivity: Sensitivity,
    pub required_permissions: Vec<String>,
    pub approval_required: bool,
    /// How long an approval stays valid, from the moment it is decided; zero
    /// means the default of one hour.
    pub approval_ttl_secs: u64,
    pub rate_limit_per_min: i64,
    pub timeout_ms: i64,
    /// Must be zero for a write tool: a retried write runs twice.
    pub max_retries: i64,
    pub log_retention_days: i64,
    pub mask_fields: Vec<String>,
    /// What to tell the user when the tool is refused or fails.
    pub fallback: String,
    pub input_schema: Json,
    pub output_schema: Json,
}

pub struct SpecV {
    pub name: Seq<char>,
    pub description: Seq<char>,
    pub system: Seq<char>,
    pub access: Access,
    pub risk_level: RiskLevel,
    pub sensitivity: Sensitivity,
    pub required_permissions: Seq<Seq<char>>,
    pub approval_required: bool,
    pub approval_ttl_secs: u64,
    pub rate_limit_per_min: i64,
    pub timeout_ms: i64,
    pub max_retries: i64,
    pub log_retention_days: i64,
    pub mask_fields: Seq<Seq<char>>,
    pub fallback: Seq<char>,
    pub input_schema: JsonV,
    pub output_schema: JsonV,
}

/// The texts of a vector of strings.
pub open spec fn strs(v: Seq<String>) -> Seq<Seq<char>> {
    v.map_values(|s: String| s@)
}

impl View for Spec {
    type V = SpecV;

    open spec fn view(&self) -> SpecV {
        SpecV {
            name: self.name@,
            description: self.description@,
            system: self.system@,
            access: self.access,
            risk_level: self.risk_level,
            sensitivity: self.sensitivity,
            required_permissions: strs(self.required_permissions@),
            approval_required: self.approval_required,
            approval_ttl_secs: self.approval_ttl_secs,
            rate_limit_per_min: self.rate_limit_per_min,
            timeout_ms: self.timeout_ms,
            max_retries: self.max_retries,
            log_retention_days: self.log_retention_days,
            mask_fields: strs(self.mask_fields@),
            fallback: self.fallback@,
            input_schema: self.input_schema@,
            output_schema: self.output_schema@,
        }
    }
}

impl Keyed for Spec {
    open spec fn key_of(&self) -> Seq<char> {
        self.name@
    }

    fn key(&self) -> (r: &str) {
        self.name.as_str()
    }
}

/// A copy of a vector of strings.
pub fn copy_strings(v: &Vec<String>) -> (r: Vec<String>)
    ensures
        r@ == v@,
{
    let r = v.clone();
    assert(r@ =~= v@);
    r
}

impl Spec {
    pub fn copy(&self) -> (r: Spec)
        ensures
            r@ == self@,
    {
        Spec {
            name: self.name.clone(),
            description: self.description.clone(),
            system: self.system.clone(),
            access: self.access,
            risk_level: self.risk_level,
            sensitivity: self.sensitivity,
            required_permissions: copy_strings(&self.required_permissions),
            approval_required: self.approval_required,
            approval_ttl_secs: self.approval_ttl_secs,
            rate_limit_per_min: self.rate_limit_per_min,
            timeout_ms: self.timeout_ms,
            max_retries: self.max_retries,
            log_retention_days: self.log_retention_days,
            mask_fields: copy_strings(&self.mask_fields),
            fallback: self.fallback.clone(),
            input_schema: self.input_schema.copy(),
            output_schema: self.output_schema.copy(),
        }
    }
}

/// Why a declaration was refused.
#[derive(PartialEq, Eq, Debug)]
pub enum SpecError {
    NoDescription,
    NoSystem,
    NoPermissions,
    RateLimitNotPositive,
    RetentionNotPositive,
    NoFallback,
    NoInputSchema,
    NoOutputSchema,
    BadInputSchema(String),
    BadOutputSchema(String),
    /// A write tool below L2.
    WriteBelowL2(RiskLevel),
    /// A read tool above L2.
    ReadAboveL2(RiskLevel),
    /// A write tool that retries.
    WriteRetries(i64),
    NegativeRetriesOrTimeout,
    /// An approval lifetime on a tool that can never need approval.
    UselessApprovalTtl,
}

/// The first rule of a declaration that `s` breaks, as the error's kind:
/// 1 no description, 2 no system, 3 no permission, 4 rate limit not
/// positive, 5 retention not positive, 6 no fallback, 7 no input schema,
/// 8 no output schema, 9 input schema does not compile, 10 output schema
/// does not compile, 11 write below L2, 12 read above L2, 13 write with
/// retries, 14 negative retries or timeout, 15 approval lifetime on a tool
/// that never needs approval; 0 when it breaks none.
pub open spec fn spec_fault(s: SpecV) -> int {
    if s.description.len() == 0 {
        1
    } else if s.system.len() == 0 {
        2
    } else if s.required_permissions.len() == 0 {
        3
    } else if s.rate_limit_per_min <= 0 {
        4
    } else if s.log_retention_days <= 0 {
        5
    } else if s.fallback.len() == 0 {
        6
    } else if s.input_schema == JsonV::Null {
        7
    } else if s.output_schema == JsonV::Null {
        8
    } else if schema_build_error(s.input_schema) is Some {
        9
    } else if schema_build_error(s.output_schema) is Some {
        10
    } else if s.access == Access::Write && s.risk_level.rank_spec() < 2 {
        11
    } else if s.access == Access::Read && s.risk_level.rank_spec() > 2 {
        12
    } else if s.access == Access::Write && s.max_retries > 0 {
        13
    } else if s.max_retries < 0 || s.timeout_ms < 0 {
        14
    } else if s.approval_ttl_secs != 0 && s.access == Access::Read && s.risk_level == RiskLevel::L1
        && !s.approval_required {
        15
    } else {
        0
    }
}

/// The kind number of a declaration error (as in [`spec_fault`]).
pub open spec fn spec_error_kind(e: SpecError) -> int {
    match e {
        SpecError::NoDescription => 1,
        SpecError::NoSystem => 2,
        SpecError::NoPermissions => 3,
        SpecError::RateLimitNotPositive => 4,
        SpecError::RetentionNotPositive => 5,
        SpecError::NoFallback => 6,
        SpecError::NoInputSchema => 7,
        SpecError::NoOutputSchema => 8,
        SpecError::BadInputSchema(_) => 9,
        SpecError::BadOutputSchema(_) => 10,
        SpecError::WriteBelowL2(_) => 11,
        SpecError::ReadAboveL2(_) => 12,
        SpecError::WriteRetries(_) => 13,
        SpecError::NegativeRetriesOrTimeout => 14,
        SpecError::UselessApprovalTtl => 15,
    }
}

/// The payload an error carries is the declaration's own value.
pub open spec fn spec_error_detail(e: SpecError, s: SpecV) -> bool {
    match e {
        SpecError::BadInputSchema(m) => schema_build_error(s.input_schema) == Some(m@),
        SpecError::BadOutputSchema(m) => schema_build_error(s.output_schema) == Some(m@),
        SpecError::WriteBelowL2(l) => l == s.risk_level,
        SpecError::ReadAboveL2(l) => l == s.risk_level,
        SpecError::WriteRetries(n) => n == s.max_retries,
        _ => true,
    }
}

/// Checks a declaration. The combinations it refuses are the gateway's
/// safety invariants.
pub fn validate_spec(s: &Spec) -> (r: Result<(), SpecError>)
    ensures
        match r {
            Ok(()) => spec_fault(s@) == 0,
            Err(e) => spec_fault(s@) == spec_error_kind(e) && spec_error_detail(e, s@),
        },
{
    if s.description.as_str().is_empty() {
        return Err(SpecError::NoDescription);
    }
    if s.system.as_str().is_empty() {
        return Err(SpecError::NoSystem);
    }
    if s.required_permissions.len() == 0 {
        return Err(SpecError::NoPermissions);
    }
    if s.rate_limit_per_min <= 0 {
        return Err(SpecError::RateLimitNotPositive);
    }
    if s.log_retention_days <= 0 {
        return Err(SpecError::RetentionNotPositive);
    }
    if s.fallback.as_str().is_empty() {
        return Err(SpecError::NoFallback);
    }
    if let Json::Null = s.input_schema {
        return Err(SpecError::NoInputSchema);
    }
    if let Json::Null = s.output_schema {
        return Err(SpecError::NoOutputSchema);
    }
    match schema::compile(&s.input_schema) {
        Err(schema::SchemaError::Invalid(m)) => return Err(SpecError::BadInputSchema(m)),
        _ => {},
    }
    match schema::compile(&s.output_schema) {
        Err(schema::SchemaError::Invalid(m)) => return Err(SpecError::BadOutputSchema(m)),
        _ => {},
    }
    if s.access == Access::Write && s.risk_level.rank() < 2 {
        return Err(SpecError::WriteBelowL2(s.risk_level));
    }
    if s.access == Access::Read && s.risk_level.rank() > 2 {
        return Err(SpecError::ReadAboveL2(s.risk_level));
    }
    if s.access == Access::Write && s.max_retries > 0 {
        return Err(SpecError::WriteRetries(s.max_retries));
    }
    if s.max_retries < 0 || s.timeout_ms < 0 {
        return Err(SpecError::NegativeRetriesOrTimeout);
    }
    if s.approval_ttl_secs != 0 && s.access == Access::Read && s.risk_level == RiskLevel::L1
        && !s.approval_required {
        return Err(SpecError::UselessApprovalTtl);
    }
    Ok(())
}

/// Every declaration the registry accepts satisfies the safety invariants:
/// a write tool is at least L2 and never retries; a read tool is at most L2.
pub proof fn law_accepted_specs_are_safe(s: SpecV)
    requires
        spec_fault(s) == 0,
    ensures
        s.access == Access::Write ==> s.risk_level.rank_spec() >= 2 && s.max_retries == 0,
        s.access == Access::Read ==> s.risk_level.rank_spec() <= 2,
        s.required_permissions.len() > 0,
        s.input_schema != JsonV::Null && s.output_schema != JsonV::Null,
{
}

/// Why the registry refused an operation.
#[derive(PartialEq, Eq, Debug)]
pub enum RegistryError {
    NameRequired,
    Invalid(String, SpecError),
    AlreadyRegistered(String),
    NotRegistered(String),
}

/// The registered tool declarations, by name.
pub struct Registry {
    tools: Vec<Spec>,
}

impl View for Registry {
    type V = Map<Seq<char>, SpecV>;

    closed spec fn view(&self) -> Map<Seq<char>, SpecV> {
        key_map(self.tools@)
    }
}

impl Registry {
    pub closed spec fn wf(&self) -> bool {
        sorted_keys(self.tools@)
    }

    pub fn new() -> (r: Registry)
        ensures
            r.wf(),
            r@ == Map::<Seq<char>, SpecV>::empty(),
    {
        Registry { tools: Vec::new() }
    }

    /// Registers a valid declaration under a new name.
    pub fn register(&mut self, s: Spec) -> (r: Result<(), RegistryError>)
        requires
            old(self).wf(),
        ensures
            final(self).wf(),
            match r {
                Ok(()) => s@.name.len() > 0 && spec_fault(s@) == 0 && !old(self)@.contains_key(s@.name)
                    && final(self)@ == old(self)@.insert(s@.name, s@),
                Err(RegistryError::NameRequired) => s@.name.len() == 0 && final(self)@ == old(self)@,
                Err(RegistryError::Invalid(n, e)) => s@.name.len() > 0 && n@ == s@.name && spec_fault(s@)
                    == spec_error_kind(e) && spec_fault(s@) != 0 && final(self)@ == old(self)@,
                Err(RegistryError::AlreadyRegistered(n)) => s@.name.len() > 0 && spec_fault(s@) == 0 && n@
                    == s@.name && old(self)@.contains_key(s@.name) && final(self)@ == old(self)@,
                Err(RegistryError::NotRegistered(_)) => false,
            },
    {
        if s.name.as_str().is_empty() {
            return Err(RegistryError::NameRequired);
        }
        match validate_spec(&s) {
            Err(e) => return Err(RegistryError::Invalid(s.name.clone(), e)),
            Ok(()) => {},
        }
        match search(&self.tools, s.name.as_str()) {
            Ok(_) => Err(RegistryError::AlreadyRegistered(s.name.clone())),
            Err(_) => {
                upsert(&mut self.tools, s);
                Ok(())
            },
        }
    }

    /// Registers a valid declaration, replacing one of the same name.
    pub fn replace(&mut self, s: Spec) -> (r: Result<(), RegistryError>)
        requires
            old(self).wf(),
        ensures
            final(self).wf(),
            match r {
                Ok(()) => s@.name.len() > 0 && spec_fault(s@) == 0 && final(self)@ == old(self)@.insert(s@.name, s@),
                Err(RegistryError::NameRequired) => s@.name.len() == 0 && final(self)@ == old(self)@,
                Err(RegistryError::Invalid(n, e)) => s@.name.len() > 0 && n@ == s@.name && spec_fault(s@)
                    == spec_error_kind(e) && spec_fault(s@) != 0 && final(self)@ == old(self)@,
                Err(_) => false,
            },
    {
        if s.name.as_str().is_empty() {
            return Err(RegistryError::NameRequired);
        }
        match validate_spec(&s) {
            Err(e) => return Err(RegistryError::Invalid(s.name.clone(), e)),
            Ok(()) => {},
        }
        upsert(&mut self.tools, s);
        Ok(())
    }

    /// Removes a registered tool.
    pub fn unregister(&mut self, name: &str) -> (r: Result<(), RegistryError>)
        requires
            old(self).wf(),
        ensures
            final(self).wf(),
            match r {
                Ok(()) => name@.len() > 0 && old(self)@.contains_key(name@) && final(self)@ == old(self)@.remove(name@),
                Err(RegistryError::NameRequired) => name@.len() == 0 && final(self)@ == old(self)@,
                Err(RegistryError::NotRegistered(n)) => name@.len() > 0 && n@ == name@ && !old(self)@.contains_key(name@)
                    && final(self)@ == old(self)@,
                Err(_) => false,
            },
    {
        if name.is_empty() {
            return Err(RegistryError::NameRequired);
        }
        match remove_key(&mut self.tools, name) {
            Some(_) => Ok(()),
            None => Err(RegistryError::NotRegistered(name.to_owned())),
        }
    }

    /// The declaration registered under `name`.
    pub fn lookup(&self, name: &str) -> (r: Option<Spec>)
        requires
            self.wf(),
        ensures
            match r {
                Some(s) => self@.contains_key(name@) && self@[name@] == s@,
                None => !self@.contains_key(name@),
            },
    {
        match lookup(&self.tools, name) {
            Some(s) => Some(s.copy()),
            None => None,
        }
    }

    /// All declarations, ordered by name.
    pub fn specs(&self) -> (r: Vec<Spec>)
        requires
            self.wf(),
        ensures
            sorted_keys(r@),
            key_map(r@) == self@,
    {
        let mut out: Vec<Spec> = Vec::new();
        let mut i: usize = 0;
        while i < self.tools.len()
            invariant
                i <= self.tools.len(),
                out@.len() == i,
                forall|j: int| 0 <= j < i ==> (#[trigger] out@[j])@ == self.tools@[j]@ && out@[j].name@
                    == self.tools@[j].name@,
            decreases self.tools.len() - i,
        {
            out.push(self.tools[i].copy());
            i = i + 1;
        }
        proof {
            crate::keyed::lemma_key_map_congruent(self.tools@, out@);
        }
        out
    }

    /// All names, ordered.
    pub fn names(&self) -> (r: Vec<String>)
        requires
            self.wf(),
        ensures
            r@.len() == self@.len(),
            forall|i: int, j: int| 0 <= i < j < r@.len() ==> crate::text::lex_lt(#[trigger] r@[i]@, #[trigger] r@[j]@),
            forall|i: int| 0 <= i < r@.len() ==> self@.contains_key(#[trigger] r@[i]@),
            forall|k: Seq<char>| #[trigger] self@.contains_key(k) ==> exists|i: int| 0 <= i < r@.len() && r@[i]@ == k,
    {
        proof {
            lemma_key_map(self.tools@);
        }
        let mut out: Vec<String> = Vec::new();
        let mut i: usize = 0;
        while i < self.tools.len()
            invariant
                i <= self.tools.len(),
                out@.len() == i,
                forall|j: int| 0 <= j < i ==> (#[trigger] out@[j])@ == self.tools@[j].name@,
            decreases self.tools.len() - i,
        {
            out.push(self.tools[i].name.clone());
            i = i + 1;
        }
        proof {
            assert forall|k: Seq<char>| #[trigger] self@.contains_key(k) implies exists|i: int| 0 <= i < out@.len() && out@[i]@ == k by {
                let i = choose|i: int| 0 <= i < self.tools@.len() && self.tools@[i].key_of() == k;
                assert(out@[i]@ == k);
            }
            assert forall|i: int, j: int| 0 <= i < j < out@.len() implies crate::text::lex_lt(#[trigger] out@[i]@, #[trigger] out@[j]@) by {
                assert(crate::text::lex_lt(self.tools@[i].key_of(), self.tools@[j].key_of()));
            }
            assert forall|i: int| 0 <= i < out@.len() implies self@.contains_key(#[trigger] out@[i]@) by {
                assert(self@.contains_key(self.tools@[i].key_of()));
            }
        }
        out
    }

    pub fn len(&self) -> (r: usize)
        requires
            self.wf(),
        ensures
            r == self@.len(),
    {
        proof {
            lemma_key_map(self.tools@);
        }
        self.tools.len()
    }

    pub fn is_empty(&self) -> (r: bool)
        requires
            self.wf(),
        ensures
            r == (self@.len() == 0),
    {
        self.len() == 0
    }
}

} // verus!
