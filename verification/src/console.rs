//! The operations console's forms: what a submitted form asks for, and
//! whether it may be carried out.
//!
//! Who decides comes from the session, never from a form: none of these
//! forms has a field for it.
use vstd::prelude::*;
use crate::auth::{Identity, kind_agent};
use crate::registry::{strs, copy_strings};
use crate::text::{chars_of, concat3, owned, str_eq};
use crate::llm::{strip_trailing_char, trim_end_char};
use crate::text::{i64_text_value, parse_i64};

verus! {

/// An approval decision.
pub struct DecideForm {
    pub action: String,
    pub note: String,
}

impl DecideForm {
    /// `Some(true)` to approve, `Some(false)` to reject, `None` for anything
    /// else (a bad request).
    pub fn decision(&self) -> (r: Option<bool>)
        ensures
            r == (if self.action@ == "approve"@ {
                Some(true)
            } else if self.action@ == "reject"@ {
                Some(false)
            } else {
                None::<bool>
            }),
    {
        if str_eq(self.action.as_str(), "approve") {
            Some(true)
        } else if str_eq(self.action.as_str(), "reject") {
            Some(false)
        } else {
            None
        }
    }
}

/// What a configuration form asks for.
#[derive(Clone, Copy, PartialEq, Eq, Debug, Structural)]
pub enum ConfigIntent {
    ApplyPolicy,
    ApplyInventory,
    ApplyCatalog,
    ReloadBundle,
    NotifyCluster,
}

pub open spec fn config_intent_named(t: Seq<char>) -> Option<ConfigIntent> {
    if t == "apply_policy"@ {
        Some(ConfigIntent::ApplyPolicy)
    } else if t == "apply_inventory"@ {
        Some(ConfigIntent::ApplyInventory)
    } else if t == "apply_catalog"@ {
        Some(ConfigIntent::ApplyCatalog)
    } else if t == "reload_bundle"@ {
        Some(ConfigIntent::ReloadBundle)
    } else if t == "notify_cluster"@ {
        Some(ConfigIntent::NotifyCluster)
    } else {
        None
    }
}

/// A configuration change: a YAML body and what to do with it.
pub struct ConfigForm {
    pub intent: String,
    pub body: String,
}

impl ConfigForm {
    /// The request, or `None` when it is not one the console knows.
    pub fn intent(&self) -> (r: Option<ConfigIntent>)
        ensures
            r == config_intent_named(self.intent@),
    {
        let t = self.intent.as_str();
        if str_eq(t, "apply_policy") {
            Some(ConfigIntent::ApplyPolicy)
        } else if str_eq(t, "apply_inventory") {
            Some(ConfigIntent::ApplyInventory)
        } else if str_eq(t, "apply_catalog") {
            Some(ConfigIntent::ApplyCatalog)
        } else if str_eq(t, "reload_bundle") {
            Some(ConfigIntent::ReloadBundle)
        } else if str_eq(t, "notify_cluster") {
            Some(ConfigIntent::NotifyCluster)
        } else {
            None
        }
    }
}

/// Why an agent registration was refused.
#[derive(Clone, Copy, PartialEq, Eq, Debug, Structural)]
pub enum AgentFormError {
    BadUserId,
    NoRoles,
}

pub open spec fn agent_form_error_text(e: AgentFormError) -> Seq<char> {
    match e {
        AgentFormError::BadUserId => "user_id 형식이 올바르지 않습니다."@,
        AgentFormError::NoRoles => "역할을 하나 이상 선택하세요."@,
    }
}

impl AgentFormError {
    pub fn message(self) -> (r: String)
        ensures
            r@ == agent_form_error_text(self),
    {
        match self {
            AgentFormError::BadUserId => owned("user_id 형식이 올바르지 않습니다."),
            AgentFormError::NoRoles => owned("역할을 하나 이상 선택하세요."),
        }
    }
}

pub open spec fn user_id_char(c: char) -> bool {
    ('a' <= c <= 'z') || ('A' <= c <= 'Z') || ('0' <= c <= '9') || c == '.' || c == '_' || c == '-'
}

/// A user id is 1 to 64 characters of ASCII letters, digits, `.`, `_` and `-`.
pub open spec fn user_id_ok(s: Seq<char>) -> bool {
    &&& 0 < s.len() <= 64
    &&& forall|i: int| 0 <= i < s.len() ==> #[trigger] user_id_char(s[i])
}

/// Whether `s` is a well-formed user id.
pub fn valid_user_id(s: &str) -> (r: bool)
    ensures
        r == user_id_ok(s@),
{
    let cs = chars_of(s);
    if cs.len() == 0 || cs.len() > 64 {
        return false;
    }
    let mut i: usize = 0;
    while i < cs.len()
        invariant
            i <= cs.len(),
            cs@ == s@,
            forall|k: int| 0 <= k < i ==> #[trigger] user_id_char(cs@[k]),
        decreases cs.len() - i,
    {
        let c = cs[i];
        let ok = ('a' <= c && c <= 'z') || ('A' <= c && c <= 'Z') || ('0' <= c && c <= '9') || c == '.'
            || c == '_' || c == '-';
        if !ok {
            assert(!user_id_char(s@[i as int]));
            return false;
        }
        i = i + 1;
    }
    true
}

/// An agent registration, rotation or removal.
pub struct AgentForm {
    pub intent: String,
    pub user_id: String,
    pub roles: Vec<String>,
    pub tools: Vec<String>,
    pub systems: Vec<String>,
}

pub open spec fn agent_form_check(user_id: Seq<char>, roles: Seq<String>) -> Result<(), AgentFormError> {
    if !user_id_ok(user_id) {
        Err(AgentFormError::BadUserId)
    } else if roles.len() == 0 {
        Err(AgentFormError::NoRoles)
    } else {
        Ok(())
    }
}

/// One YAML list item per value, at the depth the principal file uses.
pub open spec fn yaml_items(v: Seq<Seq<char>>) -> Seq<char>
    decreases v.len(),
{
    if v.len() == 0 {
        Seq::empty()
    } else {
        yaml_items(v.drop_last()) + "      - "@ + v.last() + "\n"@
    }
}

pub open spec fn snippet_spec(
    user_id: Seq<char>,
    roles: Seq<Seq<char>>,
    tools: Seq<Seq<char>>,
    systems: Seq<Seq<char>>,
    hash: Seq<char>,
) -> Seq<char> {
    "  - user_id: "@ + user_id + "\n    kind: agent\n    roles:\n"@ + yaml_items(roles)
        + (if tools.len() == 0 { Seq::empty() } else { "    allowed_tools:\n"@ + yaml_items(tools) })
        + (if systems.len() == 0 { Seq::empty() } else { "    allowed_systems:\n"@ + yaml_items(systems) })
        + "    token_sha256: "@ + hash + "\n"@
}

fn push_items(out: &mut String, v: &Vec<String>)
    ensures
        final(out)@ == old(out)@ + yaml_items(strs(v@)),
{
    let mut i: usize = 0;
    while i < v.len()
        invariant
            i <= v.len(),
            out@ == old(out)@ + yaml_items(strs(v@.subrange(0, i as int))),
        decreases v.len() - i,
    {
        assert(strs(v@.subrange(0, i + 1)).drop_last() =~= strs(v@.subrange(0, i as int)));
        let item = concat3("      - ", v[i].as_str(), "\n");
        out.append(item.as_str());
        i = i + 1;
    }
    assert(v@.subrange(0, i as int) =~= v@);
}

impl AgentForm {
    /// Whether the form asks to remove the agent.
    pub fn removes(&self) -> (r: bool)
        ensures
            r == (self.intent@ == "remove"@),
    {
        str_eq(self.intent.as_str(), "remove")
    }

    /// A registration needs a well-formed user id and at least one role.
    pub fn check(&self) -> (r: Result<(), AgentFormError>)
        ensures
            r == agent_form_check(self.user_id@, self.roles@),
    {
        if !valid_user_id(self.user_id.as_str()) {
            Err(AgentFormError::BadUserId)
        } else if self.roles.len() == 0 {
            Err(AgentFormError::NoRoles)
        } else {
            Ok(())
        }
    }

    /// The agent principal the form registers, authenticated by the token
    /// whose hash is `hash`.
    pub fn identity(&self, hash: &str) -> (r: Identity)
        ensures
            r.user_id == self.user_id,
            r.kind@ == kind_agent(),
            r.roles@ == self.roles@,
            r.allowed_tools@ == self.tools@,
            r.allowed_systems@ == self.systems@,
            r.token_sha256@ == hash@,
            r.session_id@.len() == 0,
            r.department@.len() == 0,
            r.permissions@.len() == 0,
            r.token_expires_at.is_none(),
            r.attributes@.len() == 0,
    {
        Identity {
            user_id: self.user_id.clone(),
            session_id: String::new(),
            kind: owned("agent"),
            roles: copy_strings(&self.roles),
            department: String::new(),
            permissions: Vec::new(),
            allowed_tools: copy_strings(&self.tools),
            allowed_systems: copy_strings(&self.systems),
            token_sha256: owned(hash),
            token_expires_at: None,
            attributes: Vec::new(),
        }
    }

    /// The entry to paste into the principal file; for display only, the
    /// change itself is already applied.
    pub fn snippet(&self, hash: &str) -> (r: String)
        ensures
            r@ == snippet_spec(self.user_id@, strs(self.roles@), strs(self.tools@), strs(self.systems@), hash@),
    {
        agent_snippet(self.user_id.as_str(), &self.roles, &self.tools, &self.systems, hash)
    }
}

/// The principal-file entry of an agent.
pub fn agent_snippet(user_id: &str, roles: &Vec<String>, tools: &Vec<String>, systems: &Vec<String>, hash: &str) -> (r: String)
    ensures
        r@ == snippet_spec(user_id@, strs(roles@), strs(tools@), strs(systems@), hash@),
{
    let mut s = concat3("  - user_id: ", user_id, "\n    kind: agent\n    roles:\n");
    push_items(&mut s, roles);
    if tools.len() > 0 {
        s.append("    allowed_tools:\n");
        push_items(&mut s, tools);
    }
    if systems.len() > 0 {
        s.append("    allowed_systems:\n");
        push_items(&mut s, systems);
    }
    let tail = concat3("    token_sha256: ", hash, "\n");
    s.append(tail.as_str());
    proof {
        reveal_strlit("  - user_id: ");
    }
    s
}

/// Whether a console POST comes from the console's own pages. The
/// `Sec-Fetch-Site` header, which a browser sets and a page cannot forge,
/// decides when present; otherwise the authority of the `Origin` header must
/// be the `Host`. A POST with neither is refused.
///
/// `origin_authority` is the authority of the `Origin` header, `None` when
/// there is no such header or it does not parse as a URI.
pub fn same_origin(sec_fetch_site: Option<&str>, origin_authority: Option<&str>, host: Option<&str>) -> (r: bool)
    ensures
        r == match sec_fetch_site {
            Some(site) => site@ == "same-origin"@,
            None => match (origin_authority, host) {
                (Some(a), Some(h)) => a@ == h@,
                _ => false,
            },
        },
{
    match sec_fetch_site {
        Some(site) => str_eq(site, "same-origin"),
        None => match (origin_authority, host) {
            (Some(a), Some(h)) => str_eq(a, h),
            _ => false,
        },
    }
}

/// The hours a listing looks back: the `since` query value without its
/// trailing `h`s, read as a whole number, else `default_hours`.
pub fn since_hours(since: Option<&str>, default_hours: i64) -> (r: i64)
    ensures
        r == match since {
            Some(t) => match i64_text_value(strip_trailing_char(t@, 'h')) {
                Some(h) => h,
                None => default_hours,
            },
            None => default_hours,
        },
{
    match since {
        Some(t) => {
            let bare = trim_end_char(t, 'h');
            match parse_i64(bare.as_str()) {
                Some(h) => h,
                None => default_hours,
            }
        },
        None => default_hours,
    }
}

} // verus!


