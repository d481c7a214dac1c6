//! Principals: who is calling, with which roles, scopes and attributes.
//!
//! A request whose principal cannot be resolved is refused, never downgraded
//! to anonymous. Humans are vouched for by a fronting proxy and named by a
//! header; autonomous agents authenticate with their own token, and a
//! principal of kind `agent` is never accepted from the header alone.
use vstd::prelude::*;
use crate::json::{Json, JsonV, jv, jv_entries, obj_get, lemma_jv_entries_ext, set_entry};
use crate::keyed::{Keyed, sorted_keys, key_map, lemma_key_map, upsert, lookup};
use crate::text::lex_lt;
use crate::text::{seq_has, vec_has, str_eq, owned, unicode_lower, to_lowercase, ascii_lower, chars_of, string_of, slice_range, trim, trim_spec};
use crate::clock::{wall_clock_nanos, to_rfc3339, rfc3339_secs};
use chrono::{TimeZone, Datelike, Timelike, Utc};
use crate::digest::{random_bytes, sha256_hex, sha256_of, hex_lower, hex_text, lemma_hex_lower_len};
use vstd::utf8::{encode_utf8, is_char_boundary};
use crate::registry::{strs, copy_strings};
use crate::text::{first_bad, lemma_first_bad_push, lemma_first_bad_extend};
use crate::text::{concat, concat3, debug_quote, debug_text, int_text};
use crate::gateway::admission::{join, join_strings};

verus! {

/// The `kind` of an autonomous agent.
pub open spec fn kind_agent() -> Seq<char> {
    "agent"@
}

/// A calling principal.
#[derive(Debug)]
pub struct Identity {
    pub user_id: String,
    pub session_id: String,
    /// `""` for a human, `"agent"` for an autonomous agent.
    pub kind: String,
    pub roles: Vec<String>,
    pub department: String,
    pub permissions: Vec<String>,
    /// Narrows what the roles grant; never widens it.
    pub allowed_tools: Vec<String>,
    pub allowed_systems: Vec<String>,
    /// Lowercase hex SHA-256 of the agent's token; present means the
    /// principal authenticates by token.
    pub token_sha256: String,
    /// Token expiry, nanoseconds since the Unix epoch.
    pub token_expires_at: Option<i64>,
    /// Attributes for attribute-based rules; the environment ones are
    /// overwritten per request.
    pub attributes: Vec<(String, Json)>,
}

pub struct IdentityV {
    pub user_id: Seq<char>,
    pub session_id: Seq<char>,
    pub kind: Seq<char>,
    pub roles: Seq<Seq<char>>,
    pub department: Seq<char>,
    pub permissions: Seq<Seq<char>>,
    pub allowed_tools: Seq<Seq<char>>,
    pub allowed_systems: Seq<Seq<char>>,
    pub token_sha256: Seq<char>,
    pub token_expires_at: Option<i64>,
    pub attributes: Seq<(Seq<char>, JsonV)>,
}

impl View for Identity {
    type V = IdentityV;

    open spec fn view(&self) -> IdentityV {
        IdentityV {
            user_id: self.user_id@,
            session_id: self.session_id@,
            kind: self.kind@,
            roles: strs(self.roles@),
            department: self.department@,
            permissions: strs(self.permissions@),
            allowed_tools: strs(self.allowed_tools@),
            allowed_systems: strs(self.allowed_systems@),
            token_sha256: self.token_sha256@,
            token_expires_at: self.token_expires_at,
            attributes: jv_entries(self.attributes@),
        }
    }
}

impl Keyed for Identity {
    open spec fn key_of(&self) -> Seq<char> {
        self.user_id@
    }

    fn key(&self) -> (r: &str) {
        self.user_id.as_str()
    }
}

pub proof fn lemma_strs_has(v: Seq<String>, x: Seq<char>)
    ensures
        seq_has(v, x) == strs(v).contains(x),
{
    if seq_has(v, x) {
        let i = choose|i: int| 0 <= i < v.len() && #[trigger] v[i]@ == x;
        assert(strs(v)[i] == x);
    }
    if strs(v).contains(x) {
        let i = choose|i: int| 0 <= i < strs(v).len() && strs(v)[i] == x;
        assert(v[i]@ == x);
    }
}

/// Whether the principal's scope admits this tool on this system: an empty
/// list puts no limit on its axis.
pub open spec fn allows_tool_spec(id: IdentityV, name: Seq<char>, system: Seq<char>) -> bool {
    (id.allowed_tools.len() == 0 || id.allowed_tools.contains(name)) && (id.allowed_systems.len() == 0
        || id.allowed_systems.contains(system))
}

/// A copy of attribute entries.
pub fn copy_entries(v: &Vec<(String, Json)>) -> (r: Vec<(String, Json)>)
    ensures
        jv_entries(r@) == jv_entries(v@),
{
    let mut out: Vec<(String, Json)> = Vec::new();
    let mut i: usize = 0;
    while i < v.len()
        invariant
            i <= v.len(),
            out@.len() == i,
            forall|j: int| 0 <= j < i ==> (#[trigger] out@[j]).0@ == v@[j].0@ && jv(out@[j].1) == jv(v@[j].1),
        decreases v.len() - i,
    {
        out.push((v[i].0.clone(), v[i].1.copy()));
        i = i + 1;
    }
    proof {
        lemma_jv_entries_ext(out@, v@);
    }
    out
}

impl Identity {
    pub fn is_agent(&self) -> (r: bool)
        ensures
            r == (self@.kind == kind_agent()),
    {
        str_eq(self.kind.as_str(), "agent")
    }

    /// Whether the scope admits this tool and system.
    pub fn allows_tool(&self, name: &str, system: &str) -> (r: bool)
        ensures
            r == allows_tool_spec(self@, name@, system@),
    {
        proof {
            lemma_strs_has(self.allowed_tools@, name@);
            lemma_strs_has(self.allowed_systems@, system@);
        }
        if self.allowed_tools.len() > 0 && !vec_has(&self.allowed_tools, name) {
            return false;
        }
        if self.allowed_systems.len() > 0 && !vec_has(&self.allowed_systems, system) {
            return false;
        }
        true
    }

    pub fn has_role(&self, role: &str) -> (r: bool)
        ensures
            r == self@.roles.contains(role@),
    {
        proof {
            lemma_strs_has(self.roles@, role@);
        }
        vec_has(&self.roles, role)
    }

    /// The attribute named `key`.
    pub fn attr(&self, key: &str) -> (r: Option<&Json>)
        ensures
            match r {
                Some(v) => obj_get(self@.attributes, key@) == Some(v@),
                None => obj_get(self@.attributes, key@) == None::<JsonV>,
            },
    {
        crate::json::get(&self.attributes, key)
    }

    pub fn copy(&self) -> (r: Identity)
        ensures
            r@ == self@,
    {
        Identity {
            user_id: self.user_id.clone(),
            session_id: self.session_id.clone(),
            kind: self.kind.clone(),
            roles: copy_strings(&self.roles),
            department: self.department.clone(),
            permissions: copy_strings(&self.permissions),
            allowed_tools: copy_strings(&self.allowed_tools),
            allowed_systems: copy_strings(&self.allowed_systems),
            token_sha256: self.token_sha256.clone(),
            token_expires_at: self.token_expires_at,
            attributes: copy_entries(&self.attributes),
        }
    }
}


// ---------------------------------------------------------------------------
// Request context
// ---------------------------------------------------------------------------

/// What a request brings: its session, its headers (stdio has none), and
/// the time it is judged at, if fixed.
pub struct RequestContext {
    pub session_id: String,
    pub headers: Vec<(String, String)>,
    /// Nanoseconds since the epoch; the wall clock when absent.
    pub now: Option<i64>,
}

pub struct RequestContextV {
    pub session_id: Seq<char>,
    pub headers: Seq<(Seq<char>, Seq<char>)>,
    pub now: Option<i64>,
}

pub open spec fn pairs_view(v: Seq<(String, String)>) -> Seq<(Seq<char>, Seq<char>)> {
    v.map_values(|e: (String, String)| (e.0@, e.1@))
}

impl View for RequestContext {
    type V = RequestContextV;

    open spec fn view(&self) -> RequestContextV {
        RequestContextV { session_id: self.session_id@, headers: pairs_view(self.headers@), now: self.now }
    }
}

/// The value of the first header whose name matches `key` ignoring case;
/// empty when there is none.
pub open spec fn header_get(hs: Seq<(Seq<char>, Seq<char>)>, key: Seq<char>) -> Seq<char>
    decreases hs.len(),
{
    if hs.len() == 0 {
        Seq::empty()
    } else if unicode_lower(hs[0].0) == unicode_lower(key) {
        hs[0].1
    } else {
        header_get(hs.drop_first(), key)
    }
}

/// The position of the header named exactly `key`.
pub open spec fn exact_index(hs: Seq<(Seq<char>, Seq<char>)>, key: Seq<char>) -> Option<int> {
    if exists|i: int| 0 <= i < hs.len() && #[trigger] hs[i].0 == key {
        Some(choose|i: int| 0 <= i < hs.len() && #[trigger] hs[i].0 == key && forall|j: int| 0 <= j < i ==> #[trigger] hs[j].0 != key)
    } else {
        None
    }
}

/// The headers after setting `key` to `value`: the header of that exact
/// name takes the value, or a new one is added.
pub open spec fn header_set(hs: Seq<(Seq<char>, Seq<char>)>, key: Seq<char>, value: Seq<char>) -> Seq<(Seq<char>, Seq<char>)> {
    match exact_index(hs, key) {
        Some(i) => hs.update(i, (key, value)),
        None => hs.push((key, value)),
    }
}

impl RequestContext {
    pub fn new() -> (r: RequestContext)
        ensures
            r@.session_id.len() == 0,
            r@.headers.len() == 0,
            r@.now is None,
    {
        RequestContext { session_id: String::new(), headers: Vec::new(), now: None }
    }

    /// The header `key`, its name compared ignoring case; empty when
    /// absent.
    pub fn get(&self, key: &str) -> (r: String)
        ensures
            r@ == header_get(self@.headers, key@),
    {
        let lower = to_lowercase(key);
        let ghost hs = self@.headers;
        assert(hs.subrange(0, hs.len() as int) =~= hs);
        let mut i: usize = 0;
        while i < self.headers.len()
            invariant
                i <= self.headers.len(),
                hs == self@.headers,
                hs.len() == self.headers@.len(),
                lower@ == unicode_lower(key@),
                header_get(hs, key@) == header_get(hs.subrange(i as int, hs.len() as int), key@),
            decreases self.headers.len() - i,
        {
            let ghost rest = hs.subrange(i as int, hs.len() as int);
            assert(rest[0] == (self.headers@[i as int].0@, self.headers@[i as int].1@));
            assert(rest.drop_first() =~= hs.subrange(i + 1, hs.len() as int));
            let name = to_lowercase(self.headers[i].0.as_str());
            if str_eq(name.as_str(), lower.as_str()) {
                return self.headers[i].1.clone();
            }
            i = i + 1;
        }
        String::new()
    }

    /// Sets the header named exactly `key`.
    pub fn set(&mut self, key: &str, value: &str)
        ensures
            final(self)@.headers == header_set(old(self)@.headers, key@, value@),
            final(self)@.session_id == old(self)@.session_id,
            final(self)@.now == old(self)@.now,
    {
        let ghost hs = old(self)@.headers;
        let mut i: usize = 0;
        while i < self.headers.len()
            invariant
                i <= self.headers.len(),
                hs == pairs_view(self.headers@),
                hs == old(self)@.headers,
                self@.session_id == old(self)@.session_id,
                self@.now == old(self)@.now,
                hs.len() == self.headers@.len(),
                forall|j: int| 0 <= j < i ==> #[trigger] hs[j].0 != key@,
            decreases self.headers.len() - i,
        {
            assert(hs[i as int].0 == self.headers@[i as int].0@);
            if str_eq(self.headers[i].0.as_str(), key) {
                proof {
                    assert(exists|m: int| 0 <= m < hs.len() && #[trigger] hs[m].0 == key@ && forall|j: int|
                        0 <= j < m ==> #[trigger] hs[j].0 != key@);
                    let m = exact_index(hs, key@)->0;
                    if m < i {
                        assert(hs[m].0 != key@);
                    }
                    if m > i {
                        assert(hs[i as int].0 != key@);
                    }
                    assert(exact_index(hs, key@) == Some(i as int));
                }
                self.headers.set(i, (owned(key), owned(value)));
                assert(pairs_view(self.headers@) =~= header_set(hs, key@, value@));
                return;
            }
            i = i + 1;
        }
        self.headers.push((owned(key), owned(value)));
        assert(pairs_view(self.headers@) =~= header_set(hs, key@, value@));
    }
}

// ---------------------------------------------------------------------------
// Sessions and bearer tokens
// ---------------------------------------------------------------------------

pub open spec fn session_header() -> Seq<char> {
    "X-Session-Id"@
}

pub open spec fn authorization_header() -> Seq<char> {
    "Authorization"@
}

/// The principal with the request's session: the session header when
/// present, else the context's session.
pub open spec fn with_session_spec(id: IdentityV, rc: RequestContextV) -> IdentityV {
    let h = header_get(rc.headers, session_header());
    IdentityV { session_id: if h.len() > 0 { h } else { rc.session_id }, ..id }
}

fn with_session(id: Identity, rc: &RequestContext) -> (r: Identity)
    ensures
        r@ == with_session_spec(id@, rc@),
{
    let mut id = id;
    id.session_id = rc.session_id.clone();
    let hdr = rc.get("X-Session-Id");
    if !hdr.as_str().is_empty() {
        id.session_id = hdr;
    }
    id
}

/// Whether two texts are equal ignoring ASCII case.
pub open spec fn ascii_ci_eq(a: Seq<char>, b: Seq<char>) -> bool {
    a.len() == b.len() && forall|i: int| 0 <= i < a.len() ==> #[trigger] ascii_lower(a[i]) == ascii_lower(b[i])
}

/// The token of an `Authorization: Bearer <token>` value (scheme name in
/// any case), trimmed; empty when the value is no such header.
pub open spec fn bearer_spec(h: Seq<char>) -> Seq<char> {
    if h.len() > 7 && ascii_ci_eq(h.take(7), "bearer "@) {
        trim_spec(h.skip(7))
    } else {
        Seq::empty()
    }
}

/// A header value the bearer check can read: its first seven bytes end on a
/// character boundary whenever it is longer than that.
pub open spec fn bearer_readable(h: Seq<char>) -> bool {
    encode_utf8(h).len() > 7 ==> is_char_boundary(encode_utf8(h), 7)
}

fn ascii_lower_exec(c: char) -> (r: char)
    ensures
        r == ascii_lower(c),
{
    if 'A' <= c && c <= 'Z' {
        ((c as u8) + 32) as char
    } else {
        c
    }
}

/// The bearer token of the request, if any.
pub fn bearer_token(rc: &RequestContext) -> (r: String)
    requires
        bearer_readable(header_get(rc@.headers, authorization_header())),
    ensures
        r@ == bearer_spec(header_get(rc@.headers, authorization_header())),
{
    let h = rc.get("Authorization");
    let cs = chars_of(h.as_str());
    if cs.len() <= 7 {
        return String::new();
    }
    let prefix = chars_of("bearer ");
    proof {
        reveal_strlit("bearer ");
    }
    let mut i: usize = 0;
    while i < 7
        invariant
            i <= 7,
            cs@ == h@,
            h@ == header_get(rc@.headers, authorization_header()),
            cs@.len() > 7,
            prefix@ == "bearer "@,
            prefix@.len() == 7,
            forall|j: int| 0 <= j < i ==> #[trigger] ascii_lower(cs@[j]) == ascii_lower(prefix@[j]),
        decreases 7 - i,
    {
        if ascii_lower_exec(cs[i]) != ascii_lower_exec(prefix[i]) {
            assert(!ascii_ci_eq(h@.take(7), "bearer "@)) by {
                assert(h@.take(7)[i as int] == cs@[i as int]);
            }
            return String::new();
        }
        i = i + 1;
    }
    assert(ascii_ci_eq(h@.take(7), "bearer "@)) by {
        assert forall|j: int| 0 <= j < 7 implies #[trigger] ascii_lower(h@.take(7)[j]) == ascii_lower("bearer "@[j]) by {
            assert(h@.take(7)[j] == cs@[j]);
        }
    }
    let rest = slice_range(&cs, 7, cs.len());
    assert(rest@ =~= h@.skip(7));
    let t = string_of(rest.as_slice());
    trim(t.as_str())
}

/// The lowercase hex SHA-256 of a token's UTF-8 bytes.
pub fn token_hash(token: &str) -> (r: String)
    ensures
        r@ == hex_lower(sha256_of(encode_utf8(token@))),
        r@.len() == 64,
{
    sha256_hex(token.as_bytes())
}

/// A new agent token: 256 random bits as lowercase hex.
pub fn generate_token() -> (r: String)
    ensures
        exists|b: Seq<u8>| b.len() == 32 && r@ == hex_lower(b),
        r@.len() == 64,
{
    let b = random_bytes(32);
    proof {
        lemma_hex_lower_len(b@);
    }
    hex_text(b.as_slice())
}


// ---------------------------------------------------------------------------
// Errors
// ---------------------------------------------------------------------------

/// Why a principal could not be resolved, or a directory not built.
#[derive(Debug)]
pub enum AuthError {
    /// The directory holds no principal.
    EmptyDirectory,
    /// `only` on a directory of this many principals (their ids).
    Ambiguous(usize, Vec<String>),
    /// A principal file with both `user_id` and `principals`.
    BothForms,
    /// `principals[i]` without a `user_id`.
    MissingUserId(usize),
    DuplicateUserId(String),
    /// A principal file with neither form.
    NoPrincipals,
    /// No such principal (the ids there are).
    NotFound(String, Vec<String>),
    /// A single-principal file where a list is needed.
    SingleForm,
    /// A principal file without a `principals` list.
    NoPrincipalList,
    UserIdRequired,
    /// A principal cannot change between human and agent.
    KindChange(String),
    PrincipalNotInFile(String),
    /// The last principal of a file cannot be removed.
    LastPrincipal,
    /// The bearer token matches no principal (which tokens exist is not
    /// told).
    InvalidToken,
    TokenExpired,
    /// The principal header (named here) is missing.
    MissingHeader(String),
    /// The header names no known principal (which exist is not told).
    UnknownPrincipal,
    /// An agent named by the header alone.
    AgentNeedsToken(String),
    /// A reload with an empty directory.
    EmptyReload,
    /// A reload the caller's check refused.
    Rejected(String),
    NoPreviousSnapshot,
    InvalidCidr(String),
}

/// An [`AuthError`] with its texts as sequences.
pub enum AuthFault {
    EmptyDirectory,
    Ambiguous(int, Seq<Seq<char>>),
    BothForms,
    MissingUserId(int),
    DuplicateUserId(Seq<char>),
    NoPrincipals,
    NotFound(Seq<char>, Seq<Seq<char>>),
    SingleForm,
    NoPrincipalList,
    UserIdRequired,
    KindChange(Seq<char>),
    PrincipalNotInFile(Seq<char>),
    LastPrincipal,
    InvalidToken,
    TokenExpired,
    MissingHeader(Seq<char>),
    UnknownPrincipal,
    AgentNeedsToken(Seq<char>),
    EmptyReload,
    Rejected(Seq<char>),
    NoPreviousSnapshot,
    InvalidCidr(Seq<char>),
}

impl View for AuthError {
    type V = AuthFault;

    open spec fn view(&self) -> AuthFault {
        match self {
            AuthError::EmptyDirectory => AuthFault::EmptyDirectory,
            AuthError::Ambiguous(n, v) => AuthFault::Ambiguous(*n as int, strs(v@)),
            AuthError::BothForms => AuthFault::BothForms,
            AuthError::MissingUserId(i) => AuthFault::MissingUserId(*i as int),
            AuthError::DuplicateUserId(a) => AuthFault::DuplicateUserId(a@),
            AuthError::NoPrincipals => AuthFault::NoPrincipals,
            AuthError::NotFound(a, v) => AuthFault::NotFound(a@, strs(v@)),
            AuthError::SingleForm => AuthFault::SingleForm,
            AuthError::NoPrincipalList => AuthFault::NoPrincipalList,
            AuthError::UserIdRequired => AuthFault::UserIdRequired,
            AuthError::KindChange(a) => AuthFault::KindChange(a@),
            AuthError::PrincipalNotInFile(a) => AuthFault::PrincipalNotInFile(a@),
            AuthError::LastPrincipal => AuthFault::LastPrincipal,
            AuthError::InvalidToken => AuthFault::InvalidToken,
            AuthError::TokenExpired => AuthFault::TokenExpired,
            AuthError::MissingHeader(a) => AuthFault::MissingHeader(a@),
            AuthError::UnknownPrincipal => AuthFault::UnknownPrincipal,
            AuthError::AgentNeedsToken(a) => AuthFault::AgentNeedsToken(a@),
            AuthError::EmptyReload => AuthFault::EmptyReload,
            AuthError::Rejected(a) => AuthFault::Rejected(a@),
            AuthError::NoPreviousSnapshot => AuthFault::NoPreviousSnapshot,
            AuthError::InvalidCidr(a) => AuthFault::InvalidCidr(a@),
        }
    }
}

/// What an error says, `path` being the principal file it concerns (empty
/// where none is involved).
pub open spec fn auth_error_text(e: AuthFault, path: Seq<char>) -> Seq<char> {
    match e {
        AuthFault::EmptyDirectory => "auth: 디렉터리에 주체가 없습니다"@,
        AuthFault::Ambiguous(n, ids) => "auth: 주체가 "@ + int_text(n) + "명입니다("@ + join(ids, ", "@)
            + "). 하나를 골라 지정하세요"@,
        AuthFault::BothForms => "principal file "@ + path + ": user_id 와 principals 를 함께 쓸 수 없습니다"@,
        AuthFault::MissingUserId(i) => "principal file "@ + path + ": principals["@ + int_text(i)
            + "]: user_id is required"@,
        AuthFault::DuplicateUserId(u) => "principal file "@ + path + ": duplicate user_id "@ + debug_text(u),
        AuthFault::NoPrincipals => "principal file "@ + path + ": user_id 또는 principals 가 필요합니다"@,
        AuthFault::NotFound(u, ids) => "principal file "@ + path + ": 주체 "@ + debug_text(u)
            + " 이(가) 없습니다(있는 주체: "@ + join(ids, ", "@) + ")"@,
        AuthFault::SingleForm => "auth: principal file "@ + path
            + " 는 단일 user_id 형식입니다; Apply 는 principals: 목록 형식만 지원합니다"@,
        AuthFault::NoPrincipalList => "auth: principal file "@ + path + " 에 principals 목록이 없습니다"@,
        AuthFault::UserIdRequired => "auth: user_id is required"@,
        AuthFault::KindChange(u) => "auth: user_id "@ + debug_text(u) + " 의 kind 를 바꿀 수 없습니다"@,
        AuthFault::PrincipalNotInFile(u) => "auth: principal "@ + debug_text(u) + " not found in file"@,
        AuthFault::LastPrincipal => "auth: 마지막 주체를 삭제할 수 없습니다"@,
        AuthFault::InvalidToken => "auth: 유효하지 않은 에이전트 토큰입니다"@,
        AuthFault::TokenExpired => "auth: 에이전트 토큰이 만료되었습니다"@,
        AuthFault::MissingHeader(h) => "auth: "@ + h + " 헤더가 없어 호출 주체를 알 수 없습니다"@,
        AuthFault::UnknownPrincipal => "auth: 알 수 없는 호출 주체입니다"@,
        AuthFault::AgentNeedsToken(u) => "auth: 에이전트 주체 "@ + debug_text(u) + " 는 토큰 인증이 필요합니다"@,
        AuthFault::EmptyReload => "auth: principal directory is empty"@,
        AuthFault::Rejected(m) => m,
        AuthFault::NoPreviousSnapshot => "auth: no previous principal snapshot"@,
        AuthFault::InvalidCidr(c) => "auth: invalid internal CIDR "@ + debug_text(c),
    }
}

impl AuthError {
    /// The error as people read it; `path` is the principal file it
    /// concerns, if any.
    pub fn message(&self, path: &str) -> (r: String)
        ensures
            r@ == auth_error_text(self@, path@),
    {
        match self {
            AuthError::EmptyDirectory => owned("auth: 디렉터리에 주체가 없습니다"),
            AuthError::Ambiguous(n, ids) => {
                let k = crate::text::int_to_string(*n as i128);
                let j = join_strings(ids, ", ");
                let a = concat3("auth: 주체가 ", k.as_str(), "명입니다(");
                concat3(a.as_str(), j.as_str(), "). 하나를 골라 지정하세요")
            },
            AuthError::BothForms => concat3("principal file ", path, ": user_id 와 principals 를 함께 쓸 수 없습니다"),
            AuthError::MissingUserId(i) => {
                let k = crate::text::int_to_string(*i as i128);
                let a = concat3("principal file ", path, ": principals[");
                concat3(a.as_str(), k.as_str(), "]: user_id is required")
            },
            AuthError::DuplicateUserId(u) => {
                let q = debug_quote(u.as_str());
                let a = concat3("principal file ", path, ": duplicate user_id ");
                concat(a.as_str(), q.as_str())
            },
            AuthError::NoPrincipals => concat3("principal file ", path, ": user_id 또는 principals 가 필요합니다"),
            AuthError::NotFound(u, ids) => {
                let q = debug_quote(u.as_str());
                let j = join_strings(ids, ", ");
                let a = concat3("principal file ", path, ": 주체 ");
                let b = concat3(a.as_str(), q.as_str(), " 이(가) 없습니다(있는 주체: ");
                concat3(b.as_str(), j.as_str(), ")")
            },
            AuthError::SingleForm => concat3(
                "auth: principal file ",
                path,
                " 는 단일 user_id 형식입니다; Apply 는 principals: 목록 형식만 지원합니다",
            ),
            AuthError::NoPrincipalList => concat3("auth: principal file ", path, " 에 principals 목록이 없습니다"),
            AuthError::UserIdRequired => owned("auth: user_id is required"),
            AuthError::KindChange(u) => {
                let q = debug_quote(u.as_str());
                concat3("auth: user_id ", q.as_str(), " 의 kind 를 바꿀 수 없습니다")
            },
            AuthError::PrincipalNotInFile(u) => {
                let q = debug_quote(u.as_str());
                concat3("auth: principal ", q.as_str(), " not found in file")
            },
            AuthError::LastPrincipal => owned("auth: 마지막 주체를 삭제할 수 없습니다"),
            AuthError::InvalidToken => owned("auth: 유효하지 않은 에이전트 토큰입니다"),
            AuthError::TokenExpired => owned("auth: 에이전트 토큰이 만료되었습니다"),
            AuthError::MissingHeader(h) => concat3("auth: ", h.as_str(), " 헤더가 없어 호출 주체를 알 수 없습니다"),
            AuthError::UnknownPrincipal => owned("auth: 알 수 없는 호출 주체입니다"),
            AuthError::AgentNeedsToken(u) => {
                let q = debug_quote(u.as_str());
                concat3("auth: 에이전트 주체 ", q.as_str(), " 는 토큰 인증이 필요합니다")
            },
            AuthError::EmptyReload => owned("auth: principal directory is empty"),
            AuthError::Rejected(m) => m.clone(),
            AuthError::NoPreviousSnapshot => owned("auth: no previous principal snapshot"),
            AuthError::InvalidCidr(c) => {
                let q = debug_quote(c.as_str());
                concat("auth: invalid internal CIDR ", q.as_str())
            },
        }
    }
}

// ---------------------------------------------------------------------------
// Directory
// ---------------------------------------------------------------------------

/// The principals by user id (read-only).
pub struct Directory {
    ids: Vec<Identity>,
}

impl View for Directory {
    type V = Map<Seq<char>, IdentityV>;

    closed spec fn view(&self) -> Map<Seq<char>, IdentityV> {
        key_map(self.ids@)
    }
}

/// Every principal of the map is filed under its own user id.
pub open spec fn filed_by_id(m: Map<Seq<char>, IdentityV>) -> bool {
    forall|k: Seq<char>| #[trigger] m.contains_key(k) ==> m[k].user_id == k
}

/// The principals of a sequence by user id; a later one replaces an
/// earlier one with the same id.
pub open spec fn by_user_id(ids: Seq<Identity>) -> Map<Seq<char>, IdentityV> {
    key_map(ids)
}

fn index_ids(ids: &Vec<Identity>) -> (r: Vec<Identity>)
    ensures
        sorted_keys(r@),
        key_map(r@) == key_map(ids@),
{
    let mut out: Vec<Identity> = Vec::new();
    let mut i: usize = 0;
    while i < ids.len()
        invariant
            i <= ids.len(),
            sorted_keys(out@),
            key_map(out@) == key_map(ids@.take(i as int)),
        decreases ids.len() - i,
    {
        let c = ids[i].copy();
        assert(c.key_of() == ids@[i as int].key_of());
        upsert(&mut out, c);
        assert(ids@.take(i + 1).drop_last() =~= ids@.take(i as int));
        i = i + 1;
    }
    assert(ids@.take(ids.len() as int) =~= ids@);
    out
}

proof fn lemma_key_map_filed(s: Seq<Identity>)
    ensures
        filed_by_id(key_map(s)),
    decreases s.len(),
{
    if s.len() > 0 {
        lemma_key_map_filed(s.drop_last());
    }
}

impl Directory {
    pub closed spec fn wf(&self) -> bool {
        sorted_keys(self.ids@)
    }

    /// The principals in user-id order.
    pub closed spec fn entries(&self) -> Seq<Identity> {
        self.ids@
    }

    pub proof fn lemma_filed(&self)
        ensures
            filed_by_id(self@),
    {
        lemma_key_map_filed(self.ids@);
    }

    /// A directory of these principals; a later one replaces an earlier one
    /// with the same id.
    pub fn new(ids: Vec<Identity>) -> (r: Directory)
        ensures
            r.wf(),
            r@ == by_user_id(ids@),
    {
        Directory { ids: index_ids(&ids) }
    }

    pub fn lookup(&self, user_id: &str) -> (r: Option<Identity>)
        requires
            self.wf(),
        ensures
            match r {
                Some(id) => self@.contains_key(user_id@) && self@[user_id@] == id@,
                None => !self@.contains_key(user_id@),
            },
    {
        match lookup(&self.ids, user_id) {
            Some(id) => Some(id.copy()),
            None => None,
        }
    }

    pub fn len(&self) -> (r: usize)
        requires
            self.wf(),
        ensures
            r == self@.len(),
    {
        proof {
            lemma_key_map(self.ids@);
        }
        self.ids.len()
    }

    pub fn is_empty(&self) -> (r: bool)
        requires
            self.wf(),
        ensures
            r == (self@.len() == 0),
    {
        self.len() == 0
    }

    /// The user ids, in order.
    pub fn user_ids(&self) -> (r: Vec<String>)
        requires
            self.wf(),
        ensures
            r@.len() == self@.len(),
            forall|i: int, j: int| 0 <= i < j < r@.len() ==> lex_lt(#[trigger] r@[i]@, #[trigger] r@[j]@),
            forall|i: int| 0 <= i < r@.len() ==> self@.contains_key(#[trigger] r@[i]@),
    {
        proof {
            lemma_key_map(self.ids@);
        }
        let mut out: Vec<String> = Vec::new();
        let mut i: usize = 0;
        while i < self.ids.len()
            invariant
                i <= self.ids.len(),
                out@.len() == i,
                forall|j: int| 0 <= j < i ==> (#[trigger] out@[j])@ == self.ids@[j].user_id@,
            decreases self.ids.len() - i,
        {
            out.push(self.ids[i].user_id.clone());
            i = i + 1;
        }
        proof {
            assert forall|i: int, j: int| 0 <= i < j < out@.len() implies lex_lt(#[trigger] out@[i]@, #[trigger] out@[j]@) by {
                assert(lex_lt(self.ids@[i].key_of(), self.ids@[j].key_of()));
            }
            assert forall|i: int| 0 <= i < out@.len() implies self@.contains_key(#[trigger] out@[i]@) by {
                assert(self@.contains_key(self.ids@[i].key_of()));
            }
        }
        out
    }

    /// Copies of the principals, in user-id order.
    pub fn identities(&self) -> (r: Vec<Identity>)
        requires
            self.wf(),
        ensures
            sorted_keys(r@),
            key_map(r@) == self@,
            r@.len() == self@.len(),
    {
        proof {
            lemma_key_map(self.ids@);
        }
        let mut out: Vec<Identity> = Vec::new();
        let mut i: usize = 0;
        while i < self.ids.len()
            invariant
                i <= self.ids.len(),
                out@.len() == i,
                forall|j: int| 0 <= j < i ==> (#[trigger] out@[j])@ == self.ids@[j]@ && out@[j].key_of()
                    == self.ids@[j].key_of(),
            decreases self.ids.len() - i,
        {
            out.push(self.ids[i].copy());
            i = i + 1;
        }
        proof {
            crate::keyed::lemma_key_map_congruent(self.ids@, out@);
        }
        out
    }

    /// The one principal, when there is exactly one: a process that acts
    /// for one user must not pick one of several at random.
    pub fn only(&self) -> (r: Result<Identity, AuthError>)
        requires
            self.wf(),
        ensures
            self@.len() == 0 ==> (r matches Err(e) && e@ == AuthFault::EmptyDirectory),
            self@.len() == 1 ==> (r matches Ok(id) && self@.contains_key(id@.user_id) && self@[id@.user_id] == id@),
            self@.len() > 1 ==> (r matches Err(AuthError::Ambiguous(n, ids)) && n == self@.len() && ids@.len()
                == self@.len() && forall|i: int| 0 <= i < ids@.len() ==> self@.contains_key(#[trigger] ids@[i]@)),
    {
        proof {
            lemma_key_map(self.ids@);
            self.lemma_filed();
        }
        let n = self.ids.len();
        if n == 0 {
            Err(AuthError::EmptyDirectory)
        } else if n == 1 {
            let id = self.ids[0].copy();
            assert(self@.contains_key(self.ids@[0].key_of()));
            Ok(id)
        } else {
            Err(AuthError::Ambiguous(n, self.user_ids()))
        }
    }
}

// ---------------------------------------------------------------------------
// Principal files
// ---------------------------------------------------------------------------

/// A principal file as read: either one principal at the top level
/// (`single`, with a user id) or a `principals` list.
pub struct PrincipalFile {
    pub single: Identity,
    pub principals: Vec<Identity>,
}

/// What is wrong with the principal at `i` of a list, given those before.
pub open spec fn listed_problem(ps: Seq<Identity>, i: int) -> Option<AuthFault> {
    if ps[i].user_id@.len() == 0 {
        Some(AuthFault::MissingUserId(i))
    } else if exists|j: int| 0 <= j < i && #[trigger] ps[j].user_id@ == ps[i].user_id@ {
        Some(AuthFault::DuplicateUserId(ps[i].user_id@))
    } else {
        None
    }
}

pub open spec fn first_listed_problem(ps: Seq<Identity>, i: int) -> Option<AuthFault>
    decreases ps.len() - i,
{
    if i < 0 || i >= ps.len() {
        None
    } else {
        match listed_problem(ps, i) {
            Some(e) => Some(e),
            None => first_listed_problem(ps, i + 1),
        }
    }
}

/// Why a principal file gives no directory.
pub open spec fn file_problem(f: PrincipalFile) -> Option<AuthFault> {
    if f.principals@.len() > 0 && f.single.user_id@.len() > 0 {
        Some(AuthFault::BothForms)
    } else if f.principals@.len() > 0 {
        first_listed_problem(f.principals@, 0)
    } else if f.single.user_id@.len() > 0 {
        None
    } else {
        Some(AuthFault::NoPrincipals)
    }
}

/// The directory a valid principal file describes.
pub open spec fn file_directory(f: PrincipalFile) -> Map<Seq<char>, IdentityV> {
    if f.principals@.len() > 0 {
        by_user_id(f.principals@)
    } else {
        by_user_id(seq![f.single])
    }
}

/// Builds the directory a principal file describes: exactly one of the
/// two forms; every listed principal with a user id, none twice.
#[verifier::loop_isolation(false)]
pub fn load_directory(f: PrincipalFile) -> (r: Result<Directory, AuthError>)
    ensures
        match file_problem(f) {
            Some(e) => r matches Err(x) && x@ == e,
            None => r matches Ok(d) && d.wf() && d@ == file_directory(f),
        },
{
    let ghost fv = f;
    let n = f.principals.len();
    if n > 0 && !f.single.user_id.as_str().is_empty() {
        return Err(AuthError::BothForms);
    }
    if n > 0 {
        let mut i: usize = 0;
        while i < n
            invariant
                i <= n,
                n == f.principals@.len(),
                f == fv,
                first_listed_problem(f.principals@, 0) == first_listed_problem(f.principals@, i as int),
            decreases n - i,
        {
            let uid = &f.principals[i].user_id;
            if uid.as_str().is_empty() {
                return Err(AuthError::MissingUserId(i));
            }
            let mut j: usize = 0;
            while j < i
                invariant
                    j <= i < n,
                    n == f.principals@.len(),
                    f == fv,
                    uid@ == f.principals@[i as int].user_id@,
                    uid@.len() > 0,
                    first_listed_problem(f.principals@, 0) == first_listed_problem(f.principals@, i as int),
                    forall|m: int| 0 <= m < j ==> #[trigger] f.principals@[m].user_id@ != uid@,
                decreases i - j,
            {
                if str_eq(f.principals[j].user_id.as_str(), uid.as_str()) {
                    assert(f.principals@[j as int].user_id@ == f.principals@[i as int].user_id@);
                    return Err(AuthError::DuplicateUserId(uid.clone()));
                }
                j = j + 1;
            }
            i = i + 1;
        }
        let PrincipalFile { single: _, principals } = f;
        return Ok(Directory::new(principals));
    }
    if !f.single.user_id.as_str().is_empty() {
        let PrincipalFile { single, principals: _ } = f;
        let mut v: Vec<Identity> = Vec::new();
        v.push(single);
        assert(v@ =~= seq![fv.single]);
        return Ok(Directory::new(v));
    }
    Err(AuthError::NoPrincipals)
}

/// Picks one principal of a file: the one named, or the only one when no
/// name is given.
pub fn load_principal(f: PrincipalFile, user_id: &str) -> (r: Result<Identity, AuthError>)
    ensures
        file_problem(f) matches Some(e) ==> (r matches Err(x) && x@ == e),
        file_problem(f) is None && user_id@.len() > 0 ==> match r {
            Ok(id) => file_directory(f).contains_key(user_id@) && file_directory(f)[user_id@] == id@,
            Err(AuthError::NotFound(u, _)) => !file_directory(f).contains_key(user_id@) && u@ == user_id@,
            Err(_) => false,
        },
        file_problem(f) is None && user_id@.len() == 0 ==> match r {
            Ok(id) => file_directory(f).len() == 1 && file_directory(f).contains_key(id@.user_id)
                && file_directory(f)[id@.user_id] == id@,
            Err(AuthError::Ambiguous(n, _)) => file_directory(f).len() > 1 && n == file_directory(f).len(),
            Err(e) => e@ == AuthFault::EmptyDirectory && file_directory(f).len() == 0,
        },
{
    let dir = match load_directory(f) {
        Ok(d) => d,
        Err(e) => {
            return Err(e);
        },
    };
    if user_id.is_empty() {
        return dir.only();
    }
    match dir.lookup(user_id) {
        Some(id) => Ok(id),
        None => Err(AuthError::NotFound(owned(user_id), dir.user_ids())),
    }
}

/// The `principals` list of a file that edits may change.
pub fn principals_list(f: PrincipalFile) -> (r: Result<Vec<Identity>, AuthError>)
    ensures
        f.single.user_id@.len() > 0 ==> (r matches Err(e) && e@ == AuthFault::SingleForm),
        f.single.user_id@.len() == 0 && f.principals@.len() == 0 ==> (r matches Err(e) && e@ == AuthFault::NoPrincipalList),
        f.single.user_id@.len() == 0 && f.principals@.len() > 0 ==> (r matches Ok(v) && v@ == f.principals@),
{
    if !f.single.user_id.as_str().is_empty() {
        return Err(AuthError::SingleForm);
    }
    if f.principals.len() == 0 {
        return Err(AuthError::NoPrincipalList);
    }
    let PrincipalFile { single: _, principals } = f;
    Ok(principals)
}

pub open spec fn second() -> int {
    1_000_000_000
}

/// A principal as a file stores it: no session, the token expiry cut to
/// whole seconds.
pub open spec fn file_entry(id: IdentityV) -> IdentityV {
    IdentityV {
        session_id: Seq::empty(),
        token_expires_at: match id.token_expires_at {
            Some(t) => Some((t - (t as int) % second()) as i64),
            None => None,
        },
        ..id
    }
}

/// `t` cut down to a whole second (toward the past).
fn floor_second(t: i64) -> (r: i64)
    requires
        t >= -9_223_372_036_000_000_000,
    ensures
        r == t - (t as int) % second(),
{
    if t >= 0 {
        let q: i64 = t / 1_000_000_000;
        assert(q * 1_000_000_000 == t - (t as int) % second()) by (nonlinear_arith)
            requires
                t >= 0,
                q == (t as int) / second(),
        ;
        q * 1_000_000_000
    } else {
        let u: i64 = -(t + 1);
        let q: i64 = u / 1_000_000_000;
        assert((-q - 1) * 1_000_000_000 == t - (t as int) % second()) by (nonlinear_arith)
            requires
                t < 0,
                u == -(t + 1),
                u >= 0,
                q == (u as int) / second(),
        ;
        assert((-q - 1) * 1_000_000_000 >= -9_223_372_037_000_000_000) by (nonlinear_arith)
            requires
                u <= 9_223_372_035_999_999_999,
                q == (u as int) / second(),
                u >= 0,
        ;
        (-q - 1) * 1_000_000_000
    }
}

/// Whether the principal is an agent by kind.
pub open spec fn agentish(id: IdentityV) -> bool {
    id.kind == kind_agent()
}

pub open spec fn first_with_id(ps: Seq<Identity>, uid: Seq<char>) -> Option<int> {
    if exists|i: int| 0 <= i < ps.len() && #[trigger] ps[i].user_id@ == uid {
        Some(choose|i: int| 0 <= i < ps.len() && #[trigger] ps[i].user_id@ == uid && forall|j: int| 0 <= j < i ==> #[trigger] ps[j].user_id@ != uid)
    } else {
        None
    }
}

fn file_entry_of(id: &Identity) -> (r: Identity)
    requires
        id@.token_expires_at matches Some(t) ==> t >= -9_223_372_036_000_000_000,
    ensures
        r@ == file_entry(id@),
{
    let mut e = id.copy();
    e.session_id = String::new();
    e.token_expires_at = match id.token_expires_at {
        Some(t) => Some(floor_second(t)),
        None => None,
    };
    e
}

/// Adds a principal to a file's list, or updates the one with the same
/// user id; a principal cannot switch between human and agent. Returns the
/// list to write back.
#[verifier::loop_isolation(false)]
pub fn upsert_principal_in_file(f: PrincipalFile, id: &Identity) -> (r: Result<Vec<Identity>, AuthError>)
    requires
        id@.token_expires_at matches Some(t) ==> t >= -9_223_372_036_000_000_000,
    ensures
        id@.user_id.len() == 0 ==> (r matches Err(e) && e@ == AuthFault::UserIdRequired),
        id@.user_id.len() > 0 && f.single.user_id@.len() > 0 ==> (r matches Err(e) && e@ == AuthFault::SingleForm),
        id@.user_id.len() > 0 && f.single.user_id@.len() == 0 && f.principals@.len() == 0 ==> (r matches Err(e)
            && e@ == AuthFault::NoPrincipalList),
        id@.user_id.len() > 0 && f.single.user_id@.len() == 0 && f.principals@.len() > 0 ==> match first_with_id(f.principals@, id@.user_id) {
            Some(i) => if agentish(f.principals@[i]@) != agentish(id@) {
                r matches Err(e) && e@ == AuthFault::KindChange(id@.user_id)
            } else {
                r matches Ok(v) && v@.len() == f.principals@.len() && v@[i]@ == file_entry(id@) && forall|j: int|
                    0 <= j < v@.len() && j != i ==> #[trigger] v@[j] == f.principals@[j]
            },
            None => r matches Ok(v) && v@.len() == f.principals@.len() + 1 && v@.last()@ == file_entry(id@)
                && forall|j: int| 0 <= j < f.principals@.len() ==> #[trigger] v@[j] == f.principals@[j],
        },
{
    if id.user_id.as_str().is_empty() {
        return Err(AuthError::UserIdRequired);
    }
    let ghost orig = f.principals@;
    let mut list = match principals_list(f) {
        Ok(v) => v,
        Err(e) => {
            return Err(e);
        },
    };
    let entry = file_entry_of(id);
    let mut i: usize = 0;
    while i < list.len()
        invariant
            i <= list.len(),
            list@ == orig,
            forall|j: int| 0 <= j < i ==> #[trigger] orig[j].user_id@ != id@.user_id,
        decreases list.len() - i,
    {
        if str_eq(list[i].user_id.as_str(), id.user_id.as_str()) {
            proof {
                let m = first_with_id(orig, id@.user_id)->0;
                if m < i {
                    assert(orig[m].user_id@ != id@.user_id);
                }
                if m > i {
                    assert(orig[i as int].user_id@ != id@.user_id);
                }
                assert(first_with_id(orig, id@.user_id) == Some(i as int));
            }
            if list[i].is_agent() != entry.is_agent() {
                return Err(AuthError::KindChange(id.user_id.clone()));
            }
            list.set(i, entry);
            return Ok(list);
        }
        i = i + 1;
    }
    list.push(entry);
    Ok(list)
}

/// The principals of `ps` other than `uid`, in order.
pub open spec fn others(ps: Seq<Identity>, uid: Seq<char>) -> Seq<Identity>
    decreases ps.len(),
{
    if ps.len() == 0 {
        ps
    } else if ps.last().user_id@ != uid {
        others(ps.drop_last(), uid).push(ps.last())
    } else {
        others(ps.drop_last(), uid)
    }
}

/// Removes a principal from a file's list; the last one cannot go.
/// Returns the list to write back.
pub fn remove_principal_from_file(f: PrincipalFile, user_id: &str) -> (r: Result<Vec<Identity>, AuthError>)
    ensures
        user_id@.len() == 0 ==> (r matches Err(e) && e@ == AuthFault::UserIdRequired),
        user_id@.len() > 0 && f.single.user_id@.len() > 0 ==> (r matches Err(e) && e@ == AuthFault::SingleForm),
        user_id@.len() > 0 && f.single.user_id@.len() == 0 && f.principals@.len() == 0 ==> (r matches Err(e) && e@
            == AuthFault::NoPrincipalList),
        user_id@.len() > 0 && f.single.user_id@.len() == 0 && f.principals@.len() > 0 ==> {
            let kept = others(f.principals@, user_id@);
            if kept.len() == f.principals@.len() {
                r matches Err(e) && e@ == AuthFault::PrincipalNotInFile(user_id@)
            } else if kept.len() == 0 {
                r matches Err(e) && e@ == AuthFault::LastPrincipal
            } else {
                r matches Ok(v) && v@ == kept
            }
        },
{
    if user_id.is_empty() {
        return Err(AuthError::UserIdRequired);
    }
    let ghost orig = f.principals@;
    let mut list = match principals_list(f) {
        Ok(v) => v,
        Err(e) => {
            return Err(e);
        },
    };
    let n = list.len();
    let mut i: usize = 0;
    let mut k: usize = 0;
    assert(orig.take(0) =~= Seq::<Identity>::empty());
    assert(others(orig.take(0), user_id@) + orig.skip(0) =~= orig);
    while k < n
        invariant
            k <= n,
            n == orig.len(),
            list@ == others(orig.take(k as int), user_id@) + orig.skip(k as int),
            i == others(orig.take(k as int), user_id@).len(),
            i <= k,
        decreases n - k,
    {
        proof {
            lemma_others_len(orig.take(k + 1), user_id@);
        }
        let ghost kept = others(orig.take(k as int), user_id@);
        assert(orig.take(k + 1).drop_last() =~= orig.take(k as int));
        assert(orig.take(k + 1).last() == orig[k as int]);
        assert(list@[i as int] == orig[k as int]);
        if str_eq(list[i].user_id.as_str(), user_id) {
            list.remove(i);
            assert(list@ =~= others(orig.take(k + 1), user_id@) + orig.skip(k + 1));
        } else {
            assert(list@ =~= others(orig.take(k + 1), user_id@) + orig.skip(k + 1));
            i = i + 1;
        }
        k = k + 1;
    }
    assert(orig.take(n as int) =~= orig);
    assert(list@ =~= others(orig, user_id@));
    proof {
        lemma_others_len(orig, user_id@);
    }
    if list.len() == n {
        return Err(AuthError::PrincipalNotInFile(owned(user_id)));
    }
    if list.len() == 0 {
        return Err(AuthError::LastPrincipal);
    }
    Ok(list)
}

proof fn lemma_others_len(ps: Seq<Identity>, uid: Seq<char>)
    ensures
        others(ps, uid).len() <= ps.len(),
    decreases ps.len(),
{
    if ps.len() > 0 {
        lemma_others_len(ps.drop_last(), uid);
    }
}


// ---------------------------------------------------------------------------
// Token index and resolver
// ---------------------------------------------------------------------------

/// One entry of the token index: a token hash and the principal it
/// authenticates.
pub struct TokenEntry {
    pub hash: String,
    pub user_id: String,
}

impl View for TokenEntry {
    type V = Seq<char>;

    open spec fn view(&self) -> Seq<char> {
        self.user_id@
    }
}

impl Keyed for TokenEntry {
    open spec fn key_of(&self) -> Seq<char> {
        self.hash@
    }

    fn key(&self) -> (r: &str) {
        self.hash.as_str()
    }
}

/// Token hash (lowercased) to user id, for the principals in order that
/// have a token; a later one replaces an earlier one with the same hash.
pub open spec fn tokens_of(ids: Seq<IdentityV>) -> Map<Seq<char>, Seq<char>>
    decreases ids.len(),
{
    if ids.len() == 0 {
        Map::empty()
    } else {
        let m = tokens_of(ids.drop_last());
        if ids.last().token_sha256.len() > 0 {
            m.insert(unicode_lower(ids.last().token_sha256), ids.last().user_id)
        } else {
            m
        }
    }
}

impl Directory {
    /// The token index of this directory.
    pub closed spec fn token_map(&self) -> Map<Seq<char>, Seq<char>> {
        tokens_of(self.ids@.map_values(|i: Identity| i@))
    }

    fn token_index(&self) -> (r: Vec<TokenEntry>)
        ensures
            sorted_keys(r@),
            key_map(r@) == self.token_map(),
    {
        let ghost views = self.ids@.map_values(|i: Identity| i@);
        let mut out: Vec<TokenEntry> = Vec::new();
        let mut i: usize = 0;
        while i < self.ids.len()
            invariant
                i <= self.ids.len(),
                views == self.ids@.map_values(|i: Identity| i@),
                sorted_keys(out@),
                key_map(out@) == tokens_of(views.take(i as int)),
            decreases self.ids.len() - i,
        {
            assert(views.take(i + 1).drop_last() =~= views.take(i as int));
            assert(views.take(i + 1).last() == self.ids@[i as int]@);
            let id = &self.ids[i];
            if !id.token_sha256.as_str().is_empty() {
                let e = TokenEntry { hash: to_lowercase(id.token_sha256.as_str()), user_id: id.user_id.clone() };
                upsert(&mut out, e);
            }
            i = i + 1;
        }
        assert(views.take(views.len() as int) =~= views);
        out
    }
}

struct TokenState {
    directory: Directory,
    by_token: Vec<TokenEntry>,
    digest: String,
}

impl TokenState {
    closed spec fn wf(&self) -> bool {
        &&& self.directory.wf()
        &&& sorted_keys(self.by_token@)
        &&& key_map(self.by_token@) == self.directory.token_map()
    }

    closed spec fn snap(&self) -> (Map<Seq<char>, IdentityV>, Map<Seq<char>, Seq<char>>, Seq<char>) {
        (self.directory@, key_map(self.by_token@), self.digest@)
    }

    fn of(directory: Directory, digest: String) -> (r: TokenState)
        requires
            directory.wf(),
        ensures
            r.wf(),
            r.snap() == (directory@, directory.token_map(), digest@),
    {
        let by_token = directory.token_index();
        TokenState { directory, by_token, digest }
    }
}

/// Resolves humans by a header and agents by their bearer token; keeps the
/// previous directory for a one-step rollback.
pub struct TokenResolver {
    cur: TokenState,
    prev: Option<TokenState>,
    header: String,
}

pub struct ResolverV {
    pub directory: Map<Seq<char>, IdentityV>,
    /// Token hash to user id.
    pub tokens: Map<Seq<char>, Seq<char>>,
    pub digest: Seq<char>,
    pub prev: Option<(Map<Seq<char>, IdentityV>, Map<Seq<char>, Seq<char>>, Seq<char>)>,
    /// The header that names a human principal.
    pub header: Seq<char>,
}

impl View for TokenResolver {
    type V = ResolverV;

    closed spec fn view(&self) -> ResolverV {
        ResolverV {
            directory: self.cur.directory@,
            tokens: key_map(self.cur.by_token@),
            digest: self.cur.digest@,
            prev: match self.prev {
                Some(p) => Some(p.snap()),
                None => None,
            },
            header: self.header@,
        }
    }
}

/// Resolution of a request: a bearer token, when present, is the only
/// credential considered (a wrong one never falls back to the header); an
/// agent is never accepted from the header alone; an expired token is
/// refused at `now`.
pub open spec fn resolve_spec(st: ResolverV, rc: RequestContextV, now: i64) -> Result<IdentityV, AuthFault> {
    let token = bearer_spec(header_get(rc.headers, authorization_header()));
    if token.len() > 0 {
        let hash = hex_lower(sha256_of(encode_utf8(token)));
        if !st.tokens.contains_key(hash) || !st.directory.contains_key(st.tokens[hash]) {
            Err(AuthFault::InvalidToken)
        } else {
            let id = st.directory[st.tokens[hash]];
            if id.token_expires_at matches Some(exp) && now > exp {
                Err(AuthFault::TokenExpired)
            } else {
                Ok(with_session_spec(id, rc))
            }
        }
    } else {
        let uid = header_get(rc.headers, st.header);
        if uid.len() == 0 {
            Err(AuthFault::MissingHeader(st.header))
        } else if !st.directory.contains_key(uid) {
            Err(AuthFault::UnknownPrincipal)
        } else if st.directory[uid].kind == kind_agent() {
            Err(AuthFault::AgentNeedsToken(uid))
        } else {
            Ok(with_session_spec(st.directory[uid], rc))
        }
    }
}

pub open spec fn outcome(r: Result<Identity, AuthError>) -> Result<IdentityV, AuthFault> {
    match r {
        Ok(id) => Ok(id@),
        Err(e) => Err(e@),
    }
}

/// The state after a rollback, if there is a snapshot.
pub open spec fn resolver_rolled_back(st: ResolverV) -> Option<ResolverV> {
    match st.prev {
        Some(p) => Some(ResolverV {
            directory: p.0,
            tokens: p.1,
            digest: p.2,
            prev: Some((st.directory, st.tokens, st.digest)),
            header: st.header,
        }),
        None => None,
    }
}

impl TokenResolver {
    pub closed spec fn wf(&self) -> bool {
        &&& self.cur.wf()
        &&& match self.prev {
            Some(p) => p.wf(),
            None => true,
        }
    }

    /// A resolver over a directory; the principal header defaults to
    /// `X-User-Id`.
    pub fn new(dir: Directory, header: &str) -> (r: TokenResolver)
        requires
            dir.wf(),
        ensures
            r.wf(),
            r@.directory == dir@,
            r@.tokens == dir.token_map(),
            r@.digest.len() == 0,
            r@.prev is None,
            r@.header == if header@.len() == 0 {
                "X-User-Id"@
            } else {
                header@
            },
    {
        let cur = TokenState::of(dir, String::new());
        let header = if header.is_empty() {
            owned("X-User-Id")
        } else {
            owned(header)
        };
        TokenResolver { cur, prev: None, header }
    }

    pub fn token_count(&self) -> (r: usize)
        requires
            self.wf(),
        ensures
            r == self@.tokens.len(),
    {
        proof {
            lemma_key_map(self.cur.by_token@);
        }
        self.cur.by_token.len()
    }

    pub fn principal_count(&self) -> (r: usize)
        requires
            self.wf(),
        ensures
            r == self@.directory.len(),
    {
        self.cur.directory.len()
    }

    pub fn digest(&self) -> (r: String)
        ensures
            r@ == self@.digest,
    {
        self.cur.digest.clone()
    }

    /// The principals, in user-id order.
    pub fn identities(&self) -> (r: Vec<Identity>)
        requires
            self.wf(),
        ensures
            sorted_keys(r@),
            key_map(r@) == self@.directory,
    {
        self.cur.directory.identities()
    }

    /// Installs a directory read from `data`, keeping the current one for a
    /// rollback. `verdict` is the caller's check of the new principals (the
    /// policy's allowlists); an empty directory or a refused check leaves
    /// everything as it was. Returns the old and the new digest.
    pub fn reload(&mut self, data: &[u8], dir: Directory, verdict: Result<(), String>) -> (r: Result<(String, String), AuthError>)
        requires
            old(self).wf(),
            dir.wf(),
        ensures
            final(self).wf(),
            dir@.len() == 0 ==> (r matches Err(e) && e@ == AuthFault::EmptyReload && final(self)@ == old(self)@),
            dir@.len() > 0 && verdict is Err ==> (r matches Err(AuthError::Rejected(m)) && verdict == Err::<(), String>(m)
                && final(self)@ == old(self)@),
            dir@.len() > 0 && verdict is Ok ==> (r matches Ok(ds) && ds.0@ == old(self)@.digest && ds.1@ == hex_lower(
                sha256_of(data@),
            ) && final(self)@ == ResolverV {
                directory: dir@,
                tokens: dir.token_map(),
                digest: hex_lower(sha256_of(data@)),
                prev: Some((old(self)@.directory, old(self)@.tokens, old(self)@.digest)),
                header: old(self)@.header,
            }),
    {
        if dir.is_empty() {
            return Err(AuthError::EmptyReload);
        }
        match verdict {
            Err(m) => {
                return Err(AuthError::Rejected(m));
            },
            Ok(()) => {},
        }
        let new_digest = sha256_hex(data);
        let old_digest = self.cur.digest.clone();
        let mut next = TokenState::of(dir, new_digest.clone());
        std::mem::swap(&mut self.cur, &mut next);
        self.prev = Some(next);
        Ok((old_digest, new_digest))
    }

    /// Swaps the active directory with the previous one, so that a second
    /// rollback undoes the first. Returns the old and the new digest.
    pub fn rollback(&mut self) -> (r: Result<(String, String), AuthError>)
        requires
            old(self).wf(),
        ensures
            final(self).wf(),
            match resolver_rolled_back(old(self)@) {
                Some(st) => r matches Ok(ds) && ds.0@ == old(self)@.digest && ds.1@ == st.digest && final(self)@ == st,
                None => r matches Err(e) && e@ == AuthFault::NoPreviousSnapshot && final(self)@ == old(self)@,
            },
    {
        match self.prev.take() {
            None => Err(AuthError::NoPreviousSnapshot),
            Some(p) => {
                let old_digest = self.cur.digest.clone();
                let mut p = p;
                std::mem::swap(&mut self.cur, &mut p);
                let new_digest = self.cur.digest.clone();
                self.prev = Some(p);
                Ok((old_digest, new_digest))
            },
        }
    }

    /// Replaces the active directory (no digest); the rollback snapshot
    /// stays.
    pub fn replace_directory(&mut self, dir: Directory)
        requires
            old(self).wf(),
            dir.wf(),
        ensures
            final(self).wf(),
            final(self)@ == (ResolverV {
                directory: dir@,
                tokens: dir.token_map(),
                digest: Seq::empty(),
                ..old(self)@
            }),
    {
        self.cur = TokenState::of(dir, String::new());
    }

    /// Resolves the principal of a request judged at `now`.
    pub fn resolve_at(&self, rc: &RequestContext, now: i64) -> (r: Result<Identity, AuthError>)
        requires
            self.wf(),
            bearer_readable(header_get(rc@.headers, authorization_header())),
        ensures
            outcome(r) == resolve_spec(self@, rc@, now),
    {
        let token = bearer_token(rc);
        if !token.as_str().is_empty() {
            let hash = token_hash(token.as_str());
            proof {
                lemma_key_map(self.cur.by_token@);
            }
            let entry = match lookup(&self.cur.by_token, hash.as_str()) {
                Some(e) => e,
                None => {
                    return Err(AuthError::InvalidToken);
                },
            };
            let id = match self.cur.directory.lookup(entry.user_id.as_str()) {
                Some(id) => id,
                None => {
                    return Err(AuthError::InvalidToken);
                },
            };
            match id.token_expires_at {
                Some(exp) => {
                    if now > exp {
                        return Err(AuthError::TokenExpired);
                    }
                },
                None => {},
            }
            return Ok(with_session(id, rc));
        }
        let user_id = rc.get(self.header.as_str());
        if user_id.as_str().is_empty() {
            return Err(AuthError::MissingHeader(self.header.clone()));
        }
        let id = match self.cur.directory.lookup(user_id.as_str()) {
            Some(id) => id,
            None => {
                return Err(AuthError::UnknownPrincipal);
            },
        };
        if id.is_agent() {
            return Err(AuthError::AgentNeedsToken(user_id));
        }
        Ok(with_session(id, rc))
    }

    /// Resolves the principal of a request at its own time, or at the wall
    /// clock's when it has none.
    pub fn resolve(&self, rc: &RequestContext) -> (r: Result<Identity, AuthError>)
        requires
            self.wf(),
            bearer_readable(header_get(rc@.headers, authorization_header())),
        ensures
            exists|now: i64| (rc@.now matches Some(t) ==> now == t) && outcome(r) == resolve_spec(self@, rc@, now),
    {
        let now = match rc.now {
            Some(t) => t,
            None => wall_clock_nanos(),
        };
        self.resolve_at(rc, now)
    }
}

/// Always the same principal, with the request's session (stdio, the
/// development console).
pub struct StaticResolver {
    pub identity: Identity,
}

impl StaticResolver {
    pub fn resolve(&self, rc: &RequestContext) -> (r: Result<Identity, AuthError>)
        ensures
            r matches Ok(id) && id@ == (IdentityV { session_id: rc@.session_id, ..self.identity@ }),
    {
        let mut id = self.identity.copy();
        id.session_id = rc.session_id.clone();
        Ok(id)
    }
}

/// A principal resolved at all is always a known one, and an agent only
/// ever by its token: the header alone never yields an agent, and a
/// request with neither token nor header is refused, never treated as
/// anonymous.
pub proof fn law_agents_need_tokens(st: ResolverV, rc: RequestContextV, now: i64)
    ensures
        resolve_spec(st, rc, now) matches Ok(id) && id.kind == kind_agent() ==> bearer_spec(
            header_get(rc.headers, authorization_header()),
        ).len() > 0,
        bearer_spec(header_get(rc.headers, authorization_header())).len() == 0 && header_get(rc.headers, st.header).len()
            == 0 ==> resolve_spec(st, rc, now) == Err::<IdentityV, AuthFault>(AuthFault::MissingHeader(st.header)),
{
}

/// Without a bearer token the principal header decides, and never yields an
/// agent: a resolved principal is the human the header names; an agent
/// named there is refused as needing its token; a missing or unknown name
/// is refused, never read as anonymous. (The directory files each
/// principal under its own user id.)
pub proof fn law_header_never_yields_an_agent(st: ResolverV, rc: RequestContextV, now: i64)
    requires
        forall|k: Seq<char>| #[trigger] st.directory.contains_key(k) ==> st.directory[k].user_id == k,
        bearer_spec(header_get(rc.headers, authorization_header())).len() == 0,
    ensures
        ({
            let uid = header_get(rc.headers, st.header);
            &&& resolve_spec(st, rc, now) matches Ok(id) ==> id.kind != kind_agent() && id.user_id == uid
            &&& (uid.len() > 0 && st.directory.contains_key(uid) && st.directory[uid].kind == kind_agent())
                ==> resolve_spec(st, rc, now) == Err::<IdentityV, AuthFault>(AuthFault::AgentNeedsToken(uid))
            &&& (uid.len() == 0 || !st.directory.contains_key(uid)) ==> resolve_spec(st, rc, now) is Err
        }),
{
}

/// With a bearer token present the principal header plays no part: an
/// unknown token is refused whatever the header names, and a resolved
/// principal is the one the token belongs to.
pub proof fn law_bearer_wins(st: ResolverV, rc: RequestContextV, now: i64)
    requires
        filed_by_id(st.directory),
        bearer_spec(header_get(rc.headers, authorization_header())).len() > 0,
    ensures
        ({
            let hash = hex_lower(sha256_of(encode_utf8(bearer_spec(header_get(rc.headers, authorization_header())))));
            &&& !st.tokens.contains_key(hash) ==> resolve_spec(st, rc, now) == Err::<IdentityV, AuthFault>(AuthFault::InvalidToken)
            &&& resolve_spec(st, rc, now) matches Ok(id) ==> st.tokens.contains_key(hash) && id.user_id == st.tokens[hash]
        }),
{
}

/// A known bearer token is good until its expiry, the expiry instant
/// included: it resolves to its principal, as that principal stands in the
/// directory, whenever the principal has no expiry or `now` is at or
/// before it; it is refused as expired exactly when `now` is past it.
pub proof fn law_token_valid_until_expiry(st: ResolverV, rc: RequestContextV, now: i64)
    requires
        bearer_spec(header_get(rc.headers, authorization_header())).len() > 0,
        ({
            let hash = hex_lower(sha256_of(encode_utf8(bearer_spec(header_get(rc.headers, authorization_header())))));
            st.tokens.contains_key(hash) && st.directory.contains_key(st.tokens[hash])
        }),
    ensures
        ({
            let hash = hex_lower(sha256_of(encode_utf8(bearer_spec(header_get(rc.headers, authorization_header())))));
            let id = st.directory[st.tokens[hash]];
            &&& (id.token_expires_at is None || now <= id.token_expires_at->0) ==> (resolve_spec(st, rc, now) matches Ok(
                r,
            ) && r.user_id == id.user_id && r.kind == id.kind && r.roles == id.roles && r.attributes == id.attributes)
            &&& (resolve_spec(st, rc, now) == Err::<IdentityV, AuthFault>(AuthFault::TokenExpired)) <==> (
            id.token_expires_at is Some && now > id.token_expires_at->0)
        }),
{
}

/// A second rollback undoes the first.
pub proof fn law_resolver_rollback_twice(st: ResolverV)
    requires
        st.prev is Some,
    ensures
        resolver_rolled_back(st) matches Some(once) && resolver_rolled_back(once) == Some(st),
{
}


// ---------------------------------------------------------------------------
// Environment attributes
// ---------------------------------------------------------------------------

/// The weekday (0 for Monday to 6 for Sunday) and hour (0 to 23) of an
/// instant in the machine's local time zone, as chrono gives them. They
/// depend on the machine's zone, so only their ranges are stated.
#[verifier::external_body]
fn local_weekday_hour(t: i64) -> (r: (u32, u32))
    ensures
        r.0 < 7,
        r.1 < 24,
{
    let local = Utc.timestamp_nanos(t).with_timezone(&chrono::Local);
    (local.weekday().num_days_from_monday(), local.hour())
}

/// Computes the environment attributes of a request and overwrites the
/// principal's own: a principal cannot claim business hours or an internal
/// network in its configuration.
pub struct Enricher {
    /// Business hours are `[start_hour, end_hour)`; both 0 means no limit.
    pub start_hour: u32,
    pub end_hour: u32,
    /// The internal networks, as CIDR texts that `parse_prefixes` accepted.
    pub internal_prefixes: Vec<String>,
    /// Whether to believe `X-Forwarded-For` (never on a gateway exposed at
    /// the edge).
    pub trust_forwarded_for: bool,
    /// The zone of an unknown source; empty means `external`.
    pub default_zone: String,
    pub default_llm_destination: String,
    pub default_business_purpose: String,
    /// Whether to believe the policy-context headers a verifying proxy sets.
    pub trust_policy_headers: bool,
}

pub struct EnricherV {
    pub start_hour: u32,
    pub end_hour: u32,
    pub internal_prefixes: Seq<Seq<char>>,
    pub trust_forwarded_for: bool,
    pub default_zone: Seq<char>,
    pub default_llm_destination: Seq<char>,
    pub default_business_purpose: Seq<char>,
    pub trust_policy_headers: bool,
}

impl View for Enricher {
    type V = EnricherV;

    open spec fn view(&self) -> EnricherV {
        EnricherV {
            start_hour: self.start_hour,
            end_hour: self.end_hour,
            internal_prefixes: strs(self.internal_prefixes@),
            trust_forwarded_for: self.trust_forwarded_for,
            default_zone: self.default_zone@,
            default_llm_destination: self.default_llm_destination@,
            default_business_purpose: self.default_business_purpose@,
            trust_policy_headers: self.trust_policy_headers,
        }
    }
}

/// Weekdays only, and inside the hours unless both bounds are 0.
pub open spec fn business_hours_spec(start: u32, end: u32, weekday: u32, hour: u32) -> bool {
    weekday < 5 && ((start == 0 && end == 0) || (start <= hour && hour < end))
}

/// The position of the first `c` in `s` at or after `i`.
pub open spec fn index_from(s: Seq<char>, c: char, i: int) -> Option<int>
    decreases s.len() - i,
{
    if i < 0 || i >= s.len() {
        None
    } else if s[i] == c {
        Some(i)
    } else {
        index_from(s, c, i + 1)
    }
}

proof fn lemma_index_from(s: Seq<char>, c: char, i: int)
    requires
        0 <= i,
    ensures
        index_from(s, c, i) matches Some(j) ==> i <= j < s.len() && s[j] == c,
        index_from(s, c, i) is None ==> forall|j: int| i <= j < s.len() ==> s[j] != c,
    decreases s.len() - i,
{
    if i < s.len() && s[i] != c {
        lemma_index_from(s, c, i + 1);
    }
}

/// How many times `c` occurs in `s`.
pub open spec fn count_of(s: Seq<char>, c: char) -> nat
    decreases s.len(),
{
    if s.len() == 0 {
        0
    } else {
        count_of(s.drop_last(), c) + if s.last() == c {
            1nat
        } else {
            0nat
        }
    }
}

/// The host of `host:port`: the bracketed part of `[v6]:port`; for one
/// colon, what precedes it; otherwise the trimmed text itself (a bare IPv6
/// address is not split).
pub open spec fn host_only_spec(addr: Seq<char>) -> Seq<char> {
    let a = trim_spec(addr);
    if a.len() == 0 {
        a
    } else if a[0] == '[' && index_from(a, ']', 1) is Some {
        a.subrange(1, index_from(a, ']', 1)->0)
    } else if count_of(a, ':') == 1 && index_from(a, ':', 0) is Some {
        a.take(index_from(a, ':', 0)->0)
    } else {
        a
    }
}

/// The position of the first `c` in `cs` at or after `from`.
pub fn find_char(cs: &Vec<char>, from: usize, c: char) -> (r: Option<usize>)
    requires
        from <= cs.len(),
    ensures
        r matches Some(j) ==> index_from(cs@, c, from as int) == Some(j as int) && from <= j < cs.len() && cs@[j as int] == c,
        r is None ==> index_from(cs@, c, from as int) is None,
{
    proof {
        lemma_index_from(cs@, c, from as int);
    }
    let mut i: usize = from;
    while i < cs.len()
        invariant
            from <= i <= cs.len(),
            index_from(cs@, c, from as int) == index_from(cs@, c, i as int),
        decreases cs.len() - i,
    {
        if cs[i] == c {
            return Some(i);
        }
        i = i + 1;
    }
    None
}

fn count_char(cs: &Vec<char>, c: char) -> (r: usize)
    ensures
        r == count_of(cs@, c),
{
    let mut n: usize = 0;
    let mut i: usize = 0;
    while i < cs.len()
        invariant
            i <= cs.len(),
            n == count_of(cs@.take(i as int), c),
            n <= i,
        decreases cs.len() - i,
    {
        assert(cs@.take(i + 1).drop_last() =~= cs@.take(i as int));
        if cs[i] == c {
            n = n + 1;
        }
        i = i + 1;
    }
    assert(cs@.take(cs.len() as int) =~= cs@);
    n
}

/// The host part of a `host:port` address.
pub fn host_only(addr: &str) -> (r: String)
    ensures
        r@ == host_only_spec(addr@),
{
    let a = trim(addr);
    let cs = chars_of(a.as_str());
    if cs.len() == 0 {
        return a;
    }
    if cs[0] == '[' {
        match find_char(&cs, 1, ']') {
            Some(end) => {
                let inner = slice_range(&cs, 1, end);
                return string_of(inner.as_slice());
            },
            None => {},
        }
    }
    if count_char(&cs, ':') == 1 {
        match find_char(&cs, 0, ':') {
            Some(at) => {
                let h = slice_range(&cs, 0, at);
                assert(h@ =~= a@.take(at as int));
                return string_of(h.as_slice());
            },
            None => {},
        }
    }
    a
}

/// The first hop of an `X-Forwarded-For` list: the text before the first
/// comma, trimmed.
pub open spec fn first_hop(xff: Seq<char>) -> Seq<char> {
    match index_from(xff, ',', 0) {
        Some(i) => trim_spec(xff.take(i)),
        None => trim_spec(xff),
    }
}

fn first_hop_of(xff: &str) -> (r: String)
    ensures
        r@ == first_hop(xff@),
{
    let cs = chars_of(xff);
    match find_char(&cs, 0, ',') {
        Some(at) => {
            let part = slice_range(&cs, 0, at);
            assert(part@ =~= xff@.take(at as int));
            trim(string_of(part.as_slice()).as_str())
        },
        None => trim(xff),
    }
}

/// The source address of a request: the first forwarded hop when that is
/// trusted and present, else the host of the gateway's own peer address.
pub open spec fn remote_ip_spec(e: EnricherV, rc: RequestContextV) -> Seq<char> {
    let xff = header_get(rc.headers, "X-Forwarded-For"@);
    if e.trust_forwarded_for && xff.len() > 0 && first_hop(xff).len() > 0 {
        first_hop(xff)
    } else {
        host_only_spec(header_get(rc.headers, "X-Gateway-Remote-Addr"@))
    }
}

pub open spec fn default_zone_spec(e: EnricherV) -> Seq<char> {
    if e.default_zone.len() == 0 {
        "external"@
    } else {
        e.default_zone
    }
}

/// The network zone: `internal` when the source address lies in an
/// internal prefix, `external` when it does not, and the default zone when
/// the source is unknown or not an address.
pub open spec fn zone_spec(e: EnricherV, remote: Seq<char>) -> Seq<char> {
    if remote.len() == 0 {
        default_zone_spec(e)
    } else {
        match internal_hit_spec(e.internal_prefixes, remote) {
            None => default_zone_spec(e),
            Some(true) => "internal"@,
            Some(false) => "external"@,
        }
    }
}

/// Where model calls may go: the verified header (trimmed, lowercased) when
/// trusted and present, else the default; anything but `internal` or
/// `external` becomes `external`.
pub open spec fn llm_destination_spec(e: EnricherV, rc: RequestContextV) -> Seq<char> {
    let h = unicode_lower(trim_spec(header_get(rc.headers, "X-Verified-LLM-Destination"@)));
    let dest = if e.trust_policy_headers && h.len() > 0 {
        h
    } else {
        e.default_llm_destination
    };
    if dest != "internal"@ && dest != "external"@ {
        "external"@
    } else {
        dest
    }
}

/// The business purpose: the verified header (trimmed) when trusted and
/// present, else the default.
pub open spec fn business_purpose_spec(e: EnricherV, rc: RequestContextV) -> Seq<char> {
    let h = trim_spec(header_get(rc.headers, "X-Verified-Business-Purpose"@));
    if e.trust_policy_headers && h.len() > 0 {
        h
    } else {
        e.default_business_purpose
    }
}

pub open spec fn bool_text(b: bool) -> Seq<char> {
    if b {
        "true"@
    } else {
        "false"@
    }
}

/// The attribute values an enrichment writes, by name.
pub open spec fn env_value(
    e: EnricherV,
    rc: RequestContextV,
    now: i64,
    weekday: u32,
    hour: u32,
    k: Seq<char>,
) -> Option<JsonV> {
    if k == "request_time"@ {
        Some(JsonV::Str(rfc3339_secs(now)))
    } else if k == "business_hours"@ {
        Some(JsonV::Str(bool_text(business_hours_spec(e.start_hour, e.end_hour, weekday, hour))))
    } else if k == "network_zone"@ {
        Some(JsonV::Str(zone_spec(e, remote_ip_spec(e, rc))))
    } else if k == "llm_destination"@ {
        Some(JsonV::Str(llm_destination_spec(e, rc)))
    } else if k == "business_purpose"@ {
        Some(JsonV::Str(business_purpose_spec(e, rc)))
    } else {
        None
    }
}

/// `out` is `id` with the environment attributes of the request written
/// over its own; every other attribute and field is kept.
pub open spec fn enriched(
    e: EnricherV,
    rc: RequestContextV,
    now: i64,
    weekday: u32,
    hour: u32,
    id: IdentityV,
    out: IdentityV,
) -> bool {
    &&& out == (IdentityV { attributes: out.attributes, ..id })
    &&& forall|k: Seq<char>| #[trigger] obj_get(out.attributes, k) == match env_value(e, rc, now, weekday, hour, k) {
        Some(v) => Some(v),
        None => obj_get(id.attributes, k),
    }
}

fn string_json(s: String) -> (r: Json)
    ensures
        r@ == JsonV::Str(s@),
{
    Json::Str(s)
}

impl Enricher {
    /// Whether `hour` of `weekday` (0 Monday) is a business hour.
    pub fn in_business_hours(&self, weekday: u32, hour: u32) -> (r: bool)
        ensures
            r == business_hours_spec(self.start_hour, self.end_hour, weekday, hour),
    {
        if weekday >= 5 {
            return false;
        }
        if self.start_hour == 0 && self.end_hour == 0 {
            return true;
        }
        self.start_hour <= hour && hour < self.end_hour
    }

    pub fn default_zone(&self) -> (r: String)
        ensures
            r@ == default_zone_spec(self@),
    {
        if self.default_zone.as_str().is_empty() {
            owned("external")
        } else {
            self.default_zone.clone()
        }
    }

    /// The source address of the request.
    pub fn remote_ip(&self, rc: &RequestContext) -> (r: String)
        ensures
            r@ == remote_ip_spec(self@, rc@),
    {
        if self.trust_forwarded_for {
            let xff = rc.get("X-Forwarded-For");
            if !xff.as_str().is_empty() {
                let first = first_hop_of(xff.as_str());
                if !first.as_str().is_empty() {
                    return first;
                }
            }
        }
        host_only(rc.get("X-Gateway-Remote-Addr").as_str())
    }

    /// The network zone of the request's source address.
    pub fn zone_of(&self, rc: &RequestContext) -> (r: String)
        ensures
            r@ == zone_spec(self@, remote_ip_spec(self@, rc@)),
    {
        let remote = self.remote_ip(rc);
        if remote.as_str().is_empty() {
            return self.default_zone();
        }
        match internal_hit(&self.internal_prefixes, remote.as_str()) {
            None => self.default_zone(),
            Some(true) => owned("internal"),
            Some(false) => owned("external"),
        }
    }

    pub fn llm_destination(&self, rc: &RequestContext) -> (r: String)
        ensures
            r@ == llm_destination_spec(self@, rc@),
    {
        let mut dest = self.default_llm_destination.clone();
        let h = to_lowercase(trim(rc.get("X-Verified-LLM-Destination").as_str()).as_str());
        if self.trust_policy_headers && !h.as_str().is_empty() {
            dest = h;
        }
        if !str_eq(dest.as_str(), "internal") && !str_eq(dest.as_str(), "external") {
            return owned("external");
        }
        dest
    }

    pub fn business_purpose(&self, rc: &RequestContext) -> (r: String)
        ensures
            r@ == business_purpose_spec(self@, rc@),
    {
        let h = trim(rc.get("X-Verified-Business-Purpose").as_str());
        if !self.trust_policy_headers || h.as_str().is_empty() {
            return self.default_business_purpose.clone();
        }
        h
    }

    /// A copy of the principal with the five environment attributes
    /// computed for a request at `now`, on `weekday` at `hour` local time.
    /// Every other attribute and field is kept.
    pub fn enrich_at(&self, id: &Identity, rc: &RequestContext, now: i64, weekday: u32, hour: u32) -> (r: Identity)
        ensures
            enriched(self@, rc@, now, weekday, hour, id@, r@),
    {
        let mut out = id.copy();
        let ghost a0 = out@.attributes;
        set_entry(&mut out.attributes, "request_time", string_json(to_rfc3339(now)));
        let ghost a1 = out@.attributes;
        let hours = if self.in_business_hours(weekday, hour) {
            owned("true")
        } else {
            owned("false")
        };
        set_entry(&mut out.attributes, "business_hours", string_json(hours));
        let ghost a2 = out@.attributes;
        set_entry(&mut out.attributes, "network_zone", string_json(self.zone_of(rc)));
        let ghost a3 = out@.attributes;
        set_entry(&mut out.attributes, "llm_destination", string_json(self.llm_destination(rc)));
        let ghost a4 = out@.attributes;
        set_entry(&mut out.attributes, "business_purpose", string_json(self.business_purpose(rc)));
        proof {
            reveal_strlit("request_time");
            reveal_strlit("business_hours");
            reveal_strlit("network_zone");
            reveal_strlit("llm_destination");
            reveal_strlit("business_purpose");
            assert forall|k: Seq<char>| #[trigger] obj_get(out@.attributes, k) == match env_value(
                self@,
                rc@,
                now,
                weekday,
                hour,
                k,
            ) {
                Some(v) => Some(v),
                None => obj_get(id@.attributes, k),
            } by {
                assert("request_time"@.len() == 12);
                assert("business_hours"@.len() == 14);
                assert("network_zone"@.len() == 12);
                assert("llm_destination"@.len() == 15);
                assert("business_purpose"@.len() == 16);
                assert("request_time"@[0] != "network_zone"@[0]);
                assert(obj_get(out@.attributes, k) == if k == "business_purpose"@ {
                    Some(JsonV::Str(business_purpose_spec(self@, rc@)))
                } else {
                    obj_get(a4, k)
                });
                assert(obj_get(a4, k) == if k == "llm_destination"@ {
                    Some(JsonV::Str(llm_destination_spec(self@, rc@)))
                } else {
                    obj_get(a3, k)
                });
                assert(obj_get(a3, k) == if k == "network_zone"@ {
                    Some(JsonV::Str(zone_spec(self@, remote_ip_spec(self@, rc@))))
                } else {
                    obj_get(a2, k)
                });
                assert(obj_get(a2, k) == if k == "business_hours"@ {
                    Some(JsonV::Str(bool_text(business_hours_spec(self.start_hour, self.end_hour, weekday, hour))))
                } else {
                    obj_get(a1, k)
                });
                assert(obj_get(a1, k) == if k == "request_time"@ {
                    Some(JsonV::Str(rfc3339_secs(now)))
                } else {
                    obj_get(a0, k)
                });
            }
        }
        out
    }

    /// Enriches for a request at its own time, or the wall clock's, in the
    /// machine's local week and hours.
    pub fn enrich(&self, id: &Identity, rc: &RequestContext) -> (r: Identity)
        ensures
            exists|now: i64, weekday: u32, hour: u32|
                (rc@.now matches Some(t) ==> now == t) && weekday < 7 && hour < 24 && #[trigger] enriched(
                    self@,
                    rc@,
                    now,
                    weekday,
                    hour,
                    id@,
                    r@,
                ),
    {
        let now = match rc.now {
            Some(t) => t,
            None => wall_clock_nanos(),
        };
        let (weekday, hour) = local_weekday_hour(now);
        self.enrich_at(id, rc, now, weekday, hour)
    }
}


// ---------------------------------------------------------------------------
// Internal prefixes
// ---------------------------------------------------------------------------

/// Whether a text is an IP network in CIDR notation (`10.0.0.0/8`,
/// `fd00::/8`) as ipnet reads it.
pub uninterp spec fn cidr_parses(s: Seq<char>) -> bool;

/// Whether the network of the first text holds all of the second, as
/// ipnet's `IpNet::contains` answers it for two networks.
pub uninterp spec fn net_contains(net: Seq<char>, inner: Seq<char>) -> bool;

/// `ipnet::IpNet::from_str`: whether the text parses as a network.
#[verifier::external_body]
fn cidr_ok(s: &str) -> (r: bool)
    ensures
        r == cidr_parses(s@),
{
    s.parse::<ipnet::IpNet>().is_ok()
}

/// `ipnet::IpNet::contains` on two networks, each read from its text.
#[verifier::external_body]
fn cidr_contains(net: &str, inner: &str) -> (r: bool)
    requires
        cidr_parses(net@),
        cidr_parses(inner@),
    ensures
        r == net_contains(net@, inner@),
{
    match (net.parse::<ipnet::IpNet>(), inner.parse::<ipnet::IpNet>()) {
        (Ok(n), Ok(h)) => n.contains(&h),
        _ => false,
    }
}

/// An address as the network of that one host: with `/128` where that
/// reads as a network (IPv6), else with `/32` (IPv4).
pub open spec fn host_net_spec(addr: Seq<char>) -> Seq<char> {
    if cidr_parses(addr + "/128"@) {
        addr + "/128"@
    } else {
        addr + "/32"@
    }
}

/// Whether an address lies in one of the prefixes; `None` when it is not
/// an address.
pub open spec fn internal_hit_spec(prefixes: Seq<Seq<char>>, remote: Seq<char>) -> Option<bool> {
    let host = host_net_spec(remote);
    if !cidr_parses(host) {
        None
    } else {
        Some(exists|i: int| 0 <= i < prefixes.len() && cidr_parses(prefixes[i]) && net_contains(prefixes[i], host))
    }
}

/// Whether the source address `remote` lies in one of the internal
/// prefixes; `None` when it does not read as an IP address.
pub fn internal_hit(prefixes: &Vec<String>, remote: &str) -> (r: Option<bool>)
    ensures
        r == internal_hit_spec(strs(prefixes@), remote@),
{
    let v6 = concat(remote, "/128");
    let host = if cidr_ok(v6.as_str()) {
        v6
    } else {
        concat(remote, "/32")
    };
    proof {
        reveal_strlit("/128");
        reveal_strlit("/32");
    }
    assert(host@ == host_net_spec(remote@));
    if !cidr_ok(host.as_str()) {
        return None;
    }
    let ghost ps = strs(prefixes@);
    let mut i: usize = 0;
    while i < prefixes.len()
        invariant
            i <= prefixes@.len(),
            ps == strs(prefixes@),
            cidr_parses(host@),
            host@ == host_net_spec(remote@),
            forall|k: int| 0 <= k < i ==> !(cidr_parses(ps[k]) && net_contains(ps[k], host@)),
        decreases prefixes.len() - i,
    {
        if cidr_ok(prefixes[i].as_str()) && cidr_contains(prefixes[i].as_str(), host.as_str()) {
            assert(ps[i as int] == prefixes@[i as int]@);
            assert(cidr_parses(ps[i as int]) && net_contains(ps[i as int], host_net_spec(remote@)));
            return Some(true);
        }
        i = i + 1;
    }
    Some(false)
}

/// The non-blank entries of a list, trimmed.
pub open spec fn nonblank_trimmed(cs: Seq<Seq<char>>) -> Seq<Seq<char>>
    decreases cs.len(),
{
    if cs.len() == 0 {
        Seq::empty()
    } else if trim_spec(cs.last()).len() == 0 {
        nonblank_trimmed(cs.drop_last())
    } else {
        nonblank_trimmed(cs.drop_last()).push(trim_spec(cs.last()))
    }
}

proof fn lemma_nonblank_concat(a: Seq<Seq<char>>, b: Seq<Seq<char>>)
    ensures
        nonblank_trimmed(a + b) == nonblank_trimmed(a) + nonblank_trimmed(b),
    decreases b.len(),
{
    if b.len() == 0 {
        assert(a + b =~= a);
        assert(nonblank_trimmed(a) + nonblank_trimmed(b) =~= nonblank_trimmed(a));
    } else {
        assert((a + b).drop_last() =~= a + b.drop_last());
        assert((a + b).last() == b.last());
        lemma_nonblank_concat(a, b.drop_last());
        if trim_spec(b.last()).len() > 0 {
            assert(nonblank_trimmed(a) + nonblank_trimmed(b.drop_last()).push(trim_spec(b.last())) =~= (
            nonblank_trimmed(a) + nonblank_trimmed(b.drop_last())).push(trim_spec(b.last())));
        }
    }
}

/// Parses internal CIDR prefixes; blank entries are skipped and a bad one
/// is an error, never silently dropped. What it returns is the trimmed
/// texts, each of which reads as a network.
pub fn parse_prefixes(cidrs: &Vec<String>) -> (r: Result<Vec<String>, AuthError>)
    ensures
        match first_bad(nonblank_trimmed(strs(cidrs@)), |c: Seq<char>| cidr_parses(c)) {
            Some(c) => r matches Err(e) && e@ == AuthFault::InvalidCidr(c),
            None => r matches Ok(v) && strs(v@) == nonblank_trimmed(strs(cidrs@)),
        },
        r matches Ok(v) ==> forall|k: int| 0 <= k < v@.len() ==> cidr_parses(#[trigger] v@[k]@),
{
    let ghost all = strs(cidrs@);
    let ghost ok = |c: Seq<char>| cidr_parses(c);
    let mut out: Vec<String> = Vec::new();
    let mut i: usize = 0;
    while i < cidrs.len()
        invariant
            i <= cidrs.len(),
            all == strs(cidrs@),
            ok == (|c: Seq<char>| cidr_parses(c)),
            first_bad(nonblank_trimmed(all.take(i as int)), ok) is None,
            strs(out@) == nonblank_trimmed(all.take(i as int)),
            forall|k: int| 0 <= k < out@.len() ==> cidr_parses(#[trigger] out@[k]@),
        decreases cidrs.len() - i,
    {
        let ghost prefix = nonblank_trimmed(all.take(i as int));
        assert(all.take(i + 1).drop_last() =~= all.take(i as int));
        assert(all.take(i + 1).last() == cidrs@[i as int]@);
        let c = trim(cidrs[i].as_str());
        if !c.as_str().is_empty() {
            proof {
                lemma_first_bad_push(prefix, c@, ok);
            }
            if cidr_ok(c.as_str()) {
                out.push(c);
                assert(strs(out@) =~= prefix.push(trim_spec(cidrs@[i as int]@)));
            } else {
                proof {
                    lemma_nonblank_concat(all.take(i + 1), all.skip(i + 1));
                    assert(all.take(i + 1) + all.skip(i + 1) =~= all);
                    lemma_first_bad_extend(
                        nonblank_trimmed(all.take(i + 1)),
                        nonblank_trimmed(all.skip(i + 1)),
                        ok,
                    );
                }
                return Err(AuthError::InvalidCidr(c));
            }
        }
        i = i + 1;
    }
    assert(all.take(all.len() as int) =~= all);
    Ok(out)
}

} // verus!
