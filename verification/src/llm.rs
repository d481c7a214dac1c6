//! A chat-completions client's rules (Azure and OpenAI-compatible servers):
//! messages, configuration checks, endpoints, retries and error texts.
//!
//! The gateway itself never calls a model; this serves side uses such as
//! the LLM judge.
use vstd::prelude::*;
use crate::json::{Json, JsonV, jv, obj_get, get};
use crate::text::{concat, concat3, debug_quote, debug_text, int_text, int_to_string, owned, str_eq, to_lowercase, trim,
    trim_spec, unicode_lower};

verus! {

/// How many times a request is tried.
pub const MAX_ATTEMPTS: u32 = 3;

pub open spec fn role_system() -> Seq<char> {
    "system"@
}

pub open spec fn role_user() -> Seq<char> {
    "user"@
}

pub open spec fn role_assistant() -> Seq<char> {
    "assistant"@
}

pub open spec fn role_tool() -> Seq<char> {
    "tool"@
}

/// One line of a conversation.
pub struct Message {
    pub role: String,
    /// `None` is not `Some("")`: an assistant turn with only tool calls has
    /// no content at all.
    pub content: Option<String>,
    pub tool_calls: Vec<ToolCall>,
    pub tool_call_id: String,
}

pub struct ToolCall {
    pub id: String,
    /// The wire's `type`.
    pub kind: String,
    pub function: FunctionCall,
}

pub struct FunctionCall {
    pub name: String,
    /// A JSON text, not an object, as the wire carries it.
    pub arguments: String,
}

impl Message {
    fn of(role: &str, text: String) -> (r: Message)
        ensures
            r.role@ == role@,
            r.content matches Some(c) && c@ == text@,
            r.tool_calls@.len() == 0,
            r.tool_call_id@.len() == 0,
    {
        Message { role: owned(role), content: Some(text), tool_calls: Vec::new(), tool_call_id: String::new() }
    }

    pub fn system(text: String) -> (r: Message)
        ensures
            r.role@ == role_system(),
            r.content matches Some(c) && c@ == text@,
            r.tool_calls@.len() == 0,
            r.tool_call_id@.len() == 0,
    {
        Message::of("system", text)
    }

    pub fn user(text: String) -> (r: Message)
        ensures
            r.role@ == role_user(),
            r.content matches Some(c) && c@ == text@,
            r.tool_calls@.len() == 0,
            r.tool_call_id@.len() == 0,
    {
        Message::of("user", text)
    }

    pub fn assistant(text: String) -> (r: Message)
        ensures
            r.role@ == role_assistant(),
            r.content matches Some(c) && c@ == text@,
            r.tool_calls@.len() == 0,
            r.tool_call_id@.len() == 0,
    {
        Message::of("assistant", text)
    }
}

#[derive(Clone, Copy, PartialEq, Eq, Debug, Structural)]
pub struct Usage {
    pub prompt_tokens: i64,
    pub completion_tokens: i64,
}

pub struct Response {
    pub text: String,
    pub tool_calls: Vec<ToolCall>,
    /// `stop`, `tool_calls`, `length` or `content_filter`.
    pub finish_reason: String,
    /// What the model said when it refused.
    pub refusal: String,
    pub usage: Usage,
}

pub struct Request {
    pub messages: Vec<Message>,
    pub max_completion_tokens: i64,
    /// `low`, `medium` or `high`; not sent when empty.
    pub reasoning_effort: String,
}

/// A refusal by the model's API.
pub struct ApiError {
    pub provider: String,
    pub status: u16,
    pub message: String,
}

pub open spec fn retryable_spec(status: u16) -> bool {
    status == 429 || status >= 500
}

pub open spec fn api_error_text(e: ApiError) -> Seq<char> {
    e.provider@ + ": HTTP "@ + int_text(e.status as int) + ": "@ + e.message@
}

impl ApiError {
    /// Only 429 and 5xx are tried again.
    pub fn retryable(&self) -> (r: bool)
        ensures
            r == retryable_spec(self.status),
    {
        self.status == 429 || self.status >= 500
    }

    /// `{provider}: HTTP {status}: {message}`.
    pub fn text(&self) -> (r: String)
        ensures
            r@ == api_error_text(*self),
    {
        let s = int_to_string(self.status as i128);
        let head = concat3(self.provider.as_str(), ": HTTP ", s.as_str());
        concat3(head.as_str(), ": ", self.message.as_str())
    }
}

/// The completion budget sent on the wire: 1024 when none is set.
pub fn wire_max_tokens(max_completion_tokens: i64) -> (r: i64)
    ensures
        r == (if max_completion_tokens <= 0 {
            1024
        } else {
            max_completion_tokens
        }),
{
    if max_completion_tokens <= 0 {
        1024
    } else {
        max_completion_tokens
    }
}

/// After a failed attempt (counted from 0): the seconds to wait before the
/// next one, or `None` to give up. A failure that is not worth repeating
/// ends the tries at once; the third failure ends them too. The wait
/// doubles: 2 s, then 4 s.
pub fn retry_after(attempt: u32, retryable: bool) -> (r: Option<u64>)
    ensures
        r == (if retryable && attempt + 1 < MAX_ATTEMPTS {
            Some(if attempt == 0 {
                2u64
            } else {
                4u64
            })
        } else {
            None
        }),
{
    if retryable && attempt < MAX_ATTEMPTS - 1 {
        if attempt == 0 {
            Some(2)
        } else {
            Some(4)
        }
    } else {
        None
    }
}

pub open spec fn nested_message(v: JsonV) -> Option<Seq<char>> {
    match v {
        JsonV::Object(es) => match obj_get(es, "error"@) {
            Some(JsonV::Object(inner)) => match obj_get(inner, "message"@) {
                Some(JsonV::Str(m)) => Some(m),
                _ => None,
            },
            _ => None,
        },
        _ => None,
    }
}

pub open spec fn error_message_spec(parsed: Option<JsonV>, body: Seq<char>) -> Seq<char> {
    match parsed {
        Some(v) => match nested_message(v) {
            Some(m) => m,
            None => trim_spec(body),
        },
        None => trim_spec(body),
    }
}

/// The message of an error body: `{"error":{"message":…}}` where the body
/// is JSON of that shape (`parsed`), else the body itself, trimmed.
pub fn error_message(parsed: &Option<Json>, body: &str) -> (r: String)
    ensures
        r@ == error_message_spec(
            match parsed {
                Some(j) => Some(j@),
                None => None,
            },
            body@,
        ),
{
    match parsed {
        Some(Json::Object(es)) => match get(es, "error") {
            Some(Json::Object(inner)) => match get(inner, "message") {
                Some(Json::Str(m)) => m.clone(),
                _ => trim(body),
            },
            _ => trim(body),
        },
        _ => trim(body),
    }
}

/// `str::trim_end_matches` with one character: every trailing copy
/// removed.
pub open spec fn strip_trailing_char(s: Seq<char>, c: char) -> Seq<char>
    decreases s.len(),
{
    if s.len() > 0 && s.last() == c {
        strip_trailing_char(s.drop_last(), c)
    } else {
        s
    }
}

/// `s` without the copies of `c` at its end (`str::trim_end_matches`).
pub fn trim_end_char(s: &str, c: char) -> (r: String)
    ensures
        r@ == strip_trailing_char(s@, c),
{
    let cs = crate::text::chars_of(s);
    let mut n = cs.len();
    assert(s@.take(n as int) =~= s@);
    while n > 0 && cs[n - 1] == c
        invariant
            n <= cs@.len(),
            cs@ == s@,
            strip_trailing_char(s@, c) == strip_trailing_char(s@.take(n as int), c),
        decreases n,
    {
        assert(s@.take(n as int).drop_last() =~= s@.take(n - 1));
        n = n - 1;
    }
    let v = crate::text::slice_range(&cs, 0, n);
    assert(v@ =~= s@.take(n as int));
    crate::text::string_of(v.as_slice())
}

pub struct AzureConfig {
    pub endpoint: String,
    pub deployment: String,
    pub api_version: String,
    pub api_key: String,
}

pub open spec fn azure_problem(c: AzureConfig) -> Option<Seq<char>> {
    if c.endpoint@.len() == 0 {
        Some("AZURE_OPENAI_ENDPOINT"@)
    } else if c.deployment@.len() == 0 {
        Some("AZURE_OPENAI_DEPLOYMENT"@)
    } else if c.api_version@.len() == 0 {
        Some("AZURE_OPENAI_API_VERSION"@)
    } else if c.api_key@.len() == 0 {
        Some("AZURE_OPENAI_API_KEY"@)
    } else {
        None
    }
}

fn blank(s: &str) -> (r: bool)
    ensures
        r == (s@.len() == 0),
{
    let none = String::new();
    let r = str_eq(s, none.as_str());
    proof {
        if s@.len() == 0 {
            assert(s@ =~= none@);
        }
    }
    r
}

pub open spec fn azure_url_spec(c: AzureConfig) -> Seq<char> {
    strip_trailing_char(c.endpoint@, '/') + "/openai/deployments/"@ + c.deployment@
        + "/chat/completions?api-version="@ + c.api_version@
}

impl AzureConfig {
    /// Every field is required; the first missing one is named.
    pub fn validate(&self) -> (r: Result<(), String>)
        ensures
            match azure_problem(*self) {
                Some(name) => r matches Err(m) && m@ == "llm: "@ + name + " 이(가) 필요합니다"@,
                None => r is Ok,
            },
    {
        let name = if blank(self.endpoint.as_str()) {
            "AZURE_OPENAI_ENDPOINT"
        } else if blank(self.deployment.as_str()) {
            "AZURE_OPENAI_DEPLOYMENT"
        } else if blank(self.api_version.as_str()) {
            "AZURE_OPENAI_API_VERSION"
        } else if blank(self.api_key.as_str()) {
            "AZURE_OPENAI_API_KEY"
        } else {
            return Ok(());
        };
        Err(concat3("llm: ", name, " 이(가) 필요합니다"))
    }

    /// `{endpoint}/openai/deployments/{deployment}/chat/completions?api-version={version}`,
    /// with the endpoint's trailing slashes dropped.
    pub fn url(&self) -> (r: String)
        ensures
            r@ == azure_url_spec(*self),
    {
        let base = trim_end_char(self.endpoint.as_str(), '/');
        let a = concat3(base.as_str(), "/openai/deployments/", self.deployment.as_str());
        concat3(a.as_str(), "/chat/completions?api-version=", self.api_version.as_str())
    }
}

pub struct OpenAIConfig {
    pub base_url: String,
    pub model: String,
    /// Optional: a local server may ask for no credentials.
    pub api_key: String,
}

pub open spec fn openai_problem(c: OpenAIConfig) -> Option<Seq<char>> {
    if c.base_url@.len() == 0 {
        Some("llm: OPENAI_BASE_URL 이 필요합니다"@)
    } else if c.model@.len() == 0 {
        Some("llm: OPENAI_MODEL 이 필요합니다"@)
    } else {
        None
    }
}

impl OpenAIConfig {
    /// The base URL and the model are required; the key is not.
    pub fn validate(&self) -> (r: Result<(), String>)
        ensures
            match openai_problem(*self) {
                Some(m) => r matches Err(e) && e@ == m,
                None => r is Ok,
            },
    {
        if blank(self.base_url.as_str()) {
            return Err(owned("llm: OPENAI_BASE_URL 이 필요합니다"));
        }
        if blank(self.model.as_str()) {
            return Err(owned("llm: OPENAI_MODEL 이 필요합니다"));
        }
        Ok(())
    }

    /// `{base_url}/chat/completions`, the base's trailing slashes dropped.
    pub fn url(&self) -> (r: String)
        ensures
            r@ == strip_trailing_char(self.base_url@, '/') + "/chat/completions"@,
    {
        let base = trim_end_char(self.base_url.as_str(), '/');
        concat(base.as_str(), "/chat/completions")
    }

    /// The `Authorization` header's value, where there is a key: an empty
    /// bearer makes some local servers answer 401, so none is sent then.
    pub fn authorization(&self) -> (r: Option<String>)
        ensures
            self.api_key@.len() == 0 ==> r is None,
            self.api_key@.len() > 0 ==> (r matches Some(h) && h@ == "Bearer "@ + self.api_key@),
    {
        if blank(self.api_key.as_str()) {
            None
        } else {
            Some(concat("Bearer ", self.api_key.as_str()))
        }
    }
}

#[derive(Clone, Copy, PartialEq, Eq, Debug, Structural)]
pub enum ProviderKind {
    Azure,
    OpenAI,
}

pub open spec fn provider_spec(name: Seq<char>) -> Result<ProviderKind, Seq<char>> {
    let p = unicode_lower(name);
    if p == ""@ || p == "azure"@ {
        Ok(ProviderKind::Azure)
    } else if p == "openai"@ {
        Ok(ProviderKind::OpenAI)
    } else {
        Err("llm: LLM_PROVIDER="@ + debug_text(p) + " 는 지원하지 않습니다"@)
    }
}

/// The provider `LLM_PROVIDER` names, case-insensitively: Azure when it is
/// empty.
pub fn provider_kind(name: &str) -> (r: Result<ProviderKind, String>)
    ensures
        match provider_spec(name@) {
            Ok(k) => r == Ok::<ProviderKind, String>(k),
            Err(m) => r matches Err(e) && e@ == m,
        },
{
    let p = to_lowercase(name);
    let none = String::new();
    proof {
        reveal_strlit("");
        assert(none@ =~= ""@);
    }
    if str_eq(p.as_str(), none.as_str()) || str_eq(p.as_str(), "azure") {
        Ok(ProviderKind::Azure)
    } else if str_eq(p.as_str(), "openai") {
        Ok(ProviderKind::OpenAI)
    } else {
        let q = debug_quote(p.as_str());
        Err(concat3("llm: LLM_PROVIDER=", q.as_str(), " 는 지원하지 않습니다"))
    }
}

} // verus!
