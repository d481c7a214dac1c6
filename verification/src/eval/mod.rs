//! Quality evaluation: turn snapshots, ratings and golden sets.
//!
//! Evaluation never touches the gateway's enforcement path. Relabels by
//! people and automatic scores are appended, never overwritten: a human
//! signal overwritten by an automatic one could no longer be told apart.
pub mod golden;
pub mod judge;
pub mod stats;

use vstd::prelude::*;
use vstd::slice::slice_to_vec;
use vstd::utf8::encode_utf8;
use crate::canon::{canon_entries, canonical_object, sort_entries};
use crate::digest::{hex_lower, hex_text, random_bytes, sha256_hex, sha256_of, lemma_hex_lower_len};
use crate::json::{Json, JsonV, json_text, jv_entries, jv_list, lemma_jv_entries, lemma_jv_list};
use crate::text::{concat, concat3, debug_quote, debug_text, owned, str_eq};

verus! {

/// Why an evaluation store refused.
#[derive(Debug)]
pub enum Error {
    NotFound,
    Invalid(String),
    /// A failure of the store itself.
    Other(String),
}

/// Where a score comes from. Human and automatic scores are kept apart.
#[derive(Clone, Copy, PartialEq, Eq, Debug, Structural)]
pub enum Source {
    /// An end user's thumbs up or down.
    HumanUser,
    /// A relabel by a person who checks answers.
    HumanReviewer,
    /// The rule rubric.
    AutoRubric,
    /// An LLM judge.
    AutoLlmJudge,
    /// A golden-set regression run.
    Golden,
}

pub open spec fn source_text(s: Source) -> Seq<char> {
    match s {
        Source::HumanUser => "human_user"@,
        Source::HumanReviewer => "human_reviewer"@,
        Source::AutoRubric => "auto_rubric"@,
        Source::AutoLlmJudge => "auto_llm_judge"@,
        Source::Golden => "golden"@,
    }
}

pub open spec fn source_named(t: Seq<char>) -> Option<Source> {
    if t == "human_user"@ {
        Some(Source::HumanUser)
    } else if t == "human_reviewer"@ {
        Some(Source::HumanReviewer)
    } else if t == "auto_rubric"@ {
        Some(Source::AutoRubric)
    } else if t == "auto_llm_judge"@ {
        Some(Source::AutoLlmJudge)
    } else if t == "golden"@ {
        Some(Source::Golden)
    } else {
        None
    }
}

impl Source {
    pub fn as_str(self) -> (r: &'static str)
        ensures
            r@ == source_text(self),
    {
        match self {
            Source::HumanUser => "human_user",
            Source::HumanReviewer => "human_reviewer",
            Source::AutoRubric => "auto_rubric",
            Source::AutoLlmJudge => "auto_llm_judge",
            Source::Golden => "golden",
        }
    }

    pub fn parse(s: &str) -> (r: Option<Source>)
        ensures
            r == source_named(s@),
    {
        if str_eq(s, "human_user") {
            Some(Source::HumanUser)
        } else if str_eq(s, "human_reviewer") {
            Some(Source::HumanReviewer)
        } else if str_eq(s, "auto_rubric") {
            Some(Source::AutoRubric)
        } else if str_eq(s, "auto_llm_judge") {
            Some(Source::AutoLlmJudge)
        } else if str_eq(s, "golden") {
            Some(Source::Golden)
        } else {
            None
        }
    }
}

#[derive(Clone, Copy, PartialEq, Eq, Debug, Structural)]
pub enum Scale {
    Thumbs,
    Likert5,
    BinaryPass,
}

pub open spec fn scale_text(s: Scale) -> Seq<char> {
    match s {
        Scale::Thumbs => "thumbs"@,
        Scale::Likert5 => "likert5"@,
        Scale::BinaryPass => "binary_pass"@,
    }
}

pub open spec fn scale_named(t: Seq<char>) -> Option<Scale> {
    if t == "thumbs"@ {
        Some(Scale::Thumbs)
    } else if t == "likert5"@ {
        Some(Scale::Likert5)
    } else if t == "binary_pass"@ {
        Some(Scale::BinaryPass)
    } else {
        None
    }
}

impl Scale {
    pub fn as_str(self) -> (r: &'static str)
        ensures
            r@ == scale_text(self),
    {
        match self {
            Scale::Thumbs => "thumbs",
            Scale::Likert5 => "likert5",
            Scale::BinaryPass => "binary_pass",
        }
    }

    pub fn parse(s: &str) -> (r: Option<Scale>)
        ensures
            r == scale_named(s@),
    {
        if str_eq(s, "thumbs") {
            Some(Scale::Thumbs)
        } else if str_eq(s, "likert5") {
            Some(Scale::Likert5)
        } else if str_eq(s, "binary_pass") {
            Some(Scale::BinaryPass)
        } else {
            None
        }
    }
}

/// What went wrong, counted to see where to improve.
pub open spec fn known_labels() -> Seq<Seq<char>> {
    seq![
        "wrong_fact"@,
        "missing_citation"@,
        "missed_tool"@,
        "wrong_tool"@,
        "over_refusal"@,
        "policy_blind"@,
        "pii_leak"@,
        "hallucination"@,
        "incomplete"@,
        "other"@,
    ]
}

/// Whether `l` is one of the known labels.
pub fn is_known_label(l: &str) -> (r: bool)
    ensures
        r == known_labels().contains(l@),
{
    let known: [&str; 10] = [
        "wrong_fact",
        "missing_citation",
        "missed_tool",
        "wrong_tool",
        "over_refusal",
        "policy_blind",
        "pii_leak",
        "hallucination",
        "incomplete",
        "other",
    ];
    let mut i: usize = 0;
    assert(known@.map_values(|s: &str| s@) =~= known_labels());
    while i < 10
        invariant
            i <= 10,
            known@.map_values(|s: &str| s@) == known_labels(),
            forall|j: int| 0 <= j < i ==> known_labels()[j] != l@,
        decreases 10 - i,
    {
        if str_eq(known[i], l) {
            assert(known_labels()[i as int] == l@);
            return true;
        }
        assert(known@.map_values(|s: &str| s@)[i as int] == known@[i as int]@);
        i = i + 1;
    }
    false
}

#[derive(Clone, Copy, PartialEq, Eq, Debug, Structural)]
pub enum Outcome {
    Completed,
    Halted,
    MaxTurns,
    ModelRefusal,
    Error,
}

pub open spec fn outcome_text(o: Outcome) -> Seq<char> {
    match o {
        Outcome::Completed => "completed"@,
        Outcome::Halted => "halted"@,
        Outcome::MaxTurns => "max_turns"@,
        Outcome::ModelRefusal => "model_refusal"@,
        Outcome::Error => "error"@,
    }
}

pub open spec fn outcome_named(t: Seq<char>) -> Option<Outcome> {
    if t == "completed"@ {
        Some(Outcome::Completed)
    } else if t == "halted"@ {
        Some(Outcome::Halted)
    } else if t == "max_turns"@ {
        Some(Outcome::MaxTurns)
    } else if t == "model_refusal"@ {
        Some(Outcome::ModelRefusal)
    } else if t == "error"@ {
        Some(Outcome::Error)
    } else {
        None
    }
}

impl Outcome {
    pub fn as_str(self) -> (r: &'static str)
        ensures
            r@ == outcome_text(self),
    {
        match self {
            Outcome::Completed => "completed",
            Outcome::Halted => "halted",
            Outcome::MaxTurns => "max_turns",
            Outcome::ModelRefusal => "model_refusal",
            Outcome::Error => "error",
        }
    }

    pub fn parse(s: &str) -> (r: Option<Outcome>)
        ensures
            r == outcome_named(s@),
    {
        if str_eq(s, "completed") {
            Some(Outcome::Completed)
        } else if str_eq(s, "halted") {
            Some(Outcome::Halted)
        } else if str_eq(s, "max_turns") {
            Some(Outcome::MaxTurns)
        } else if str_eq(s, "model_refusal") {
            Some(Outcome::ModelRefusal)
        } else if str_eq(s, "error") {
            Some(Outcome::Error)
        } else {
            None
        }
    }
}

/// Each source, scale and outcome reads back from its text.
pub proof fn law_names_round_trip(s: Source, c: Scale, o: Outcome)
    ensures
        source_named(source_text(s)) == Some(s),
        scale_named(scale_text(c)) == Some(c),
        outcome_named(outcome_text(o)) == Some(o),
{
    reveal_strlit("human_user");
    reveal_strlit("human_reviewer");
    reveal_strlit("auto_rubric");
    reveal_strlit("auto_llm_judge");
    reveal_strlit("golden");
    reveal_strlit("thumbs");
    reveal_strlit("likert5");
    reveal_strlit("binary_pass");
    reveal_strlit("completed");
    reveal_strlit("halted");
    reveal_strlit("max_turns");
    reveal_strlit("model_refusal");
    reveal_strlit("error");
    assert("human_user"@[6] == 'u' && "human_reviewer"@[6] == 'r' && "auto_rubric"@[5] == 'r');
    assert("auto_llm_judge"@[5] == 'l' && "golden"@[0] == 'g' && "human_user"@[0] == 'h');
    assert("thumbs"@[0] == 't' && "likert5"@[0] == 'l' && "binary_pass"@[0] == 'b');
    assert("completed"@[0] == 'c' && "halted"@[0] == 'h' && "max_turns"@[0] == 'm');
    assert("model_refusal"@[1] == 'o' && "max_turns"@[1] == 'a' && "error"@[0] == 'e');
}

/// The trace of one tool call.
#[derive(Debug)]
pub struct ToolStep {
    pub name: String,
    pub args_digest: String,
    /// `allowed`, `denied` or `dry_run`.
    pub decision: String,
    pub error_code: String,
    pub audit_request_id: String,
}

impl ToolStep {
    pub fn named(name: &str, decision: &str) -> (r: ToolStep)
        ensures
            r.name@ == name@,
            r.decision@ == decision@,
            r.args_digest@.len() == 0,
            r.error_code@.len() == 0,
            r.audit_request_id@.len() == 0,
    {
        ToolStep {
            name: owned(name),
            args_digest: String::new(),
            decision: owned(decision),
            error_code: String::new(),
            audit_request_id: String::new(),
        }
    }

    pub fn copy(&self) -> (r: ToolStep)
        ensures
            r == *self,
    {
        ToolStep {
            name: self.name.clone(),
            args_digest: self.args_digest.clone(),
            decision: self.decision.clone(),
            error_code: self.error_code.clone(),
            audit_request_id: self.audit_request_id.clone(),
        }
    }
}

/// A snapshot of one turn; once written it never changes. Instants are
/// nanoseconds since the Unix epoch.
pub struct Turn {
    pub turn_id: String,
    pub session_id: String,
    pub actor: String,
    pub agent_id: String,
    pub timestamp: Option<i64>,
    /// `chat`, `cli`, `mcp-external`, `api`, `golden`, or empty (unknown).
    pub channel: String,
    pub model: String,
    pub prompt: String,
    pub reply: String,
    pub tool_trail: Vec<ToolStep>,
    pub outcome: String,
    pub input_tokens: i64,
    pub output_tokens: i64,
    pub cost_micros: i64,
    pub content_hash: String,
}

pub struct TurnFilter {
    pub actor: String,
    pub agent_id: String,
    pub session_id: String,
    pub channel: String,
    pub outcome: String,
    pub unrated_only: bool,
    pub since: Option<i64>,
    pub until: Option<i64>,
    pub limit: i64,
}

pub struct RatingFilter {
    pub turn_id: String,
    pub source: String,
    pub scale: String,
    pub rater_id: String,
    pub label: String,
    pub since: Option<i64>,
    pub limit: i64,
}

pub struct StatFilter {
    pub source: String,
    pub scale: String,
    pub since: Option<i64>,
}

#[derive(Clone, Copy, PartialEq, Eq, Debug, Structural)]
pub enum GroupBy {
    Agent,
    Channel,
    Source,
    Scale,
    Label,
}

/// A tool step as the JSON writer gives it: its name, then each other
/// field only where it is not empty.
pub open spec fn step_json(t: ToolStep) -> JsonV {
    JsonV::Object(
        seq![("name"@, JsonV::Str(t.name@))]
        + (if t.args_digest@.len() > 0 { seq![("args_digest"@, JsonV::Str(t.args_digest@))] } else { Seq::empty() })
        + (if t.decision@.len() > 0 { seq![("decision"@, JsonV::Str(t.decision@))] } else { Seq::empty() })
        + (if t.error_code@.len() > 0 { seq![("error_code"@, JsonV::Str(t.error_code@))] } else { Seq::empty() })
        + (if t.audit_request_id@.len() > 0 { seq![("audit_request_id"@, JsonV::Str(t.audit_request_id@))] } else { Seq::empty() }),
    )
}

/// The hashed content of a turn: `{"prompt", "reply", "trail"}`.
pub open spec fn content_json(prompt: Seq<char>, reply: Seq<char>, trail: Seq<ToolStep>) -> JsonV {
    JsonV::Object(
        seq![
            ("prompt"@, JsonV::Str(prompt)),
            ("reply"@, JsonV::Str(reply)),
            ("trail"@, JsonV::Array(Seq::new(trail.len(), |i: int| step_json(trail[i])))),
        ],
    )
}

pub open spec fn content_hash_spec(prompt: Seq<char>, reply: Seq<char>, trail: Seq<ToolStep>) -> Seq<char> {
    hex_lower(sha256_of(encode_utf8(json_text(content_json(prompt, reply, trail)))))
}

fn push_if_set(v: &mut Vec<(String, Json)>, key: &str, s: &String)
    ensures
        jv_entries(final(v)@) == jv_entries(old(v)@) + (if s@.len() > 0 {
            seq![(key@, JsonV::Str(s@))]
        } else {
            Seq::empty()
        }),
{
    proof {
        lemma_jv_entries(v@);
    }
    let none = String::new();
    assert(none@.len() == 0);
    if !str_eq(s.as_str(), none.as_str()) {
        proof {
            if s@.len() == 0 {
                assert(s@ =~= none@);
            }
        }
        let ghost before = v@;
        v.push((owned(key), Json::Str(s.clone())));
        proof {
            lemma_jv_entries(v@);
            assert(jv_entries(v@) =~= jv_entries(before) + seq![(key@, JsonV::Str(s@))]);
        }
    } else {
        proof {
            assert(s@ =~= none@);
            assert(jv_entries(v@) =~= jv_entries(v@) + Seq::<(Seq<char>, JsonV)>::empty());
        }
    }
}

fn step_value(t: &ToolStep) -> (r: Json)
    ensures
        r@ == step_json(*t),
{
    let mut v: Vec<(String, Json)> = Vec::new();
    v.push((owned("name"), Json::Str(t.name.clone())));
    proof {
        lemma_jv_entries(v@);
        assert(jv_entries(v@) =~= seq![("name"@, JsonV::Str(t.name@))]);
    }
    push_if_set(&mut v, "args_digest", &t.args_digest);
    push_if_set(&mut v, "decision", &t.decision);
    push_if_set(&mut v, "error_code", &t.error_code);
    push_if_set(&mut v, "audit_request_id", &t.audit_request_id);
    Json::Object(v)
}

/// The hash of a turn's content, to see whether the same exchange was
/// recorded again.
pub fn compute_content_hash(prompt: &str, reply: &str, trail: &Vec<ToolStep>) -> (r: String)
    ensures
        r@ == content_hash_spec(prompt@, reply@, trail@),
        r@.len() == 64,
{
    let mut steps: Vec<Json> = Vec::new();
    let mut i: usize = 0;
    while i < trail.len()
        invariant
            i <= trail@.len(),
            steps@.len() == i,
            forall|j: int| 0 <= j < i ==> (#[trigger] steps@[j])@ == step_json(trail@[j]),
        decreases trail.len() - i,
    {
        steps.push(step_value(&trail[i]));
        i = i + 1;
    }
    proof {
        lemma_jv_list(steps@);
        assert(jv_list(steps@) =~= Seq::new(trail@.len(), |j: int| step_json(trail@[j])));
    }
    let mut v: Vec<(String, Json)> = Vec::new();
    v.push((owned("prompt"), Json::Str(owned(prompt))));
    v.push((owned("reply"), Json::Str(owned(reply))));
    v.push((owned("trail"), Json::Array(steps)));
    proof {
        lemma_jv_entries(v@);
        assert(jv_entries(v@) =~= content_json(prompt@, reply@, trail@)->Object_0);
    }
    let text = Json::Object(v).to_text();
    let bytes = slice_to_vec(text.as_str().as_bytes());
    sha256_hex(bytes.as_slice())
}

pub open spec fn args_digest_spec(args: Seq<(String, Json)>) -> Seq<char> {
    if args.len() == 0 {
        Seq::empty()
    } else {
        hex_lower(sha256_of(encode_utf8(json_text(JsonV::Object(sort_entries(canon_entries(args)))))))
    }
}

/// The hash of a call's arguments (keys sorted), to compare calls without
/// keeping their text; empty for no arguments.
pub fn args_digest(args: &Vec<(String, Json)>) -> (r: String)
    ensures
        r@ == args_digest_spec(args@),
{
    if args.len() == 0 {
        return String::new();
    }
    let text = Json::Object(canonical_object(args)).to_text();
    let bytes = slice_to_vec(text.as_str().as_bytes());
    sha256_hex(bytes.as_slice())
}

/// A new id: the prefix, `_`, and 16 random lowercase hex digits.
pub fn new_id(prefix: &str) -> (r: String)
    ensures
        exists|b: Seq<u8>| b.len() == 8 && r@ == prefix@ + "_"@ + hex_lower(b),
{
    let b = random_bytes(8);
    let h = hex_text(b.as_slice());
    concat3(prefix, "_", h.as_str())
}

pub open spec fn validate_turn_spec(t: Turn) -> Result<(), Seq<char>> {
    if t.prompt@.len() == 0 && t.reply@.len() == 0 && t.tool_trail@.len() == 0 {
        Err("turn has no prompt, reply, or tool trail"@)
    } else if t.outcome@.len() > 0 && outcome_named(t.outcome@) is None {
        Err("unknown outcome "@ + debug_text(t.outcome@))
    } else {
        Ok(())
    }
}

fn is_empty_text(s: &str) -> (r: bool)
    ensures
        r == (s@.len() == 0),
{
    let none = String::new();
    let r = str_eq(s, none.as_str());
    proof {
        if s@.len() == 0 {
            assert(s@ =~= none@);
        }
    }
    r
}

/// A turn must hold something (a prompt, a reply or a tool call), and an
/// outcome, if given, must be known.
pub fn validate_turn(t: &Turn) -> (r: Result<(), Error>)
    ensures
        match validate_turn_spec(*t) {
            Ok(()) => r is Ok,
            Err(m) => r matches Err(Error::Invalid(x)) && x@ == m,
        },
{
    if is_empty_text(t.prompt.as_str()) && is_empty_text(t.reply.as_str()) && t.tool_trail.len() == 0 {
        return Err(Error::Invalid(owned("turn has no prompt, reply, or tool trail")));
    }
    if !is_empty_text(t.outcome.as_str()) && Outcome::parse(t.outcome.as_str()).is_none() {
        let q = debug_quote(t.outcome.as_str());
        return Err(Error::Invalid(concat("unknown outcome ", q.as_str())));
    }
    Ok(())
}

/// What validation reads of a rating. The score and the dimensions are
/// floating-point values: the caller compares them with `[0, 1]` and hands
/// over the outcome and the score's display text.
pub struct RatingCheck {
    pub turn_id: String,
    pub source: String,
    pub scale: String,
    pub rater_id: String,
    /// Whether the score lies in `[0, 1]`.
    pub score_in_range: bool,
    /// The score as `{}` displays it.
    pub score_text: String,
    pub labels: Vec<String>,
    /// The first dimension, in key order, whose value is not a number in
    /// `[0, 1]`.
    pub bad_dim: Option<String>,
}

/// The first label that is not known.
pub open spec fn first_unknown(s: Seq<String>) -> Option<Seq<char>>
    decreases s.len(),
{
    if s.len() == 0 {
        None
    } else if !known_labels().contains(s[0]@) {
        Some(s[0]@)
    } else {
        first_unknown(s.drop_first())
    }
}

pub open spec fn validate_rating_spec(c: RatingCheck) -> Result<(), Seq<char>> {
    if c.turn_id@.len() == 0 {
        Err("turn_id is required"@)
    } else if source_named(c.source@) is None {
        Err("unknown source "@ + debug_text(c.source@))
    } else if scale_named(c.scale@) is None {
        Err("unknown scale "@ + debug_text(c.scale@))
    } else if c.rater_id@.len() == 0 {
        Err("rater_id is required"@)
    } else if !c.score_in_range {
        Err("score "@ + c.score_text@ + " out of [0,1]"@)
    } else if first_unknown(c.labels@) is Some {
        Err("unknown label "@ + debug_text(first_unknown(c.labels@)->0))
    } else if c.bad_dim is Some {
        Err("dim "@ + debug_text(c.bad_dim->0@) + " out of [0,1]"@)
    } else {
        Ok(())
    }
}

fn find_unknown(labels: &Vec<String>) -> (r: Option<usize>)
    ensures
        match r {
            Some(i) => i < labels@.len() && first_unknown(labels@) == Some(labels@[i as int]@),
            None => first_unknown(labels@) is None,
        },
{
    let mut i: usize = 0;
    assert(labels@.skip(0) =~= labels@);
    while i < labels.len()
        invariant
            i <= labels@.len(),
            first_unknown(labels@) == first_unknown(labels@.skip(i as int)),
        decreases labels.len() - i,
    {
        let ghost t = labels@.skip(i as int);
        assert(t[0] == labels@[i as int]);
        assert(t.drop_first() =~= labels@.skip(i + 1));
        if !is_known_label(labels[i].as_str()) {
            return Some(i);
        }
        i = i + 1;
    }
    assert(labels@.skip(i as int) =~= Seq::<String>::empty());
    None
}

/// Checks a rating, first failure first: a turn, a known source and scale,
/// a rater, a score in `[0, 1]`, known labels, dimensions in `[0, 1]`.
pub fn validate_rating(c: &RatingCheck) -> (r: Result<(), Error>)
    ensures
        match validate_rating_spec(*c) {
            Ok(()) => r is Ok,
            Err(m) => r matches Err(Error::Invalid(x)) && x@ == m,
        },
{
    if is_empty_text(c.turn_id.as_str()) {
        return Err(Error::Invalid(owned("turn_id is required")));
    }
    if Source::parse(c.source.as_str()).is_none() {
        let q = debug_quote(c.source.as_str());
        return Err(Error::Invalid(concat("unknown source ", q.as_str())));
    }
    if Scale::parse(c.scale.as_str()).is_none() {
        let q = debug_quote(c.scale.as_str());
        return Err(Error::Invalid(concat("unknown scale ", q.as_str())));
    }
    if is_empty_text(c.rater_id.as_str()) {
        return Err(Error::Invalid(owned("rater_id is required")));
    }
    if !c.score_in_range {
        return Err(Error::Invalid(concat3("score ", c.score_text.as_str(), " out of [0,1]")));
    }
    match find_unknown(&c.labels) {
        Some(i) => {
            let q = debug_quote(c.labels[i].as_str());
            return Err(Error::Invalid(concat("unknown label ", q.as_str())));
        },
        None => {},
    }
    match &c.bad_dim {
        Some(k) => {
            let q = debug_quote(k.as_str());
            Err(Error::Invalid(concat3("dim ", q.as_str(), " out of [0,1]")))
        },
        None => Ok(()),
    }
}

} // verus!
