//! The audit log's records and their hash chain.
//!
//! Records are only appended. Each is sealed with a hash over the previous
//! record's hash and its own content, so a deleted, altered or reordered row
//! no longer checks.
use vstd::prelude::*;
use vstd::slice::slice_to_vec;
use vstd::utf8::encode_utf8;
use crate::canon::{canon_entries, canonical_object, last_wins, law_sort_ignores_insertion_order, sort_entries};
use crate::clock::{rfc3339_parse, rfc3339_secs, to_rfc3339, truncate_to_second};
use crate::digest::{hex_lower, sha256_hex, sha256_of};
use crate::json::{Json, JsonV, Number, NumberV, json_text, jv_entries, lemma_jv_entries};
use crate::text::{owned, str_eq};

verus! {

/// One audit record. Instants are nanoseconds since the Unix epoch.
pub struct Entry {
    pub id: i64,
    pub timestamp: i64,
    pub actor: String,
    pub tool: String,
    pub system: String,
    pub access: String,
    /// `allowed` or `denied`.
    pub decision: String,
    pub reason: String,
    /// `n/a`, `pending`, `approved` or `rejected`.
    pub approval_status: String,
    pub approval_id: String,
    pub request_id: String,
    pub session_id: String,
    pub masked: bool,
    pub input: Option<Vec<(String, Json)>>,
    pub output: Option<Vec<(String, Json)>>,
    pub latency_ms: i64,
    pub input_tokens: i64,
    pub output_tokens: i64,
    /// Cost in millionths, kept whole to avoid rounding.
    pub cost_micros: i64,
    pub error: String,
    pub prompt: String,
    /// Injection signals, such as `프롬프트: override_instructions`; empty
    /// when there are none.
    pub injection: String,
}

pub open spec fn opt_entries(m: Option<Vec<(String, Json)>>) -> Option<Seq<(String, Json)>> {
    match m {
        Some(v) => Some(v@),
        None => None,
    }
}

/// A map as the JSON writer gives it: keys sorted at every depth; no map
/// is `null`.
pub open spec fn map_json(m: Option<Seq<(String, Json)>>) -> JsonV {
    match m {
        Some(es) => JsonV::Object(sort_entries(canon_entries(es))),
        None => JsonV::Null,
    }
}

pub open spec fn int_json(x: i64) -> JsonV {
    JsonV::Num(NumberV::Int(x as int))
}

/// The record as the hash reads it: its fields in declaration order under
/// their exported names, the timestamp at whole seconds in RFC 3339.
pub open spec fn hashed_entry(e: Entry) -> JsonV {
    JsonV::Object(
        seq![
            ("ID"@, int_json(e.id)),
            ("Timestamp"@, JsonV::Str(rfc3339_secs(e.timestamp))),
            ("Actor"@, JsonV::Str(e.actor@)),
            ("Tool"@, JsonV::Str(e.tool@)),
            ("System"@, JsonV::Str(e.system@)),
            ("Access"@, JsonV::Str(e.access@)),
            ("Decision"@, JsonV::Str(e.decision@)),
            ("Reason"@, JsonV::Str(e.reason@)),
            ("ApprovalStatus"@, JsonV::Str(e.approval_status@)),
            ("ApprovalID"@, JsonV::Str(e.approval_id@)),
            ("RequestID"@, JsonV::Str(e.request_id@)),
            ("SessionID"@, JsonV::Str(e.session_id@)),
            ("Masked"@, JsonV::Bool(e.masked)),
            ("Input"@, map_json(opt_entries(e.input))),
            ("Output"@, map_json(opt_entries(e.output))),
            ("LatencyMS"@, int_json(e.latency_ms)),
            ("InputTokens"@, int_json(e.input_tokens)),
            ("OutputTokens"@, int_json(e.output_tokens)),
            ("CostMicros"@, int_json(e.cost_micros)),
            ("Error"@, JsonV::Str(e.error@)),
            ("Prompt"@, JsonV::Str(e.prompt@)),
            ("Injection"@, JsonV::Str(e.injection@)),
        ],
    )
}

/// The hashed document: `{"Prev": prev, "Entry": record}`.
pub open spec fn hash_payload(prev: Seq<char>, e: Entry) -> JsonV {
    JsonV::Object(seq![("Prev"@, JsonV::Str(prev)), ("Entry"@, hashed_entry(e))])
}

pub open spec fn integrity_hash_spec(prev: Seq<char>, e: Entry) -> Seq<char> {
    hex_lower(sha256_of(encode_utf8(json_text(hash_payload(prev, e)))))
}

fn map_value(m: &Option<Vec<(String, Json)>>) -> (r: Json)
    ensures
        r@ == map_json(opt_entries(*m)),
{
    match m {
        Some(es) => Json::Object(canonical_object(es)),
        None => Json::Null,
    }
}

fn str_value(s: &String) -> (r: Json)
    ensures
        r@ == JsonV::Str(s@),
{
    Json::Str(s.clone())
}

fn int_value(x: i64) -> (r: Json)
    ensures
        r@ == int_json(x),
{
    Json::Num(Number::Int(x as i128))
}

fn hashed_entry_value(e: &Entry) -> (r: Json)
    ensures
        r@ == hashed_entry(*e),
{
    let mut v: Vec<(String, Json)> = Vec::new();
    v.push((owned("ID"), int_value(e.id)));
    v.push((owned("Timestamp"), Json::Str(to_rfc3339(e.timestamp))));
    v.push((owned("Actor"), str_value(&e.actor)));
    v.push((owned("Tool"), str_value(&e.tool)));
    v.push((owned("System"), str_value(&e.system)));
    v.push((owned("Access"), str_value(&e.access)));
    v.push((owned("Decision"), str_value(&e.decision)));
    v.push((owned("Reason"), str_value(&e.reason)));
    v.push((owned("ApprovalStatus"), str_value(&e.approval_status)));
    v.push((owned("ApprovalID"), str_value(&e.approval_id)));
    v.push((owned("RequestID"), str_value(&e.request_id)));
    v.push((owned("SessionID"), str_value(&e.session_id)));
    v.push((owned("Masked"), Json::Bool(e.masked)));
    v.push((owned("Input"), map_value(&e.input)));
    v.push((owned("Output"), map_value(&e.output)));
    v.push((owned("LatencyMS"), int_value(e.latency_ms)));
    v.push((owned("InputTokens"), int_value(e.input_tokens)));
    v.push((owned("OutputTokens"), int_value(e.output_tokens)));
    v.push((owned("CostMicros"), int_value(e.cost_micros)));
    v.push((owned("Error"), str_value(&e.error)));
    v.push((owned("Prompt"), str_value(&e.prompt)));
    v.push((owned("Injection"), str_value(&e.injection)));
    proof {
        lemma_jv_entries(v@);
        assert(jv_entries(v@) =~= hashed_entry(*e)->Object_0);
    }
    Json::Object(v)
}

/// The chain hash: lowercase hex SHA-256 of the compact JSON of
/// `{"Prev": prev, "Entry": record}`. The first record's `prev` is empty.
pub fn integrity_hash(prev: &str, e: &Entry) -> (r: String)
    ensures
        r@ == integrity_hash_spec(prev@, *e),
        r@.len() == 64,
{
    let text = hash_input(prev, e);
    let bytes = slice_to_vec(text.as_str().as_bytes());
    sha256_hex(bytes.as_slice())
}

/// The text the chain hash is taken over: the compact JSON of
/// `{"Prev": prev, "Entry": record}`, the record's fields in declaration
/// order under their stored names.
pub fn hash_input(prev: &str, e: &Entry) -> (r: String)
    ensures
        r@ == json_text(hash_payload(prev@, *e)),
{
    let mut v: Vec<(String, Json)> = Vec::new();
    v.push((owned("Prev"), Json::Str(owned(prev))));
    v.push((owned("Entry"), hashed_entry_value(e)));
    let payload = Json::Object(v);
    proof {
        lemma_jv_entries(v@);
        assert(jv_entries(v@) =~= hash_payload(prev@, *e)->Object_0);
    }
    payload.to_text()
}

/// The record with its maps left out.
pub open spec fn without_maps(e: Entry) -> Entry {
    Entry { input: None, output: None, ..e }
}

/// Records whose maps hold the same entries hash alike, whatever order the
/// keys were inserted in.
pub proof fn law_hash_ignores_insertion_order(prev: Seq<char>, a: Entry, b: Entry)
    requires
        a.input.is_some() == b.input.is_some(),
        a.output.is_some() == b.output.is_some(),
        a.input.is_some() ==> last_wins(canon_entries(a.input.unwrap()@)) == last_wins(
            canon_entries(b.input.unwrap()@),
        ),
        a.output.is_some() ==> last_wins(canon_entries(a.output.unwrap()@)) == last_wins(
            canon_entries(b.output.unwrap()@),
        ),
        without_maps(a) == without_maps(b),
    ensures
        integrity_hash_spec(prev, a) == integrity_hash_spec(prev, b),
{
    if a.input.is_some() {
        law_sort_ignores_insertion_order(canon_entries(a.input.unwrap()@), canon_entries(b.input.unwrap()@));
    }
    if a.output.is_some() {
        law_sort_ignores_insertion_order(canon_entries(a.output.unwrap()@), canon_entries(b.output.unwrap()@));
    }
    let ea = without_maps(a);
    let eb = without_maps(b);
    assert(a.id == ea.id && b.id == eb.id && a.timestamp == ea.timestamp && b.timestamp == eb.timestamp);
    assert(a.actor == ea.actor && b.actor == eb.actor && a.tool == ea.tool && b.tool == eb.tool);
    assert(a.system == ea.system && b.system == eb.system && a.access == ea.access && b.access == eb.access);
    assert(a.decision == ea.decision && b.decision == eb.decision && a.reason == ea.reason && b.reason == eb.reason);
    assert(a.approval_status == ea.approval_status && b.approval_status == eb.approval_status);
    assert(a.approval_id == ea.approval_id && b.approval_id == eb.approval_id);
    assert(a.request_id == ea.request_id && b.request_id == eb.request_id);
    assert(a.session_id == ea.session_id && b.session_id == eb.session_id && a.masked == ea.masked && b.masked == eb.masked);
    assert(a.latency_ms == ea.latency_ms && b.latency_ms == eb.latency_ms);
    assert(a.input_tokens == ea.input_tokens && b.input_tokens == eb.input_tokens);
    assert(a.output_tokens == ea.output_tokens && b.output_tokens == eb.output_tokens);
    assert(a.cost_micros == ea.cost_micros && b.cost_micros == eb.cost_micros);
    assert(a.error == ea.error && b.error == eb.error && a.prompt == ea.prompt && b.prompt == eb.prompt);
    assert(a.injection == ea.injection && b.injection == eb.injection);
    assert(map_json(opt_entries(a.input)) == map_json(opt_entries(b.input)));
    assert(map_json(opt_entries(a.output)) == map_json(opt_entries(b.output)));
    assert(hashed_entry(a) =~~= hashed_entry(b));
    assert(hash_payload(prev, a) =~~= hash_payload(prev, b));
}

/// A record as stored, with its place in the chain.
pub struct Link {
    pub entry: Entry,
    pub prev_hash: String,
    pub entry_hash: String,
}

/// A record is sealed by its id, its timestamp at whole seconds (the
/// stored form, so that the hash reads what is stored), and a hash over
/// the chain's last hash.
pub fn seal(e: Entry, id: i64, prev: &str) -> (r: Link)
    ensures
        r.entry == (Entry {
            id,
            timestamp: match rfc3339_parse(rfc3339_secs(e.timestamp)) {
                Some(x) => x,
                None => e.timestamp,
            },
            ..e
        }),
        r.prev_hash@ == prev@,
        r.entry_hash@ == integrity_hash_spec(prev@, r.entry),
{
    let mut e = e;
    e.id = id;
    e.timestamp = truncate_to_second(e.timestamp);
    let h = integrity_hash(prev, &e);
    Link { entry: e, prev_hash: owned(prev), entry_hash: h }
}

/// The hash the record at `i` must follow: the stored hash of the record
/// before it, and the empty text for the first.
pub open spec fn chain_prev(s: Seq<Link>, i: int) -> Seq<char> {
    if i == 0 {
        Seq::empty()
    } else {
        s[i - 1].entry_hash@
    }
}

/// A record holds its place: it has a hash, it follows the previous hash,
/// and its hash is the one its content and that previous hash give.
pub open spec fn link_ok(s: Seq<Link>, i: int) -> bool {
    &&& s[i].entry_hash@.len() > 0
    &&& s[i].prev_hash@ == chain_prev(s, i)
    &&& s[i].entry_hash@ == integrity_hash_spec(chain_prev(s, i), s[i].entry)
}

/// Checks a chain in id order. `Err(id)` names the first record that does
/// not hold its place.
pub fn verify_chain(rows: &Vec<Link>) -> (r: Result<(), i64>)
    ensures
        r is Ok <==> forall|i: int| 0 <= i < rows@.len() ==> link_ok(rows@, i),
        r matches Err(id) ==> exists|i: int|
            0 <= i < rows@.len() && rows@[i].entry.id == id && !link_ok(rows@, i) && forall|j: int|
                0 <= j < i ==> link_ok(rows@, j),
{
    let mut prev = String::new();
    let mut i: usize = 0;
    while i < rows.len()
        invariant
            i <= rows@.len(),
            prev@ == chain_prev(rows@, i as int),
            forall|j: int| 0 <= j < i ==> link_ok(rows@, j),
        decreases rows.len() - i,
    {
        let row = &rows[i];
        let none = String::new();
        let empty = str_eq(row.entry_hash.as_str(), none.as_str());
        let h = integrity_hash(prev.as_str(), &row.entry);
        if empty || !str_eq(row.prev_hash.as_str(), prev.as_str()) || !str_eq(row.entry_hash.as_str(), h.as_str()) {
            proof {
                assert(none@.len() == 0);
                assert(!link_ok(rows@, i as int));
                assert(rows@[i as int].entry.id == row.entry.id);
            }
            return Err(row.entry.id);
        }
        proof {
            if row.entry_hash@.len() == 0 {
                assert(row.entry_hash@ =~= none@);
            }
        }
        prev = row.entry_hash.clone();
        i = i + 1;
    }
    Ok(())
}

/// A chain sealed record by record, each over the hash before it, checks.
pub proof fn law_sealed_chain_verifies(rows: Seq<Link>)
    requires
        forall|i: int|
            0 <= i < rows.len() ==> (#[trigger] rows[i]).prev_hash@ == chain_prev(rows, i)
                && rows[i].entry_hash@ == integrity_hash_spec(chain_prev(rows, i), rows[i].entry)
                && rows[i].entry_hash@.len() == 64,
    ensures
        forall|i: int| 0 <= i < rows.len() ==> link_ok(rows, i),
{
    assert forall|i: int| 0 <= i < rows.len() implies link_ok(rows, i) by {
        assert(rows[i].entry_hash@.len() == 64);
    }
}

/// Record filters for a query.
pub struct Filter {
    pub actor: String,
    pub tool: String,
    pub system: String,
    pub session_id: String,
    /// `allowed` or `denied`.
    pub decision: String,
    pub errors_only: bool,
    pub masked_only: bool,
    pub injection_only: bool,
    pub since: Option<i64>,
    pub limit: i64,
}

/// The axis of an aggregate: the column it groups by.
#[derive(Clone, Copy, PartialEq, Eq, Debug, Structural)]
pub enum GroupBy {
    Actor,
    Tool,
    System,
    Session,
}

pub open spec fn column_text(g: GroupBy) -> Seq<char> {
    match g {
        GroupBy::Actor => "actor"@,
        GroupBy::Tool => "tool"@,
        GroupBy::System => "system"@,
        GroupBy::Session => "session_id"@,
    }
}

pub open spec fn group_named(t: Seq<char>) -> Option<GroupBy> {
    if t == "actor"@ {
        Some(GroupBy::Actor)
    } else if t == "tool"@ {
        Some(GroupBy::Tool)
    } else if t == "system"@ {
        Some(GroupBy::System)
    } else if t == "session"@ || t == "session_id"@ {
        Some(GroupBy::Session)
    } else {
        None
    }
}

impl GroupBy {
    /// The column name; it is put into query text, so only these four can
    /// come out.
    pub fn column(self) -> (r: &'static str)
        ensures
            r@ == column_text(self),
    {
        match self {
            GroupBy::Actor => "actor",
            GroupBy::Tool => "tool",
            GroupBy::System => "system",
            GroupBy::Session => "session_id",
        }
    }

    pub fn parse(s: &str) -> (r: Option<GroupBy>)
        ensures
            r == group_named(s@),
    {
        if str_eq(s, "actor") {
            Some(GroupBy::Actor)
        } else if str_eq(s, "tool") {
            Some(GroupBy::Tool)
        } else if str_eq(s, "system") {
            Some(GroupBy::System)
        } else if str_eq(s, "session") || str_eq(s, "session_id") {
            Some(GroupBy::Session)
        } else {
            None
        }
    }
}

/// Every axis reads back from its column name.
pub proof fn law_column_round_trip(g: GroupBy)
    ensures
        group_named(column_text(g)) == Some(g),
{
    reveal_strlit("actor");
    reveal_strlit("tool");
    reveal_strlit("system");
    reveal_strlit("session");
    reveal_strlit("session_id");
    assert("actor"@[0] == 'a' && "tool"@[0] == 't' && "system"@[1] == 'y');
    assert("session_id"@.len() == 10 && "session"@.len() == 7 && "system"@.len() == 6);
}

/// The hashed document holds every field of the record: two records with
/// the same document over the same previous hash agree on every field (the
/// timestamp as written at whole seconds, the maps as their canonical
/// JSON). So a change to any one field, the reason included, changes what
/// is hashed.
pub proof fn law_hash_covers_every_field(prev: Seq<char>, a: Entry, b: Entry)
    requires
        hash_payload(prev, a) == hash_payload(prev, b),
    ensures
        a.id == b.id,
        rfc3339_secs(a.timestamp) == rfc3339_secs(b.timestamp),
        a.actor@ == b.actor@,
        a.tool@ == b.tool@,
        a.system@ == b.system@,
        a.access@ == b.access@,
        a.decision@ == b.decision@,
        a.reason@ == b.reason@,
        a.approval_status@ == b.approval_status@,
        a.approval_id@ == b.approval_id@,
        a.request_id@ == b.request_id@,
        a.session_id@ == b.session_id@,
        a.masked == b.masked,
        map_json(opt_entries(a.input)) == map_json(opt_entries(b.input)),
        map_json(opt_entries(a.output)) == map_json(opt_entries(b.output)),
        a.latency_ms == b.latency_ms,
        a.input_tokens == b.input_tokens,
        a.output_tokens == b.output_tokens,
        a.cost_micros == b.cost_micros,
        a.error@ == b.error@,
        a.prompt@ == b.prompt@,
        a.injection@ == b.injection@,
{
    let x = hash_payload(prev, a)->Object_0[1].1->Object_0;
    let y = hash_payload(prev, b)->Object_0[1].1->Object_0;
    assert(x == y);
    assert(x[0] == y[0] && x[1] == y[1] && x[2] == y[2] && x[3] == y[3] && x[4] == y[4] && x[5] == y[5]);
    assert(x[6] == y[6] && x[7] == y[7] && x[8] == y[8] && x[9] == y[9] && x[10] == y[10] && x[11] == y[11]);
    assert(x[12] == y[12] && x[13] == y[13] && x[14] == y[14] && x[15] == y[15] && x[16] == y[16]);
    assert(x[17] == y[17] && x[18] == y[18] && x[19] == y[19] && x[20] == y[20] && x[21] == y[21]);
}

} // verus!
