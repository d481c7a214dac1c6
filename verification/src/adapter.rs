//! What the gateway shares with legacy-system adapters: document chunks for
//! retrieval, JSON Schema builders for tool declarations, and the escaping
//! of a path segment.
//!
//! Every tool declares its input and its output as a JSON Schema: the input
//! schema holds a model's arguments in check, the output schema a legacy
//! system's answer.
use vstd::prelude::*;
use vstd::utf8::encode_utf8;
use crate::canon::{sort_entries, sorted_entries};
use crate::json::{Json, JsonV, jv, jv_entries, jv_list, lemma_jv_entries, lemma_jv_list};
use crate::registry::strs;
use crate::text::{chars_of, owned, push_char};

verus! {

/// A piece of a document.
pub struct Chunk {
    pub doc_id: String,
    pub chunk_id: String,
    pub title: String,
    pub text: String,
    /// The roles that may see it; none means no restriction.
    pub roles: Vec<String>,
    /// The customer it belongs to (only the account holder sees it); empty
    /// means no restriction.
    pub customer_id: String,
    pub uri: String,
}

pub struct Query {
    pub text: String,
    pub top_k: usize,
}

pub open spec fn texts_json(v: Seq<String>) -> JsonV {
    JsonV::Array(Seq::new(v.len(), |i: int| JsonV::Str(v[i]@)))
}

/// A closed object schema: fields not declared are refused, so that an
/// argument a model made up is not let through quietly. `required` is left
/// out when empty. Keys stand in sorted order, as in a JSON map.
pub open spec fn object_spec(props: Seq<(Seq<char>, JsonV)>, required: Seq<String>) -> JsonV {
    JsonV::Object(
        seq![("additionalProperties"@, JsonV::Bool(false)), ("properties"@, JsonV::Object(sort_entries(props)))]
            + (if required.len() > 0 {
            seq![("required"@, texts_json(required))]
        } else {
            Seq::empty()
        }) + seq![("type"@, JsonV::Str("object"@))],
    )
}

fn texts_value(v: &Vec<String>) -> (r: Json)
    ensures
        r@ == texts_json(v@),
{
    let mut items: Vec<Json> = Vec::new();
    let mut i: usize = 0;
    while i < v.len()
        invariant
            i <= v@.len(),
            items@.len() == i,
            forall|j: int| 0 <= j < i ==> (#[trigger] items@[j])@ == JsonV::Str(v@[j]@),
        decreases v.len() - i,
    {
        items.push(Json::Str(v[i].clone()));
        i = i + 1;
    }
    proof {
        lemma_jv_list(items@);
        assert(jv_list(items@) =~= Seq::new(v@.len(), |j: int| JsonV::Str(v@[j]@)));
    }
    Json::Array(items)
}

pub fn object(props: &Vec<(String, Json)>, required: &Vec<String>) -> (r: Json)
    ensures
        r@ == object_spec(jv_entries(props@), required@),
{
    let mut v: Vec<(String, Json)> = Vec::new();
    v.push((owned("additionalProperties"), Json::Bool(false)));
    v.push((owned("properties"), Json::Object(sorted_entries(props))));
    if required.len() > 0 {
        v.push((owned("required"), texts_value(required)));
    }
    v.push((owned("type"), Json::Str(owned("object"))));
    proof {
        lemma_jv_entries(v@);
        assert(jv_entries(v@) =~= object_spec(jv_entries(props@), required@)->Object_0);
    }
    Json::Object(v)
}

/// `{"description": desc, "type": kind}`.
pub open spec fn typed_spec(kind: Seq<char>, desc: Seq<char>) -> JsonV {
    JsonV::Object(seq![("description"@, JsonV::Str(desc)), ("type"@, JsonV::Str(kind))])
}

fn typed(kind: &str, desc: &str) -> (r: Json)
    ensures
        r@ == typed_spec(kind@, desc@),
{
    let mut v: Vec<(String, Json)> = Vec::new();
    v.push((owned("description"), Json::Str(owned(desc))));
    v.push((owned("type"), Json::Str(owned(kind))));
    proof {
        lemma_jv_entries(v@);
        assert(jv_entries(v@) =~= typed_spec(kind@, desc@)->Object_0);
    }
    Json::Object(v)
}

pub fn str_prop(desc: &str) -> (r: Json)
    ensures
        r@ == typed_spec("string"@, desc@),
{
    typed("string", desc)
}

pub fn int_prop(desc: &str) -> (r: Json)
    ensures
        r@ == typed_spec("integer"@, desc@),
{
    typed("integer", desc)
}

pub fn bool_prop(desc: &str) -> (r: Json)
    ensures
        r@ == typed_spec("boolean"@, desc@),
{
    typed("boolean", desc)
}

pub fn num_prop(desc: &str) -> (r: Json)
    ensures
        r@ == typed_spec("number"@, desc@),
{
    typed("number", desc)
}

/// A string restricted to `values`.
pub fn str_enum(desc: &str, values: &Vec<String>) -> (r: Json)
    ensures
        r@ == JsonV::Object(
            seq![
                ("description"@, JsonV::Str(desc@)),
                ("enum"@, texts_json(values@)),
                ("type"@, JsonV::Str("string"@)),
            ],
        ),
{
    let mut v: Vec<(String, Json)> = Vec::new();
    v.push((owned("description"), Json::Str(owned(desc))));
    v.push((owned("enum"), texts_value(values)));
    v.push((owned("type"), Json::Str(owned("string"))));
    proof {
        lemma_jv_entries(v@);
        assert(jv_entries(v@) =~= seq![
            ("description"@, JsonV::Str(desc@)),
            ("enum"@, texts_json(values@)),
            ("type"@, JsonV::Str("string"@)),
        ]);
    }
    Json::Object(v)
}

/// An array whose items follow `items`.
pub fn array_prop(desc: &str, items: Json) -> (r: Json)
    ensures
        r@ == JsonV::Object(
            seq![("description"@, JsonV::Str(desc@)), ("items"@, items@), ("type"@, JsonV::Str("array"@))],
        ),
{
    let ghost iv = items@;
    let mut v: Vec<(String, Json)> = Vec::new();
    v.push((owned("description"), Json::Str(owned(desc))));
    v.push((owned("items"), items));
    v.push((owned("type"), Json::Str(owned("array"))));
    proof {
        lemma_jv_entries(v@);
        assert(jv_entries(v@) =~= seq![
            ("description"@, JsonV::Str(desc@)),
            ("items"@, iv),
            ("type"@, JsonV::Str("array"@)),
        ]);
    }
    Json::Object(v)
}

/// Letters, digits and `-_.~` stand as they are in a URL path segment.
pub open spec fn unreserved(c: char) -> bool {
    ('a' <= c && c <= 'z') || ('A' <= c && c <= 'Z') || ('0' <= c && c <= '9') || c == '-' || c == '_' || c
        == '.' || c == '~'
}

pub open spec fn hex_upper(d: nat) -> char {
    if d < 10 {
        (('0' as u32) + d) as char
    } else {
        (('A' as u32) + (d - 10)) as char
    }
}

/// `%XX` for each byte, uppercase hex.
pub open spec fn percent_bytes(b: Seq<u8>) -> Seq<char>
    decreases b.len(),
{
    if b.len() == 0 {
        Seq::empty()
    } else {
        percent_bytes(b.drop_last()) + seq!['%', hex_upper((b.last() / 16) as nat), hex_upper((b.last() % 16) as nat)]
    }
}

pub open spec fn escape_char(c: char) -> Seq<char> {
    if unreserved(c) {
        seq![c]
    } else {
        percent_bytes(encode_utf8(seq![c]))
    }
}

pub open spec fn urlencode_spec(s: Seq<char>) -> Seq<char>
    decreases s.len(),
{
    if s.len() == 0 {
        Seq::empty()
    } else {
        urlencode_spec(s.drop_last()) + escape_char(s.last())
    }
}

fn hex_upper_char(d: u8) -> (c: char)
    requires
        d < 16,
    ensures
        c == hex_upper(d as nat),
{
    let cs: [char; 16] = ['0', '1', '2', '3', '4', '5', '6', '7', '8', '9', 'A', 'B', 'C', 'D', 'E', 'F'];
    let c = cs[d as usize];
    assert(c == hex_upper(d as nat)) by {
        assert(cs@[d as int] == c);
    }
    c
}

/// Escapes a path segment: every character but letters, digits and `-_.~`
/// becomes its UTF-8 bytes as `%XX`.
pub fn urlencode(s: &str) -> (r: String)
    ensures
        r@ == urlencode_spec(s@),
{
    let cs = chars_of(s);
    let mut out = String::new();
    let mut i: usize = 0;
    while i < cs.len()
        invariant
            i <= cs@.len(),
            cs@ == s@,
            out@ == urlencode_spec(s@.take(i as int)),
        decreases cs.len() - i,
    {
        let c = cs[i];
        let ghost t = s@.take(i + 1);
        assert(t.drop_last() =~= s@.take(i as int));
        assert(t.last() == c);
        if ('a' <= c && c <= 'z') || ('A' <= c && c <= 'Z') || ('0' <= c && c <= '9') || c == '-' || c == '_'
            || c == '.' || c == '~' {
            push_char(&mut out, c);
        } else {
            let mut one = String::new();
            push_char(&mut one, c);
            let bytes = one.as_str().as_bytes();
            let ghost start = out@;
            let mut k: usize = 0;
            while k < bytes.len()
                invariant
                    k <= bytes@.len(),
                    bytes@ == encode_utf8(seq![c]),
                    out@ == start + percent_bytes(bytes@.take(k as int)),
                decreases bytes.len() - k,
            {
                let b = bytes[k];
                let ghost bt = bytes@.take(k + 1);
                assert(bt.drop_last() =~= bytes@.take(k as int));
                assert(bt.last() == b);
                push_char(&mut out, '%');
                push_char(&mut out, hex_upper_char(b / 16));
                push_char(&mut out, hex_upper_char(b % 16));
                assert(out@ =~= start + percent_bytes(bt));
                k = k + 1;
            }
            assert(bytes@.take(bytes@.len() as int) =~= bytes@);
        }
        assert(out@ =~= urlencode_spec(t));
        i = i + 1;
    }
    assert(s@.take(s@.len() as int) =~= s@);
    out
}

} // verus!
