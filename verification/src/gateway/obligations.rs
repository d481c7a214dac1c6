//! Obligations narrow an allowed call's output.
//!
//! Policies such as "summaries only" or "mask personal data before the
//! model sees it" do not refuse a call; they shrink its result. The order
//! matters: after the output schema check (so a contract breach of the
//! system is not mistaken for narrowing) and before masking (so a removed
//! field never leaks as "masked but present").
use vstd::prelude::*;
use crate::json::{Json, JsonV, jv, jv_list, jv_entries, obj_get, lemma_jv_list, lemma_jv_entries, set_entry};
use crate::policy::{Obligations, ObligationsV, obligations_zero};
use crate::registry::strs;
use crate::text::{unicode_lower, to_lowercase, owned};

verus! {

/// A value with every object field whose lowercased name is in `fields`
/// removed (not masked), at any depth, through objects and arrays.
pub open spec fn redact_json(v: JsonV, fields: Seq<Seq<char>>) -> JsonV
    decreases v,
{
    match v {
        JsonV::Object(es) => JsonV::Object(redact_entries(es, fields)),
        JsonV::Array(items) => JsonV::Array(redact_items(items, fields)),
        _ => v,
    }
}

pub open spec fn redact_entries(es: Seq<(Seq<char>, JsonV)>, fields: Seq<Seq<char>>) -> Seq<(Seq<char>, JsonV)>
    decreases es,
{
    if es.len() == 0 {
        Seq::empty()
    } else {
        let rest = redact_entries(es.drop_last(), fields);
        if fields.contains(unicode_lower(es.last().0)) {
            rest
        } else {
            rest.push((es.last().0, redact_json(es.last().1, fields)))
        }
    }
}

pub open spec fn redact_items(items: Seq<JsonV>, fields: Seq<Seq<char>>) -> Seq<JsonV>
    decreases items,
{
    if items.len() == 0 {
        Seq::empty()
    } else {
        redact_items(items.drop_last(), fields).push(redact_json(items.last(), fields))
    }
}

/// Whether redaction removes anything.
pub open spec fn redact_hit(v: JsonV, fields: Seq<Seq<char>>) -> bool
    decreases v,
{
    match v {
        JsonV::Object(es) => entries_hit(es, fields),
        JsonV::Array(items) => items_hit(items, fields),
        _ => false,
    }
}

pub open spec fn entries_hit(es: Seq<(Seq<char>, JsonV)>, fields: Seq<Seq<char>>) -> bool
    decreases es,
{
    if es.len() == 0 {
        false
    } else {
        entries_hit(es.drop_last(), fields) || fields.contains(unicode_lower(es.last().0)) || redact_hit(
            es.last().1,
            fields,
        )
    }
}

pub open spec fn items_hit(items: Seq<JsonV>, fields: Seq<Seq<char>>) -> bool
    decreases items,
{
    if items.len() == 0 {
        false
    } else {
        items_hit(items.drop_last(), fields) || redact_hit(items.last(), fields)
    }
}

fn redact_value(v: &Json, fields: &Vec<String>) -> (r: (Json, bool))
    ensures
        r.0@ == redact_json(v@, strs(fields@)),
        r.1 == redact_hit(v@, strs(fields@)),
    decreases v,
{
    let ghost fs = strs(fields@);
    match v {
        Json::Object(es) => {
            let ghost ev = jv_entries(es@);
            proof {
                lemma_jv_entries(es@);
                assert forall|j: int| 0 <= j < es@.len() implies decreases_to!(*v => #[trigger] es@[j].1) by {
                    assert(decreases_to!(*v => *es));
                    assert(decreases_to!(*es => es@));
                    assert(decreases_to!(es@ => es@[j]));
                    assert(decreases_to!(es@[j] => es@[j].1));
                }
            }
            let mut out: Vec<(String, Json)> = Vec::new();
            let mut hit = false;
            let mut i: usize = 0;
            while i < es.len()
                invariant
                    i <= es.len(),
                    fs == strs(fields@),
                    ev == jv_entries(es@),
                    ev.len() == es@.len(),
                    forall|j: int| 0 <= j < es@.len() ==> #[trigger] ev[j] == (es@[j].0@, jv(es@[j].1)),
                    forall|j: int| 0 <= j < es@.len() ==> decreases_to!(*v => #[trigger] es@[j].1),
                    jv_entries(out@) == redact_entries(ev.take(i as int), fs),
                    hit == entries_hit(ev.take(i as int), fs),
                decreases es.len() - i,
            {
                assert(ev.take(i + 1).drop_last() =~= ev.take(i as int));
                assert(ev.take(i + 1).last() == ev[i as int]);
                let lower = to_lowercase(es[i].0.as_str());
                proof {
                    crate::auth::lemma_strs_has(fields@, lower@);
                }
                if crate::text::vec_has(fields, lower.as_str()) {
                    hit = true;
                } else {
                    let (child, h) = redact_value(&es[i].1, fields);
                    let ghost before = out@;
                    out.push((es[i].0.clone(), child));
                    proof {
                        assert(out@.drop_last() =~= before);
                    }
                    hit = hit || h;
                }
                i = i + 1;
            }
            assert(ev.take(ev.len() as int) =~= ev);
            (Json::Object(out), hit)
        },
        Json::Array(items) => {
            let ghost iv = jv_list(items@);
            proof {
                lemma_jv_list(items@);
                assert forall|j: int| 0 <= j < items@.len() implies decreases_to!(*v => #[trigger] items@[j]) by {
                    assert(decreases_to!(*v => *items));
                    assert(decreases_to!(*items => items@));
                    assert(decreases_to!(items@ => items@[j]));
                }
            }
            let mut out: Vec<Json> = Vec::new();
            let mut hit = false;
            let mut i: usize = 0;
            while i < items.len()
                invariant
                    i <= items.len(),
                    fs == strs(fields@),
                    iv == jv_list(items@),
                    iv.len() == items@.len(),
                    forall|j: int| 0 <= j < items@.len() ==> #[trigger] iv[j] == jv(items@[j]),
                    forall|j: int| 0 <= j < items@.len() ==> decreases_to!(*v => #[trigger] items@[j]),
                    jv_list(out@) == redact_items(iv.take(i as int), fs),
                    hit == items_hit(iv.take(i as int), fs),
                decreases items.len() - i,
            {
                assert(iv.take(i + 1).drop_last() =~= iv.take(i as int));
                assert(iv.take(i + 1).last() == iv[i as int]);
                let (child, h) = redact_value(&items[i], fields);
                let ghost before = out@;
                out.push(child);
                proof {
                    assert(out@.drop_last() =~= before);
                }
                hit = hit || h;
                i = i + 1;
            }
            assert(iv.take(iv.len() as int) =~= iv);
            (Json::Array(out), hit)
        },
        _ => (v.copy(), false),
    }
}

/// The top-level entries with every array value longer than `max` cut to
/// its first `max` elements; nested arrays are left alone (a row limit is
/// about how many results are shown).
pub open spec fn cut_entries(es: Seq<(Seq<char>, JsonV)>, max: int) -> Seq<(Seq<char>, JsonV)> {
    es.map_values(|e: (Seq<char>, JsonV)| match e.1 {
        JsonV::Array(items) => if items.len() > max {
            (e.0, JsonV::Array(items.take(max)))
        } else {
            e
        },
        _ => e,
    })
}

/// An array longer than `max`.
pub open spec fn long_array(v: JsonV, max: int) -> bool {
    match v {
        JsonV::Array(items) => items.len() > max,
        _ => false,
    }
}

/// Whether some top-level array is longer than `max`.
pub open spec fn cut_hit(es: Seq<(Seq<char>, JsonV)>, max: int) -> bool {
    exists|j: int| 0 <= j < es.len() && long_array((#[trigger] es[j]).1, max)
}

/// The note added to an output whose rows were cut.
pub open spec fn truncated_reason() -> Seq<char> {
    "정책이 반환 행 수를 제한했습니다"@
}

fn cut_arrays(es: &Vec<(String, Json)>, max: u64) -> (r: (Vec<(String, Json)>, bool))
    ensures
        jv_entries(r.0@) == cut_entries(jv_entries(es@), max as int),
        r.1 == cut_hit(jv_entries(es@), max as int),
{
    let ghost ev = jv_entries(es@);
    proof {
        lemma_jv_entries(es@);
    }
    let mut out: Vec<(String, Json)> = Vec::new();
    let mut hit = false;
    let mut i: usize = 0;
    while i < es.len()
        invariant
            i <= es.len(),
            ev == jv_entries(es@),
            ev.len() == es@.len(),
            forall|j: int| 0 <= j < es@.len() ==> #[trigger] ev[j] == (es@[j].0@, jv(es@[j].1)),
            jv_entries(out@) == cut_entries(ev.take(i as int), max as int),
            hit == cut_hit(ev.take(i as int), max as int),
        decreases es.len() - i,
    {
        assert(ev.take(i + 1).drop_last() =~= ev.take(i as int));
        let ghost before = out@;
        let (value, h) = match &es[i].1 {
            Json::Array(items) => {
                proof {
                    lemma_jv_list(items@);
                }
                if items.len() as u64 > max {
                    let mut kept: Vec<Json> = Vec::new();
                    let mut k: usize = 0;
                    while k < items.len() && (k as u64) < max
                        invariant
                            k as u64 <= max,
                            k <= items.len(),
                            max < items@.len(),
                            kept@.len() == k,
                            forall|m: int| 0 <= m < k ==> jv(#[trigger] kept@[m]) == jv(items@[m]),
                        decreases max - k as u64,
                    {
                        kept.push(items[k].copy());
                        k = k + 1;
                    }
                    proof {
                        lemma_jv_list(kept@);
                        assert(jv_list(kept@) =~= jv_list(items@).take(max as int));
                    }
                    (Json::Array(kept), true)
                } else {
                    (es[i].1.copy(), false)
                }
            },
            _ => (es[i].1.copy(), false),
        };
        out.push((es[i].0.clone(), value));
        proof {
            assert(out@.drop_last() =~= before);
            assert(cut_entries(ev.take(i + 1), max as int) =~= cut_entries(ev.take(i as int), max as int).push(
                cut_entries(ev.take(i + 1), max as int)[i as int],
            ));
            if h {
                assert(ev.take(i + 1)[i as int] == ev[i as int]);
            }
            if cut_hit(ev.take(i + 1), max as int) && !cut_hit(ev.take(i as int), max as int) {
                let j = choose|j: int| 0 <= j < i + 1 && long_array((#[trigger] ev.take(i + 1)[j]).1, max as int);
                if j < i {
                    assert(ev.take(i as int)[j] == ev.take(i + 1)[j]);
                }
            }
            if cut_hit(ev.take(i as int), max as int) {
                let j = choose|j: int| 0 <= j < i && long_array((#[trigger] ev.take(i as int)[j]).1, max as int);
                assert(ev.take(i + 1)[j] == ev.take(i as int)[j]);
            }
        }
        hit = hit || h;
        i = i + 1;
    }
    assert(ev.take(ev.len() as int) =~= ev);
    (out, hit)
}

/// The output after its obligations: redacted fields removed at any
/// depth (names compared lowercased), then top-level arrays cut to
/// `max_rows`, with `truncated: true` and a reason added when something was
/// cut; and whether anything was narrowed. No obligations change nothing.
pub open spec fn shaped_value(out: Seq<(Seq<char>, JsonV)>, o: ObligationsV, k: Seq<char>) -> Option<JsonV> {
    let fields = o.redact_fields.map_values(|f: Seq<char>| unicode_lower(f));
    let redacted = redact_entries(out, fields);
    let cut = if o.max_rows > 0 {
        cut_entries(redacted, o.max_rows as int)
    } else {
        redacted
    };
    let marked = o.max_rows > 0 && cut_hit(redacted, o.max_rows as int);
    if marked && k == "truncated"@ {
        Some(JsonV::Bool(true))
    } else if marked && k == "truncated_reason"@ {
        Some(JsonV::Str(truncated_reason()))
    } else {
        obj_get(cut, k)
    }
}

pub open spec fn narrowed_spec(out: Seq<(Seq<char>, JsonV)>, o: ObligationsV) -> bool {
    let fields = o.redact_fields.map_values(|f: Seq<char>| unicode_lower(f));
    let redacted = redact_entries(out, fields);
    !obligations_zero(o) && (entries_hit(out, fields) || (o.max_rows > 0 && cut_hit(redacted, o.max_rows as int)))
}

fn lowered(v: &Vec<String>) -> (r: Vec<String>)
    ensures
        strs(r@) == strs(v@).map_values(|f: Seq<char>| unicode_lower(f)),
{
    let mut out: Vec<String> = Vec::new();
    let mut i: usize = 0;
    while i < v.len()
        invariant
            i <= v.len(),
            out@.len() == i,
            forall|j: int| 0 <= j < i ==> (#[trigger] out@[j])@ == unicode_lower(v@[j]@),
        decreases v.len() - i,
    {
        out.push(to_lowercase(v[i].as_str()));
        i = i + 1;
    }
    assert(strs(out@) =~= strs(v@).map_values(|f: Seq<char>| unicode_lower(f)));
    out
}

/// Applies obligations to an output object. Returns the shaped output and
/// whether anything was narrowed.
pub fn apply(out: &Vec<(String, Json)>, o: &Obligations) -> (r: (Vec<(String, Json)>, bool))
    ensures
        obligations_zero(o@) ==> jv_entries(r.0@) == jv_entries(out@) && !r.1,
        !obligations_zero(o@) ==> forall|k: Seq<char>| #[trigger] obj_get(jv_entries(r.0@), k) == shaped_value(
            jv_entries(out@),
            o@,
            k,
        ),
        r.1 == narrowed_spec(jv_entries(out@), o@),
{
    if o.is_zero() {
        let copy = Json::Object(crate::auth::copy_entries(out));
        return match copy {
            Json::Object(es) => (es, false),
            _ => (Vec::new(), false),
        };
    }
    let fields = lowered(&o.redact_fields);
    let ghost fs = strs(fields@);
    let (shaped, redacted) = redact_value(&Json::Object(crate::auth::copy_entries(out)), &fields);
    let mut m = match shaped {
        Json::Object(es) => es,
        _ => Vec::new(),
    };
    let mut truncated = false;
    if o.max_rows > 0 {
        let (cut, hit) = cut_arrays(&m, o.max_rows as u64);
        m = cut;
        truncated = hit;
    }
    let ghost before = jv_entries(m@);
    if truncated {
        set_entry(&mut m, "truncated", Json::Bool(true));
        set_entry(&mut m, "truncated_reason", Json::Str(owned("정책이 반환 행 수를 제한했습니다")));
        proof {
            reveal_strlit("truncated");
            reveal_strlit("truncated_reason");
            assert("truncated"@ != "truncated_reason"@) by {
                assert("truncated"@.len() != "truncated_reason"@.len());
            }
        }
    }
    (m, redacted || truncated)
}

} // verus!
