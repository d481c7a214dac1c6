//! Key-sorted JSON. Every object's entries stand in the order of `String`'s
//! `Ord`, and an entry replaces an earlier one with the same key: the form a
//! JSON map keyed by a sorted tree gives, whatever order the keys were
//! inserted in.
use vstd::prelude::*;
use crate::json::{Json, JsonV, jv, jv_entries, jv_list, lemma_jv_entries, lemma_jv_list};
use crate::text::{
    lex_lt, lemma_lex_asymmetric, lemma_lex_irreflexive, lemma_lex_total, lemma_lex_transitive,
    str_eq, str_lt,
};

verus! {

/// Puts `e` into the key-sorted `s`: before the first key that is not
/// smaller, or in place of an entry with the same key.
pub open spec fn insert_entry(s: Seq<(Seq<char>, JsonV)>, e: (Seq<char>, JsonV)) -> Seq<
    (Seq<char>, JsonV),
>
    decreases s.len(),
{
    if s.len() == 0 {
        seq![e]
    } else if s[0].0 == e.0 {
        seq![e] + s.drop_first()
    } else if lex_lt(s[0].0, e.0) {
        seq![s[0]] + insert_entry(s.drop_first(), e)
    } else {
        seq![e] + s
    }
}

/// The entries of `s`, inserted one by one into a sorted map.
pub open spec fn sort_entries(s: Seq<(Seq<char>, JsonV)>) -> Seq<(Seq<char>, JsonV)>
    decreases s.len(),
{
    if s.len() == 0 {
        Seq::empty()
    } else {
        insert_entry(sort_entries(s.drop_last()), s.last())
    }
}

/// The key-sorted form of a value, objects at every depth sorted.
pub open spec fn canon(j: Json) -> JsonV
    decreases j,
{
    match j {
        Json::Array(v) => JsonV::Array(canon_list(v@)),
        Json::Object(v) => JsonV::Object(sort_entries(canon_entries(v@))),
        _ => jv(j),
    }
}

pub open spec fn canon_list(s: Seq<Json>) -> Seq<JsonV>
    decreases s,
{
    if s.len() == 0 {
        Seq::empty()
    } else {
        canon_list(s.drop_last()).push(canon(s.last()))
    }
}

pub open spec fn canon_entries(s: Seq<(String, Json)>) -> Seq<(Seq<char>, JsonV)>
    decreases s,
{
    if s.len() == 0 {
        Seq::empty()
    } else {
        canon_entries(s.drop_last()).push((s.last().0@, canon(s.last().1)))
    }
}

/// What a map keeps of a list of entries: for each key, its last value.
pub open spec fn last_wins(s: Seq<(Seq<char>, JsonV)>) -> Map<Seq<char>, JsonV>
    decreases s.len(),
{
    if s.len() == 0 {
        Map::empty()
    } else {
        last_wins(s.drop_last()).insert(s.last().0, s.last().1)
    }
}

/// Keys strictly increasing.
pub open spec fn strictly_sorted(s: Seq<(Seq<char>, JsonV)>) -> bool {
    forall|i: int, j: int| 0 <= i < j < s.len() ==> lex_lt(#[trigger] s[i].0, #[trigger] s[j].0)
}

pub open spec fn front_map(s: Seq<(Seq<char>, JsonV)>) -> Map<Seq<char>, JsonV>
    decreases s.len(),
{
    if s.len() == 0 {
        Map::empty()
    } else {
        front_map(s.drop_first()).insert(s[0].0, s[0].1)
    }
}

proof fn lemma_canon_list(s: Seq<Json>)
    ensures
        canon_list(s).len() == s.len(),
        forall|i: int| 0 <= i < s.len() ==> #[trigger] canon_list(s)[i] == canon(s[i]),
    decreases s.len(),
{
    if s.len() > 0 {
        lemma_canon_list(s.drop_last());
    }
}

proof fn lemma_canon_entries(s: Seq<(String, Json)>)
    ensures
        canon_entries(s).len() == s.len(),
        forall|i: int|
            0 <= i < s.len() ==> #[trigger] canon_entries(s)[i] == (s[i].0@, canon(s[i].1)),
    decreases s.len(),
{
    if s.len() > 0 {
        lemma_canon_entries(s.drop_last());
    }
}

/// Every entry of `insert_entry(s, e)` is `e` or one of `s`.
proof fn lemma_insert_members(s: Seq<(Seq<char>, JsonV)>, e: (Seq<char>, JsonV))
    ensures
        forall|i: int|
            0 <= i < insert_entry(s, e).len() ==> #[trigger] insert_entry(s, e)[i] == e
                || s.contains(insert_entry(s, e)[i]),
    decreases s.len(),
{
    if s.len() > 0 && s[0].0 != e.0 && lex_lt(s[0].0, e.0) {
        let r = s.drop_first();
        lemma_insert_members(r, e);
        assert forall|i: int| 0 <= i < insert_entry(s, e).len() implies #[trigger] insert_entry(
            s,
            e,
        )[i] == e || s.contains(insert_entry(s, e)[i]) by {
            if i == 0 {
                assert(s[0] == insert_entry(s, e)[0]);
            } else {
                let x = insert_entry(r, e)[i - 1];
                assert(insert_entry(s, e)[i] == x);
                if x != e {
                    let k = choose|k: int| 0 <= k < r.len() && r[k] == x;
                    assert(s[k + 1] == x);
                }
            }
        }
    } else if s.len() > 0 && s[0].0 == e.0 {
        assert forall|i: int| 0 <= i < insert_entry(s, e).len() implies #[trigger] insert_entry(
            s,
            e,
        )[i] == e || s.contains(insert_entry(s, e)[i]) by {
            if i > 0 {
                assert(s[i] == insert_entry(s, e)[i]);
            }
        }
    } else if s.len() > 0 {
        assert forall|i: int| 0 <= i < insert_entry(s, e).len() implies #[trigger] insert_entry(
            s,
            e,
        )[i] == e || s.contains(insert_entry(s, e)[i]) by {
            if i > 0 {
                assert(s[i - 1] == insert_entry(s, e)[i]);
            }
        }
    }
}

proof fn lemma_insert_sorted(s: Seq<(Seq<char>, JsonV)>, e: (Seq<char>, JsonV))
    requires
        strictly_sorted(s),
    ensures
        strictly_sorted(insert_entry(s, e)),
    decreases s.len(),
{
    let t = insert_entry(s, e);
    if s.len() == 0 {
    } else if s[0].0 == e.0 {
        assert forall|i: int, j: int| 0 <= i < j < t.len() implies lex_lt(
            #[trigger] t[i].0,
            #[trigger] t[j].0,
        ) by {
            assert(t[j] == s[j]);
            if i > 0 {
                assert(t[i] == s[i]);
            } else {
                assert(lex_lt(s[0].0, s[j].0));
            }
        }
    } else if lex_lt(s[0].0, e.0) {
        let r = s.drop_first();
        assert(strictly_sorted(r)) by {
            assert forall|i: int, j: int| 0 <= i < j < r.len() implies lex_lt(
                #[trigger] r[i].0,
                #[trigger] r[j].0,
            ) by {
                assert(r[i] == s[i + 1] && r[j] == s[j + 1]);
            }
        }
        lemma_insert_sorted(r, e);
        lemma_insert_members(r, e);
        let u = insert_entry(r, e);
        assert forall|i: int, j: int| 0 <= i < j < t.len() implies lex_lt(
            #[trigger] t[i].0,
            #[trigger] t[j].0,
        ) by {
            assert(t[j] == u[j - 1]);
            if i > 0 {
                assert(t[i] == u[i - 1]);
            } else {
                assert(t[0] == s[0]);
                if u[j - 1] != e {
                    let k = choose|k: int| 0 <= k < r.len() && r[k] == u[j - 1];
                    assert(s[k + 1] == r[k]);
                    assert(lex_lt(s[0].0, s[k + 1].0));
                }
            }
        }
    } else {
        lemma_lex_total(s[0].0, e.0);
        assert forall|i: int, j: int| 0 <= i < j < t.len() implies lex_lt(
            #[trigger] t[i].0,
            #[trigger] t[j].0,
        ) by {
            assert(t[j] == s[j - 1]);
            if i > 0 {
                assert(t[i] == s[i - 1]);
            } else if j > 1 {
                assert(lex_lt(s[0].0, s[j - 1].0));
                lemma_lex_transitive(e.0, s[0].0, s[j - 1].0);
            }
        }
    }
}

/// In a strictly sorted list, each key stands once, with its value.
proof fn lemma_front_map(s: Seq<(Seq<char>, JsonV)>)
    requires
        strictly_sorted(s),
    ensures
        forall|k: Seq<char>|
            #[trigger] front_map(s).dom().contains(k) <==> exists|i: int|
                0 <= i < s.len() && s[i].0 == k,
        forall|i: int| 0 <= i < s.len() ==> front_map(s)[#[trigger] s[i].0] == s[i].1,
    decreases s.len(),
{
    if s.len() > 0 {
        let r = s.drop_first();
        assert(strictly_sorted(r)) by {
            assert forall|i: int, j: int| 0 <= i < j < r.len() implies lex_lt(
                #[trigger] r[i].0,
                #[trigger] r[j].0,
            ) by {
                assert(r[i] == s[i + 1] && r[j] == s[j + 1]);
            }
        }
        lemma_front_map(r);
        assert forall|k: Seq<char>| #[trigger] front_map(s).dom().contains(k) <==> exists|i: int|
            0 <= i < s.len() && s[i].0 == k by {
            if front_map(r).dom().contains(k) {
                let i = choose|i: int| 0 <= i < r.len() && r[i].0 == k;
                assert(s[i + 1].0 == k);
            }
            if exists|i: int| 0 <= i < s.len() && s[i].0 == k {
                let i = choose|i: int| 0 <= i < s.len() && s[i].0 == k;
                if i > 0 {
                    assert(r[i - 1].0 == k);
                }
            }
        }
        assert forall|i: int| 0 <= i < s.len() implies front_map(s)[#[trigger] s[i].0] == s[i].1 by {
            if i > 0 {
                assert(r[i - 1] == s[i]);
                assert(lex_lt(s[0].0, s[i].0));
                lemma_lex_irreflexive(s[0].0);
            }
        }
    }
}

proof fn lemma_insert_map(s: Seq<(Seq<char>, JsonV)>, e: (Seq<char>, JsonV))
    requires
        strictly_sorted(s),
    ensures
        front_map(insert_entry(s, e)) == front_map(s).insert(e.0, e.1),
    decreases s.len(),
{
    if s.len() == 0 {
        let t = seq![e];
        assert(t.drop_first() =~= Seq::<(Seq<char>, JsonV)>::empty());
        assert(front_map(t.drop_first()) =~= Map::<Seq<char>, JsonV>::empty());
        assert(front_map(t) =~= Map::<Seq<char>, JsonV>::empty().insert(e.0, e.1));
    } else if s[0].0 == e.0 {
        let t = seq![e] + s.drop_first();
        assert(t.drop_first() =~= s.drop_first());
        assert(front_map(t) =~= front_map(s).insert(e.0, e.1));
    } else if lex_lt(s[0].0, e.0) {
        let r = s.drop_first();
        assert(strictly_sorted(r)) by {
            assert forall|i: int, j: int| 0 <= i < j < r.len() implies lex_lt(
                #[trigger] r[i].0,
                #[trigger] r[j].0,
            ) by {
                assert(r[i] == s[i + 1] && r[j] == s[j + 1]);
            }
        }
        lemma_insert_map(r, e);
        let t = seq![s[0]] + insert_entry(r, e);
        assert(t.drop_first() =~= insert_entry(r, e));
        assert(front_map(t) =~= front_map(s).insert(e.0, e.1));
    } else {
        let t = seq![e] + s;
        assert(t.drop_first() =~= s);
    }
}

proof fn lemma_sort_entries(s: Seq<(Seq<char>, JsonV)>)
    ensures
        strictly_sorted(sort_entries(s)),
        front_map(sort_entries(s)) == last_wins(s),
    decreases s.len(),
{
    if s.len() == 0 {
        assert(front_map(Seq::<(Seq<char>, JsonV)>::empty()) =~= Map::<Seq<char>, JsonV>::empty());
    } else {
        lemma_sort_entries(s.drop_last());
        lemma_insert_sorted(sort_entries(s.drop_last()), s.last());
        lemma_insert_map(sort_entries(s.drop_last()), s.last());
    }
}

/// Two strictly sorted lists that hold the same map are the same list.
proof fn lemma_sorted_unique(a: Seq<(Seq<char>, JsonV)>, b: Seq<(Seq<char>, JsonV)>)
    requires
        strictly_sorted(a),
        strictly_sorted(b),
        front_map(a) == front_map(b),
    ensures
        a == b,
    decreases a.len(),
{
    lemma_front_map(a);
    lemma_front_map(b);
    if a.len() == 0 {
        if b.len() > 0 {
            assert(front_map(b).dom().contains(b[0].0));
        }
        assert(a =~= b);
    } else if b.len() == 0 {
        assert(front_map(a).dom().contains(a[0].0));
    } else {
        assert(front_map(a).dom().contains(a[0].0));
        let j = choose|j: int| 0 <= j < b.len() && b[j].0 == a[0].0;
        assert(front_map(b).dom().contains(b[0].0));
        let i = choose|i: int| 0 <= i < a.len() && a[i].0 == b[0].0;
        if j > 0 {
            assert(lex_lt(b[0].0, b[j].0));
            if i == 0 {
                lemma_lex_irreflexive(b[0].0);
            } else {
                assert(lex_lt(a[0].0, a[i].0));
                lemma_lex_asymmetric(b[0].0, a[0].0);
            }
        }
        assert(a[0].0 == b[0].0);
        assert(a[0].1 == front_map(a)[a[0].0]);
        assert(b[0].1 == front_map(b)[b[0].0]);
        assert(a[0] == b[0]);
        let ra = a.drop_first();
        let rb = b.drop_first();
        assert(strictly_sorted(ra)) by {
            assert forall|x: int, y: int| 0 <= x < y < ra.len() implies lex_lt(
                #[trigger] ra[x].0,
                #[trigger] ra[y].0,
            ) by {
                assert(ra[x] == a[x + 1] && ra[y] == a[y + 1]);
            }
        }
        assert(strictly_sorted(rb)) by {
            assert forall|x: int, y: int| 0 <= x < y < rb.len() implies lex_lt(
                #[trigger] rb[x].0,
                #[trigger] rb[y].0,
            ) by {
                assert(rb[x] == b[x + 1] && rb[y] == b[y + 1]);
            }
        }
        lemma_front_map(ra);
        lemma_front_map(rb);
        let k = a[0].0;
        assert(!front_map(ra).dom().contains(k)) by {
            if front_map(ra).dom().contains(k) {
                let x = choose|x: int| 0 <= x < ra.len() && ra[x].0 == k;
                assert(lex_lt(a[0].0, a[x + 1].0));
                lemma_lex_irreflexive(k);
            }
        }
        assert(!front_map(rb).dom().contains(k)) by {
            if front_map(rb).dom().contains(k) {
                let x = choose|x: int| 0 <= x < rb.len() && rb[x].0 == k;
                assert(lex_lt(b[0].0, b[x + 1].0));
                lemma_lex_irreflexive(k);
            }
        }
        assert(front_map(ra) =~= front_map(a).remove(k));
        assert(front_map(rb) =~= front_map(b).remove(k));
        lemma_sorted_unique(ra, rb);
        assert(a =~= seq![a[0]] + ra);
        assert(b =~= seq![b[0]] + rb);
    }
}

/// Sorting keeps each key's last value, and gives keys in strictly
/// increasing order.
pub proof fn law_sorted_entries(s: Seq<(Seq<char>, JsonV)>)
    ensures
        strictly_sorted(sort_entries(s)),
        forall|k: Seq<char>|
            #[trigger] last_wins(s).dom().contains(k) <==> exists|i: int|
                0 <= i < sort_entries(s).len() && sort_entries(s)[i].0 == k,
        forall|i: int|
            0 <= i < sort_entries(s).len() ==> last_wins(s)[#[trigger] sort_entries(s)[i].0]
                == sort_entries(s)[i].1,
{
    lemma_sort_entries(s);
    lemma_front_map(sort_entries(s));
}

/// The sorted form depends only on what a map keeps of the entries: the
/// order in which keys were inserted makes no difference.
pub proof fn law_sort_ignores_insertion_order(
    a: Seq<(Seq<char>, JsonV)>,
    b: Seq<(Seq<char>, JsonV)>,
)
    requires
        last_wins(a) == last_wins(b),
    ensures
        sort_entries(a) == sort_entries(b),
{
    lemma_sort_entries(a);
    lemma_sort_entries(b);
    lemma_sorted_unique(sort_entries(a), sort_entries(b));
}

/// Where `e` goes in `s`: `r.0` is its place; `r.1` says that an entry with
/// its key stands there already.
fn find_slot(s: &Vec<(String, Json)>, k: &str) -> (r: (usize, bool))
    ensures
        r.0 <= s@.len(),
        forall|x: JsonV|
            #[trigger] insert_entry(jv_entries(s@), (k@, x)) == jv_entries(s@).take(r.0 as int) + (
            if r.1 {
                seq![(k@, x)] + jv_entries(s@).skip(r.0 + 1)
            } else {
                seq![(k@, x)] + jv_entries(s@).skip(r.0 as int)
            }),
        r.1 ==> r.0 < s@.len(),
{
    let ghost es = jv_entries(s@);
    proof {
        lemma_jv_entries(s@);
    }
    let n = s.len();
    let mut i: usize = 0;
    assert forall|x: JsonV| #[trigger] insert_entry(es, (k@, x)) == es.take(0) + insert_entry(
        es.skip(0),
        (k@, x),
    ) by {
        assert(es.take(0) =~= Seq::<(Seq<char>, JsonV)>::empty());
        assert(es.skip(0) =~= es);
        assert(es.take(0) + insert_entry(es.skip(0), (k@, x)) =~= insert_entry(es, (k@, x)));
    }
    while i < n
        invariant
            i <= n,
            n == s@.len(),
            es == jv_entries(s@),
            es.len() == n,
            forall|j: int| 0 <= j < n ==> #[trigger] es[j] == (s@[j].0@, jv(s@[j].1)),
            forall|x: JsonV|
                #[trigger] insert_entry(es, (k@, x)) == es.take(i as int) + insert_entry(
                    es.skip(i as int),
                    (k@, x),
                ),
        decreases n - i,
    {
        let eq = str_eq(s[i].0.as_str(), k);
        let lt = str_lt(s[i].0.as_str(), k);
        let ghost t = es.skip(i as int);
        assert(t[0] == es[i as int]);
        if eq {
            assert forall|x: JsonV| #[trigger] insert_entry(es, (k@, x)) == es.take(i as int) + (
            seq![(k@, x)] + es.skip(i + 1)) by {
                assert(t.drop_first() =~= es.skip(i + 1));
            }
            return (i, true);
        }
        if !lt {
            assert forall|x: JsonV| #[trigger] insert_entry(es, (k@, x)) == es.take(i as int) + (
            seq![(k@, x)] + es.skip(i as int)) by {}
            return (i, false);
        }
        assert forall|x: JsonV| #[trigger] insert_entry(es, (k@, x)) == es.take(i + 1) + insert_entry(
            es.skip(i + 1),
            (k@, x),
        ) by {
            assert(t.drop_first() =~= es.skip(i + 1));
            assert(es.take(i + 1) =~= es.take(i as int) + seq![es[i as int]]);
            assert(insert_entry(t, (k@, x)) == seq![t[0]] + insert_entry(t.drop_first(), (k@, x)));
        }
        i = i + 1;
    }
    assert forall|x: JsonV| #[trigger] insert_entry(es, (k@, x)) == es.take(i as int) + (seq![(k@, x)]
        + es.skip(i as int)) by {
        assert(es.skip(i as int) =~= Seq::<(Seq<char>, JsonV)>::empty());
    }
    (i, false)
}

/// Puts an entry into a key-sorted list of entries.
fn insert_sorted(out: &mut Vec<(String, Json)>, k: String, v: Json)
    ensures
        jv_entries(final(out)@) == insert_entry(jv_entries(old(out)@), (k@, jv(v))),
{
    let ghost es = jv_entries(out@);
    let ghost e = (k@, jv(v));
    proof {
        lemma_jv_entries(out@);
    }
    let (i, hit) = find_slot(out, k.as_str());
    assert(insert_entry(es, e) == es.take(i as int) + (if hit {
        seq![e] + es.skip(i + 1)
    } else {
        seq![e] + es.skip(i as int)
    }));
    if hit {
        out.set(i, (k, v));
        proof {
            lemma_jv_entries(out@);
            assert(jv_entries(out@) =~= es.take(i as int) + (seq![e] + es.skip(i + 1)));
        }
    } else {
        out.insert(i, (k, v));
        proof {
            lemma_jv_entries(out@);
            assert(jv_entries(out@) =~= es.take(i as int) + (seq![e] + es.skip(i as int)));
        }
    }
}

/// The key-sorted copy of a value: every object, at every depth, with its
/// entries in key order and one entry per key (the last one given).
pub fn canonical(j: &Json) -> (r: Json)
    ensures
        r@ == canon(*j),
    decreases j,
{
    match j {
        Json::Array(items) => {
            let mut out: Vec<Json> = Vec::new();
            let mut i: usize = 0;
            proof {
                assert forall|x: int| 0 <= x < items@.len() implies decreases_to!(*j => #[trigger] items@[x]) by {
                    assert(decreases_to!(*j => *items));
                    assert(decreases_to!(*items => items@));
                    assert(decreases_to!(items@ => items@[x]));
                }
            }
            while i < items.len()
                invariant
                    i <= items.len(),
                    forall|x: int| 0 <= x < items@.len() ==> decreases_to!(*j => #[trigger] items@[x]),
                    out@.len() == i,
                    forall|x: int| 0 <= x < i ==> jv(#[trigger] out@[x]) == canon(items@[x]),
                decreases items.len() - i,
            {
                let c = canonical(&items[i]);
                out.push(c);
                i = i + 1;
            }
            proof {
                lemma_jv_list(out@);
                lemma_canon_list(items@);
                assert(jv_list(out@) =~= canon_list(items@));
            }
            Json::Array(out)
        },
        Json::Object(entries) => {
            assert(decreases_to!(*j => *entries));
            let out = canonical_object(entries);
            Json::Object(out)
        },
        _ => j.copy(),
    }
}

/// The entries of an object, key-sorted at every depth, one per key (the
/// last one given).
pub fn canonical_object(entries: &Vec<(String, Json)>) -> (r: Vec<(String, Json)>)
    ensures
        jv_entries(r@) == sort_entries(canon_entries(entries@)),
    decreases entries,
{
    let mut out: Vec<(String, Json)> = Vec::new();
    let mut i: usize = 0;
    proof {
        assert forall|x: int| 0 <= x < entries@.len() implies decreases_to!(*entries => #[trigger] entries@[x].1) by {
            assert(decreases_to!(*entries => entries@));
            assert(decreases_to!(entries@ => entries@[x]));
            assert(decreases_to!(entries@[x] => entries@[x].1));
        }
        assert(jv_entries(out@) =~= sort_entries(canon_entries(entries@.take(0))));
    }
    while i < entries.len()
        invariant
            i <= entries.len(),
            forall|x: int| 0 <= x < entries@.len() ==> decreases_to!(*entries => #[trigger] entries@[x].1),
            jv_entries(out@) == sort_entries(canon_entries(entries@.take(i as int))),
        decreases entries.len() - i,
    {
        let c = canonical(&entries[i].1);
        let key = entries[i].0.clone();
        proof {
            let t = entries@.take(i + 1);
            assert(t.drop_last() =~= entries@.take(i as int));
            assert(t.last() == entries@[i as int]);
            assert(canon_entries(t) == canon_entries(entries@.take(i as int)).push(
                (key@, c@),
            ));
            let ce = canon_entries(t);
            assert(ce.drop_last() =~= canon_entries(entries@.take(i as int)));
            assert(ce.last() == (key@, c@));
            assert(sort_entries(ce) == insert_entry(
                sort_entries(canon_entries(entries@.take(i as int))),
                (key@, c@),
            ));
        }
        insert_sorted(&mut out, key, c);
        i = i + 1;
    }
    proof {
        assert(entries@.take(entries@.len() as int) =~= entries@);
    }
    out
}

/// The entries inserted one by one into a sorted map (a later entry
/// replacing an earlier one with its key); the values are kept as they are.
pub fn sorted_entries(entries: &Vec<(String, Json)>) -> (r: Vec<(String, Json)>)
    ensures
        jv_entries(r@) == sort_entries(jv_entries(entries@)),
{
    let mut out: Vec<(String, Json)> = Vec::new();
    let mut i: usize = 0;
    proof {
        lemma_jv_entries(entries@);
        assert(jv_entries(entries@).take(0) =~= Seq::<(Seq<char>, JsonV)>::empty());
    }
    while i < entries.len()
        invariant
            i <= entries@.len(),
            jv_entries(entries@).len() == entries@.len(),
            forall|x: int| 0 <= x < entries@.len() ==> #[trigger] jv_entries(entries@)[x] == (entries@[x].0@, jv(entries@[x].1)),
            jv_entries(out@) == sort_entries(jv_entries(entries@).take(i as int)),
        decreases entries.len() - i,
    {
        let v = entries[i].1.copy();
        let key = entries[i].0.clone();
        proof {
            let t = jv_entries(entries@).take(i + 1);
            assert(t.drop_last() =~= jv_entries(entries@).take(i as int));
            assert(t.last() == (key@, v@));
        }
        insert_sorted(&mut out, key, v);
        i = i + 1;
    }
    assert(jv_entries(entries@).take(entries@.len() as int) =~= jv_entries(entries@));
    out
}

} // verus!
