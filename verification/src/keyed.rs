//! Vectors kept sorted by a string key: the maps of the library (circuits,
//! systems, tools, principals, counters), ordered as `String`'s `Ord` orders
//! their keys.
use vstd::prelude::*;
use crate::text::{lex_lt, str_eq, str_lt, lemma_lex_irreflexive, lemma_lex_asymmetric,
    lemma_lex_total, lemma_lex_transitive};

verus! {

/// A value that carries its own key.
pub trait Keyed: View {
    spec fn key_of(&self) -> Seq<char>;

    fn key(&self) -> (r: &str)
        ensures
            r@ == self.key_of(),
    ;
}

/// Keys strictly increasing.
pub open spec fn sorted_keys<T: Keyed>(s: Seq<T>) -> bool {
    forall|i: int, j: int| 0 <= i < j < s.len() ==> lex_lt(#[trigger] s[i].key_of(), #[trigger] s[j].key_of())
}

/// The map from key to entry.
pub open spec fn key_map<T: Keyed>(s: Seq<T>) -> Map<Seq<char>, T::V>
    decreases s.len(),
{
    if s.len() == 0 {
        Map::empty()
    } else {
        key_map(s.drop_last()).insert(s.last().key_of(), s.last()@)
    }
}

pub proof fn lemma_key_map<T: Keyed>(s: Seq<T>)
    requires
        sorted_keys(s),
    ensures
        forall|i: int| 0 <= i < s.len() ==> #[trigger] key_map(s).contains_key(s[i].key_of()) && key_map(s)[s[i].key_of()] == s[i]@,
        forall|k: Seq<char>| #[trigger] key_map(s).contains_key(k) ==> exists|i: int| 0 <= i < s.len() && s[i].key_of() == k,
        key_map(s).dom().finite(),
        key_map(s).dom().len() == s.len(),
    decreases s.len(),
{
    if s.len() > 0 {
        let p = s.drop_last();
        assert(sorted_keys(p));
        lemma_key_map(p);
        let n = s.len() - 1;
        assert forall|i: int| 0 <= i < p.len() implies #[trigger] p[i].key_of() != s.last().key_of() by {
            assert(lex_lt(s[i].key_of(), s[n].key_of()));
            lemma_lex_irreflexive(s[n].key_of());
        }
        assert(!key_map(p).contains_key(s.last().key_of()));
        assert forall|i: int| 0 <= i < s.len() implies #[trigger] key_map(s).contains_key(s[i].key_of()) && key_map(s)[s[i].key_of()] == s[i]@ by {
            if i < n {
                assert(p[i] == s[i]);
            }
        }
        assert forall|k: Seq<char>| #[trigger] key_map(s).contains_key(k) implies exists|i: int| 0 <= i < s.len() && s[i].key_of() == k by {
            if k != s.last().key_of() {
                assert(key_map(p).contains_key(k));
                let i = choose|i: int| 0 <= i < p.len() && p[i].key_of() == k;
                assert(s[i] == p[i]);
            } else {
                assert(s[n].key_of() == k);
            }
        }
    }
}

/// Two sequences with the same keys and views, entry by entry, give the same
/// map.
/// The map holds exactly the keys of the list.
pub proof fn lemma_key_map_has<T: Keyed>(s: Seq<T>, k: Seq<char>)
    ensures
        key_map(s).contains_key(k) <==> exists|i: int| 0 <= i < s.len() && (#[trigger] s[i]).key_of() == k,
    decreases s.len(),
{
    if s.len() > 0 {
        let p = s.drop_last();
        lemma_key_map_has(p, k);
        if exists|i: int| 0 <= i < s.len() && (#[trigger] s[i]).key_of() == k {
            let i = choose|i: int| 0 <= i < s.len() && (#[trigger] s[i]).key_of() == k;
            if i < s.len() - 1 {
                assert(p[i] == s[i]);
            }
        }
        if exists|i: int| 0 <= i < p.len() && (#[trigger] p[i]).key_of() == k {
            let i = choose|i: int| 0 <= i < p.len() && (#[trigger] p[i]).key_of() == k;
            assert(s[i] == p[i]);
        }
    }
}

/// A key maps to the last entry of the list that has it.
pub proof fn lemma_key_map_last<T: Keyed>(s: Seq<T>, i: int)
    requires
        0 <= i < s.len(),
        forall|j: int| i < j < s.len() ==> (#[trigger] s[j]).key_of() != s[i].key_of(),
    ensures
        key_map(s).contains_key(s[i].key_of()),
        key_map(s)[s[i].key_of()] == s[i]@,
    decreases s.len(),
{
    if i < s.len() - 1 {
        let p = s.drop_last();
        assert(s.last().key_of() != s[i].key_of());
        assert forall|j: int| i < j < p.len() implies (#[trigger] p[j]).key_of() != p[i].key_of() by {
            assert(p[j] == s[j]);
        }
        lemma_key_map_last(p, i);
    }
}

pub proof fn lemma_key_map_congruent<T: Keyed>(a: Seq<T>, b: Seq<T>)
    requires
        a.len() == b.len(),
        forall|i: int| 0 <= i < a.len() ==> (#[trigger] a[i]).key_of() == b[i].key_of() && a[i]@ == b[i]@,
    ensures
        key_map(a) == key_map(b),
        sorted_keys(a) ==> sorted_keys(b),
    decreases a.len(),
{
    if a.len() > 0 {
        lemma_key_map_congruent(a.drop_last(), b.drop_last());
    }
    if sorted_keys(a) {
        assert forall|i: int, j: int| 0 <= i < j < b.len() implies lex_lt(#[trigger] b[i].key_of(), #[trigger] b[j].key_of()) by {
            assert(lex_lt(a[i].key_of(), a[j].key_of()));
        }
    }
}

/// Where `key` is: `Ok(i)` if entry `i` has it, else `Err(i)`, the place it
/// would be inserted to keep the keys sorted.
pub fn search<T: Keyed>(v: &Vec<T>, key: &str) -> (r: Result<usize, usize>)
    requires
        sorted_keys(v@),
    ensures
        match r {
            Ok(i) => i < v@.len() && v@[i as int].key_of() == key@,
            Err(i) => i <= v@.len() && (forall|j: int| 0 <= j < i ==> lex_lt(#[trigger] v@[j].key_of(), key@))
                && (forall|j: int| i <= j < v@.len() ==> lex_lt(key@, #[trigger] v@[j].key_of())),
        },
        r is Err <==> !key_map(v@).contains_key(key@),
{
    proof {
        lemma_key_map(v@);
    }
    let mut i: usize = 0;
    while i < v.len()
        invariant
            i <= v.len(),
            sorted_keys(v@),
            forall|j: int| 0 <= j < i ==> lex_lt(#[trigger] v@[j].key_of(), key@),
        decreases v.len() - i,
    {
        let k = v[i].key();
        if str_eq(k, key) {
            proof {
                lemma_key_map(v@);
            }
            return Ok(i);
        }
        if str_lt(key, k) {
            proof {
                assert forall|j: int| i <= j < v@.len() implies lex_lt(key@, #[trigger] v@[j].key_of()) by {
                    if j > i {
                        lemma_lex_transitive(key@, v@[i as int].key_of(), v@[j].key_of());
                    }
                }
                assert forall|j: int| 0 <= j < v@.len() implies #[trigger] v@[j].key_of() != key@ by {
                    if j < i {
                        lemma_lex_irreflexive(key@);
                    } else {
                        lemma_lex_irreflexive(key@);
                    }
                }
                lemma_key_map(v@);
            }
            return Err(i);
        }
        proof {
            lemma_lex_total(k@, key@);
        }
        i = i + 1;
    }
    proof {
        assert forall|j: int| 0 <= j < v@.len() implies #[trigger] v@[j].key_of() != key@ by {
            lemma_lex_irreflexive(key@);
        }
        lemma_key_map(v@);
    }
    Err(i)
}

/// The entry with `key`.
pub fn lookup<'a, T: Keyed>(v: &'a Vec<T>, key: &str) -> (r: Option<&'a T>)
    requires
        sorted_keys(v@),
    ensures
        match r {
            Some(x) => key_map(v@).contains_key(key@) && key_map(v@)[key@] == x@,
            None => !key_map(v@).contains_key(key@),
        },
{
    proof {
        lemma_key_map(v@);
    }
    match search(v, key) {
        Ok(i) => Some(&v[i]),
        Err(_) => None,
    }
}

/// Inserts `x`, replacing the entry with the same key if there is one.
pub fn upsert<T: Keyed>(v: &mut Vec<T>, x: T)
    requires
        sorted_keys(old(v)@),
    ensures
        sorted_keys(final(v)@),
        key_map(final(v)@) == key_map(old(v)@).insert(x.key_of(), x@),
{
    let ghost k = x.key_of();
    let ghost xv = x@;
    let ghost o = v@;
    proof {
        lemma_key_map(o);
    }
    match search(v, x.key()) {
        Ok(i) => {
            v.set(i, x);
            proof {
                let n = v@;
                assert(n =~= o.update(i as int, x));
                assert forall|a: int, b: int| 0 <= a < b < n.len() implies lex_lt(#[trigger] n[a].key_of(), #[trigger] n[b].key_of()) by {
                    assert(lex_lt(o[a].key_of(), o[b].key_of()));
                }
                lemma_key_map(n);
                assert(key_map(n) =~= key_map(o).insert(k, xv)) by {
                    assert forall|q: Seq<char>| key_map(n).contains_key(q) <==> key_map(o).insert(k, xv).contains_key(q) by {
                        if key_map(n).contains_key(q) {
                            let j = choose|j: int| 0 <= j < n.len() && n[j].key_of() == q;
                            if j != i {
                                assert(o[j] == n[j]);
                            }
                        }
                        if key_map(o).contains_key(q) {
                            let j = choose|j: int| 0 <= j < o.len() && o[j].key_of() == q;
                            if j != i {
                                assert(o[j] == n[j]);
                                assert(key_map(n).contains_key(n[j].key_of()));
                            }
                        }
                    }
                    assert forall|q: Seq<char>| #[trigger] key_map(n).contains_key(q) implies key_map(n)[q] == key_map(o).insert(k, xv)[q] by {
                        let j = choose|j: int| 0 <= j < n.len() && n[j].key_of() == q;
                        if j != i {
                            assert(o[j] == n[j]);
                            assert(key_map(o)[o[j].key_of()] == o[j]@);
                            if j < i {
                                assert(lex_lt(o[j].key_of(), o[i as int].key_of()));
                            } else {
                                assert(lex_lt(o[i as int].key_of(), o[j].key_of()));
                            }
                            lemma_lex_irreflexive(q);
                            assert(q != k);
                        } else {
                            assert(n[j] == x);
                            assert(key_map(n)[n[j].key_of()] == n[j]@);
                        }
                    }
                }
            }
        },
        Err(i) => {
            v.insert(i, x);
            proof {
                let n = v@;
                assert(n =~= o.insert(i as int, x));
                assert forall|a: int, b: int| 0 <= a < b < n.len() implies lex_lt(#[trigger] n[a].key_of(), #[trigger] n[b].key_of()) by {
                    if b < i {
                        assert(lex_lt(o[a].key_of(), o[b].key_of()));
                    } else if b == i {
                        assert(n[a] == o[a]);
                    } else if a == i {
                        assert(n[b] == o[b - 1]);
                    } else if a < i {
                        assert(n[b] == o[b - 1]);
                        lemma_lex_transitive(o[a].key_of(), k, o[b - 1].key_of());
                    } else {
                        assert(lex_lt(o[a - 1].key_of(), o[b - 1].key_of()));
                    }
                }
                lemma_key_map(n);
                assert(key_map(n) =~= key_map(o).insert(k, xv)) by {
                    assert forall|q: Seq<char>| key_map(n).contains_key(q) <==> key_map(o).insert(k, xv).contains_key(q) by {
                        if q == k {
                            assert(n[i as int] == x);
                            assert(key_map(n).contains_key(n[i as int].key_of()));
                        }
                        if key_map(n).contains_key(q) {
                            let j = choose|j: int| 0 <= j < n.len() && n[j].key_of() == q;
                            if j < i {
                                assert(o[j] == n[j]);
                            } else if j > i {
                                assert(o[j - 1] == n[j]);
                            }
                        }
                        if key_map(o).contains_key(q) {
                            let j = choose|j: int| 0 <= j < o.len() && o[j].key_of() == q;
                            if j < i {
                                assert(o[j] == n[j]);
                                assert(key_map(n).contains_key(n[j].key_of()));
                            } else {
                                assert(o[j] == n[j + 1]);
                                assert(key_map(n).contains_key(n[j + 1].key_of()));
                            }
                        }
                    }
                    assert forall|q: Seq<char>| #[trigger] key_map(n).contains_key(q) implies key_map(n)[q] == key_map(o).insert(k, xv)[q] by {
                        let j = choose|j: int| 0 <= j < n.len() && n[j].key_of() == q;
                        if j < i {
                            assert(o[j] == n[j]);
                            assert(key_map(o)[o[j].key_of()] == o[j]@);
                            lemma_lex_irreflexive(k);
                        } else if j > i {
                            assert(o[j - 1] == n[j]);
                            assert(key_map(o)[o[j - 1].key_of()] == o[j - 1]@);
                            lemma_lex_irreflexive(k);
                        }
                    }
                }
            }
        },
    }
}

/// Removes the entry with `key`, returning it.
pub fn remove_key<T: Keyed>(v: &mut Vec<T>, key: &str) -> (r: Option<T>)
    requires
        sorted_keys(old(v)@),
    ensures
        sorted_keys(final(v)@),
        key_map(final(v)@) == key_map(old(v)@).remove(key@),
        match r {
            Some(x) => key_map(old(v)@).contains_key(key@) && key_map(old(v)@)[key@] == x@,
            None => !key_map(old(v)@).contains_key(key@) && final(v)@ == old(v)@,
        },
{
    let ghost o = v@;
    proof {
        lemma_key_map(o);
    }
    match search(v, key) {
        Ok(i) => {
            let x = v.remove(i);
            proof {
                let n = v@;
                assert(n =~= o.remove(i as int));
                assert forall|a: int, b: int| 0 <= a < b < n.len() implies lex_lt(#[trigger] n[a].key_of(), #[trigger] n[b].key_of()) by {
                    if b < i {
                        assert(lex_lt(o[a].key_of(), o[b].key_of()));
                    } else if a < i {
                        assert(lex_lt(o[a].key_of(), o[b + 1].key_of()));
                    } else {
                        assert(lex_lt(o[a + 1].key_of(), o[b + 1].key_of()));
                    }
                }
                lemma_key_map(n);
                assert(key_map(n) =~= key_map(o).remove(key@)) by {
                    assert forall|q: Seq<char>| key_map(n).contains_key(q) <==> key_map(o).remove(key@).contains_key(q) by {
                        if key_map(n).contains_key(q) {
                            let j = choose|j: int| 0 <= j < n.len() && n[j].key_of() == q;
                            if j < i {
                                assert(o[j] == n[j]);
                                assert(lex_lt(o[j].key_of(), o[i as int].key_of()));
                                lemma_lex_irreflexive(q);
                            } else {
                                assert(o[j + 1] == n[j]);
                                assert(lex_lt(o[i as int].key_of(), o[j + 1].key_of()));
                                lemma_lex_irreflexive(q);
                            }
                        }
                        if key_map(o).remove(key@).contains_key(q) {
                            let j = choose|j: int| 0 <= j < o.len() && o[j].key_of() == q;
                            if j < i {
                                assert(o[j] == n[j]);
                                assert(key_map(n).contains_key(n[j].key_of()));
                            } else if j > i {
                                assert(o[j] == n[j - 1]);
                                assert(key_map(n).contains_key(n[j - 1].key_of()));
                            }
                        }
                    }
                    assert forall|q: Seq<char>| #[trigger] key_map(n).contains_key(q) implies key_map(n)[q] == key_map(o).remove(key@)[q] by {
                        let j = choose|j: int| 0 <= j < n.len() && n[j].key_of() == q;
                        if j < i {
                            assert(o[j] == n[j]);
                            assert(key_map(o)[o[j].key_of()] == o[j]@);
                        } else {
                            assert(o[j + 1] == n[j]);
                            assert(key_map(o)[o[j + 1].key_of()] == o[j + 1]@);
                        }
                    }
                }
            }
            Some(x)
        },
        Err(_) => None,
    }
}

} // verus!
