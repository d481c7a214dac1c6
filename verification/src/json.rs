//! JSON values as the library holds them.
use vstd::prelude::*;
use crate::text::{push_char, int_to_string, int_text};

verus! {

/// An exact decimal: `digits / 10^scale`.
#[derive(Clone, Copy, PartialEq, Eq, Debug)]
pub struct Decimal {
    pub digits: i64,
    pub scale: u8,
}

/// `10^n`.
pub open spec fn pow10(n: nat) -> int
    decreases n,
{
    if n == 0 {
        1
    } else {
        10 * pow10((n - 1) as nat)
    }
}

pub proof fn lemma_pow10_pos(n: nat)
    ensures
        pow10(n) >= 1,
    decreases n,
{
    if n > 0 {
        lemma_pow10_pos((n - 1) as nat);
    }
}

pub proof fn lemma_pow10_add(a: nat, b: nat)
    ensures
        pow10(a + b) == pow10(a) * pow10(b),
    decreases a,
{
    if a > 0 {
        lemma_pow10_add((a - 1) as nat, b);
        assert(pow10(a + b) == 10 * pow10((a - 1 + b) as nat));
        assert(10 * (pow10((a - 1) as nat) * pow10(b)) == (10 * pow10((a - 1) as nat)) * pow10(b)) by (nonlinear_arith);
    }
}

pub proof fn lemma_pow10_mono(a: nat, b: nat)
    requires
        a <= b,
    ensures
        pow10(a) <= pow10(b),
    decreases b,
{
    if b > a {
        lemma_pow10_mono(a, (b - 1) as nat);
        lemma_pow10_pos((b - 1) as nat);
    }
}

pub proof fn lemma_pow10_values()
    ensures
        pow10(17) == 100_000_000_000_000_000,
        pow10(18) == 1_000_000_000_000_000_000,
        pow10(19) == 10_000_000_000_000_000_000,
{
    reveal_with_fuel(pow10, 20);
}

/// `10^n` for `n <= 18`.
pub fn pow10_exec(n: u32) -> (r: i128)
    requires
        n <= 18,
    ensures
        r == pow10(n as nat),
        1 <= r <= 1_000_000_000_000_000_000,
{
    let mut r: i128 = 1;
    let mut i: u32 = 0;
    proof {
        lemma_pow10_values();
    }
    while i < n
        invariant
            i <= n <= 18,
            r == pow10(i as nat),
            pow10(17) == 100_000_000_000_000_000,
        decreases n - i,
    {
        proof {
            lemma_pow10_mono(i as nat, 17);
            lemma_pow10_pos(i as nat);
        }
        r = r * 10;
        i = i + 1;
    }
    proof {
        lemma_pow10_mono(n as nat, 18);
        lemma_pow10_pos(n as nat);
        lemma_pow10_values();
    }
    r
}

/// A JSON number.
#[derive(Debug)]
pub enum Number {
    /// An integer (serde_json keeps every integer in `i64` or `u64`).
    Int(i128),
    /// A non-integer or float-typed number: its exact decimal value, and the
    /// text the JSON printer gives it.
    Float(Decimal, String),
}

#[derive(Debug)]
pub enum Json {
    Null,
    Bool(bool),
    Num(Number),
    Str(String),
    Array(Vec<Json>),
    Object(Vec<(String, Json)>),
}

pub open spec fn sign(x: int) -> int {
    if x < 0 {
        -1
    } else if x > 0 {
        1
    } else {
        0
    }
}

/// How a number compares with a decimal: -1 below, 0 equal, 1 above (exact
/// arithmetic).
pub open spec fn num_order_spec(n: NumberV, d: Decimal) -> int {
    match n {
        NumberV::Int(i) => sign(i * pow10(d.scale as nat) - d.digits),
        NumberV::Float(e, _) => sign(e.digits * pow10(d.scale as nat) - d.digits * pow10(e.scale as nat)),
    }
}

proof fn lemma_sign_scale(a: int, p: int)
    requires
        p >= 1,
    ensures
        sign(a * p) == sign(a),
{
    if a > 0 {
        assert(a * p > 0) by (nonlinear_arith)
            requires
                a > 0,
                p >= 1,
        ;
    } else if a < 0 {
        assert(a * p < 0) by (nonlinear_arith)
            requires
                a < 0,
                p >= 1,
        ;
    } else {
        assert(a * p == 0);
    }
}

/// `sign(x * 10^k - y)` for `|y| < 10^19`.
fn order_scaled(x: i128, k: u32, y: i128) -> (r: i8)
    requires
        -10_000_000_000_000_000_000 < y < 10_000_000_000_000_000_000,
    ensures
        r == sign(x * pow10(k as nat) - y),
{
    proof {
        lemma_pow10_pos(k as nat);
        lemma_pow10_values();
    }
    if x == 0 {
        assert(x * pow10(k as nat) == 0);
        return if y > 0 {
            -1
        } else if y < 0 {
            1
        } else {
            0
        };
    }
    if k >= 19 || x >= 10_000_000_000_000_000_000 || x <= -10_000_000_000_000_000_000 {
        proof {
            let p = pow10(k as nat);
            if k >= 19 {
                lemma_pow10_mono(19, k as nat);
            }
            assert(p >= 1);
            assert(k >= 19 ==> p >= 10_000_000_000_000_000_000);
            if x > 0 {
                assert(x * p >= 10_000_000_000_000_000_000) by (nonlinear_arith)
                    requires
                        x >= 1,
                        p >= 1,
                        k >= 19 ==> p >= 10_000_000_000_000_000_000,
                        k < 19 ==> x >= 10_000_000_000_000_000_000,
                ;
            } else {
                assert(x * p <= -10_000_000_000_000_000_000) by (nonlinear_arith)
                    requires
                        x <= -1,
                        p >= 1,
                        k >= 19 ==> p >= 10_000_000_000_000_000_000,
                        k < 19 ==> x <= -10_000_000_000_000_000_000,
                ;
            }
        }
        return if x > 0 {
            1
        } else {
            -1
        };
    }
    let p = pow10_exec(k);
    assert(-10_000_000_000_000_000_000 * 1_000_000_000_000_000_000 <= x * p <= 10_000_000_000_000_000_000
        * 1_000_000_000_000_000_000) by (nonlinear_arith)
        requires
            -10_000_000_000_000_000_000 < x < 10_000_000_000_000_000_000,
            1 <= p <= 1_000_000_000_000_000_000,
    ;
    let l = x * p;
    if l < y {
        -1
    } else if l > y {
        1
    } else {
        0
    }
}

impl Number {
    /// How this number compares with `d`: -1 below, 0 equal, 1 above.
    pub fn order_against(&self, d: &Decimal) -> (r: i8)
        ensures
            r == num_order_spec(self@, *d),
    {
        match self {
            Number::Int(i) => order_scaled(*i, d.scale as u32, d.digits as i128),
            Number::Float(e, _) => {
                if e.scale >= d.scale {
                    let k = (e.scale - d.scale) as u32;
                    let c = order_scaled(d.digits as i128, k, e.digits as i128);
                    proof {
                        lemma_pow10_add(d.scale as nat, k as nat);
                        lemma_pow10_pos(d.scale as nat);
                        let pd = pow10(d.scale as nat);
                        let pk = pow10(k as nat);
                        assert(e.digits * pd - d.digits * (pd * pk) == (e.digits - d.digits * pk) * pd) by (nonlinear_arith);
                        lemma_sign_scale(e.digits - d.digits * pk, pd);
                    }
                    -c
                } else {
                    let k = (d.scale - e.scale) as u32;
                    let c = order_scaled(e.digits as i128, k, d.digits as i128);
                    proof {
                        lemma_pow10_add(e.scale as nat, k as nat);
                        lemma_pow10_pos(e.scale as nat);
                        let pe = pow10(e.scale as nat);
                        let pk = pow10(k as nat);
                        assert(e.digits * (pe * pk) - d.digits * pe == (e.digits * pk - d.digits) * pe) by (nonlinear_arith);
                        lemma_sign_scale(e.digits * pk - d.digits, pe);
                    }
                    c
                }
            },
        }
    }
}

pub ghost enum NumberV {
    Int(int),
    Float(Decimal, Seq<char>),
}

pub ghost enum JsonV {
    Null,
    Bool(bool),
    Num(NumberV),
    Str(Seq<char>),
    Array(Seq<JsonV>),
    Object(Seq<(Seq<char>, JsonV)>),
}

impl View for Number {
    type V = NumberV;

    open spec fn view(&self) -> NumberV {
        match self {
            Number::Int(i) => NumberV::Int(*i as int),
            Number::Float(d, t) => NumberV::Float(*d, t@),
        }
    }
}

pub open spec fn jv(j: Json) -> JsonV
    decreases j,
{
    match j {
        Json::Null => JsonV::Null,
        Json::Bool(b) => JsonV::Bool(b),
        Json::Num(n) => JsonV::Num(n@),
        Json::Str(s) => JsonV::Str(s@),
        Json::Array(v) => JsonV::Array(jv_list(v@)),
        Json::Object(v) => JsonV::Object(jv_entries(v@)),
    }
}

pub open spec fn jv_list(s: Seq<Json>) -> Seq<JsonV>
    decreases s,
{
    if s.len() == 0 {
        Seq::empty()
    } else {
        jv_list(s.drop_last()).push(jv(s.last()))
    }
}

pub open spec fn jv_entries(s: Seq<(String, Json)>) -> Seq<(Seq<char>, JsonV)>
    decreases s,
{
    if s.len() == 0 {
        Seq::empty()
    } else {
        jv_entries(s.drop_last()).push((s.last().0@, jv(s.last().1)))
    }
}

impl View for Json {
    type V = JsonV;

    open spec fn view(&self) -> JsonV {
        jv(*self)
    }
}

pub proof fn lemma_jv_list(s: Seq<Json>)
    ensures
        jv_list(s).len() == s.len(),
        forall|i: int| 0 <= i < s.len() ==> #[trigger] jv_list(s)[i] == jv(s[i]),
    decreases s.len(),
{
    if s.len() > 0 {
        lemma_jv_list(s.drop_last());
    }
}

pub proof fn lemma_jv_entries(s: Seq<(String, Json)>)
    ensures
        jv_entries(s).len() == s.len(),
        forall|i: int|
            0 <= i < s.len() ==> #[trigger] jv_entries(s)[i] == (s[i].0@, jv(s[i].1)),
    decreases s.len(),
{
    if s.len() > 0 {
        lemma_jv_entries(s.drop_last());
    }
}

impl Number {
    pub fn copy(&self) -> (r: Number)
        ensures
            r@ == self@,
    {
        match self {
            Number::Int(i) => Number::Int(*i),
            Number::Float(d, t) => Number::Float(*d, t.clone()),
        }
    }
}

pub proof fn lemma_jv_list_ext(a: Seq<Json>, b: Seq<Json>)
    requires
        a.len() == b.len(),
        forall|i: int| 0 <= i < a.len() ==> jv(#[trigger] a[i]) == jv(b[i]),
    ensures
        jv_list(a) == jv_list(b),
{
    lemma_jv_list(a);
    lemma_jv_list(b);
    assert(jv_list(a) =~= jv_list(b));
}

pub proof fn lemma_jv_entries_ext(a: Seq<(String, Json)>, b: Seq<(String, Json)>)
    requires
        a.len() == b.len(),
        forall|i: int|
            0 <= i < a.len() ==> (#[trigger] a[i]).0@ == b[i].0@ && jv(a[i].1) == jv(b[i].1),
    ensures
        jv_entries(a) == jv_entries(b),
{
    lemma_jv_entries(a);
    lemma_jv_entries(b);
    assert(jv_entries(a) =~= jv_entries(b));
}

impl Json {
    /// A deep copy.
    pub fn copy(&self) -> (r: Json)
        ensures
            r@ == self@,
        decreases self,
    {
        match self {
            Json::Null => Json::Null,
            Json::Bool(b) => Json::Bool(*b),
            Json::Num(n) => Json::Num(n.copy()),
            Json::Str(s) => Json::Str(s.clone()),
            Json::Array(items) => {
                let mut out: Vec<Json> = Vec::new();
                let mut i: usize = 0;
                proof {
                    assert forall|j: int| 0 <= j < items@.len() implies decreases_to!(*self => #[trigger] items@[j]) by {
                        assert(decreases_to!(*self => *items));
                        assert(decreases_to!(*items => items@));
                        assert(decreases_to!(items@ => items@[j]));
                    }
                }
                while i < items.len()
                    invariant
                        i <= items.len(),
                        forall|j: int| 0 <= j < items@.len() ==> decreases_to!(*self => #[trigger] items@[j]),
                        out@.len() == i,
                        forall|j: int| 0 <= j < i ==> jv(#[trigger] out@[j]) == jv(items@[j]),
                    decreases items.len() - i,
                {
                    let c = items[i].copy();
                    out.push(c);
                    i = i + 1;
                }
                proof {
                    lemma_jv_list_ext(out@, items@);
                }
                Json::Array(out)
            },
            Json::Object(entries) => {
                let mut out: Vec<(String, Json)> = Vec::new();
                let mut i: usize = 0;
                proof {
                    assert forall|j: int| 0 <= j < entries@.len() implies decreases_to!(*self => #[trigger] entries@[j].1) by {
                        assert(decreases_to!(*self => *entries));
                        assert(decreases_to!(*entries => entries@));
                        assert(decreases_to!(entries@ => entries@[j]));
                        assert(decreases_to!(entries@[j] => entries@[j].1));
                    }
                }
                while i < entries.len()
                    invariant
                        i <= entries.len(),
                        forall|j: int| 0 <= j < entries@.len() ==> decreases_to!(*self => #[trigger] entries@[j].1),
                        out@.len() == i,
                        forall|j: int|
                            0 <= j < i ==> (#[trigger] out@[j]).0@ == entries@[j].0@ && jv(out@[j].1)
                                == jv(entries@[j].1),
                    decreases entries.len() - i,
                {
                    let c = entries[i].1.copy();
                    out.push((entries[i].0.clone(), c));
                    i = i + 1;
                }
                proof {
                    lemma_jv_entries_ext(out@, entries@);
                }
                Json::Object(out)
            },
        }
    }
}

// ---------------------------------------------------------------------------
// Objects
// ---------------------------------------------------------------------------

/// The value under `key` (the first entry with that key).
pub open spec fn obj_get(es: Seq<(Seq<char>, JsonV)>, key: Seq<char>) -> Option<JsonV>
    decreases es.len(),
{
    if es.len() == 0 {
        None
    } else if es[0].0 == key {
        Some(es[0].1)
    } else {
        obj_get(es.drop_first(), key)
    }
}

/// Index of the first entry with `key`.
pub open spec fn key_index(es: Seq<(String, Json)>, key: Seq<char>) -> Option<int>
    decreases es.len(),
{
    if es.len() == 0 {
        None
    } else if es[0].0@ == key {
        Some(0)
    } else {
        match key_index(es.drop_first(), key) {
            Some(i) => Some(i + 1),
            None => None,
        }
    }
}

pub proof fn lemma_key_index(es: Seq<(String, Json)>, key: Seq<char>)
    ensures
        match key_index(es, key) {
            Some(i) => 0 <= i < es.len() && es[i].0@ == key && (forall|j: int|
                0 <= j < i ==> (#[trigger] es[j]).0@ != key) && obj_get(jv_entries(es), key)
                == Some(jv(es[i].1)),
            None => (forall|j: int| 0 <= j < es.len() ==> (#[trigger] es[j]).0@ != key)
                && obj_get(jv_entries(es), key) == None::<JsonV>,
        },
    decreases es.len(),
{
    lemma_jv_entries(es);
    if es.len() > 0 {
        lemma_key_index(es.drop_first(), key);
        lemma_jv_entries(es.drop_first());
        assert(jv_entries(es).drop_first() =~= jv_entries(es.drop_first()));
        if es[0].0@ != key {
            match key_index(es.drop_first(), key) {
                Some(i) => {
                    assert forall|j: int| 0 <= j < i + 1 implies (#[trigger] es[j]).0@ != key by {
                        if j > 0 {
                            assert(es[j] == es.drop_first()[j - 1]);
                        }
                    }
                },
                None => {
                    assert forall|j: int| 0 <= j < es.len() implies (#[trigger] es[j]).0@ != key by {
                        if j > 0 {
                            assert(es[j] == es.drop_first()[j - 1]);
                        }
                    }
                },
            }
        }
    }
}

/// Two entry lists that agree wherever either has `k` give the same value
/// for `k`.
pub proof fn lemma_obj_get_agree(a: Seq<(Seq<char>, JsonV)>, b: Seq<(Seq<char>, JsonV)>, k: Seq<char>)
    requires
        a.len() == b.len(),
        forall|j: int| 0 <= j < a.len() ==> ((#[trigger] a[j]).0 == k <==> b[j].0 == k),
        forall|j: int| 0 <= j < a.len() && (#[trigger] a[j]).0 == k ==> a[j].1 == b[j].1,
    ensures
        obj_get(a, k) == obj_get(b, k),
    decreases a.len(),
{
    if a.len() > 0 {
        assert forall|j: int| 0 <= j < a.drop_first().len() implies ((#[trigger] a.drop_first()[j]).0 == k
            <==> b.drop_first()[j].0 == k) by {
            assert(a.drop_first()[j] == a[j + 1]);
            assert(b.drop_first()[j] == b[j + 1]);
        }
        assert forall|j: int| 0 <= j < a.drop_first().len() && (#[trigger] a.drop_first()[j]).0 == k implies a.drop_first()[j].1
            == b.drop_first()[j].1 by {
            assert(a.drop_first()[j] == a[j + 1]);
            assert(b.drop_first()[j] == b[j + 1]);
        }
        lemma_obj_get_agree(a.drop_first(), b.drop_first(), k);
        assert(a[0].0 == k <==> b[0].0 == k);
    }
}

/// Appending an entry changes only the value of a key that was absent.
pub proof fn lemma_obj_get_push(a: Seq<(Seq<char>, JsonV)>, x: (Seq<char>, JsonV), k: Seq<char>)
    ensures
        x.0 != k ==> obj_get(a.push(x), k) == obj_get(a, k),
        obj_get(a, k) is None && x.0 == k ==> obj_get(a.push(x), k) == Some(x.1),
    decreases a.len(),
{
    if a.len() > 0 {
        assert(a.push(x).drop_first() =~= a.drop_first().push(x));
        lemma_obj_get_push(a.drop_first(), x, k);
    } else {
        assert(a.push(x)[0] == x);
        assert(a.push(x).drop_first() =~= Seq::<(Seq<char>, JsonV)>::empty());
        assert(obj_get(Seq::<(Seq<char>, JsonV)>::empty(), k) is None);
    }
}

/// Sets `key` to `v`: the first entry with that key takes the value, or a
/// new entry is appended. Every other key keeps its value.
pub fn set_entry(es: &mut Vec<(String, Json)>, key: &str, v: Json)
    ensures
        forall|k: Seq<char>| #[trigger] obj_get(jv_entries(final(es)@), k) == if k == key@ {
            Some(v@)
        } else {
            obj_get(jv_entries(old(es)@), k)
        },
{
    let ghost before = es@;
    let ghost vv = v@;
    proof {
        lemma_key_index(before, key@);
        lemma_jv_entries(before);
    }
    match find_key(es, key) {
        Some(i) => {
            es.set(i, (owned_str(key), v));
            proof {
                lemma_jv_entries(es@);
                lemma_key_index_first(es@, key@, i as int);
                lemma_key_index(es@, key@);
                assert forall|k: Seq<char>| #[trigger] obj_get(jv_entries(es@), k) == if k == key@ {
                    Some(vv)
                } else {
                    obj_get(jv_entries(before), k)
                } by {
                    if k != key@ {
                        lemma_obj_get_agree(jv_entries(es@), jv_entries(before), k);
                    }
                }
            }
        },
        None => {
            es.push((owned_str(key), v));
            proof {
                assert(es@.drop_last() =~= before);
                assert(jv(es@.last().1) == vv);
                assert(jv_entries(es@) =~= jv_entries(before).push((key@, vv)));
                assert forall|k: Seq<char>| #[trigger] obj_get(jv_entries(es@), k) == if k == key@ {
                    Some(vv)
                } else {
                    obj_get(jv_entries(before), k)
                } by {
                    lemma_obj_get_push(jv_entries(before), (key@, vv), k);
                }
            }
        },
    }
}

fn owned_str(s: &str) -> (r: String)
    ensures
        r@ == s@,
{
    s.to_owned()
}

/// Position of `key` among the entries.
pub fn find_key(es: &Vec<(String, Json)>, key: &str) -> (r: Option<usize>)
    ensures
        match r {
            Some(i) => key_index(es@, key@) == Some(i as int) && i < es@.len(),
            None => key_index(es@, key@) == None::<int>,
        },
{
    proof {
        lemma_key_index(es@, key@);
    }
    let mut i: usize = 0;
    while i < es.len()
        invariant
            i <= es.len(),
            forall|j: int| 0 <= j < i ==> (#[trigger] es@[j]).0@ != key@,
        decreases es.len() - i,
    {
        if crate::text::str_eq(es[i].0.as_str(), key) {
            proof {
                lemma_key_index_first(es@, key@, i as int);
            }
            return Some(i);
        }
        i = i + 1;
    }
    proof {
        lemma_key_index_none(es@, key@);
    }
    None
}

pub proof fn lemma_key_index_first(es: Seq<(String, Json)>, key: Seq<char>, i: int)
    requires
        0 <= i < es.len(),
        es[i].0@ == key,
        forall|j: int| 0 <= j < i ==> (#[trigger] es[j]).0@ != key,
    ensures
        key_index(es, key) == Some(i),
    decreases i,
{
    if i > 0 {
        assert(es[0].0@ != key);
        assert forall|j: int| 0 <= j < i - 1 implies (#[trigger] es.drop_first()[j]).0@ != key by {
            assert(es.drop_first()[j] == es[j + 1]);
        }
        lemma_key_index_first(es.drop_first(), key, i - 1);
    }
}

proof fn lemma_key_index_none(es: Seq<(String, Json)>, key: Seq<char>)
    requires
        forall|j: int| 0 <= j < es.len() ==> (#[trigger] es[j]).0@ != key,
    ensures
        key_index(es, key) == None::<int>,
    decreases es.len(),
{
    if es.len() > 0 {
        assert(es[0].0@ != key);
        assert forall|j: int| 0 <= j < es.len() - 1 implies (#[trigger] es.drop_first()[j]).0@ != key by {
            assert(es.drop_first()[j] == es[j + 1]);
        }
        lemma_key_index_none(es.drop_first(), key);
    }
}

/// The value under `key` in an object's entries.
pub fn get<'a>(es: &'a Vec<(String, Json)>, key: &str) -> (r: Option<&'a Json>)
    ensures
        match r {
            Some(v) => obj_get(jv_entries(es@), key@) == Some(jv(*v)),
            None => obj_get(jv_entries(es@), key@) == None::<JsonV>,
        },
{
    proof {
        lemma_key_index(es@, key@);
    }
    match find_key(es, key) {
        Some(i) => {
            assert(key_index(es@, key@) == Some(i as int));
            Some(&es[i].1)
        },
        None => None,
    }
}

// ---------------------------------------------------------------------------
// Text form (serde_json's compact writer)
// ---------------------------------------------------------------------------

pub open spec fn hex_digit(d: nat) -> char {
    if d < 10 {
        (('0' as u32) + d) as char
    } else {
        (('a' as u32) + (d - 10)) as char
    }
}

/// How the writer escapes one character inside a string literal.
pub open spec fn escape_char(c: char) -> Seq<char> {
    let u = c as u32;
    if c == '"' {
        seq!['\\', '"']
    } else if c == '\\' {
        seq!['\\', '\\']
    } else if u == 0x08 {
        seq!['\\', 'b']
    } else if u == 0x0c {
        seq!['\\', 'f']
    } else if c == '\n' {
        seq!['\\', 'n']
    } else if c == '\r' {
        seq!['\\', 'r']
    } else if c == '\t' {
        seq!['\\', 't']
    } else if u < 0x20 {
        seq!['\\', 'u', '0', '0', hex_digit((u / 16) as nat), hex_digit((u % 16) as nat)]
    } else {
        seq![c]
    }
}

pub open spec fn escape_text(s: Seq<char>) -> Seq<char>
    decreases s.len(),
{
    if s.len() == 0 {
        Seq::empty()
    } else {
        escape_text(s.drop_last()) + escape_char(s.last())
    }
}

/// A JSON string literal.
pub open spec fn quote(s: Seq<char>) -> Seq<char> {
    seq!['"'] + escape_text(s) + seq!['"']
}

/// The compact JSON text of a value.
pub open spec fn json_text(v: JsonV) -> Seq<char>
    decreases v,
{
    match v {
        JsonV::Null => seq!['n', 'u', 'l', 'l'],
        JsonV::Bool(b) => if b {
            seq!['t', 'r', 'u', 'e']
        } else {
            seq!['f', 'a', 'l', 's', 'e']
        },
        JsonV::Num(NumberV::Int(i)) => int_text(i),
        JsonV::Num(NumberV::Float(_, t)) => t,
        JsonV::Str(s) => quote(s),
        JsonV::Array(items) => seq!['['] + items_text(items) + seq![']'],
        JsonV::Object(es) => seq!['{'] + entries_text(es) + seq!['}'],
    }
}

pub open spec fn items_text(s: Seq<JsonV>) -> Seq<char>
    decreases s,
{
    if s.len() == 0 {
        Seq::empty()
    } else if s.len() == 1 {
        json_text(s[0])
    } else {
        items_text(s.drop_last()) + seq![','] + json_text(s.last())
    }
}

pub open spec fn entries_text(s: Seq<(Seq<char>, JsonV)>) -> Seq<char>
    decreases s,
{
    if s.len() == 0 {
        Seq::empty()
    } else if s.len() == 1 {
        quote(s[0].0) + seq![':'] + json_text(s[0].1)
    } else {
        entries_text(s.drop_last()) + seq![','] + quote(s.last().0) + seq![':'] + json_text(s.last().1)
    }
}

fn hex_char(d: u32) -> (c: char)
    requires
        d < 16,
    ensures
        c == hex_digit(d as nat),
{
    let cs: [char; 16] = ['0', '1', '2', '3', '4', '5', '6', '7', '8', '9', 'a', 'b', 'c', 'd', 'e', 'f'];
    let c = cs[d as usize];
    assert(c == hex_digit(d as nat)) by {
        assert(cs@[d as int] == c);
    }
    c
}

/// Appends the escaped form of `c`.
fn push_escaped(out: &mut String, c: char)
    ensures
        final(out)@ == old(out)@ + escape_char(c),
{
    let u = c as u32;
    if c == '"' {
        push_char(out, '\\');
        push_char(out, '"');
    } else if c == '\\' {
        push_char(out, '\\');
        push_char(out, '\\');
    } else if u == 0x08 {
        push_char(out, '\\');
        push_char(out, 'b');
    } else if u == 0x0c {
        push_char(out, '\\');
        push_char(out, 'f');
    } else if c == '\n' {
        push_char(out, '\\');
        push_char(out, 'n');
    } else if c == '\r' {
        push_char(out, '\\');
        push_char(out, 'r');
    } else if c == '\t' {
        push_char(out, '\\');
        push_char(out, 't');
    } else if u < 0x20 {
        push_char(out, '\\');
        push_char(out, 'u');
        push_char(out, '0');
        push_char(out, '0');
        push_char(out, hex_char(u / 16));
        push_char(out, hex_char(u % 16));
    } else {
        push_char(out, c);
    }
    assert(final(out)@ =~= old(out)@ + escape_char(c));
}

/// Appends the JSON string literal for `s`.
pub fn push_quoted(out: &mut String, s: &str)
    ensures
        final(out)@ == old(out)@ + quote(s@),
{
    let cs = crate::text::chars_of(s);
    push_char(out, '"');
    let ghost start = out@;
    let mut i: usize = 0;
    while i < cs.len()
        invariant
            i <= cs.len(),
            cs@ == s@,
            out@ == start + escape_text(s@.take(i as int)),
        decreases cs.len() - i,
    {
        push_escaped(out, cs[i]);
        assert(s@.take(i + 1).drop_last() =~= s@.take(i as int));
        i = i + 1;
    }
    assert(s@.take(cs.len() as int) =~= s@);
    push_char(out, '"');
    assert(out@ =~= old(out)@ + quote(s@));
}

impl Json {
    /// Appends the compact JSON text of this value.
    pub fn write_text(&self, out: &mut String)
        ensures
            final(out)@ == old(out)@ + json_text(self@),
        decreases self,
    {
        match self {
            Json::Null => {
                push_char(out, 'n');
                push_char(out, 'u');
                push_char(out, 'l');
                push_char(out, 'l');
            },
            Json::Bool(b) => {
                if *b {
                    push_char(out, 't');
                    push_char(out, 'r');
                    push_char(out, 'u');
                    push_char(out, 'e');
                } else {
                    push_char(out, 'f');
                    push_char(out, 'a');
                    push_char(out, 'l');
                    push_char(out, 's');
                    push_char(out, 'e');
                }
            },
            Json::Num(Number::Int(i)) => {
                let t = int_to_string(*i);
                out.append(t.as_str());
            },
            Json::Num(Number::Float(_, t)) => {
                out.append(t.as_str());
            },
            Json::Str(s) => {
                push_quoted(out, s.as_str());
            },
            Json::Array(items) => {
                proof {
                    lemma_jv_list(items@);
                    assert forall|j: int| 0 <= j < items@.len() implies decreases_to!(*self => #[trigger] items@[j]) by {
                        assert(decreases_to!(*self => *items));
                        assert(decreases_to!(*items => items@));
                        assert(decreases_to!(items@ => items@[j]));
                    }
                }
                push_char(out, '[');
                let ghost start = out@;
                let ghost vs = jv_list(items@);
                let mut i: usize = 0;
                while i < items.len()
                    invariant
                        i <= items.len(),
                        vs == jv_list(items@),
                        vs.len() == items@.len(),
                        forall|j: int| 0 <= j < items@.len() ==> vs[j] == jv(#[trigger] items@[j]),
                        forall|j: int| 0 <= j < items@.len() ==> decreases_to!(*self => #[trigger] items@[j]),
                        out@ == start + items_text(vs.take(i as int)),
                    decreases items.len() - i,
                {
                    if i > 0 {
                        push_char(out, ',');
                    }
                    items[i].write_text(out);
                    assert(vs.take(i + 1).drop_last() =~= vs.take(i as int));
                    assert(vs.take(i + 1).last() == vs[i as int]);
                    if i == 0 {
                        assert(vs.take(1) =~= seq![vs[0]]);
                    }
                    i = i + 1;
                }
                assert(vs.take(items.len() as int) =~= vs);
                push_char(out, ']');
            },
            Json::Object(es) => {
                proof {
                    lemma_jv_entries(es@);
                    assert forall|j: int| 0 <= j < es@.len() implies decreases_to!(*self => #[trigger] es@[j].1) by {
                        assert(decreases_to!(*self => *es));
                        assert(decreases_to!(*es => es@));
                        assert(decreases_to!(es@ => es@[j]));
                        assert(decreases_to!(es@[j] => es@[j].1));
                    }
                }
                push_char(out, '{');
                let ghost start = out@;
                let ghost vs = jv_entries(es@);
                let mut i: usize = 0;
                while i < es.len()
                    invariant
                        i <= es.len(),
                        vs == jv_entries(es@),
                        vs.len() == es@.len(),
                        forall|j: int| 0 <= j < es@.len() ==> vs[j] == (es@[j].0@, jv(#[trigger] es@[j].1)),
                        forall|j: int| 0 <= j < es@.len() ==> decreases_to!(*self => #[trigger] es@[j].1),
                        out@ == start + entries_text(vs.take(i as int)),
                    decreases es.len() - i,
                {
                    if i > 0 {
                        push_char(out, ',');
                    }
                    push_quoted(out, es[i].0.as_str());
                    push_char(out, ':');
                    es[i].1.write_text(out);
                    assert(vs.take(i + 1).drop_last() =~= vs.take(i as int));
                    assert(vs.take(i + 1).last() == vs[i as int]);
                    if i == 0 {
                        assert(vs.take(1) =~= seq![vs[0]]);
                    }
                    i = i + 1;
                }
                assert(vs.take(es.len() as int) =~= vs);
                push_char(out, '}');
            },
        }
        assert(final(out)@ =~= old(out)@ + json_text(self@));
    }

    /// The compact JSON text (`serde_json::to_string`).
    pub fn to_text(&self) -> (r: String)
        ensures
            r@ == json_text(self@),
    {
        let mut out = String::new();
        self.write_text(&mut out);
        assert(out@ =~= json_text(self@));
        out
    }
}

} // verus!
