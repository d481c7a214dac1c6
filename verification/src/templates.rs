//! How the console writes values: placeholders, thousands separators,
//! truncation by character, durations and decision classes.
use vstd::prelude::*;
use crate::text::{chars_of, concat, digits_of, int_to_string, nat_digits, owned, push_char, str_eq, string_of};

verus! {

/// An empty text shows as `-`.
pub fn dash(s: &str) -> (r: String)
    ensures
        r@ == (if s@.len() == 0 {
            "-"@
        } else {
            s@
        }),
{
    let none = String::new();
    if str_eq(s, none.as_str()) {
        owned("-")
    } else {
        proof {
            if s@.len() == 0 {
                assert(s@ =~= none@);
            }
        }
        owned(s)
    }
}

/// Digits with a comma before every group of three counted from the right.
pub open spec fn grouped(d: Seq<char>) -> Seq<char>
    decreases d.len(),
{
    if d.len() <= 3 {
        d
    } else {
        grouped(d.take(d.len() - 3)) + seq![','] + d.skip(d.len() - 3)
    }
}

pub open spec fn won_spec(n: int) -> Seq<char> {
    if n < 0 {
        seq!['-'] + grouped(nat_digits((-n) as nat))
    } else {
        grouped(nat_digits(n as nat))
    }
}

fn group_digits(d: &Vec<char>, n: usize) -> (r: String)
    requires
        n <= d@.len(),
    ensures
        r@ == grouped(d@.take(n as int)),
    decreases n,
{
    if n <= 3 {
        let mut s = String::new();
        let mut i: usize = 0;
        while i < n
            invariant
                i <= n,
                n <= d@.len(),
                s@ == d@.take(i as int),
            decreases n - i,
        {
            push_char(&mut s, d[i]);
            assert(d@.take(i + 1) =~= d@.take(i as int).push(d@[i as int]));
            i = i + 1;
        }
        s
    } else {
        let mut s = group_digits(d, n - 3);
        push_char(&mut s, ',');
        push_char(&mut s, d[n - 3]);
        push_char(&mut s, d[n - 2]);
        push_char(&mut s, d[n - 1]);
        let ghost t = d@.take(n as int);
        assert(t.take(t.len() - 3) =~= d@.take(n - 3));
        assert(t.skip(t.len() - 3) =~= seq![d@[n - 3], d@[n - 2], d@[n - 1]]);
        assert(s@ =~= grouped(t));
        s
    }
}

/// An amount with thousands separators (`1,234,567`, `-1,000`).
pub fn won(n: i64) -> (r: String)
    requires
        n > i64::MIN,
    ensures
        r@ == won_spec(n as int),
{
    let neg = n < 0;
    let mag: u128 = if neg {
        (-n) as u128
    } else {
        n as u128
    };
    let d = digits_of(mag);
    assert(d@.take(d@.len() as int) =~= d@);
    let g = group_digits(&d, d.len());
    if neg {
        proof {
            reveal_strlit("-");
            assert("-"@ =~= seq!['-']);
        }
        concat("-", g.as_str())
    } else {
        g
    }
}

pub open spec fn truncate_spec(s: Seq<char>, n: nat) -> Seq<char> {
    if s.len() <= n {
        s
    } else {
        s.take(n as int).push('…')
    }
}

/// The first `n` characters, and `…` where some were cut; cut by
/// character, never inside one.
pub fn truncate(s: &str, n: usize) -> (r: String)
    ensures
        r@ == truncate_spec(s@, n as nat),
{
    let cs = chars_of(s);
    if cs.len() <= n {
        return owned(s);
    }
    let mut out = String::new();
    let mut i: usize = 0;
    while i < n
        invariant
            i <= n,
            n < cs@.len(),
            cs@ == s@,
            out@ == s@.take(i as int),
        decreases n - i,
    {
        push_char(&mut out, cs[i]);
        assert(s@.take(i + 1) =~= s@.take(i as int).push(s@[i as int]));
        i = i + 1;
    }
    push_char(&mut out, '…');
    out
}

pub open spec fn duration_spec(secs: u64) -> Seq<char> {
    if secs == 0 {
        "-"@
    } else if secs >= 3600 {
        nat_digits((secs / 3600) as nat) + "시간"@
    } else if secs >= 60 {
        nat_digits((secs / 60) as nat) + "분"@
    } else {
        nat_digits(secs as nat) + "초"@
    }
}

/// A length of time in its largest whole unit: hours, minutes or seconds.
pub fn duration(secs: u64) -> (r: String)
    ensures
        r@ == duration_spec(secs),
{
    if secs == 0 {
        return owned("-");
    }
    let (n, unit) = if secs >= 3600 {
        (secs / 3600, "시간")
    } else if secs >= 60 {
        (secs / 60, "분")
    } else {
        (secs, "초")
    };
    let d = int_to_string(n as i128);
    concat(d.as_str(), unit)
}

pub open spec fn decision_class_spec(d: Seq<char>) -> Seq<char> {
    if d == "allowed"@ {
        "tag allow"@
    } else if d == "denied"@ {
        "tag deny"@
    } else {
        "tag muted"@
    }
}

/// The class of a decision's tag.
pub fn decision_class(decision: &str) -> (r: &'static str)
    ensures
        r@ == decision_class_spec(decision@),
{
    if str_eq(decision, "allowed") {
        "tag allow"
    } else if str_eq(decision, "denied") {
        "tag deny"
    } else {
        "tag muted"
    }
}

} // verus!
