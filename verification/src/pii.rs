//! Masking of personal data.
//!
//! Two mechanisms apply together. By field name: fields such as `rrn`,
//! `account` or `password` are masked whole (a tool's declaration and the
//! policy's obligations can add names). By pattern: every string leaf is
//! scanned whatever its field, since a resident number inside a sentence of
//! a `note` must be caught too.
use vstd::prelude::*;
use crate::json::{Json, JsonV, jv, jv_list, jv_entries, lemma_jv_list, lemma_jv_entries};
use crate::pattern::{Pattern, Replacement, ReplacementV, compile, replace_all, replace_all_spec, regex_compiles};
use crate::registry::strs;
use crate::text::{chars_of, string_of, to_lowercase, unicode_lower, owned, push_char, vec_has};

verus! {

pub open spec fn rrn_pattern() -> Seq<char> {
    "\\b\\d{6}-\\d{7}\\b"@
}

pub open spec fn card_pattern() -> Seq<char> {
    "\\b\\d{4}-\\d{4}-\\d{4}-\\d{4}\\b"@
}

pub open spec fn phone_pattern() -> Seq<char> {
    "\\b01[016789]-?\\d{3,4}-?\\d{4}\\b"@
}

pub open spec fn email_pattern() -> Seq<char> {
    "\\b[A-Za-z0-9._%+\\-]+@[A-Za-z0-9.\\-]+\\.[A-Za-z]{2,}\\b"@
}

/// The last group of 4 to 8 digits keeps dates such as `2026-07-10` out.
pub open spec fn account_pattern() -> Seq<char> {
    "\\b\\d{2,6}-\\d{2,6}-\\d{4,8}\\b"@
}

/// Field names sensitive by themselves (compared lowercased).
pub open spec fn default_sensitive_fields() -> Seq<Seq<char>> {
    seq![
        "rrn"@,
        "ssn"@,
        "resident_registration_number"@,
        "account"@,
        "account_no"@,
        "account_number"@,
        "card"@,
        "card_no"@,
        "password"@,
        "secret"@,
    ]
}

pub open spec fn stars(n: nat) -> Seq<char> {
    Seq::new(n, |i: int| '*')
}

/// The first characters kept, the rest starred: two kept up to eight
/// characters, three beyond; `***` for two or fewer.
pub open spec fn partial_mask_spec(s: Seq<char>) -> Seq<char> {
    if s.len() <= 2 {
        "***"@
    } else {
        let keep: int = if s.len() > 8 {
            3
        } else {
            2
        };
        s.take(keep) + stars((s.len() - keep) as nat)
    }
}

/// The position of the first `@`.
pub open spec fn at_sign(s: Seq<char>) -> Option<int> {
    crate::auth::index_from(s, '@', 0)
}

/// An e-mail address keeps its first character and its domain; `***`
/// without a local part.
pub open spec fn mask_email_spec(s: Seq<char>) -> Seq<char> {
    match at_sign(s) {
        None => "***"@,
        Some(at) => if at == 0 {
            "***"@
        } else if at <= 1 {
            seq!['*'] + s.skip(at)
        } else {
            seq![s[0]] + stars((at - 1) as nat) + s.skip(at)
        },
    }
}

fn push_stars(out: &mut String, n: usize)
    ensures
        final(out)@ == old(out)@ + stars(n as nat),
{
    let mut i: usize = 0;
    while i < n
        invariant
            i <= n,
            out@ == old(out)@ + stars(i as nat),
        decreases n - i,
    {
        push_char(out, '*');
        assert(stars((i + 1) as nat) =~= stars(i as nat).push('*'));
        i = i + 1;
    }
}

/// Keeps the first characters and stars the rest.
pub fn partial_mask(s: &str) -> (r: String)
    ensures
        r@ == partial_mask_spec(s@),
{
    let runes = chars_of(s);
    if runes.len() <= 2 {
        return owned("***");
    }
    let keep: usize = if runes.len() > 8 {
        3
    } else {
        2
    };
    let head = crate::text::slice_range(&runes, 0, keep);
    let mut out = string_of(head.as_slice());
    assert(head@ =~= s@.take(keep as int));
    push_stars(&mut out, runes.len() - keep);
    out
}

/// Masks an e-mail address but its domain.
pub fn mask_email(email: &str) -> (r: String)
    ensures
        r@ == mask_email_spec(email@),
{
    let cs = chars_of(email);
    let at = match crate::auth::find_char(&cs, 0, '@') {
        None => {
            return owned("***");
        },
        Some(at) => at,
    };
    if at == 0 {
        return owned("***");
    }
    let domain = crate::text::slice_range(&cs, at, cs.len());
    assert(domain@ =~= email@.skip(at as int));
    let mut out = String::new();
    if at <= 1 {
        push_char(&mut out, '*');
    } else {
        push_char(&mut out, cs[0]);
        push_stars(&mut out, at - 1);
    }
    let d = string_of(domain.as_slice());
    out.append(d.as_str());
    assert(out@ =~= mask_email_spec(email@));
    out
}

/// The five patterns, in the order they apply.
struct Scrubber {
    rrn: Pattern,
    card: Pattern,
    phone: Pattern,
    account: Pattern,
    email: Pattern,
}

impl Scrubber {
    closed spec fn wf(&self) -> bool {
        &&& self.rrn.source_view() == rrn_pattern()
        &&& self.card.source_view() == card_pattern()
        &&& self.phone.source_view() == phone_pattern()
        &&& self.account.source_view() == account_pattern()
        &&& self.email.source_view() == email_pattern()
    }

    fn new() -> (r: Option<Scrubber>)
        ensures
            r is Some == patterns_compile(),
            r matches Some(s) ==> s.wf(),
    {
        proof {
            reveal_strlit("\\b\\d{6}-\\d{7}\\b");
        }
        let rrn = compile("\\b\\d{6}-\\d{7}\\b").ok();
        let card = compile("\\b\\d{4}-\\d{4}-\\d{4}-\\d{4}\\b").ok();
        let phone = compile("\\b01[016789]-?\\d{3,4}-?\\d{4}\\b").ok();
        let account = compile("\\b\\d{2,6}-\\d{2,6}-\\d{4,8}\\b").ok();
        let email = compile("\\b[A-Za-z0-9._%+\\-]+@[A-Za-z0-9.\\-]+\\.[A-Za-z]{2,}\\b").ok();
        match (rrn, card, phone, account, email) {
            (Some(rrn), Some(card), Some(phone), Some(account), Some(email)) => Some(
                Scrubber { rrn, card, phone, account, email },
            ),
            _ => None,
        }
    }

    /// The text with the personal data its patterns find masked.
    fn scrub(&self, s: &str) -> (r: String)
        requires
            self.wf(),
        ensures
            r@ == scrub_spec(s@),
    {
        let a = replace_all(&self.rrn, s, &Replacement::Fixed(owned("******-*******")));
        let b = replace_all(&self.card, a.as_str(), &Replacement::Fixed(owned("****-****-****-****")));
        let c = replace_all(&self.phone, b.as_str(), &Replacement::PartialMask);
        let d = replace_all(&self.account, c.as_str(), &Replacement::Fixed(owned("***-***-****")));
        replace_all(&self.email, d.as_str(), &Replacement::EmailMask)
    }
}

/// Whether the regex crate accepts the five patterns (it does; a pattern
/// it refused would leave strings unscrubbed).
pub open spec fn patterns_compile() -> bool {
    &&& regex_compiles(rrn_pattern())
    &&& regex_compiles(card_pattern())
    &&& regex_compiles(phone_pattern())
    &&& regex_compiles(account_pattern())
    &&& regex_compiles(email_pattern())
}

/// A text with the personal data its patterns find masked, in this order:
/// resident numbers, card numbers, phone numbers (before account numbers,
/// since `010-1234-5678` also fits the account pattern and would lose its
/// kept prefix), account numbers, e-mail addresses.
pub open spec fn scrub_spec(s: Seq<char>) -> Seq<char> {
    let a = replace_all_spec(rrn_pattern(), s, ReplacementV::Fixed("******-*******"@));
    let b = replace_all_spec(card_pattern(), a, ReplacementV::Fixed("****-****-****-****"@));
    let c = replace_all_spec(phone_pattern(), b, ReplacementV::PartialMask);
    let d = replace_all_spec(account_pattern(), c, ReplacementV::Fixed("***-***-****"@));
    replace_all_spec(email_pattern(), d, ReplacementV::EmailMask)
}

/// The value of a field masked by its name: a string keeps its first
/// characters, anything else becomes `***MASKED***`.
pub open spec fn mask_field_spec(v: JsonV) -> JsonV {
    match v {
        JsonV::Str(s) => JsonV::Str(partial_mask_spec(s)),
        _ => JsonV::Str("***MASKED***"@),
    }
}

/// A value with personal data masked: a field whose lowercased name is in
/// `names` is masked whole without looking inside; every other string leaf
/// is scrubbed (when the patterns are in force).
pub open spec fn mask_json(v: JsonV, names: Seq<Seq<char>>, scrubs: bool) -> JsonV
    decreases v,
{
    match v {
        JsonV::Object(es) => JsonV::Object(mask_entries(es, names, scrubs)),
        JsonV::Array(items) => JsonV::Array(mask_items(items, names, scrubs)),
        JsonV::Str(s) => JsonV::Str(if scrubs {
            scrub_spec(s)
        } else {
            s
        }),
        _ => v,
    }
}

pub open spec fn mask_entries(es: Seq<(Seq<char>, JsonV)>, names: Seq<Seq<char>>, scrubs: bool) -> Seq<(Seq<char>, JsonV)>
    decreases es,
{
    if es.len() == 0 {
        Seq::empty()
    } else {
        let rest = mask_entries(es.drop_last(), names, scrubs);
        if names.contains(unicode_lower(es.last().0)) {
            rest.push((es.last().0, mask_field_spec(es.last().1)))
        } else {
            rest.push((es.last().0, mask_json(es.last().1, names, scrubs)))
        }
    }
}

pub open spec fn mask_items(items: Seq<JsonV>, names: Seq<Seq<char>>, scrubs: bool) -> Seq<JsonV>
    decreases items,
{
    if items.len() == 0 {
        Seq::empty()
    } else {
        mask_items(items.drop_last(), names, scrubs).push(mask_json(items.last(), names, scrubs))
    }
}

/// The masker: the sensitive field names and the patterns.
pub struct Masker {
    field_names: Vec<String>,
    scrubber: Option<Scrubber>,
}

impl Masker {
    pub closed spec fn wf(&self) -> bool {
        match self.scrubber {
            Some(s) => s.wf(),
            None => true,
        }
    }

    /// The field names it masks by themselves.
    pub closed spec fn names(&self) -> Seq<Seq<char>> {
        strs(self.field_names@)
    }

    /// Whether string leaves are scrubbed by pattern.
    pub closed spec fn scrubs(&self) -> bool {
        self.scrubber is Some
    }

    pub fn new() -> (r: Masker)
        ensures
            r.wf(),
            r.names() == default_sensitive_fields(),
            r.scrubs() == patterns_compile(),
    {
        let mut names: Vec<String> = Vec::new();
        names.push(owned("rrn"));
        names.push(owned("ssn"));
        names.push(owned("resident_registration_number"));
        names.push(owned("account"));
        names.push(owned("account_no"));
        names.push(owned("account_number"));
        names.push(owned("card"));
        names.push(owned("card_no"));
        names.push(owned("password"));
        names.push(owned("secret"));
        let r = Masker { field_names: names, scrubber: Scrubber::new() };
        assert(r.names() =~= default_sensitive_fields());
        r
    }

    /// A masked copy of `value`; `extra_fields` (from the tool's declaration
    /// and the policy's obligations) widen the names, compared lowercased.
    pub fn mask(&self, value: &Json, extra_fields: &Vec<String>) -> (r: Json)
        requires
            self.wf(),
        ensures
            r@ == mask_json(
                value@,
                self.names() + strs(extra_fields@).map_values(|f: Seq<char>| unicode_lower(f)),
                self.scrubs(),
            ),
    {
        let mut names = crate::registry::copy_strings(&self.field_names);
        let mut i: usize = 0;
        while i < extra_fields.len()
            invariant
                i <= extra_fields.len(),
                strs(names@) == self.names() + strs(extra_fields@).take(i as int).map_values(|f: Seq<char>| unicode_lower(f)),
            decreases extra_fields.len() - i,
        {
            let ghost before = names@;
            names.push(to_lowercase(extra_fields[i].as_str()));
            assert(strs(extra_fields@).take(i + 1) =~= strs(extra_fields@).take(i as int).push(extra_fields@[i as int]@));
            assert(strs(names@) =~= strs(before).push(unicode_lower(extra_fields@[i as int]@)));
            assert(strs(names@) =~= self.names() + strs(extra_fields@).take(i + 1).map_values(|f: Seq<char>| unicode_lower(f)));
            i = i + 1;
        }
        assert(strs(extra_fields@).take(extra_fields@.len() as int) =~= strs(extra_fields@));
        self.mask_value(value, &names)
    }

    fn mask_value(&self, v: &Json, names: &Vec<String>) -> (r: Json)
        requires
            self.wf(),
        ensures
            r@ == mask_json(v@, strs(names@), self.scrubs()),
        decreases v,
    {
        let ghost ns = strs(names@);
        match v {
            Json::Object(es) => {
                let ghost ev = jv_entries(es@);
                proof {
                    lemma_jv_entries(es@);
                    assert forall|j: int| 0 <= j < es@.len() implies decreases_to!(*v => #[trigger] es@[j].1) by {
                        assert(decreases_to!(*v => *es));
                        assert(decreases_to!(*es => es@));
                        assert(decreases_to!(es@ => es@[j]));
                        assert(decreases_to!(es@[j] => es@[j].1));
                    }
                }
                let mut out: Vec<(String, Json)> = Vec::new();
                let mut i: usize = 0;
                while i < es.len()
                    invariant
                        i <= es.len(),
                        self.wf(),
                        ns == strs(names@),
                        ev == jv_entries(es@),
                        ev.len() == es@.len(),
                        forall|j: int| 0 <= j < es@.len() ==> #[trigger] ev[j] == (es@[j].0@, jv(es@[j].1)),
                        forall|j: int| 0 <= j < es@.len() ==> decreases_to!(*v => #[trigger] es@[j].1),
                        jv_entries(out@) == mask_entries(ev.take(i as int), ns, self.scrubs()),
                    decreases es.len() - i,
                {
                    assert(ev.take(i + 1).drop_last() =~= ev.take(i as int));
                    assert(ev.take(i + 1).last() == ev[i as int]);
                    let lower = to_lowercase(es[i].0.as_str());
                    proof {
                        crate::auth::lemma_strs_has(names@, lower@);
                    }
                    let child = if vec_has(names, lower.as_str()) {
                        mask_field_value(&es[i].1)
                    } else {
                        self.mask_value(&es[i].1, names)
                    };
                    let ghost before = out@;
                    out.push((es[i].0.clone(), child));
                    proof {
                        assert(out@.drop_last() =~= before);
                    }
                    i = i + 1;
                }
                assert(ev.take(ev.len() as int) =~= ev);
                Json::Object(out)
            },
            Json::Array(items) => {
                let ghost iv = jv_list(items@);
                proof {
                    lemma_jv_list(items@);
                    assert forall|j: int| 0 <= j < items@.len() implies decreases_to!(*v => #[trigger] items@[j]) by {
                        assert(decreases_to!(*v => *items));
                        assert(decreases_to!(*items => items@));
                        assert(decreases_to!(items@ => items@[j]));
                    }
                }
                let mut out: Vec<Json> = Vec::new();
                let mut i: usize = 0;
                while i < items.len()
                    invariant
                        i <= items.len(),
                        self.wf(),
                        ns == strs(names@),
                        iv == jv_list(items@),
                        iv.len() == items@.len(),
                        forall|j: int| 0 <= j < items@.len() ==> #[trigger] iv[j] == jv(items@[j]),
                        forall|j: int| 0 <= j < items@.len() ==> decreases_to!(*v => #[trigger] items@[j]),
                        jv_list(out@) == mask_items(iv.take(i as int), ns, self.scrubs()),
                    decreases items.len() - i,
                {
                    assert(iv.take(i + 1).drop_last() =~= iv.take(i as int));
                    assert(iv.take(i + 1).last() == iv[i as int]);
                    let child = self.mask_value(&items[i], names);
                    let ghost before = out@;
                    out.push(child);
                    proof {
                        assert(out@.drop_last() =~= before);
                    }
                    i = i + 1;
                }
                assert(iv.take(iv.len() as int) =~= iv);
                Json::Array(out)
            },
            Json::Str(s) => match &self.scrubber {
                Some(sc) => Json::Str(sc.scrub(s.as_str())),
                None => Json::Str(s.clone()),
            },
            _ => v.copy(),
        }
    }
}

fn mask_field_value(v: &Json) -> (r: Json)
    ensures
        r@ == mask_field_spec(v@),
{
    match v {
        Json::Str(s) => Json::Str(partial_mask(s.as_str())),
        _ => Json::Str(owned("***MASKED***")),
    }
}

proof fn lemma_mask_entries_at(es: Seq<(Seq<char>, JsonV)>, names: Seq<Seq<char>>, scrubs: bool, k: int)
    requires
        0 <= k < es.len(),
    ensures
        mask_entries(es, names, scrubs).len() == es.len(),
        mask_entries(es, names, scrubs)[k].0 == es[k].0,
        names.contains(unicode_lower(es[k].0)) ==> mask_entries(es, names, scrubs)[k].1 == mask_field_spec(es[k].1),
        !names.contains(unicode_lower(es[k].0)) ==> mask_entries(es, names, scrubs)[k].1 == mask_json(
            es[k].1,
            names,
            scrubs,
        ),
    decreases es.len(),
{
    lemma_mask_entries_len(es.drop_last(), names, scrubs);
    if k < es.len() - 1 {
        lemma_mask_entries_at(es.drop_last(), names, scrubs, k);
    }
}

proof fn lemma_mask_entries_len(es: Seq<(Seq<char>, JsonV)>, names: Seq<Seq<char>>, scrubs: bool)
    ensures
        mask_entries(es, names, scrubs).len() == es.len(),
    decreases es.len(),
{
    if es.len() > 0 {
        lemma_mask_entries_len(es.drop_last(), names, scrubs);
    }
}

/// A field whose lowercased name is sensitive is masked whole, wherever it
/// stands in an object: it keeps its name and its place, a text value
/// becomes its partial mask, and any other value (number, flag, object,
/// list, null) becomes the text `***MASKED***`, so it never survives as it
/// was. The object keeps all its fields in order.
pub proof fn law_sensitive_fields_never_pass(es: Seq<(Seq<char>, JsonV)>, names: Seq<Seq<char>>, scrubs: bool, k: int)
    requires
        0 <= k < es.len(),
        names.contains(unicode_lower(es[k].0)),
    ensures
        mask_json(JsonV::Object(es), names, scrubs) matches JsonV::Object(out) && out.len() == es.len() && out[k].0
            == es[k].0 && match es[k].1 {
            JsonV::Str(t) => out[k].1 == JsonV::Str(partial_mask_spec(t)),
            _ => out[k].1 == JsonV::Str("***MASKED***"@) && out[k].1 != es[k].1,
        },
{
    lemma_mask_entries_at(es, names, scrubs, k);
}

} // verus!
