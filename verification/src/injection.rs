//! Prompt-injection signals, direct and indirect.
//!
//! Detection marks, it does not block: rule-based heuristics miss new
//! evasions and fire on documents that merely quote "ignore the previous
//! instructions". The signal goes to the audit log for a person to judge;
//! used as a refusal, every false positive would refuse legitimate work.
//! The rule names say what looked suspicious and why.
use vstd::prelude::*;
use crate::pattern::{Pattern, compile, is_match, regex_compiles, regex_matches};
use crate::registry::strs;
use crate::text::{lex_lt, str_lt, str_eq, owned, lemma_lex_irreflexive, lemma_lex_asymmetric, lemma_lex_total,
    lemma_lex_transitive};

verus! {

/// The outcome of a scan.
#[derive(Debug)]
pub struct Verdict {
    pub suspicious: bool,
    /// The names of the rules that fired, sorted, each once.
    pub patterns: Vec<String>,
}

/// The rules, Korean and English together: a name appears twice when both
/// languages have a variant, and either variant reports the one name. Only
/// strong signals are kept, to limit false positives.
pub open spec fn rule_table() -> Seq<(Seq<char>, Seq<char>)> {
    seq![
        ("override_instructions"@, r"(?i)(ignore|disregard|forget|override)\s+(all\s+|any\s+|the\s+|your\s+|previous\s+|prior\s+)*(previous|prior|above|earlier|system|initial)?\s*(instructions?|prompts?|messages?|context|rules?|directions?)"@),
        ("override_instructions"@, r"(이전|앞선|위의|기존|원래|처음)\s*(의\s*)?(지시|명령|지침|규칙|프롬프트|설정)[^\n]{0,12}(무시|잊|어기|무효)"@),
        ("reveal_prompt"@, r"(?i)(reveal|show|print|repeat|display|output|give|tell)\s+(me\s+|us\s+|your\s+|the\s+)*(system\s+|initial\s+|original\s+)?(prompt|instructions?|rules?|guidelines?|configuration)"@),
        ("reveal_prompt"@, r"(시스템\s*)?(프롬프트|지시문|지침|설정)[^\n]{0,12}(보여|출력|알려|공개|말해|내놔)"@),
        ("role_manipulation"@, r"(?i)(developer\s+mode|jailbreak|do\s+anything\s+now|\bDAN\b|unfiltered|without\s+(any\s+)?restrictions?|no\s+longer\s+bound)"@),
        ("role_manipulation"@, r"(너는|당신은|이제부터|지금부터)\s*이제|제한\s*(을\s*)?(없이|해제|무시)|아무\s*제약\s*없이"@),
        ("bypass_controls"@, r"(?i)(bypass|skip|circumvent|avoid)\s+(the\s+)?(approval|policy|permission|security|guardrail|check)"@),
        ("bypass_controls"@, r"(승인|정책|권한|검증|보안)\s*(을\s*|절차\s*)?(없이|건너|우회|무시|생략)"@),
        ("delimiter_injection"@, r"(?i)(<\|im_start\|>|<\|im_end\|>|<<SYS>>|\[/?INST\]|###\s*(system|instruction|assistant)\b|\bsystem\s*:\s*you\s+are)"@),
    ]
}

/// Whether rule `i` fires on `text` (a rule whose pattern the regex crate
/// refused never fires).
pub open spec fn rule_fires(i: int, text: Seq<char>) -> bool {
    regex_compiles(rule_table()[i].1) && regex_matches(rule_table()[i].1, text)
}

/// Whether some rule named `name` fires on `text`.
pub open spec fn name_fires(name: Seq<char>, text: Seq<char>) -> bool {
    exists|i: int| 0 <= i < rule_table().len() && rule_table()[i].0 == name && #[trigger] rule_fires(i, text)
}

/// Strictly increasing: sorted, and each name once.
pub open spec fn strictly_sorted(s: Seq<Seq<char>>) -> bool {
    forall|i: int, j: int| 0 <= i < j < s.len() ==> lex_lt(#[trigger] s[i], #[trigger] s[j])
}

struct Rule {
    name: String,
    pattern: Option<Pattern>,
}

/// The injection detector. It never changes, so it can be shared.
pub struct Detector {
    rules: Vec<Rule>,
}

fn rule(name: &str, source: &str) -> (r: Rule)
    ensures
        r.name@ == name@,
        r.pattern is Some == regex_compiles(source@),
        r.pattern matches Some(p) ==> p.source_view() == source@,
{
    Rule { name: owned(name), pattern: compile(source).ok() }
}

/// Inserts `x` into a strictly sorted list unless it is there.
pub(crate) fn insert_sorted(out: &mut Vec<String>, x: String)
    requires
        strictly_sorted(strs(old(out)@)),
    ensures
        strictly_sorted(strs(final(out)@)),
        forall|y: Seq<char>| #[trigger] strs(final(out)@).contains(y) <==> (strs(old(out)@).contains(y) || y == x@),
{
    let ghost s = strs(out@);
    let mut i: usize = 0;
    while i < out.len() && str_lt(out[i].as_str(), x.as_str())
        invariant
            i <= out.len(),
            s == strs(out@),
            forall|j: int| 0 <= j < i ==> lex_lt(#[trigger] s[j], x@),
        decreases out.len() - i,
    {
        i = i + 1;
    }
    if i < out.len() && str_eq(out[i].as_str(), x.as_str()) {
        assert(s[i as int] == x@);
        return;
    }
    proof {
        if i < out.len() {
            lemma_lex_total(s[i as int], x@);
        }
    }
    out.insert(i, x);
    proof {
        let t = strs(out@);
        assert(t =~= s.insert(i as int, x@));
        assert forall|a: int, b: int| 0 <= a < b < t.len() implies lex_lt(#[trigger] t[a], #[trigger] t[b]) by {
            if b < i {
            } else if b == i {
            } else if a < i {
                lemma_lex_transitive(t[a], x@, s[i as int]);
                if b - 1 > i {
                    lemma_lex_transitive(x@, s[i as int], s[b - 1]);
                    lemma_lex_transitive(t[a], x@, s[b - 1]);
                }
            } else if a == i {
                if b - 1 > i {
                    lemma_lex_transitive(x@, s[i as int], s[b - 1]);
                }
            } else {
            }
        }
        assert forall|y: Seq<char>| #[trigger] t.contains(y) <==> (s.contains(y) || y == x@) by {
            if t.contains(y) {
                let k = choose|k: int| 0 <= k < t.len() && t[k] == y;
                if k < i {
                    assert(s[k] == y);
                } else if k > i {
                    assert(s[k - 1] == y);
                }
            }
            if s.contains(y) {
                let k = choose|k: int| 0 <= k < s.len() && s[k] == y;
                if k < i {
                    assert(t[k] == y);
                } else {
                    assert(t[k + 1] == y);
                }
            }
            if y == x@ {
                assert(t[i as int] == y);
            }
        }
    }
}

impl Detector {
    pub closed spec fn wf(&self) -> bool {
        &&& self.rules@.len() == rule_table().len()
        &&& forall|i: int| 0 <= i < rule_table().len() ==> {
            let r = #[trigger] self.rules@[i];
            &&& r.name@ == rule_table()[i].0
            &&& r.pattern is Some == regex_compiles(rule_table()[i].1)
            &&& r.pattern matches Some(p) ==> p.source_view() == rule_table()[i].1
        }
    }

    pub fn new() -> (r: Detector)
        ensures
            r.wf(),
    {
        let mut rules: Vec<Rule> = Vec::new();
        rules.push(rule("override_instructions", r"(?i)(ignore|disregard|forget|override)\s+(all\s+|any\s+|the\s+|your\s+|previous\s+|prior\s+)*(previous|prior|above|earlier|system|initial)?\s*(instructions?|prompts?|messages?|context|rules?|directions?)"));
        rules.push(rule("override_instructions", r"(이전|앞선|위의|기존|원래|처음)\s*(의\s*)?(지시|명령|지침|규칙|프롬프트|설정)[^\n]{0,12}(무시|잊|어기|무효)"));
        rules.push(rule("reveal_prompt", r"(?i)(reveal|show|print|repeat|display|output|give|tell)\s+(me\s+|us\s+|your\s+|the\s+)*(system\s+|initial\s+|original\s+)?(prompt|instructions?|rules?|guidelines?|configuration)"));
        rules.push(rule("reveal_prompt", r"(시스템\s*)?(프롬프트|지시문|지침|설정)[^\n]{0,12}(보여|출력|알려|공개|말해|내놔)"));
        rules.push(rule("role_manipulation", r"(?i)(developer\s+mode|jailbreak|do\s+anything\s+now|\bDAN\b|unfiltered|without\s+(any\s+)?restrictions?|no\s+longer\s+bound)"));
        rules.push(rule("role_manipulation", r"(너는|당신은|이제부터|지금부터)\s*이제|제한\s*(을\s*)?(없이|해제|무시)|아무\s*제약\s*없이"));
        rules.push(rule("bypass_controls", r"(?i)(bypass|skip|circumvent|avoid)\s+(the\s+)?(approval|policy|permission|security|guardrail|check)"));
        rules.push(rule("bypass_controls", r"(승인|정책|권한|검증|보안)\s*(을\s*|절차\s*)?(없이|건너|우회|무시|생략)"));
        rules.push(rule("delimiter_injection", r"(?i)(<\|im_start\|>|<\|im_end\|>|<<SYS>>|\[/?INST\]|###\s*(system|instruction|assistant)\b|\bsystem\s*:\s*you\s+are)"));
        let d = Detector { rules };
        assert(d.wf());
        d
    }

    /// The injection signals in a text: the names of the rules that fire,
    /// sorted and each once; none for an empty text.
    pub fn scan(&self, text: &str) -> (r: Verdict)
        requires
            self.wf(),
        ensures
            text@.len() == 0 ==> !r.suspicious && r.patterns@.len() == 0,
            text@.len() > 0 ==> forall|y: Seq<char>| #[trigger] strs(r.patterns@).contains(y) <==> name_fires(y, text@),
            strictly_sorted(strs(r.patterns@)),
            r.suspicious == (r.patterns@.len() > 0),
    {
        if text.is_empty() {
            return Verdict { suspicious: false, patterns: Vec::new() };
        }
        let mut names: Vec<String> = Vec::new();
        let mut i: usize = 0;
        while i < self.rules.len()
            invariant
                i <= self.rules.len(),
                self.wf(),
                strictly_sorted(strs(names@)),
                forall|y: Seq<char>| #[trigger] strs(names@).contains(y) <==> exists|k: int|
                    0 <= k < i && rule_table()[k].0 == y && #[trigger] rule_fires(k, text@),
            decreases self.rules.len() - i,
        {
            let r = &self.rules[i];
            let fires = match &r.pattern {
                Some(p) => is_match(p, text),
                None => false,
            };
            let ghost before = strs(names@);
            if fires {
                insert_sorted(&mut names, r.name.clone());
            }
            proof {
                assert(fires == rule_fires(i as int, text@));
                assert forall|y: Seq<char>| #[trigger] strs(names@).contains(y) <==> exists|k: int|
                    0 <= k < i + 1 && rule_table()[k].0 == y && #[trigger] rule_fires(k, text@) by {
                    if exists|k: int| 0 <= k < i + 1 && rule_table()[k].0 == y && #[trigger] rule_fires(k, text@) {
                        let k = choose|k: int| 0 <= k < i + 1 && rule_table()[k].0 == y && #[trigger] rule_fires(k, text@);
                        if k < i {
                            assert(before.contains(y));
                        }
                    }
                }
            }
            i = i + 1;
        }
        proof {
            assert forall|y: Seq<char>| #[trigger] strs(names@).contains(y) <==> name_fires(y, text@) by {}
        }
        let suspicious = names.len() > 0;
        Verdict { suspicious, patterns: names }
    }
}

/// A name is reported at most once, however many of its rules fire, and
/// the names come sorted.
pub proof fn law_names_once_sorted(v: Seq<Seq<char>>)
    requires
        strictly_sorted(v),
    ensures
        v.no_duplicates(),
        forall|i: int, j: int| 0 <= i < j < v.len() ==> lex_lt(#[trigger] v[i], #[trigger] v[j]),
{
    assert forall|i: int, j: int| 0 <= i < v.len() && 0 <= j < v.len() && i != j implies v[i] != v[j] by {
        if i < j {
            assert(lex_lt(v[i], v[j]));
            lemma_lex_irreflexive(v[i]);
        } else {
            assert(lex_lt(v[j], v[i]));
            lemma_lex_irreflexive(v[j]);
        }
    }
}

/// Two strictly sorted lists with the same names are the same list.
pub proof fn lemma_sorted_unique(a: Seq<Seq<char>>, b: Seq<Seq<char>>)
    requires
        strictly_sorted(a),
        strictly_sorted(b),
        forall|y: Seq<char>| a.contains(y) <==> b.contains(y),
    ensures
        a == b,
    decreases a.len(),
{
    if a.len() == 0 {
        if b.len() > 0 {
            assert(b.contains(b[0]));
        }
        assert(a =~= b);
    } else {
        assert(a.contains(a[0]));
        assert(b.len() > 0);
        if a[0] != b[0] {
            let j = choose|j: int| 0 <= j < b.len() && b[j] == a[0];
            let i = choose|i: int| 0 <= i < a.len() && a[i] == b[0];
            assert(b.contains(b[0]));
            assert(j > 0 && i > 0);
            assert(lex_lt(b[0], b[j]));
            assert(lex_lt(a[0], a[i]));
            lemma_lex_asymmetric(a[0], b[0]);
        }
        let ta = a.drop_first();
        let tb = b.drop_first();
        assert forall|i: int, j: int| 0 <= i < j < ta.len() implies lex_lt(#[trigger] ta[i], #[trigger] ta[j]) by {
            assert(ta[i] == a[i + 1] && ta[j] == a[j + 1]);
        }
        assert forall|i: int, j: int| 0 <= i < j < tb.len() implies lex_lt(#[trigger] tb[i], #[trigger] tb[j]) by {
            assert(tb[i] == b[i + 1] && tb[j] == b[j + 1]);
        }
        assert forall|y: Seq<char>| ta.contains(y) <==> tb.contains(y) by {
            if ta.contains(y) {
                let i = choose|i: int| 0 <= i < ta.len() && ta[i] == y;
                assert(a[i + 1] == y);
                assert(lex_lt(a[0], a[i + 1]));
                lemma_lex_irreflexive(y);
                assert(b.contains(y));
                let j = choose|j: int| 0 <= j < b.len() && b[j] == y;
                assert(j != 0);
                assert(tb[j - 1] == y);
            }
            if tb.contains(y) {
                let j = choose|j: int| 0 <= j < tb.len() && tb[j] == y;
                assert(b[j + 1] == y);
                assert(lex_lt(b[0], b[j + 1]));
                lemma_lex_irreflexive(y);
                assert(a.contains(y));
                let i = choose|i: int| 0 <= i < a.len() && a[i] == y;
                assert(i != 0);
                assert(ta[i - 1] == y);
            }
        }
        lemma_sorted_unique(ta, tb);
        assert(a =~= seq![a[0]] + ta);
        assert(b =~= seq![b[0]] + tb);
    }
}

/// A verdict depends on the text alone: two verdicts that `scan` may give
/// for one text list the same names; and each name is a rule's.
pub proof fn law_scan_depends_on_text_only(v1: Seq<Seq<char>>, v2: Seq<Seq<char>>, text: Seq<char>)
    requires
        strictly_sorted(v1),
        strictly_sorted(v2),
        forall|y: Seq<char>| #[trigger] v1.contains(y) <==> name_fires(y, text),
        forall|y: Seq<char>| #[trigger] v2.contains(y) <==> name_fires(y, text),
    ensures
        v1 == v2,
        forall|k: int| 0 <= k < v1.len() ==> exists|i: int| 0 <= i < rule_table().len() && rule_table()[i].0 == #[trigger] v1[k],
{
    assert forall|y: Seq<char>| v1.contains(y) <==> v2.contains(y) by {
        if v1.contains(y) {
            assert(name_fires(y, text));
        }
        if v2.contains(y) {
            assert(name_fires(y, text));
        }
    }
    lemma_sorted_unique(v1, v2);
    assert forall|k: int| 0 <= k < v1.len() implies exists|i: int| 0 <= i < rule_table().len() && rule_table()[i].0 == #[trigger] v1[k] by {
        assert(v1.contains(v1[k]));
        assert(name_fires(v1[k], text));
    }
}

} // verus!

