//! Automatic scoring: a rule rubric, and the text exchanged with an LLM
//! judge.
//!
//! Automatic scores carry their own sources (`auto_rubric`,
//! `auto_llm_judge`), apart from people's.
use vstd::prelude::*;
use crate::eval::{Turn, ToolStep, known_labels, is_known_label};
use crate::injection::{insert_sorted, strictly_sorted};
use crate::json::{Json, JsonV, jv, jv_entries, jv_list, lemma_jv_list, obj_get, get};
use crate::pattern::{compile, is_match, regex_error, regex_matches};
use crate::registry::strs;
use crate::text::{
    chars_of, concat, concat3, contains, has_infix, int_text, int_to_string, owned, push_char, replace_lit,
    replace_str, str_eq, string_of, to_lowercase, trim, trim_spec, unicode_lower, lex_lt, lemma_lex_transitive,
};

verus! {

/// The rule rubric: deterministic heuristics.
#[derive(Clone, Copy, Debug)]
pub struct RuleRubric;

/// The rubric's rating of a turn: whose it is (the turn, the automatic
/// rubric as source and rater, on the 5-point scale, rubric `rule-rubric`
/// version 1), the labels, sorted and each once, the penalties in the order
/// they apply, each a dimension and an amount in hundredths, and the
/// dimensions (`factual`, `complete`, `grounded`, `policy`, in that order)
/// and the score in hundredths. Each dimension starts at 100 and each
/// penalty lowers it, not below 0; the score is the lowest dimension.
pub struct Findings {
    pub turn_id: String,
    pub source: String,
    pub scale: String,
    pub rater_id: String,
    pub rubric_id: String,
    pub rubric_version: String,
    pub labels: Vec<String>,
    pub penalties: Vec<(String, u32)>,
    pub dims: Vec<(String, u32)>,
    pub score: u32,
}

/// The dimensions a rubric rates, in the order it lists them.
pub open spec fn dim_names() -> Seq<Seq<char>> {
    seq!["factual"@, "complete"@, "grounded"@, "policy"@]
}

/// What the penalties take from dimension `d`, in hundredths.
pub open spec fn taken(p: Seq<(Seq<char>, u32)>, d: Seq<char>) -> int
    decreases p.len(),
{
    if p.len() == 0 {
        0
    } else {
        taken(p.drop_last(), d) + if p.last().0 == d { p.last().1 as int } else { 0 }
    }
}

/// What is left of dimension `d`: 100 less its penalties, not below 0.
pub open spec fn dim_left(p: Seq<(Seq<char>, u32)>, d: Seq<char>) -> int {
    if taken(p, d) >= 100 {
        0
    } else {
        100 - taken(p, d)
    }
}

pub open spec fn min4(a: int, b: int, c: int, d: int) -> int {
    let ab = if a <= b { a } else { b };
    let cd = if c <= d { c } else { d };
    if ab <= cd { ab } else { cd }
}

/// The score: the lowest dimension.
pub open spec fn score_spec(p: Seq<(Seq<char>, u32)>) -> int {
    min4(dim_left(p, "factual"@), dim_left(p, "complete"@), dim_left(p, "grounded"@), dim_left(p, "policy"@))
}

pub open spec fn success_words() -> Seq<Seq<char>> {
    seq!["완료"@, "성공"@, "처리했습니다"@, "paid"@, "submitted"@, "환불됐습니다"@, "환불되었습니다"@]
}

pub open spec fn failure_words() -> Seq<Seq<char>> {
    seq!["실패"@, "거부"@, "권한"@, "없습니다"@, "불가"@, "blocked"@, "denied"@]
}

pub open spec fn approval_words() -> Seq<Seq<char>> {
    seq!["승인"@, "대기"@, "검토"@, "dry-run"@, "dry run"@, "approval"@]
}

pub open spec fn legacy_words() -> Seq<Seq<char>> {
    seq!["결제"@, "미납"@, "연체"@, "송장"@, "계약"@, "티켓"@, "환불"@, "발주"@]
}

/// Some word of `words`, lowercased, occurs in `text`.
pub open spec fn mentions(text: Seq<char>, words: Seq<Seq<char>>) -> bool {
    exists|i: int| 0 <= i < words.len() && #[trigger] has_infix(text, unicode_lower(words[i]))
}

pub open spec fn invoice_pattern() -> Seq<char> {
    "(?i)\\bINV[-\\s]?\\d"@
}

pub open spec fn status_pattern() -> Seq<char> {
    "(?i)\\b(paid|unpaid|overdue|open|resolved|closed|pending)\\b"@
}

/// A pattern the regex crate accepts and that matches the text.
pub open spec fn pattern_hits(p: Seq<char>, text: Seq<char>) -> bool {
    regex_error(p) is None && regex_matches(p, text)
}

/// The reply states facts about a legacy system: an invoice number, an
/// invoice status, or a business word.
pub open spec fn legacy_claim_spec(reply: Seq<char>) -> bool {
    pattern_hits(invoice_pattern(), reply) || pattern_hits(status_pattern(), reply) || exists|i: int|
        0 <= i < legacy_words().len() && #[trigger] has_infix(reply, legacy_words()[i])
}

pub open spec fn any_decision(trail: Seq<ToolStep>, d: Seq<char>) -> bool {
    exists|i: int| 0 <= i < trail.len() && (#[trigger] trail[i]).decision@ == d
}

/// The findings' conditions, as the rubric reads them.
pub ghost struct Signals {
    pub empty_but_completed: bool,
    pub false_success: bool,
    pub policy_blind: bool,
    pub ungrounded: bool,
    pub success_after_failure: bool,
}

pub open spec fn signals(t: Turn) -> Signals {
    let lower = unicode_lower(t.reply@);
    let completed = t.outcome@.len() == 0 || t.outcome@ == "completed"@;
    let sounds_success = mentions(lower, success_words());
    let sounds_failure = mentions(lower, failure_words());
    Signals {
        empty_but_completed: (t.reply@.len() == 0 || t.reply@ == "(빈 응답)"@) && completed,
        false_success: any_decision(t.tool_trail@, "denied"@) && sounds_success && !sounds_failure,
        policy_blind: any_decision(t.tool_trail@, "dry_run"@) && !mentions(lower, approval_words()),
        ungrounded: t.tool_trail@.len() == 0 && legacy_claim_spec(t.reply@),
        success_after_failure: (t.outcome@ == "halted"@ || t.outcome@ == "error"@) && sounds_success,
    }
}

pub open spec fn opt(b: bool, x: Seq<char>) -> Seq<Seq<char>> {
    if b {
        seq![x]
    } else {
        Seq::empty()
    }
}

/// The labels, in sorted order.
pub open spec fn labels_spec(s: Signals) -> Seq<Seq<char>> {
    opt(s.false_success || s.ungrounded, "hallucination"@) + opt(s.empty_but_completed, "incomplete"@) + opt(
        s.ungrounded,
        "missing_citation"@,
    ) + opt(s.policy_blind, "policy_blind"@) + opt(s.false_success || s.success_after_failure, "wrong_fact"@)
}

pub open spec fn pen(b: bool, dim: Seq<char>, amount: u32) -> Seq<(Seq<char>, u32)> {
    if b {
        seq![(dim, amount)]
    } else {
        Seq::empty()
    }
}

/// The penalties, in the order they apply.
pub open spec fn penalties_spec(s: Signals) -> Seq<(Seq<char>, u32)> {
    pen(s.empty_but_completed, "complete"@, 50) + pen(s.false_success, "factual"@, 45) + pen(
        s.false_success,
        "factual"@,
        10,
    ) + pen(s.policy_blind, "policy"@, 35) + pen(s.ungrounded, "grounded"@, 40) + pen(
        s.ungrounded,
        "grounded"@,
        15,
    ) + pen(s.success_after_failure, "factual"@, 25)
}

pub open spec fn pen_views(v: Seq<(String, u32)>) -> Seq<(Seq<char>, u32)> {
    Seq::new(v.len(), |i: int| (v[i].0@, v[i].1))
}

/// Some word of `words` occurs, lowercased, in `text`.
fn mentions_any(text: &str, words: &[&str]) -> (r: bool)
    ensures
        r == mentions(text@, words@.map_values(|w: &str| w@)),
{
    let ghost ws = words@.map_values(|w: &str| w@);
    let mut i: usize = 0;
    while i < words.len()
        invariant
            i <= words@.len(),
            ws == words@.map_values(|w: &str| w@),
            forall|j: int| 0 <= j < i ==> !has_infix(text@, unicode_lower(#[trigger] ws[j])),
        decreases words.len() - i,
    {
        let w = to_lowercase(words[i]);
        assert(ws[i as int] == words@[i as int]@);
        if contains(text, w.as_str()) {
            return true;
        }
        i = i + 1;
    }
    false
}

pub open spec fn word_views(w: Seq<&str>) -> Seq<Seq<char>> {
    w.map_values(|x: &str| x@)
}

fn contains_any(text: &str, words: &[&str]) -> (r: bool)
    ensures
        r == exists|i: int| 0 <= i < words@.len() && #[trigger] has_infix(text@, word_views(words@)[i]),
{
    let ghost ws = word_views(words@);
    let mut i: usize = 0;
    while i < words.len()
        invariant
            i <= words@.len(),
            ws == word_views(words@),
            forall|j: int| 0 <= j < i ==> !has_infix(text@, #[trigger] ws[j]),
        decreases words.len() - i,
    {
        assert(ws[i as int] == words@[i as int]@);
        if contains(text, words[i]) {
            return true;
        }
        i = i + 1;
    }
    false
}

fn hits(pattern: &str, text: &str) -> (r: bool)
    ensures
        r == pattern_hits(pattern@, text@),
{
    match compile(pattern) {
        Ok(re) => is_match(&re, text),
        Err(_) => false,
    }
}

/// Whether a reply states facts about a legacy system. (The two patterns
/// are fixed and the regex crate accepts them; were one refused, it would
/// find nothing.)
pub fn looks_like_legacy_claim(reply: &str) -> (r: bool)
    ensures
        r == legacy_claim_spec(reply@),
{
    if hits("(?i)\\bINV[-\\s]?\\d", reply) || hits("(?i)\\b(paid|unpaid|overdue|open|resolved|closed|pending)\\b", reply) {
        return true;
    }
    let words: [&str; 8] = ["결제", "미납", "연체", "송장", "계약", "티켓", "환불", "발주"];
    assert(word_views(words@) =~= legacy_words());
    contains_any(reply, &words)
}

fn any_step(trail: &Vec<ToolStep>, d: &str) -> (r: bool)
    ensures
        r == any_decision(trail@, d@),
{
    let mut i: usize = 0;
    while i < trail.len()
        invariant
            i <= trail@.len(),
            forall|j: int| 0 <= j < i ==> (#[trigger] trail@[j]).decision@ != d@,
        decreases trail.len() - i,
    {
        if str_eq(trail[i].decision.as_str(), d) {
            return true;
        }
        i = i + 1;
    }
    false
}

fn push_label(v: &mut Vec<String>, on: bool, l: &str)
    ensures
        strs(final(v)@) == strs(old(v)@) + opt(on, l@),
{
    if on {
        let ghost b = v@;
        v.push(owned(l));
        assert(strs(v@) =~= strs(b).push(l@));
    } else {
        assert(strs(v@) =~= strs(v@) + Seq::<Seq<char>>::empty());
    }
}

fn push_pen(v: &mut Vec<(String, u32)>, on: bool, dim: &str, amount: u32)
    ensures
        pen_views(final(v)@) == pen_views(old(v)@) + pen(on, dim@, amount),
{
    if on {
        let ghost b = v@;
        v.push((owned(dim), amount));
        assert(pen_views(v@) =~= pen_views(b).push((dim@, amount)));
    } else {
        assert(pen_views(v@) =~= pen_views(v@) + Seq::<(Seq<char>, u32)>::empty());
    }
}

pub open spec fn small(p: Seq<(Seq<char>, u32)>) -> bool {
    forall|i: int| 0 <= i < p.len() ==> (#[trigger] p[i]).1 <= 100
}

proof fn lemma_concat_small(a: Seq<(Seq<char>, u32)>, b: Seq<(Seq<char>, u32)>)
    requires
        small(a),
        small(b),
    ensures
        small(a + b),
{
    assert forall|i: int| 0 <= i < (a + b).len() implies (#[trigger] (a + b)[i]).1 <= 100 by {
        if i < a.len() {
            assert((a + b)[i] == a[i]);
        } else {
            assert((a + b)[i] == b[i - a.len()]);
        }
    }
}

proof fn lemma_penalties_small(s: Signals)
    ensures
        small(penalties_spec(s)),
        penalties_spec(s).len() <= 7,
{
    let a = pen(s.empty_but_completed, "complete"@, 50);
    let b = pen(s.false_success, "factual"@, 45);
    let c = pen(s.false_success, "factual"@, 10);
    let d = pen(s.policy_blind, "policy"@, 35);
    let e = pen(s.ungrounded, "grounded"@, 40);
    let f = pen(s.ungrounded, "grounded"@, 15);
    let g = pen(s.success_after_failure, "factual"@, 25);
    lemma_concat_small(a, b);
    lemma_concat_small(a + b, c);
    lemma_concat_small(a + b + c, d);
    lemma_concat_small(a + b + c + d, e);
    lemma_concat_small(a + b + c + d + e, f);
    lemma_concat_small(a + b + c + d + e + f, g);
}

/// What is left of one dimension after the penalties, in hundredths.
fn dim_value(p: &Vec<(String, u32)>, d: &str) -> (r: u32)
    requires
        forall|i: int| 0 <= i < p@.len() ==> (#[trigger] p@[i]).1 <= 100,
        p@.len() <= 7,
    ensures
        r == dim_left(pen_views(p@), d@),
{
    let mut t: u32 = 0;
    let mut i: usize = 0;
    while i < p.len()
        invariant
            i <= p@.len() <= 7,
            forall|j: int| 0 <= j < p@.len() ==> (#[trigger] p@[j]).1 <= 100,
            t == taken(pen_views(p@).take(i as int), d@),
            t <= 100 * i,
        decreases p.len() - i,
    {
        assert(pen_views(p@).take(i + 1).drop_last() =~= pen_views(p@).take(i as int));
        assert(pen_views(p@).take(i + 1).last() == (p@[i as int].0@, p@[i as int].1));
        if str_eq(p[i].0.as_str(), d) {
            t = t + p[i].1;
        }
        i = i + 1;
    }
    assert(pen_views(p@).take(i as int) =~= pen_views(p@));
    if t >= 100 {
        0
    } else {
        100 - t
    }
}

impl RuleRubric {
    /// Reads a turn: an empty reply to a completed turn is incomplete; a
    /// claimed success after a denial is a hallucination and a wrong fact; a
    /// dry run whose reply does not mention approval is policy-blind; a
    /// legacy fact stated with no tool called is a hallucination with a
    /// missing citation; a claimed success on a halted or failed turn is a
    /// wrong fact.
    pub fn evaluate(&self, turn: &Turn) -> (r: Findings)
        ensures
            r.turn_id@ == turn.turn_id@,
            r.source@ == "auto_rubric"@,
            r.scale@ == "likert5"@,
            r.rater_id@ == "system:judge"@,
            r.rubric_id@ == "rule-rubric"@,
            r.rubric_version@ == "1"@,
            strs(r.labels@) == labels_spec(signals(*turn)),
            pen_views(r.penalties@) == penalties_spec(signals(*turn)),
            pen_views(r.dims@) == Seq::new(4, |i: int| (dim_names()[i], dim_left(penalties_spec(signals(*turn)), dim_names()[i]) as u32)),
            r.score == score_spec(penalties_spec(signals(*turn))),
    {
        let reply = turn.reply.as_str();
        let lower = to_lowercase(reply);
        let none = String::new();
        let outcome = turn.outcome.as_str();
        let completed = str_eq(outcome, none.as_str()) || str_eq(outcome, "completed");
        let empty_reply = str_eq(reply, none.as_str()) || str_eq(reply, "(빈 응답)");
        proof {
            if turn.outcome@.len() == 0 {
                assert(turn.outcome@ =~= none@);
            }
            if turn.reply@.len() == 0 {
                assert(turn.reply@ =~= none@);
            }
        }
        let denied = any_step(&turn.tool_trail, "denied");
        let dry_run = any_step(&turn.tool_trail, "dry_run");
        let success: [&str; 7] = ["완료", "성공", "처리했습니다", "paid", "submitted", "환불됐습니다", "환불되었습니다"];
        let failure: [&str; 7] = ["실패", "거부", "권한", "없습니다", "불가", "blocked", "denied"];
        let approval: [&str; 6] = ["승인", "대기", "검토", "dry-run", "dry run", "approval"];
        assert(success@.map_values(|w: &str| w@) =~= success_words());
        assert(failure@.map_values(|w: &str| w@) =~= failure_words());
        assert(approval@.map_values(|w: &str| w@) =~= approval_words());
        let sounds_success = mentions_any(lower.as_str(), &success);
        let sounds_failure = mentions_any(lower.as_str(), &failure);
        let mentions_approval = mentions_any(lower.as_str(), &approval);
        let empty_but_completed = empty_reply && completed;
        let false_success = denied && sounds_success && !sounds_failure;
        let policy_blind = dry_run && !mentions_approval;
        let ungrounded = turn.tool_trail.len() == 0 && looks_like_legacy_claim(reply);
        let success_after_failure = (str_eq(outcome, "halted") || str_eq(outcome, "error")) && sounds_success;
        let ghost s = signals(*turn);
        assert(s.empty_but_completed == empty_but_completed);
        assert(s.false_success == false_success);
        assert(s.policy_blind == policy_blind);
        assert(s.ungrounded == ungrounded);
        assert(s.success_after_failure == success_after_failure);

        let mut labels: Vec<String> = Vec::new();
        assert(strs(labels@) =~= Seq::<Seq<char>>::empty());
        push_label(&mut labels, false_success || ungrounded, "hallucination");
        push_label(&mut labels, empty_but_completed, "incomplete");
        push_label(&mut labels, ungrounded, "missing_citation");
        push_label(&mut labels, policy_blind, "policy_blind");
        push_label(&mut labels, false_success || success_after_failure, "wrong_fact");

        let mut penalties: Vec<(String, u32)> = Vec::new();
        assert(pen_views(penalties@) =~= Seq::<(Seq<char>, u32)>::empty());
        push_pen(&mut penalties, empty_but_completed, "complete", 50);
        push_pen(&mut penalties, false_success, "factual", 45);
        push_pen(&mut penalties, false_success, "factual", 10);
        push_pen(&mut penalties, policy_blind, "policy", 35);
        push_pen(&mut penalties, ungrounded, "grounded", 40);
        push_pen(&mut penalties, ungrounded, "grounded", 15);
        push_pen(&mut penalties, success_after_failure, "factual", 25);
        proof {
            assert(strs(labels@) =~= labels_spec(s));
            assert(pen_views(penalties@) =~= penalties_spec(s));
        }
        proof {
            lemma_penalties_small(s);
            assert forall|i: int| 0 <= i < penalties@.len() implies (#[trigger] penalties@[i]).1 <= 100 by {
                assert(pen_views(penalties@)[i].1 == penalties@[i].1);
            }
        }
        let factual = dim_value(&penalties, "factual");
        let complete = dim_value(&penalties, "complete");
        let grounded = dim_value(&penalties, "grounded");
        let policy = dim_value(&penalties, "policy");
        let mut dims: Vec<(String, u32)> = Vec::new();
        dims.push((owned("factual"), factual));
        dims.push((owned("complete"), complete));
        dims.push((owned("grounded"), grounded));
        dims.push((owned("policy"), policy));
        let ab = if factual <= complete { factual } else { complete };
        let cd = if grounded <= policy { grounded } else { policy };
        let score = if ab <= cd { ab } else { cd };
        let ghost p = penalties_spec(s);
        assert(pen_views(dims@) =~= Seq::new(4, |i: int| (dim_names()[i], dim_left(p, dim_names()[i]) as u32)));
        Findings {
            turn_id: turn.turn_id.clone(),
            source: owned("auto_rubric"),
            scale: owned("likert5"),
            rater_id: owned("system:judge"),
            rubric_id: owned("rule-rubric"),
            rubric_version: owned("1"),
            labels,
            penalties,
            dims,
            score,
        }
    }
}

/// The most characters of one block in a judge prompt.
pub const BLOCK_LIMIT: usize = 4000;

pub open spec fn sanitize_spec(s: Seq<char>) -> Seq<char> {
    let r = replace_lit(s, "==="@, "___"@);
    if r.len() > BLOCK_LIMIT {
        r.take(BLOCK_LIMIT as int) + "…(truncated)"@
    } else {
        r
    }
}

/// Keeps user and tool text from forging a new delimiter block (`===`
/// becomes `___`), and cuts it at 4000 characters.
pub fn sanitize(s: &str) -> (r: String)
    ensures
        r@ == sanitize_spec(s@),
{
    proof {
        reveal_strlit("===");
    }
    let replaced = replace_str(s, "===", "___");
    let cs = chars_of(replaced.as_str());
    if cs.len() > BLOCK_LIMIT {
        let mut out = String::new();
        let mut i: usize = 0;
        while i < BLOCK_LIMIT
            invariant
                i <= BLOCK_LIMIT,
                BLOCK_LIMIT < cs@.len(),
                cs@ == replaced@,
                out@ == replaced@.take(i as int),
            decreases BLOCK_LIMIT - i,
        {
            push_char(&mut out, cs[i]);
            assert(replaced@.take(i + 1) =~= replaced@.take(i as int).push(replaced@[i as int]));
            i = i + 1;
        }
        out.append("…(truncated)");
        out
    } else {
        replaced
    }
}

pub open spec fn step_line(i: int, t: ToolStep) -> Seq<char> {
    "["@ + int_text(i) + "] name="@ + sanitize_spec(t.name@) + " decision="@ + sanitize_spec(t.decision@)
        + " error="@ + sanitize_spec(t.error_code@) + "\n"@
}

pub open spec fn step_lines(trail: Seq<ToolStep>) -> Seq<char>
    decreases trail.len(),
{
    if trail.len() == 0 {
        Seq::empty()
    } else {
        step_lines(trail.drop_last()) + step_line(trail.len() - 1, trail.last())
    }
}

pub open spec fn user_message_spec(t: Turn) -> Seq<char> {
    "=== OUTCOME ===\n"@ + sanitize_spec(t.outcome@) + "\n"@ + "=== USER ===\n"@ + sanitize_spec(t.prompt@)
        + "\n"@ + "=== TOOLS ===\n"@ + step_lines(t.tool_trail@) + "=== ASSISTANT ===\n"@ + sanitize_spec(
        t.reply@,
    ) + "\n"@ + "=== END ==="@
}

/// The judge's user message: outcome, prompt, tool calls and reply, each in
/// its own delimited block, every piece of content sanitized.
pub fn build_user_message(t: &Turn) -> (r: String)
    ensures
        r@ == user_message_spec(*t),
{
    let mut s = String::new();
    s.append("=== OUTCOME ===\n");
    s.append(sanitize(t.outcome.as_str()).as_str());
    s.append("\n");
    s.append("=== USER ===\n");
    s.append(sanitize(t.prompt.as_str()).as_str());
    s.append("\n");
    s.append("=== TOOLS ===\n");
    let ghost head = s@;
    let mut i: usize = 0;
    while i < t.tool_trail.len()
        invariant
            i <= t.tool_trail@.len(),
            s@ == head + step_lines(t.tool_trail@.take(i as int)),
        decreases t.tool_trail.len() - i,
    {
        let st = &t.tool_trail[i];
        let ghost tk = t.tool_trail@.take(i + 1);
        assert(tk.drop_last() =~= t.tool_trail@.take(i as int));
        assert(tk.last() == t.tool_trail@[i as int]);
        s.append("[");
        s.append(int_to_string(i as i128).as_str());
        s.append("] name=");
        s.append(sanitize(st.name.as_str()).as_str());
        s.append(" decision=");
        s.append(sanitize(st.decision.as_str()).as_str());
        s.append(" error=");
        s.append(sanitize(st.error_code.as_str()).as_str());
        s.append("\n");
        assert(s@ =~= head + step_lines(tk));
        i = i + 1;
    }
    assert(t.tool_trail@.take(i as int) =~= t.tool_trail@);
    s.append("=== ASSISTANT ===\n");
    s.append(sanitize(t.reply.as_str()).as_str());
    s.append("\n");
    s.append("=== END ===");
    assert(s@ =~= user_message_spec(*t));
    s
}

/// The completion budget of a judge call: 400 when none is set.
pub fn judge_max_tokens(max_tokens: i64) -> (r: i64)
    ensures
        r == (if max_tokens <= 0 {
            400
        } else {
            max_tokens
        }),
{
    if max_tokens <= 0 {
        400
    } else {
        max_tokens
    }
}

/// `str::trim_start_matches` with a non-empty pattern: every leading copy
/// removed.
pub open spec fn strip_leading(s: Seq<char>, p: Seq<char>) -> Seq<char>
    decreases s.len(),
{
    if p.len() > 0 && p.len() <= s.len() && s.take(p.len() as int) == p {
        strip_leading(s.skip(p.len() as int), p)
    } else {
        s
    }
}

/// `str::trim_end_matches` with a non-empty pattern.
pub open spec fn strip_trailing(s: Seq<char>, p: Seq<char>) -> Seq<char>
    decreases s.len(),
{
    if p.len() > 0 && p.len() <= s.len() && s.skip(s.len() - p.len()) == p {
        strip_trailing(s.take(s.len() - p.len()), p)
    } else {
        s
    }
}

pub open spec fn fence_cleaned(text: Seq<char>) -> Seq<char> {
    trim_spec(strip_trailing(strip_leading(strip_leading(trim_spec(text), "```json"@), "```"@), "```"@))
}

pub open spec fn first_index(s: Seq<char>, c: char) -> Option<int> {
    if exists|i: int| 0 <= i < s.len() && s[i] == c {
        Some(choose|i: int| 0 <= i < s.len() && s[i] == c && forall|j: int| 0 <= j < i ==> s[j] != c)
    } else {
        None
    }
}

pub open spec fn last_index(s: Seq<char>, c: char) -> Option<int> {
    if exists|i: int| 0 <= i < s.len() && s[i] == c {
        Some(choose|i: int| 0 <= i < s.len() && s[i] == c && forall|j: int| i < j < s.len() ==> s[j] != c)
    } else {
        None
    }
}

/// The JSON object a judge's reply holds: with code fences and space taken
/// off, from the first `{` to the last `}`.
pub open spec fn judge_span_spec(text: Seq<char>) -> Option<Seq<char>> {
    let c = fence_cleaned(text);
    match (first_index(c, '{'), last_index(c, '}')) {
        (Some(s), Some(e)) => if e > s {
            Some(c.subrange(s, e + 1))
        } else {
            None
        },
        _ => None,
    }
}

fn strip_leading_vec(s: Vec<char>, p: &Vec<char>) -> (r: Vec<char>)
    requires
        p@.len() > 0,
    ensures
        r@ == strip_leading(s@, p@),
    decreases s@.len(),
{
    if p.len() <= s.len() {
        let mut k: usize = 0;
        while k < p.len()
            invariant
                k <= p@.len(),
                p@.len() <= s@.len(),
                forall|j: int| 0 <= j < k ==> s@[j] == p@[j],
            decreases p.len() - k,
        {
            if s[k] != p[k] {
                assert(s@.take(p@.len() as int)[k as int] != p@[k as int]);
                return s;
            }
            k = k + 1;
        }
        assert(s@.take(p@.len() as int) =~= p@);
        let rest = crate::text::slice_range(&s, p.len(), s.len());
        assert(rest@ =~= s@.skip(p@.len() as int));
        strip_leading_vec(rest, p)
    } else {
        s
    }
}

fn strip_trailing_vec(s: Vec<char>, p: &Vec<char>) -> (r: Vec<char>)
    requires
        p@.len() > 0,
    ensures
        r@ == strip_trailing(s@, p@),
    decreases s@.len(),
{
    if p.len() <= s.len() {
        let base = s.len() - p.len();
        let mut k: usize = 0;
        while k < p.len()
            invariant
                k <= p@.len(),
                s@.len() == s.len(),
                base == s@.len() - p@.len(),
                forall|j: int| 0 <= j < k ==> s@[base + j] == p@[j],
            decreases p.len() - k,
        {
            if s[base + k] != p[k] {
                assert(s@.skip(base as int)[k as int] != p@[k as int]);
                return s;
            }
            k = k + 1;
        }
        assert(s@.skip(base as int) =~= p@);
        let rest = crate::text::slice_range(&s, 0, base);
        assert(rest@ =~= s@.take(base as int));
        strip_trailing_vec(rest, p)
    } else {
        s
    }
}

/// Cuts out of a judge's reply the JSON object it holds, or says it found
/// none.
pub fn judge_json_span(text: &str) -> (r: Result<String, String>)
    ensures
        match judge_span_spec(text@) {
            Some(s) => r matches Ok(x) && x@ == s,
            None => r matches Err(m) && m@ == "LLM judge 응답에서 JSON 을 찾지 못했습니다"@,
        },
{
    proof {
        reveal_strlit("```json");
        reveal_strlit("```");
    }
    let t = trim(text);
    let a = strip_leading_vec(chars_of(t.as_str()), &chars_of("```json"));
    let b = strip_leading_vec(a, &chars_of("```"));
    let c0 = strip_trailing_vec(b, &chars_of("```"));
    let c0s = string_of(c0.as_slice());
    let ct = trim(c0s.as_str());
    let c = chars_of(ct.as_str());
    proof {
        reveal_strlit("```json");
        reveal_strlit("```");
        assert(c@ == fence_cleaned(text@));
    }
    let mut first: Option<usize> = None;
    let mut i: usize = 0;
    while i < c.len() && first.is_none()
        invariant
            i <= c@.len(),
            match first {
                Some(x) => x < c@.len() && c@[x as int] == '{' && forall|j: int| 0 <= j < x ==> c@[j] != '{',
                None => forall|j: int| 0 <= j < i ==> c@[j] != '{',
            },
        decreases c.len() - i,
    {
        if c[i] == '{' {
            first = Some(i);
        }
        i = i + 1;
    }
    let mut last: Option<usize> = None;
    let mut k: usize = c.len();
    while k > 0 && last.is_none()
        invariant
            k <= c@.len(),
            match last {
                Some(x) => x < c@.len() && c@[x as int] == '}' && forall|j: int| x < j < c@.len() ==> c@[j] != '}',
                None => forall|j: int| k <= j < c@.len() ==> c@[j] != '}',
            },
        decreases k,
    {
        if c[k - 1] == '}' {
            last = Some(k - 1);
        }
        k = k - 1;
    }
    proof {
        reveal_strlit("LLM judge 응답에서 JSON 을 찾지 못했습니다");
    }
    match (first, last) {
        (Some(s), Some(e)) => {
            proof {
                let x = choose|x: int| 0 <= x < c@.len() && c@[x] == '{' && forall|j: int| 0 <= j < x ==> c@[j] != '{';
                assert(c@[s as int] == '{');
                if x < s {
                    assert(c@[x] != '{');
                }
                if x > s {
                    assert(c@[s as int] != '{');
                }
                let y = choose|y: int| 0 <= y < c@.len() && c@[y] == '}' && forall|j: int| y < j < c@.len() ==> c@[j] != '}';
                assert(c@[e as int] == '}');
                if y < e {
                    assert(c@[e as int] != '}');
                }
                if y > e {
                    assert(c@[y] != '}');
                }
            }
            assert(first_index(c@, '{') == Some(s as int));
            assert(last_index(c@, '}') == Some(e as int));
            if e > s {
                let span = crate::text::slice_range(&c, s, e + 1);
                Ok(string_of(span.as_slice()))
            } else {
                Err(owned("LLM judge 응답에서 JSON 을 찾지 못했습니다"))
            }
        },
        _ => {
            proof {
                if first is None {
                    assert(i == c@.len());
                    assert(first_index(c@, '{') is None);
                } else {
                    assert(k == 0);
                    assert(last_index(c@, '}') is None);
                }
            }
            Err(owned("LLM judge 응답에서 JSON 을 찾지 못했습니다"))
        },
    }
}

/// The known labels among the strings of a list, sorted, each once.
pub open spec fn judged_labels(items: Seq<JsonV>) -> Set<Seq<char>> {
    Set::new(|l: Seq<char>| items.contains(JsonV::Str(l)) && known_labels().contains(l))
}

pub open spec fn labels_field(v: JsonV) -> Seq<JsonV> {
    match v {
        JsonV::Object(es) => match obj_get(es, "labels"@) {
            Some(JsonV::Array(items)) => items,
            _ => Seq::empty(),
        },
        _ => Seq::empty(),
    }
}

/// The labels a grading reply gives: those of its `labels` list that are
/// known, sorted, each once.
pub fn judge_labels(v: &Json) -> (r: Vec<String>)
    ensures
        strictly_sorted(strs(r@)),
        forall|l: Seq<char>| #[trigger] strs(r@).contains(l) <==> judged_labels(labels_field(v@)).contains(l),
{
    let mut out: Vec<String> = Vec::new();
    let ghost items = labels_field(v@);
    let empty: Vec<Json> = Vec::new();
    let list: &Vec<Json> = match v {
        Json::Object(es) => match get(es, "labels") {
            Some(Json::Array(a)) => a,
            _ => &empty,
        },
        _ => &empty,
    };
    proof {
        lemma_jv_list(list@);
        lemma_jv_list(empty@);
        assert(jv_list(list@) =~= items);
    }
    let mut i: usize = 0;
    while i < list.len()
        invariant
            i <= list@.len(),
            jv_list(list@) == items,
            items.len() == list@.len(),
            forall|j: int| 0 <= j < list@.len() ==> #[trigger] items[j] == jv(list@[j]),
            strictly_sorted(strs(out@)),
            forall|l: Seq<char>| #[trigger] strs(out@).contains(l) <==> (items.take(i as int).contains(JsonV::Str(l))
                && known_labels().contains(l)),
        decreases list.len() - i,
    {
        let ghost before = strs(out@);
        proof {
            assert(items.take(i + 1) =~= items.take(i as int).push(items[i as int]));
            assert forall|v: JsonV| #[trigger] items.take(i + 1).contains(v) <==> (items.take(i as int).contains(v)
                || items[i as int] == v) by {
                if items.take(i + 1).contains(v) {
                    let k = choose|k: int| 0 <= k < i + 1 && #[trigger] items.take(i + 1)[k] == v;
                    if k < i {
                        assert(items.take(i as int)[k] == v);
                    }
                }
                if items.take(i as int).contains(v) {
                    let k = choose|k: int| 0 <= k < i && #[trigger] items.take(i as int)[k] == v;
                    assert(items.take(i + 1)[k] == v);
                }
                if items[i as int] == v {
                    assert(items.take(i + 1)[i as int] == v);
                }
            }
        }
        match &list[i] {
            Json::Str(s) => {
                assert(items[i as int] == JsonV::Str(s@));
                if is_known_label(s.as_str()) {
                    insert_sorted(&mut out, s.clone());
                }
            },
            _ => {
                assert(!(items[i as int] is Str));
            },
        }
        proof {
            assert forall|l: Seq<char>| #[trigger] strs(out@).contains(l) <==> (items.take(i + 1).contains(JsonV::Str(l))
                && known_labels().contains(l)) by {
                if items.take(i + 1).contains(JsonV::Str(l)) && !items.take(i as int).contains(JsonV::Str(l)) {
                    let k = choose|k: int| 0 <= k < i + 1 && #[trigger] items.take(i + 1)[k] == JsonV::Str(l);
                    if k < i {
                        assert(items.take(i as int)[k] == JsonV::Str(l));
                    }
                }
                if items.take(i as int).contains(JsonV::Str(l)) {
                    let k = choose|k: int| 0 <= k < i && #[trigger] items.take(i as int)[k] == JsonV::Str(l);
                    assert(items.take(i + 1)[k] == JsonV::Str(l));
                }
            }
        }
        i = i + 1;
    }
    assert(items.take(list@.len() as int) =~= items);
    assert forall|l: Seq<char>| #[trigger] strs(out@).contains(l) <==> judged_labels(items).contains(l) by {}
    out
}

pub open spec fn note_field(v: JsonV) -> Seq<char> {
    match v {
        JsonV::Object(es) => match obj_get(es, "note"@) {
            Some(JsonV::Str(s)) => s,
            _ => Seq::empty(),
        },
        _ => Seq::empty(),
    }
}

/// The note of a judge's verdict; empty when it has none.
pub fn judge_note(v: &Json) -> (r: String)
    ensures
        r@ == note_field(v@),
{
    match v {
        Json::Object(es) => match get(es, "note") {
            Some(Json::Str(s)) => s.clone(),
            _ => String::new(),
        },
        _ => String::new(),
    }
}

/// Every element of `s` comes before `x`.
pub open spec fn all_before(s: Seq<Seq<char>>, x: Seq<char>) -> bool {
    forall|i: int| 0 <= i < s.len() ==> lex_lt(#[trigger] s[i], x)
}

/// Every element of `s` is a known label.
pub open spec fn all_known(s: Seq<Seq<char>>) -> bool {
    forall|i: int| 0 <= i < s.len() ==> known_labels().contains(#[trigger] s[i])
}

/// Adds the next label (when it is given) to a sorted list of known labels
/// that all come before it; the result is sorted, known, and before `next`.
proof fn lemma_label_step(a: Seq<Seq<char>>, b: bool, x: Seq<char>, next: Seq<char>)
    requires
        strictly_sorted(a),
        all_known(a),
        all_before(a, x),
        known_labels().contains(x),
        lex_lt(x, next),
    ensures
        strictly_sorted(a + opt(b, x)),
        all_known(a + opt(b, x)),
        all_before(a + opt(b, x), next),
{
    let c = a + opt(b, x);
    assert forall|i: int| 0 <= i < c.len() implies lex_lt(#[trigger] c[i], next) && known_labels().contains(c[i]) by {
        if i < a.len() {
            assert(c[i] == a[i]);
            lemma_lex_transitive(a[i], x, next);
        } else {
            assert(c[i] == x);
        }
    }
    assert forall|i: int, j: int| 0 <= i < j < c.len() implies lex_lt(#[trigger] c[i], #[trigger] c[j]) by {
        assert(c[i] == a[i]);
        if j < a.len() {
            assert(c[j] == a[j]);
        } else {
            assert(c[j] == x);
        }
    }
}

proof fn lemma_taken_nonneg(p: Seq<(Seq<char>, u32)>, d: Seq<char>)
    ensures
        taken(p, d) >= 0,
    decreases p.len(),
{
    if p.len() > 0 {
        lemma_taken_nonneg(p.drop_last(), d);
    }
}

/// Whatever the turn, the rubric's rating is well formed: its labels are
/// known labels, sorted, each once; each dimension lies between 0 and 100
/// hundredths; and the score is the lowest of the four dimensions.
pub proof fn law_rubric_rating_shape(t: Turn)
    ensures
        strictly_sorted(labels_spec(signals(t))),
        all_known(labels_spec(signals(t))),
        forall|d: Seq<char>| 0 <= #[trigger] dim_left(penalties_spec(signals(t)), d) <= 100,
        forall|k: int| 0 <= k < 4 ==> score_spec(penalties_spec(signals(t))) <= dim_left(penalties_spec(signals(t)), #[trigger] dim_names()[k]),
        exists|k: int| 0 <= k < 4 && score_spec(penalties_spec(signals(t))) == dim_left(penalties_spec(signals(t)), #[trigger] dim_names()[k]),
{
    let s = signals(t);
    let p = penalties_spec(s);
    reveal_strlit("hallucination");
    reveal_strlit("incomplete");
    reveal_strlit("missing_citation");
    reveal_strlit("policy_blind");
    reveal_strlit("wrong_fact");
    reveal_strlit("~");
    let l1 = "hallucination"@;
    let l2 = "incomplete"@;
    let l3 = "missing_citation"@;
    let l4 = "policy_blind"@;
    let l5 = "wrong_fact"@;
    let top = "~"@;
    assert(l1[0] == 'h' && l2[0] == 'i' && l3[0] == 'm' && l4[0] == 'p' && l5[0] == 'w' && top[0] == '~');
    assert(lex_lt(l1, l2) && lex_lt(l2, l3) && lex_lt(l3, l4) && lex_lt(l4, l5) && lex_lt(l5, top));
    assert(known_labels()[7] == l1 && known_labels()[8] == l2 && known_labels()[1] == l3);
    assert(known_labels()[5] == l4 && known_labels()[0] == l5);
    let e = Seq::<Seq<char>>::empty();
    lemma_label_step(e, s.false_success || s.ungrounded, l1, l2);
    let a1 = e + opt(s.false_success || s.ungrounded, l1);
    lemma_label_step(a1, s.empty_but_completed, l2, l3);
    let a2 = a1 + opt(s.empty_but_completed, l2);
    lemma_label_step(a2, s.ungrounded, l3, l4);
    let a3 = a2 + opt(s.ungrounded, l3);
    lemma_label_step(a3, s.policy_blind, l4, l5);
    let a4 = a3 + opt(s.policy_blind, l4);
    lemma_label_step(a4, s.false_success || s.success_after_failure, l5, top);
    let a5 = a4 + opt(s.false_success || s.success_after_failure, l5);
    assert(e + opt(s.false_success || s.ungrounded, l1) =~= opt(s.false_success || s.ungrounded, l1));
    assert(a5 == labels_spec(s));
    assert forall|d: Seq<char>| 0 <= #[trigger] dim_left(p, d) <= 100 by {
        lemma_taken_nonneg(p, d);
    }
    assert(dim_names()[0] == "factual"@ && dim_names()[1] == "complete"@);
    assert(dim_names()[2] == "grounded"@ && dim_names()[3] == "policy"@);
    let sc = score_spec(p);
    if sc == dim_left(p, "factual"@) {
        assert(sc == dim_left(p, dim_names()[0]));
    } else if sc == dim_left(p, "complete"@) {
        assert(sc == dim_left(p, dim_names()[1]));
    } else if sc == dim_left(p, "grounded"@) {
        assert(sc == dim_left(p, dim_names()[2]));
    } else {
        assert(sc == dim_left(p, dim_names()[3]));
    }
}

} // verus!
