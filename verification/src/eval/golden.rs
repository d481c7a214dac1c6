//! Golden-set regression: tools run through the gateway by script, with no
//! model in the loop, and what came back checked against what each case
//! expects.
use vstd::prelude::*;
use crate::eval::{ToolStep, args_digest, args_digest_spec};
use crate::canon::{canon_entries, canonical_object, sort_entries};
use crate::json::{JsonV, json_text, jv_entries};
use crate::gateway::admission::{join, join_strings};
use crate::registry::strs;
use crate::json::Json;
use crate::pattern::{compile, is_match, regex_error, regex_matches};
use crate::auth::{
    cidr_parses, nonblank_trimmed, parse_prefixes, Directory, Enricher, EnricherV, Identity, IdentityV, RequestContext,
    RequestContextV, enriched,
};
use crate::text::{
    concat, concat3, contains, debug_list, debug_list_text, debug_quote, debug_text, has_infix, int_text,
    int_to_string, owned, str_eq, views, first_bad, lead_space, trail_space, trim_spec,
};

verus! {

/// What a case expects.
pub struct Expect {
    pub reply_contains: Vec<String>,
    pub reply_not_contains: Vec<String>,
    pub reply_matches: Vec<String>,
    /// In any order.
    pub tools_called: Vec<String>,
    /// A subsequence of the calls: in this order, not necessarily adjacent.
    pub tools_called_ordered: Vec<String>,
    pub tools_not_called: Vec<String>,
    pub outcome: String,
    /// Tool and the decision its last call must have (`allowed`, `denied`,
    /// `dry_run`).
    pub tool_decisions: Vec<(String, String)>,
    pub max_cost_micros: i64,
}

impl Expect {
    /// Expects nothing.
    pub fn none() -> (r: Expect)
        ensures
            r.reply_contains@.len() == 0,
            r.reply_not_contains@.len() == 0,
            r.reply_matches@.len() == 0,
            r.tools_called@.len() == 0,
            r.tools_called_ordered@.len() == 0,
            r.tools_not_called@.len() == 0,
            r.outcome@.len() == 0,
            r.tool_decisions@.len() == 0,
            r.max_cost_micros == 0,
    {
        Expect {
            reply_contains: Vec::new(),
            reply_not_contains: Vec::new(),
            reply_matches: Vec::new(),
            tools_called: Vec::new(),
            tools_called_ordered: Vec::new(),
            tools_not_called: Vec::new(),
            outcome: String::new(),
            tool_decisions: Vec::new(),
            max_cost_micros: 0,
        }
    }
}

pub struct Step {
    pub tool: String,
    pub args: Vec<(String, Json)>,
}

pub struct Case {
    pub id: String,
    pub principal: String,
    pub prompt: String,
    pub steps: Vec<Step>,
    /// When empty, the reply is made from the last tool output.
    pub reply: String,
    pub tags: Vec<String>,
    pub expect: Expect,
    /// This case alone goes to the gateway that allows the highest risk.
    pub allow_high_risk: bool,
}

pub struct Suite {
    pub name: String,
    pub cases: Vec<Case>,
    pub source_path: String,
}

/// What a run observed.
pub struct Observed {
    pub reply: String,
    pub trail: Vec<ToolStep>,
    pub outcome: String,
    pub cost_micros: i64,
    pub exec_error: String,
}

pub struct CheckResult {
    pub pass: bool,
    pub failures: Vec<String>,
}

pub struct CaseReport {
    pub case_id: String,
    pub pass: bool,
    pub failures: Vec<String>,
    pub exec_error: String,
    pub reply: String,
    pub trail: Vec<ToolStep>,
}

/// A run's report.
pub struct Report {
    pub run_id: String,
    pub suite: String,
    pub pass: usize,
    pub fail: usize,
    pub results: Vec<CaseReport>,
}

pub open spec fn opt_view(o: Option<String>) -> Option<Seq<char>> {
    match o {
        Some(m) => Some(m@),
        None => None,
    }
}

/// The errors that stop an agent: the remaining steps are not run.
pub open spec fn halts_spec(code: Seq<char>) -> bool {
    code == "budget_exceeded"@ || code == "approval_rejected"@ || code == "approval_error"@
}

pub fn halts(code: &str) -> (r: bool)
    ensures
        r == halts_spec(code@),
{
    str_eq(code, "budget_exceeded") || str_eq(code, "approval_rejected") || str_eq(code, "approval_error")
}

/// `want` is a subsequence of `got`: its items occur in `got` in this
/// order, not necessarily adjacent.
pub open spec fn subsequence(want: Seq<Seq<char>>, got: Seq<Seq<char>>) -> bool
    decreases got.len(),
{
    if want.len() == 0 {
        true
    } else if got.len() == 0 {
        false
    } else if want[0] == got[0] {
        subsequence(want.drop_first(), got.drop_first())
    } else {
        subsequence(want, got.drop_first())
    }
}

/// `idx` places `want` in `got`: increasing positions holding `want`'s items
/// in order.
pub open spec fn embeds(want: Seq<Seq<char>>, got: Seq<Seq<char>>, idx: Seq<int>) -> bool {
    &&& idx.len() == want.len()
    &&& forall|j: int| 0 <= j < idx.len() ==> 0 <= #[trigger] idx[j] < got.len() && got[idx[j]] == want[j]
    &&& forall|i: int, j: int| 0 <= i < j < idx.len() ==> #[trigger] idx[i] < #[trigger] idx[j]
}

/// The positions the greedy reading picks.
pub open spec fn greedy_indices(want: Seq<Seq<char>>, got: Seq<Seq<char>>) -> Seq<int>
    decreases got.len(),
{
    if want.len() == 0 || got.len() == 0 {
        Seq::empty()
    } else if want[0] == got[0] {
        seq![0int] + greedy_indices(want.drop_first(), got.drop_first()).map_values(|k: int| k + 1)
    } else {
        greedy_indices(want, got.drop_first()).map_values(|k: int| k + 1)
    }
}

proof fn lemma_greedy_embeds(want: Seq<Seq<char>>, got: Seq<Seq<char>>)
    requires
        subsequence(want, got),
    ensures
        embeds(want, got, greedy_indices(want, got)),
    decreases got.len(),
{
    if want.len() == 0 {
    } else if want[0] == got[0] {
        lemma_greedy_embeds(want.drop_first(), got.drop_first());
        let t = greedy_indices(want.drop_first(), got.drop_first());
        let idx = greedy_indices(want, got);
        assert(idx == seq![0int] + t.map_values(|k: int| k + 1));
        assert forall|j: int| 0 <= j < idx.len() implies 0 <= #[trigger] idx[j] < got.len() && got[idx[j]] == want[j] by {
            if j > 0 {
                assert(idx[j] == t[j - 1] + 1);
                assert(got.drop_first()[t[j - 1]] == got[t[j - 1] + 1]);
            }
        }
        assert forall|i: int, j: int| 0 <= i < j < idx.len() implies #[trigger] idx[i] < #[trigger] idx[j] by {
            if i > 0 {
                assert(idx[i] == t[i - 1] + 1 && idx[j] == t[j - 1] + 1);
            } else {
                assert(idx[j] == t[j - 1] + 1);
            }
        }
    } else {
        lemma_greedy_embeds(want, got.drop_first());
        let t = greedy_indices(want, got.drop_first());
        let idx = greedy_indices(want, got);
        assert forall|j: int| 0 <= j < idx.len() implies 0 <= #[trigger] idx[j] < got.len() && got[idx[j]] == want[j] by {
            assert(idx[j] == t[j] + 1);
            assert(got.drop_first()[t[j]] == got[t[j] + 1]);
        }
        assert forall|i: int, j: int| 0 <= i < j < idx.len() implies #[trigger] idx[i] < #[trigger] idx[j] by {
            assert(idx[i] == t[i] + 1 && idx[j] == t[j] + 1);
        }
    }
}

proof fn lemma_embedding_is_subsequence(want: Seq<Seq<char>>, got: Seq<Seq<char>>, idx: Seq<int>)
    requires
        embeds(want, got, idx),
    ensures
        subsequence(want, got),
    decreases got.len(),
{
    if want.len() == 0 {
    } else {
        assert(0 <= idx[0] < got.len());
        if want[0] == got[0] {
            let t = idx.drop_first().map_values(|k: int| k - 1);
            assert forall|j: int| 0 <= j < t.len() implies 0 <= #[trigger] t[j] < got.drop_first().len()
                && got.drop_first()[t[j]] == want.drop_first()[j] by {
                assert(idx[0] < idx[j + 1]);
                assert(t[j] == idx[j + 1] - 1);
            }
            assert forall|i: int, j: int| 0 <= i < j < t.len() implies #[trigger] t[i] < #[trigger] t[j] by {
                assert(idx[i + 1] < idx[j + 1]);
            }
            lemma_embedding_is_subsequence(want.drop_first(), got.drop_first(), t);
        } else {
            assert(idx[0] != 0);
            let t = idx.map_values(|k: int| k - 1);
            assert forall|j: int| 0 <= j < t.len() implies 0 <= #[trigger] t[j] < got.drop_first().len()
                && got.drop_first()[t[j]] == want[j] by {
                if j > 0 {
                    assert(idx[0] < idx[j]);
                }
                assert(t[j] == idx[j] - 1);
            }
            assert forall|i: int, j: int| 0 <= i < j < t.len() implies #[trigger] t[i] < #[trigger] t[j] by {
                assert(idx[i] < idx[j]);
            }
            lemma_embedding_is_subsequence(want, got.drop_first(), t);
        }
    }
}

/// The greedy reading of "a subsequence" is the usual one: `want` is a
/// subsequence of `got` exactly when increasing positions of `got` hold
/// `want`'s items in order (gaps allowed); the empty list is one of every
/// list.
pub proof fn law_subsequence_by_positions(want: Seq<Seq<char>>, got: Seq<Seq<char>>)
    ensures
        subsequence(want, got) <==> exists|idx: Seq<int>| #[trigger] embeds(want, got, idx),
        want.len() == 0 ==> subsequence(want, got),
{
    if subsequence(want, got) {
        lemma_greedy_embeds(want, got);
    }
    if exists|idx: Seq<int>| #[trigger] embeds(want, got, idx) {
        let idx = choose|idx: Seq<int>| #[trigger] embeds(want, got, idx);
        lemma_embedding_is_subsequence(want, got, idx);
    }
}

/// Whether `want` is a subsequence of `got`.
pub fn is_subsequence(want: &Vec<String>, got: &Vec<String>) -> (r: bool)
    ensures
        r == subsequence(views(want@), views(got@)),
{
    let ghost w = views(want@);
    let ghost g = views(got@);
    let mut i: usize = 0;
    let mut j: usize = 0;
    assert(w.skip(0) =~= w);
    assert(g.skip(0) =~= g);
    while j < got.len()
        invariant
            i <= want@.len(),
            j <= got@.len(),
            w == views(want@),
            g == views(got@),
            subsequence(w, g) == subsequence(w.skip(i as int), g.skip(j as int)),
        decreases got.len() - j,
    {
        let ghost ws = w.skip(i as int);
        let ghost gs = g.skip(j as int);
        assert(gs[0] == got@[j as int]@);
        assert(gs.drop_first() =~= g.skip(j + 1));
        if i < want.len() && str_eq(want[i].as_str(), got[j].as_str()) {
            assert(ws[0] == want@[i as int]@);
            assert(ws.drop_first() =~= w.skip(i + 1));
            i = i + 1;
        } else {
            proof {
                if i < want@.len() {
                    assert(ws[0] == want@[i as int]@);
                } else {
                    assert(ws.len() == 0);
                    assert(subsequence(ws, gs));
                    assert(subsequence(ws, gs.drop_first()));
                }
            }
        }
        j = j + 1;
    }
    assert(g.skip(j as int).len() == 0);
    i == want.len()
}

/// For each item, the message `f` gives where it gives one, in order.
pub open spec fn messages(s: Seq<Seq<char>>, f: spec_fn(Seq<char>) -> Option<Seq<char>>) -> Seq<Seq<char>>
    decreases s.len(),
{
    if s.len() == 0 {
        Seq::empty()
    } else {
        messages(s.drop_last(), f) + match f(s.last()) {
            Some(m) => seq![m],
            None => Seq::empty(),
        }
    }
}

pub open spec fn missing_msg(reply: Seq<char>) -> spec_fn(Seq<char>) -> Option<Seq<char>> {
    |s: Seq<char>| if has_infix(reply, s) {
        None
    } else {
        Some("reply_contains "@ + debug_text(s) + " 이(가) 없습니다"@)
    }
}

pub open spec fn present_msg(reply: Seq<char>) -> spec_fn(Seq<char>) -> Option<Seq<char>> {
    |s: Seq<char>| if has_infix(reply, s) {
        Some("reply_not_contains "@ + debug_text(s) + " 이(가) 나타났습니다"@)
    } else {
        None
    }
}

pub open spec fn pattern_msg(reply: Seq<char>) -> spec_fn(Seq<char>) -> Option<Seq<char>> {
    |p: Seq<char>| match regex_error(p) {
        Some(e) => Some("reply_matches "@ + debug_text(p) + " 정규식 오류: "@ + e),
        None => if regex_matches(p, reply) {
            None
        } else {
            Some("reply_matches "@ + debug_text(p) + " 이(가) 맞지 않습니다"@)
        },
    }
}

pub open spec fn uncalled_msg(names: Seq<Seq<char>>) -> spec_fn(Seq<char>) -> Option<Seq<char>> {
    |t: Seq<char>| if names.contains(t) {
        None
    } else {
        Some("tools_called "@ + debug_text(t) + " 이(가) 호출되지 않았습니다"@)
    }
}

pub open spec fn called_msg(names: Seq<Seq<char>>) -> spec_fn(Seq<char>) -> Option<Seq<char>> {
    |t: Seq<char>| if names.contains(t) {
        Some("tools_not_called "@ + debug_text(t) + " 이(가) 호출되었습니다"@)
    } else {
        None
    }
}

/// The index of the last call of `name`.
pub open spec fn last_call(trail: Seq<ToolStep>, name: Seq<char>) -> Option<int>
    decreases trail.len(),
{
    if trail.len() == 0 {
        None
    } else if trail.last().name@ == name {
        Some(trail.len() - 1)
    } else {
        last_call(trail.drop_last(), name)
    }
}

pub open spec fn decision_msg(trail: Seq<ToolStep>, tool: Seq<char>, want: Seq<char>) -> Option<Seq<char>> {
    match last_call(trail, tool) {
        Some(i) => if trail[i].decision@ == want {
            None
        } else {
            Some(
                "tool_decisions "@ + debug_text(tool) + ": 기대 "@ + debug_text(want) + ", 실제 "@ + debug_text(
                    trail[i].decision@,
                ),
            )
        },
        None => Some("tool_decisions "@ + debug_text(tool) + ": 호출되지 않았습니다"@),
    }
}

pub open spec fn decision_messages(trail: Seq<ToolStep>, d: Seq<(String, String)>) -> Seq<Seq<char>>
    decreases d.len(),
{
    if d.len() == 0 {
        Seq::empty()
    } else {
        decision_messages(trail, d.drop_last()) + match decision_msg(trail, d.last().0@, d.last().1@) {
            Some(m) => seq![m],
            None => Seq::empty(),
        }
    }
}

pub open spec fn trail_names(trail: Seq<ToolStep>) -> Seq<Seq<char>> {
    Seq::new(trail.len(), |i: int| trail[i].name@)
}

pub open spec fn ordered_part(exp: Expect, names: Seq<Seq<char>>) -> Seq<Seq<char>> {
    if exp.tools_called_ordered@.len() > 0 && !subsequence(views(exp.tools_called_ordered@), names) {
        seq![
            "tools_called_ordered "@ + debug_list_text(views(exp.tools_called_ordered@))
                + " 순서가 맞지 않습니다 (실제: "@ + debug_list_text(names) + ")"@,
        ]
    } else {
        Seq::empty()
    }
}

pub open spec fn outcome_part(exp: Expect, obs: Observed) -> Seq<Seq<char>> {
    if exp.outcome@.len() > 0 && exp.outcome@ != obs.outcome@ {
        seq!["outcome: 기대 "@ + debug_text(exp.outcome@) + ", 실제 "@ + debug_text(obs.outcome@)]
    } else {
        Seq::empty()
    }
}

pub open spec fn cost_part(exp: Expect, obs: Observed) -> Seq<Seq<char>> {
    if exp.max_cost_micros > 0 && obs.cost_micros > exp.max_cost_micros {
        seq!["max_cost_micros: "@ + int_text(obs.cost_micros as int) + " > "@ + int_text(exp.max_cost_micros as int)]
    } else {
        Seq::empty()
    }
}

/// Every failure of an observation against an expectation, in the order
/// the expectations are listed.
pub open spec fn failures_spec(exp: Expect, obs: Observed) -> Seq<Seq<char>> {
    let names = trail_names(obs.trail@);
    messages(views(exp.reply_contains@), missing_msg(obs.reply@))
    + messages(views(exp.reply_not_contains@), present_msg(obs.reply@))
    + messages(views(exp.reply_matches@), pattern_msg(obs.reply@))
    + messages(views(exp.tools_called@), uncalled_msg(names))
    + messages(views(exp.tools_not_called@), called_msg(names))
    + ordered_part(exp, names)
    + outcome_part(exp, obs)
    + decision_messages(obs.trail@, exp.tool_decisions@)
    + cost_part(exp, obs)
}

/// Adds the message `f` gives for each item to `out`.
fn add_messages(
    out: &mut Vec<String>,
    items: &Vec<String>,
    reply: &str,
    names: &Vec<String>,
    kind: u8,
)
    requires
        kind < 5,
    ensures
        views(final(out)@) == views(old(out)@) + messages(
            views(items@),
            if kind == 0 {
                missing_msg(reply@)
            } else if kind == 1 {
                present_msg(reply@)
            } else if kind == 2 {
                pattern_msg(reply@)
            } else if kind == 3 {
                uncalled_msg(views(names@))
            } else {
                called_msg(views(names@))
            },
        ),
{
    let ghost f = if kind == 0 {
        missing_msg(reply@)
    } else if kind == 1 {
        present_msg(reply@)
    } else if kind == 2 {
        pattern_msg(reply@)
    } else if kind == 3 {
        uncalled_msg(views(names@))
    } else {
        called_msg(views(names@))
    };
    let ghost start = views(out@);
    let mut i: usize = 0;
    assert(views(items@).take(0) =~= Seq::<Seq<char>>::empty());
    assert(views(out@) =~= start + messages(views(items@).take(0), f));
    while i < items.len()
        invariant
            i <= items@.len(),
            kind < 5,
            f == (if kind == 0 {
                missing_msg(reply@)
            } else if kind == 1 {
                present_msg(reply@)
            } else if kind == 2 {
                pattern_msg(reply@)
            } else if kind == 3 {
                uncalled_msg(views(names@))
            } else {
                called_msg(views(names@))
            }),
            views(out@) == start + messages(views(items@).take(i as int), f),
        decreases items.len() - i,
    {
        let x = items[i].as_str();
        let ghost t = views(items@).take(i + 1);
        assert(t.drop_last() =~= views(items@).take(i as int));
        assert(t.last() == x@);
        let msg: Option<String> = if kind == 0 {
            if contains(reply, x) {
                None
            } else {
                let q = debug_quote(x);
                Some(concat3("reply_contains ", q.as_str(), " 이(가) 없습니다"))
            }
        } else if kind == 1 {
            if contains(reply, x) {
                let q = debug_quote(x);
                Some(concat3("reply_not_contains ", q.as_str(), " 이(가) 나타났습니다"))
            } else {
                None
            }
        } else if kind == 2 {
            match compile(x) {
                Ok(re) => {
                    if is_match(&re, reply) {
                        None
                    } else {
                        let q = debug_quote(x);
                        Some(concat3("reply_matches ", q.as_str(), " 이(가) 맞지 않습니다"))
                    }
                },
                Err(e) => {
                    let q = debug_quote(x);
                    let head = concat3("reply_matches ", q.as_str(), " 정규식 오류: ");
                    Some(concat(head.as_str(), e.as_str()))
                },
            }
        } else if kind == 3 {
            if crate::text::vec_has(names, x) {
                None
            } else {
                let q = debug_quote(x);
                Some(concat3("tools_called ", q.as_str(), " 이(가) 호출되지 않았습니다"))
            }
        } else {
            if crate::text::vec_has(names, x) {
                let q = debug_quote(x);
                Some(concat3("tools_not_called ", q.as_str(), " 이(가) 호출되었습니다"))
            } else {
                None
            }
        };
        proof {
            assert(crate::text::seq_has(names@, x@) == views(names@).contains(x@)) by {
                if views(names@).contains(x@) {
                    let k = choose|k: int| 0 <= k < views(names@).len() && views(names@)[k] == x@;
                    assert(names@[k]@ == x@);
                }
                if crate::text::seq_has(names@, x@) {
                    let k = choose|k: int| 0 <= k < names@.len() && names@[k]@ == x@;
                    assert(views(names@)[k] == x@);
                }
            }
            if kind == 0 {
                assert(opt_view(msg) == missing_msg(reply@)(x@));
            } else if kind == 1 {
                assert(opt_view(msg) == present_msg(reply@)(x@));
            } else if kind == 2 {
                assert(opt_view(msg) == pattern_msg(reply@)(x@));
            } else if kind == 3 {
                assert(opt_view(msg) == uncalled_msg(views(names@))(x@));
            } else {
                assert(opt_view(msg) == called_msg(views(names@))(x@));
            }
            assert(opt_view(msg) == f(x@));
        }
        match msg {
            Some(m) => {
                let ghost before = views(out@);
                out.push(m);
                assert(views(out@) =~= before.push(f(x@)->0));
            },
            None => {},
        }
        assert(views(out@) =~= start + messages(t, f));
        i = i + 1;
    }
    assert(views(items@).take(items@.len() as int) =~= views(items@));
}

fn last_call_index(trail: &Vec<ToolStep>, name: &str) -> (r: Option<usize>)
    ensures
        match r {
            Some(i) => last_call(trail@, name@) == Some(i as int) && i < trail@.len(),
            None => last_call(trail@, name@) is None,
        },
{
    let mut k: usize = trail.len();
    assert(trail@.take(k as int) =~= trail@);
    while k > 0
        invariant
            k <= trail@.len(),
            last_call(trail@, name@) == last_call(trail@.take(k as int), name@),
        decreases k,
    {
        let ghost t = trail@.take(k as int);
        assert(t.last() == trail@[k - 1]);
        assert(t.drop_last() =~= trail@.take(k - 1));
        if str_eq(trail[k - 1].name.as_str(), name) {
            return Some(k - 1);
        }
        k = k - 1;
    }
    None
}

/// Compares what was observed with what was expected, and gathers every
/// failure (it does not stop at the first).
pub fn check(exp: &Expect, obs: &Observed) -> (r: CheckResult)
    ensures
        views(r.failures@) == failures_spec(*exp, *obs),
        r.pass == (r.failures@.len() == 0),
{
    let mut names: Vec<String> = Vec::new();
    let mut k: usize = 0;
    while k < obs.trail.len()
        invariant
            k <= obs.trail@.len(),
            names@.len() == k,
            forall|j: int| 0 <= j < k ==> (#[trigger] names@[j])@ == obs.trail@[j].name@,
        decreases obs.trail.len() - k,
    {
        names.push(obs.trail[k].name.clone());
        k = k + 1;
    }
    assert(views(names@) =~= trail_names(obs.trail@));
    let mut f: Vec<String> = Vec::new();
    let reply = obs.reply.as_str();
    add_messages(&mut f, &exp.reply_contains, reply, &names, 0);
    add_messages(&mut f, &exp.reply_not_contains, reply, &names, 1);
    add_messages(&mut f, &exp.reply_matches, reply, &names, 2);
    add_messages(&mut f, &exp.tools_called, reply, &names, 3);
    add_messages(&mut f, &exp.tools_not_called, reply, &names, 4);
    let ghost names_v = trail_names(obs.trail@);
    let ghost after_lists = views(f@);
    assert(after_lists == messages(views(exp.reply_contains@), missing_msg(obs.reply@))
        + messages(views(exp.reply_not_contains@), present_msg(obs.reply@))
        + messages(views(exp.reply_matches@), pattern_msg(obs.reply@))
        + messages(views(exp.tools_called@), uncalled_msg(names_v))
        + messages(views(exp.tools_not_called@), called_msg(names_v)));
    if exp.tools_called_ordered.len() > 0 && !is_subsequence(&exp.tools_called_ordered, &names) {
        let want = debug_list(&exp.tools_called_ordered);
        let got = debug_list(&names);
        let head = concat3("tools_called_ordered ", want.as_str(), " 순서가 맞지 않습니다 (실제: ");
        let m = concat3(head.as_str(), got.as_str(), ")");
        f.push(m);
    }
    assert(views(f@) =~= after_lists + ordered_part(*exp, names_v));
    let none = String::new();
    if !str_eq(exp.outcome.as_str(), none.as_str()) && !str_eq(exp.outcome.as_str(), obs.outcome.as_str()) {
        let a = debug_quote(exp.outcome.as_str());
        let b = debug_quote(obs.outcome.as_str());
        let head = concat3("outcome: 기대 ", a.as_str(), ", 실제 ");
        f.push(concat(head.as_str(), b.as_str()));
    }
    proof {
        if exp.outcome@.len() == 0 {
            assert(exp.outcome@ =~= none@);
        }
    }
    assert(views(f@) =~= after_lists + ordered_part(*exp, names_v) + outcome_part(*exp, *obs));
    let ghost before_decisions = views(f@);
    let mut d: usize = 0;
    while d < exp.tool_decisions.len()
        invariant
            d <= exp.tool_decisions@.len(),
            views(f@) == before_decisions + decision_messages(obs.trail@, exp.tool_decisions@.take(d as int)),
        decreases exp.tool_decisions.len() - d,
    {
        let tool = exp.tool_decisions[d].0.as_str();
        let want = exp.tool_decisions[d].1.as_str();
        let ghost t = exp.tool_decisions@.take(d + 1);
        assert(t.drop_last() =~= exp.tool_decisions@.take(d as int));
        assert(t.last() == exp.tool_decisions@[d as int]);
        let msg: Option<String> = match last_call_index(&obs.trail, tool) {
            Some(i) => {
                if str_eq(obs.trail[i].decision.as_str(), want) {
                    None
                } else {
                    let a = debug_quote(tool);
                    let b = debug_quote(want);
                    let c = debug_quote(obs.trail[i].decision.as_str());
                    let h1 = concat3("tool_decisions ", a.as_str(), ": 기대 ");
                    let h2 = concat3(h1.as_str(), b.as_str(), ", 실제 ");
                    Some(concat(h2.as_str(), c.as_str()))
                }
            },
            None => {
                let a = debug_quote(tool);
                Some(concat3("tool_decisions ", a.as_str(), ": 호출되지 않았습니다"))
            },
        };
        assert(opt_view(msg) == decision_msg(obs.trail@, tool@, want@));
        match msg {
            Some(m) => {
                let ghost b = views(f@);
                f.push(m);
                assert(views(f@) =~= b.push(decision_msg(obs.trail@, tool@, want@)->0));
            },
            None => {},
        }
        assert(views(f@) =~= before_decisions + decision_messages(obs.trail@, t));
        d = d + 1;
    }
    assert(exp.tool_decisions@.take(d as int) =~= exp.tool_decisions@);
    let ghost before_cost = views(f@);
    assert(before_cost == before_decisions + decision_messages(obs.trail@, exp.tool_decisions@));
    if exp.max_cost_micros > 0 && obs.cost_micros > exp.max_cost_micros {
        let a = int_to_string(obs.cost_micros as i128);
        let b = int_to_string(exp.max_cost_micros as i128);
        let tail = concat(" > ", b.as_str());
        let m = concat3("max_cost_micros: ", a.as_str(), tail.as_str());
        assert(m@ =~= "max_cost_micros: "@ + int_text(obs.cost_micros as int) + " > "@ + int_text(
            exp.max_cost_micros as int,
        ));
        f.push(m);
    }
    assert(views(f@) =~= before_cost + cost_part(*exp, *obs));
    proof {
        assert(views(f@) =~= failures_spec(*exp, *obs));
    }
    let pass = f.len() == 0;
    CheckResult { pass, failures: f }
}

/// A case that finds nothing to fault passes; one failure fails it.
pub proof fn law_pass_means_no_failures(exp: Expect, obs: Observed, r: CheckResult)
    requires
        views(r.failures@) == failures_spec(exp, obs),
        r.pass == (r.failures@.len() == 0),
    ensures
        r.pass <==> failures_spec(exp, obs).len() == 0,
{
}

pub open spec fn suite_error(name: Seq<char>, cases: Seq<Case>) -> Option<Seq<char>> {
    if cases.len() == 0 {
        Some("suite "@ + debug_text(name) + ": 케이스가 없습니다"@)
    } else {
        case_error(name, cases, 0)
    }
}

pub open spec fn seen_before(cases: Seq<Case>, i: int) -> bool {
    exists|j: int| 0 <= j < i && #[trigger] cases[j].id@ == cases[i].id@
}

pub open spec fn step_without_tool(steps: Seq<Step>) -> bool {
    exists|k: int| 0 <= k < steps.len() && (#[trigger] steps[k]).tool@.len() == 0
}

/// The first fault, case by case from `i`.
pub open spec fn case_error(name: Seq<char>, cases: Seq<Case>, i: int) -> Option<Seq<char>>
    decreases cases.len() - i,
{
    if i < 0 || i >= cases.len() {
        None
    } else {
        let c = cases[i];
        if c.id@.len() == 0 {
            Some("suite "@ + debug_text(name) + ": case id 가 필요합니다"@)
        } else if seen_before(cases, i) {
            Some("suite "@ + debug_text(name) + ": 중복 case id "@ + debug_text(c.id@))
        } else if c.principal@.len() == 0 {
            Some("case "@ + debug_text(c.id@) + ": principal 이 필요합니다"@)
        } else if c.steps@.len() == 0 && c.reply@.len() == 0 {
            Some("case "@ + debug_text(c.id@) + ": steps 또는 reply 가 필요합니다"@)
        } else if step_without_tool(c.steps@) {
            Some("case "@ + debug_text(c.id@) + ": step tool 이 필요합니다"@)
        } else {
            case_error(name, cases, i + 1)
        }
    }
}

fn empty_text(s: &str) -> (r: bool)
    ensures
        r == (s@.len() == 0),
{
    let none = String::new();
    let r = str_eq(s, none.as_str());
    proof {
        if s@.len() == 0 {
            assert(s@ =~= none@);
        }
    }
    r
}

impl Suite {
    /// A suite needs cases; each case a unique id, a principal, steps or
    /// a reply, and a tool in every step. The first fault is reported.
    #[verifier::loop_isolation(false)]
    pub fn validate(&self) -> (r: Result<(), String>)
        ensures
            match suite_error(self.name@, self.cases@) {
                Some(m) => r matches Err(e) && e@ == m,
                None => r is Ok,
            },
    {
        if self.cases.len() == 0 {
            let q = debug_quote(self.name.as_str());
            return Err(concat3("suite ", q.as_str(), ": 케이스가 없습니다"));
        }
        let ghost cs = self.cases@;
        let mut i: usize = 0;
        while i < self.cases.len()
            invariant
                i <= cs.len(),
                cs == self.cases@,
                cs.len() > 0,
                suite_error(self.name@, cs) == case_error(self.name@, cs, i as int),
            decreases self.cases.len() - i,
        {
            let c = &self.cases[i];
            assert(c == cs[i as int]);
            if empty_text(c.id.as_str()) {
                let q = debug_quote(self.name.as_str());
                return Err(concat3("suite ", q.as_str(), ": case id 가 필요합니다"));
            }
            let mut j: usize = 0;
            let mut dup = false;
            while j < i
                invariant
                    j <= i,
                    i < cs.len(),
                    cs == self.cases@,
                    dup == exists|x: int| 0 <= x < j && #[trigger] cs[x].id@ == cs[i as int].id@,
                decreases i - j,
            {
                if str_eq(self.cases[j].id.as_str(), self.cases[i].id.as_str()) {
                    dup = true;
                }
                j = j + 1;
            }
            if dup {
                let q = debug_quote(self.name.as_str());
                let h = concat3("suite ", q.as_str(), ": 중복 case id ");
                let qi = debug_quote(c.id.as_str());
                return Err(concat(h.as_str(), qi.as_str()));
            }
            if empty_text(c.principal.as_str()) {
                let q = debug_quote(c.id.as_str());
                return Err(concat3("case ", q.as_str(), ": principal 이 필요합니다"));
            }
            if c.steps.len() == 0 && empty_text(c.reply.as_str()) {
                let q = debug_quote(c.id.as_str());
                return Err(concat3("case ", q.as_str(), ": steps 또는 reply 가 필요합니다"));
            }
            let mut k: usize = 0;
            while k < c.steps.len()
                invariant
                    k <= c.steps@.len(),
                    i < cs.len(),
                    cs == self.cases@,
                    c == cs[i as int],
                    forall|x: int| 0 <= x < k ==> (#[trigger] c.steps@[x]).tool@.len() > 0,
                decreases c.steps.len() - k,
            {
                if empty_text(c.steps[k].tool.as_str()) {
                    assert(step_without_tool(cs[i as int].steps@)) by {
                        assert(cs[i as int].steps@[k as int].tool@.len() == 0);
                    }
                    let q = debug_quote(c.id.as_str());
                    return Err(concat3("case ", q.as_str(), ": step tool 이 필요합니다"));
                }
                k = k + 1;
            }
            proof {
                assert(!step_without_tool(cs[i as int].steps@));
                assert(!seen_before(cs, i as int));
                assert(case_error(self.name@, cs, i as int) == case_error(self.name@, cs, i + 1));
            }
            i = i + 1;
        }
        Ok(())
    }
}

/// What the gateway answered for one step.
pub enum StepOutcome {
    /// The call ran (or, for a dry run, was described).
    Ran { dry_run: bool, request_id: String, summary: String, data: Vec<(String, Json)> },
    /// The call was refused or failed: its code and its full text.
    Refused { code: String, text: String },
}

/// A case being run step by step through the gateway.
pub struct CaseRun {
    pub obs: Observed,
    pub halted: bool,
    /// The compact JSON of the last output of a step that ran.
    pub last_output: Option<String>,
    /// The summary of the last dry run.
    pub last_summary: String,
}

pub open spec fn trail_step(step: Step, o: StepOutcome) -> (Seq<char>, Seq<char>, Seq<char>, Seq<char>, Seq<char>) {
    match o {
        StepOutcome::Ran { dry_run, request_id, .. } => (
            step.tool@,
            args_digest_spec(step.args@),
            if dry_run {
                "dry_run"@
            } else {
                "allowed"@
            },
            Seq::empty(),
            request_id@,
        ),
        StepOutcome::Refused { code, .. } => (step.tool@, args_digest_spec(step.args@), "denied"@, code@, Seq::empty()),
    }
}

pub open spec fn step_tuple(t: ToolStep) -> (Seq<char>, Seq<char>, Seq<char>, Seq<char>, Seq<char>) {
    (t.name@, t.args_digest@, t.decision@, t.error_code@, t.audit_request_id@)
}

/// The reply a case ends with: its own reply, else the last dry run's
/// summary, else the last output, else nothing.
pub open spec fn reply_spec(case_reply: Seq<char>, summary: Seq<char>, output: Option<String>) -> Seq<char> {
    if case_reply.len() > 0 {
        case_reply
    } else if summary.len() > 0 {
        summary
    } else {
        match output {
            Some(o) => o@,
            None => Seq::empty(),
        }
    }
}

impl CaseRun {
    pub fn start() -> (r: CaseRun)
        ensures
            r.obs.trail@.len() == 0,
            r.obs.outcome@ == "completed"@,
            r.obs.reply@.len() == 0,
            r.obs.exec_error@.len() == 0,
            r.obs.cost_micros == 0,
            !r.halted,
            r.last_output is None,
            r.last_summary@.len() == 0,
    {
        CaseRun {
            obs: Observed {
                reply: String::new(),
                trail: Vec::new(),
                outcome: owned("completed"),
                cost_micros: 0,
                exec_error: String::new(),
            },
            halted: false,
            last_output: None,
            last_summary: String::new(),
        }
    }

    /// A case whose principal is unknown fails before any step.
    pub fn missing_principal(principal: &str) -> (r: Observed)
        ensures
            r.outcome@ == "error"@,
            r.exec_error@ == "주체 "@ + debug_text(principal@) + " 을(를) 찾을 수 없습니다"@,
            r.trail@.len() == 0,
            r.reply@.len() == 0,
            r.cost_micros == 0,
    {
        let q = debug_quote(principal);
        Observed {
            reply: String::new(),
            trail: Vec::new(),
            outcome: owned("error"),
            cost_micros: 0,
            exec_error: concat3("주체 ", q.as_str(), " 을(를) 찾을 수 없습니다"),
        }
    }

    /// Records one step's answer and says whether to go on. A refusal whose
    /// code halts the agent ends the case as `halted`, with the refusal's
    /// text as its error; any other refusal is recorded and the case goes on
    /// (a policy denial is a normally completed turn).
    pub fn record(&mut self, step: &Step, o: StepOutcome) -> (go_on: bool)
        requires
            !old(self).halted,
        ensures
            final(self).obs.trail@.len() == old(self).obs.trail@.len() + 1,
            forall|k: int| 0 <= k < old(self).obs.trail@.len() ==> final(self).obs.trail@[k] == old(self).obs.trail@[k],
            step_tuple(final(self).obs.trail@.last()) == trail_step(*step, o),
            go_on == !final(self).halted,
            match o {
                StepOutcome::Ran { dry_run, summary, data, .. } => {
                    &&& go_on
                    &&& final(self).obs.outcome == old(self).obs.outcome
                    &&& dry_run ==> final(self).last_summary@ == summary@ && final(self).last_output
                        == old(self).last_output
                    &&& !dry_run ==> final(self).last_summary == old(self).last_summary && (final(self).last_output matches Some(t)
                        && t@ == json_text(JsonV::Object(sort_entries(canon_entries(data@)))))
                },
                StepOutcome::Refused { code, text } => {
                    &&& final(self).last_summary == old(self).last_summary
                    &&& final(self).last_output == old(self).last_output
                    &&& halts_spec(code@) ==> !go_on && final(self).obs.outcome@ == "halted"@
                        && final(self).obs.exec_error@ == text@
                    &&& !halts_spec(code@) ==> go_on && final(self).obs.outcome == old(self).obs.outcome
                        && final(self).obs.exec_error == old(self).obs.exec_error
                },
            },
    {
        let digest = args_digest(&step.args);
        match o {
            StepOutcome::Ran { dry_run, request_id, summary, data } => {
                let decision = if dry_run {
                    "dry_run"
                } else {
                    "allowed"
                };
                self.obs.trail.push(
                    ToolStep {
                        name: step.tool.clone(),
                        args_digest: digest,
                        decision: owned(decision),
                        error_code: String::new(),
                        audit_request_id: request_id,
                    },
                );
                if dry_run {
                    self.last_summary = summary;
                } else {
                    let text = Json::Object(canonical_object(&data)).to_text();
                    self.last_output = Some(text);
                }
                true
            },
            StepOutcome::Refused { code, text } => {
                self.obs.trail.push(
                    ToolStep {
                        name: step.tool.clone(),
                        args_digest: digest,
                        decision: owned("denied"),
                        error_code: code.clone(),
                        audit_request_id: String::new(),
                    },
                );
                if halts(code.as_str()) {
                    self.obs.outcome = owned("halted");
                    self.obs.exec_error = text;
                    self.halted = true;
                    false
                } else {
                    true
                }
            },
        }
    }

    /// The observation, with the reply made up.
    pub fn finish(self, case_reply: &str) -> (r: Observed)
        ensures
            r.reply@ == reply_spec(case_reply@, self.last_summary@, self.last_output),
            r.trail == self.obs.trail,
            r.outcome == self.obs.outcome,
            r.exec_error == self.obs.exec_error,
            r.cost_micros == self.obs.cost_micros,
    {
        let mut obs = self.obs;
        let reply = if !empty_text(case_reply) {
            owned(case_reply)
        } else if !empty_text(self.last_summary.as_str()) {
            self.last_summary
        } else {
            match self.last_output {
                Some(o) => o,
                None => String::new(),
            }
        };
        obs.reply = reply;
        obs
    }
}

/// The session a golden case runs under.
pub fn golden_session(case_id: &str) -> (r: String)
    ensures
        r@ == "golden-"@ + case_id@,
{
    concat("golden-", case_id)
}

/// The instant golden cases run at, in nanoseconds: 2026-07-13T10:00:00Z,
/// a Monday, so that rules on business hours do not fail every case run
/// on a weekend.
pub open spec fn golden_now() -> i64 {
    1783936800000000000
}

/// The prefixes of the golden runs' internal network.
pub open spec fn golden_prefixes() -> Seq<Seq<char>> {
    if cidr_parses("10.0.0.0/8"@) {
        seq!["10.0.0.0/8"@]
    } else {
        Seq::empty()
    }
}

/// The enricher golden cases run under: `10.0.0.0/8` is internal, model
/// calls stay internal and the purpose is a sales follow-up.
pub fn golden_enricher() -> (r: Enricher)
    ensures
        r@ == golden_enricher_view(),
{
    let mut cidrs: Vec<String> = Vec::new();
    cidrs.push(owned("10.0.0.0/8"));
    let prefixes = match parse_prefixes(&cidrs) {
        Ok(v) => v,
        Err(_) => Vec::new(),
    };
    proof {
        reveal_strlit("10.0.0.0/8");
        let t = "10.0.0.0/8"@;
        let one = strs(cidrs@);
        assert(one =~= seq![t]);
        assert(t.len() == 10 && t[0] == '1' && t[9] == '8');
        assert(lead_space(t) == 0);
        assert(trail_space(t) == 0);
        assert(t.skip(0) =~= t);
        assert(t.take(10) =~= t);
        assert(trim_spec(t) == t);
        reveal_with_fuel(nonblank_trimmed, 2);
        reveal_with_fuel(first_bad, 2);
        assert(one.drop_last() =~= Seq::<Seq<char>>::empty());
        assert(one.last() == t);
        assert(nonblank_trimmed(one) =~= seq![t]);
        assert(seq![t].drop_first() =~= Seq::<Seq<char>>::empty());
        if cidr_parses(t) {
            assert(first_bad(seq![t], |c: Seq<char>| cidr_parses(c)) is None);
        } else {
            assert(first_bad(seq![t], |c: Seq<char>| cidr_parses(c)) == Some(t));
        }
        assert(strs(prefixes@) =~= golden_prefixes());
    }
    Enricher {
        start_hour: 0,
        end_hour: 0,
        internal_prefixes: prefixes,
        trust_forwarded_for: false,
        default_zone: String::new(),
        default_llm_destination: owned("internal"),
        default_business_purpose: owned("sales_followup"),
        trust_policy_headers: false,
    }
}

/// The request a golden case's calls come with: at the fixed instant, from
/// `10.1.2.3:5555`, in the case's own session.
pub fn golden_context(case_id: &str) -> (r: RequestContext)
    ensures
        r@ == golden_context_view(case_id@),
{
    let mut headers: Vec<(String, String)> = Vec::new();
    headers.push((owned("X-Gateway-Remote-Addr"), owned("10.1.2.3:5555")));
    let r = RequestContext { session_id: golden_session(case_id), headers, now: Some(1783936800000000000i64) };
    assert(r@.headers =~= seq![("X-Gateway-Remote-Addr"@, "10.1.2.3:5555"@)]);
    r
}

/// The principal a golden case runs as: its directory entry, enriched by
/// the golden enricher for the golden request; an unknown principal is the
/// case's failed observation.
pub fn golden_identity(principals: &Directory, case: &Case) -> (r: Result<Identity, Observed>)
    requires
        principals.wf(),
    ensures
        match r {
            Ok(id) => principals@.contains_key(case.principal@) && exists|weekday: u32, hour: u32|
                weekday < 7 && hour < 24 && #[trigger] enriched(
                    golden_enricher_view(),
                    golden_context_view(case.id@),
                    golden_now(),
                    weekday,
                    hour,
                    principals@[case.principal@],
                    id@,
                ),
            Err(o) => !principals@.contains_key(case.principal@) && o.outcome@ == "error"@
                && o.exec_error@ == "주체 "@ + debug_text(case.principal@) + " 을(를) 찾을 수 없습니다"@
                && o.trail@.len() == 0 && o.reply@.len() == 0 && o.cost_micros == 0,
        },
{
    match principals.lookup(case.principal.as_str()) {
        None => Err(CaseRun::missing_principal(case.principal.as_str())),
        Some(base) => {
            let e = golden_enricher();
            let rc = golden_context(case.id.as_str());
            Ok(e.enrich(&base, &rc))
        },
    }
}

pub open spec fn golden_enricher_view() -> EnricherV {
    EnricherV {
        start_hour: 0,
        end_hour: 0,
        internal_prefixes: golden_prefixes(),
        trust_forwarded_for: false,
        default_zone: Seq::empty(),
        default_llm_destination: "internal"@,
        default_business_purpose: "sales_followup"@,
        trust_policy_headers: false,
    }
}

pub open spec fn golden_context_view(case_id: Seq<char>) -> RequestContextV {
    RequestContextV {
        session_id: "golden-"@ + case_id,
        headers: seq![("X-Gateway-Remote-Addr"@, "10.1.2.3:5555"@)],
        now: Some(golden_now()),
    }
}

impl Case {
    /// Which of two gateways the case's calls go to: the one that allows
    /// the highest risk when the case asks for it, else the ordinary one.
    pub fn gateway<'a, G>(&self, ordinary: &'a G, high: &'a G) -> (r: &'a G)
        ensures
            r == (if self.allow_high_risk {
                high
            } else {
                ordinary
            }),
    {
        if self.allow_high_risk {
            high
        } else {
            ordinary
        }
    }
}

/// A run id: `run_` and 16 random lowercase hex digits.
pub fn new_run_id() -> (r: String)
    ensures
        exists|b: Seq<u8>| b.len() == 8 && r@ == "run_"@ + crate::digest::hex_lower(b),
{
    let b = crate::digest::random_bytes(8);
    let h = crate::digest::hex_text(b.as_slice());
    concat("run_", h.as_str())
}

impl Report {
    pub fn new(run_id: String, suite: String) -> (r: Report)
        ensures
            r.run_id == run_id,
            r.suite == suite,
            r.pass == 0,
            r.fail == 0,
            r.results@.len() == 0,
    {
        Report { run_id, suite, pass: 0, fail: 0, results: Vec::new() }
    }

    /// Counts one case and keeps its report.
    pub fn add(&mut self, case_id: &str, res: CheckResult, obs: Observed)
        requires
            old(self).pass + old(self).fail + 1 <= usize::MAX,
        ensures
            final(self).pass == old(self).pass + (if res.pass {
                1usize
            } else {
                0usize
            }),
            final(self).fail == old(self).fail + (if res.pass {
                0usize
            } else {
                1usize
            }),
            final(self).results@.len() == old(self).results@.len() + 1,
            forall|k: int| 0 <= k < old(self).results@.len() ==> final(self).results@[k] == old(self).results@[k],
            final(self).results@.last().case_id@ == case_id@,
            final(self).results@.last().pass == res.pass,
            final(self).results@.last().failures == res.failures,
            final(self).results@.last().exec_error == obs.exec_error,
            final(self).results@.last().reply == obs.reply,
            final(self).results@.last().trail == obs.trail,
            final(self).run_id == old(self).run_id,
            final(self).suite == old(self).suite,
    {
        if res.pass {
            self.pass = self.pass + 1;
        } else {
            self.fail = self.fail + 1;
        }
        self.results.push(
            CaseReport {
                case_id: owned(case_id),
                pass: res.pass,
                failures: res.failures,
                exec_error: obs.exec_error,
                reply: obs.reply,
                trail: obs.trail,
            },
        );
    }
}

/// A case's failures on one line, as a run result keeps them.
pub fn failures_line(failures: &Vec<String>) -> (r: String)
    ensures
        r@ == join(strs(failures@), "; "@),
{
    join_strings(failures, "; ")
}

} // verus!
