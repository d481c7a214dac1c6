//! Statistics over recorded turns and ratings: the queries a store runs
//! for each grouping, and how the per-label counts are ordered.
//!
//! By agent or channel the statistics follow the turns: the source and
//! scale filters sit in the join, not in the `WHERE`, so that a turn with
//! no matching rating still counts among the turns. By source or scale
//! they follow the ratings. Labels are stored as a JSON array, so each
//! known label is counted by a query of its own.
use vstd::prelude::*;
use crate::clock::{rfc3339_secs, to_rfc3339};
use crate::eval::{GroupBy, StatFilter, known_labels};
use crate::registry::strs;
use crate::text::{concat, concat3, owned};

verus! {

/// `t` where `b` holds, else nothing.
pub open spec fn when(b: bool, t: Seq<char>) -> Seq<char> {
    if b {
        t
    } else {
        Seq::empty()
    }
}

/// `[t]` where `b` holds, else nothing.
pub open spec fn when_one(b: bool, t: Seq<char>) -> Seq<Seq<char>> {
    if b {
        seq![t]
    } else {
        Seq::empty()
    }
}

/// The column a grouping keys on.
pub open spec fn stat_column(by: GroupBy) -> Seq<char> {
    match by {
        GroupBy::Agent => "agent_id"@,
        GroupBy::Channel => "channel"@,
        GroupBy::Source => "source"@,
        GroupBy::Scale => "scale"@,
        GroupBy::Label => "labels_json"@,
    }
}

/// The instant bind of a filter: its start, written at whole seconds.
pub open spec fn since_binds(f: StatFilter) -> Seq<Seq<char>> {
    match f.since {
        Some(s) => seq![rfc3339_secs(s)],
        None => Seq::empty(),
    }
}

/// The binds of a grouped query, in the order of its placeholders: the
/// source, the scale, then the start, each only where the filter sets it.
pub open spec fn stat_binds(f: StatFilter) -> Seq<Seq<char>> {
    when_one(f.source@.len() > 0, f.source@) + when_one(f.scale@.len() > 0, f.scale@) + since_binds(f)
}

/// The query by agent or channel: every turn in range, left-joined with
/// its ratings of the filtered source and scale.
pub open spec fn turn_stats_sql(col: Seq<char>, f: StatFilter) -> Seq<char> {
    "SELECT t."@ + col + " AS k, COUNT(DISTINCT t.turn_id) AS turns, COUNT(r.id) AS ratings, COALESCE(AVG(r.score),0) AS avg_score, COALESCE(SUM(CASE WHEN r.scale='thumbs' AND r.score>=0.5 THEN 1 ELSE 0 END),0) AS up, COALESCE(SUM(CASE WHEN r.scale='thumbs' AND r.score<0.5 THEN 1 ELSE 0 END),0) AS down FROM eval_turn t LEFT JOIN eval_rating r ON r.turn_id = t.turn_id"@
        + when(f.source@.len() > 0, " AND r.source = ?"@) + when(f.scale@.len() > 0, " AND r.scale = ?"@)
        + " WHERE 1=1"@ + when(f.since is Some, " AND t.ts >= ?"@)
        + " GROUP BY k ORDER BY ratings DESC, turns DESC"@
}

/// The query by source or scale: the ratings themselves, filtered.
pub open spec fn rating_stats_sql(col: Seq<char>, f: StatFilter) -> Seq<char> {
    "SELECT "@ + col + " AS k, 0 AS turns, COUNT(*) AS ratings, COALESCE(AVG(score),0) AS avg_score, COALESCE(SUM(CASE WHEN scale='thumbs' AND score>=0.5 THEN 1 ELSE 0 END),0) AS up, COALESCE(SUM(CASE WHEN scale='thumbs' AND score<0.5 THEN 1 ELSE 0 END),0) AS down FROM eval_rating WHERE 1=1"@
        + when(f.source@.len() > 0, " AND source = ?"@) + when(f.scale@.len() > 0, " AND scale = ?"@)
        + when(f.since is Some, " AND ts >= ?"@) + " GROUP BY k ORDER BY ratings DESC"@
}

/// The query for one label: the ratings whose label list names it. The
/// scale filter plays no part here.
pub open spec fn label_stats_sql(f: StatFilter) -> Seq<char> {
    "SELECT COUNT(*) AS ratings, COALESCE(AVG(score),0) AS avg_score FROM eval_rating WHERE labels_json LIKE ?"@
        + when(f.source@.len() > 0, " AND source = ?"@) + when(f.since is Some, " AND ts >= ?"@)
}

/// The binds of a label's query: the pattern that finds the label as a
/// JSON string, then the source and the start where set.
pub open spec fn label_binds(label: Seq<char>, f: StatFilter) -> Seq<Seq<char>> {
    seq!["%\""@ + label + "\"%"@] + when_one(f.source@.len() > 0, f.source@) + since_binds(f)
}

/// The queries of a grouping, as SQL text and binds: one for a grouping by
/// agent, channel, source or scale; one per known label, in their order,
/// for labels.
pub open spec fn stats_queries_spec(by: GroupBy, f: StatFilter) -> Seq<(Seq<char>, Seq<Seq<char>>)> {
    match by {
        GroupBy::Agent | GroupBy::Channel => seq![(turn_stats_sql(stat_column(by), f), stat_binds(f))],
        GroupBy::Source | GroupBy::Scale => seq![(rating_stats_sql(stat_column(by), f), stat_binds(f))],
        GroupBy::Label => known_labels().map_values(|l: Seq<char>| (label_stats_sql(f), label_binds(l, f))),
    }
}

pub open spec fn queries_view(v: Seq<(String, Vec<String>)>) -> Seq<(Seq<char>, Seq<Seq<char>>)> {
    v.map_values(|q: (String, Vec<String>)| (q.0@, strs(q.1@)))
}

fn push_if(s: String, b: bool, t: &str) -> (r: String)
    ensures
        r@ == s@ + when(b, t@),
{
    if b {
        concat(s.as_str(), t)
    } else {
        assert(s@ + Seq::<char>::empty() =~= s@);
        s
    }
}

fn grouped_binds(f: &StatFilter) -> (r: Vec<String>)
    ensures
        strs(r@) == stat_binds(*f),
{
    let mut v: Vec<String> = Vec::new();
    if !f.source.as_str().is_empty() {
        v.push(f.source.clone());
    }
    if !f.scale.as_str().is_empty() {
        v.push(f.scale.clone());
    }
    match f.since {
        Some(s) => v.push(to_rfc3339(s)),
        None => {},
    }
    assert(strs(v@) =~= stat_binds(*f));
    v
}

fn label_query(label: &str, f: &StatFilter) -> (r: (String, Vec<String>))
    ensures
        r.0@ == label_stats_sql(*f),
        strs(r.1@) == label_binds(label@, *f),
{
    let sql = owned("SELECT COUNT(*) AS ratings, COALESCE(AVG(score),0) AS avg_score FROM eval_rating WHERE labels_json LIKE ?");
    let sql = push_if(sql, !f.source.as_str().is_empty(), " AND source = ?");
    let sql = push_if(sql, f.since.is_some(), " AND ts >= ?");
    let mut v: Vec<String> = Vec::new();
    v.push(concat3("%\"", label, "\"%"));
    if !f.source.as_str().is_empty() {
        v.push(f.source.clone());
    }
    match f.since {
        Some(s) => v.push(to_rfc3339(s)),
        None => {},
    }
    assert(strs(v@) =~= label_binds(label@, *f));
    (sql, v)
}

/// The queries a store runs for the statistics of a grouping.
pub fn stats_queries(by: GroupBy, f: &StatFilter) -> (r: Vec<(String, Vec<String>)>)
    ensures
        queries_view(r@) == stats_queries_spec(by, *f),
{
    let mut out: Vec<(String, Vec<String>)> = Vec::new();
    match by {
        GroupBy::Agent | GroupBy::Channel => {
            let col = if by == GroupBy::Agent {
                "agent_id"
            } else {
                "channel"
            };
            let sql = concat3(
                "SELECT t.",
                col,
                " AS k, COUNT(DISTINCT t.turn_id) AS turns, COUNT(r.id) AS ratings, COALESCE(AVG(r.score),0) AS avg_score, COALESCE(SUM(CASE WHEN r.scale='thumbs' AND r.score>=0.5 THEN 1 ELSE 0 END),0) AS up, COALESCE(SUM(CASE WHEN r.scale='thumbs' AND r.score<0.5 THEN 1 ELSE 0 END),0) AS down FROM eval_turn t LEFT JOIN eval_rating r ON r.turn_id = t.turn_id",
            );
            let sql = push_if(sql, !f.source.as_str().is_empty(), " AND r.source = ?");
            let sql = push_if(sql, !f.scale.as_str().is_empty(), " AND r.scale = ?");
            let sql = concat(sql.as_str(), " WHERE 1=1");
            let sql = push_if(sql, f.since.is_some(), " AND t.ts >= ?");
            let sql = concat(sql.as_str(), " GROUP BY k ORDER BY ratings DESC, turns DESC");
            out.push((sql, grouped_binds(f)));
        },
        GroupBy::Source | GroupBy::Scale => {
            let col = if by == GroupBy::Source {
                "source"
            } else {
                "scale"
            };
            let sql = concat3(
                "SELECT ",
                col,
                " AS k, 0 AS turns, COUNT(*) AS ratings, COALESCE(AVG(score),0) AS avg_score, COALESCE(SUM(CASE WHEN scale='thumbs' AND score>=0.5 THEN 1 ELSE 0 END),0) AS up, COALESCE(SUM(CASE WHEN scale='thumbs' AND score<0.5 THEN 1 ELSE 0 END),0) AS down FROM eval_rating WHERE 1=1",
            );
            let sql = push_if(sql, !f.source.as_str().is_empty(), " AND source = ?");
            let sql = push_if(sql, !f.scale.as_str().is_empty(), " AND scale = ?");
            let sql = push_if(sql, f.since.is_some(), " AND ts >= ?");
            let sql = concat(sql.as_str(), " GROUP BY k ORDER BY ratings DESC");
            out.push((sql, grouped_binds(f)));
        },
        GroupBy::Label => {
            let labels: [&str; 10] = [
                "wrong_fact",
                "missing_citation",
                "missed_tool",
                "wrong_tool",
                "over_refusal",
                "policy_blind",
                "pii_leak",
                "hallucination",
                "incomplete",
                "other",
            ];
            let mut i: usize = 0;
            while i < 10
                invariant
                    i <= 10,
                    labels@.len() == 10,
                    forall|k: int| 0 <= k < 10 ==> (#[trigger] labels@[k])@ == known_labels()[k],
                    queries_view(out@) == stats_queries_spec(by, *f).take(i as int),
                    by == GroupBy::Label,
                decreases 10 - i,
            {
                let q = label_query(labels[i], f);
                let ghost before = queries_view(out@);
                out.push(q);
                assert(queries_view(out@) =~= before.push((label_stats_sql(*f), label_binds(known_labels()[i as int], *f))));
                assert(queries_view(out@) =~= stats_queries_spec(by, *f).take(i + 1));
                i = i + 1;
            }
            assert(stats_queries_spec(by, *f).take(10) =~= stats_queries_spec(by, *f));
            return out;
        },
    }
    assert(queries_view(out@) =~= stats_queries_spec(by, *f));
    out
}

/// The known labels, in their own order: the keys of the label
/// statistics, by position.
pub fn label_names() -> (r: Vec<String>)
    ensures
        strs(r@) == known_labels(),
{
    let labels: [&str; 10] = [
        "wrong_fact",
        "missing_citation",
        "missed_tool",
        "wrong_tool",
        "over_refusal",
        "policy_blind",
        "pii_leak",
        "hallucination",
        "incomplete",
        "other",
    ];
    let mut out: Vec<String> = Vec::new();
    let mut i: usize = 0;
    while i < 10
        invariant
            i <= 10,
            labels@.len() == 10,
            forall|k: int| 0 <= k < 10 ==> (#[trigger] labels@[k])@ == known_labels()[k],
            strs(out@) == known_labels().take(i as int),
        decreases 10 - i,
    {
        let ghost before = strs(out@);
        let name = owned(labels[i]);
        assert(name@ == known_labels()[i as int]);
        out.push(name);
        assert(strs(out@) =~= before.push(known_labels()[i as int]));
        assert(strs(out@) =~= known_labels().take(i + 1));
        i = i + 1;
    }
    assert(known_labels().take(10) =~= known_labels());
    out
}

/// Whether position `a` is listed before `b`: more ratings first; among
/// equal counts, the known labels' own order.
pub open spec fn ranks_before(ratings: Seq<i64>, a: int, b: int) -> bool {
    ratings[a] > ratings[b] || (ratings[a] == ratings[b] && a < b)
}

/// The labels to show, as positions in the known labels' order, given how
/// many ratings each has: only those with ratings, most-rated first, equal
/// counts in the known order.
#[verifier::loop_isolation(false)]
pub fn label_order(ratings: &Vec<i64>) -> (r: Vec<usize>)
    ensures
        forall|i: int| 0 <= i < r@.len() ==> r@[i] < ratings@.len() && ratings@[r@[i] as int] != 0,
        forall|k: int| 0 <= k < ratings@.len() && ratings@[k] != 0 ==> r@.contains(k as usize),
        forall|i: int, j: int| 0 <= i < j < r@.len() ==> ranks_before(ratings@, r@[i] as int, r@[j] as int),
{
    let mut out: Vec<usize> = Vec::new();
    let mut k: usize = 0;
    while k < ratings.len()
        invariant
            k <= ratings@.len(),
            forall|i: int| 0 <= i < out@.len() ==> out@[i] < k && ratings@[out@[i] as int] != 0,
            forall|m: int| 0 <= m < k && ratings@[m] != 0 ==> out@.contains(m as usize),
            forall|i: int, j: int| 0 <= i < j < out@.len() ==> ranks_before(ratings@, out@[i] as int, out@[j] as int),
        decreases ratings.len() - k,
    {
        if ratings[k] != 0 {
            let mut p: usize = 0;
            while p < out.len() && ratings[out[p]] >= ratings[k]
                invariant
                    p <= out@.len(),
                    forall|i: int| 0 <= i < p ==> ratings@[out@[i] as int] >= ratings@[k as int],
                decreases out.len() - p,
            {
                p = p + 1;
            }
            let ghost old_out = out@;
            out.insert(p, k);
            proof {
                let n = out@;
                assert forall|i: int| 0 <= i < n.len() implies n[i] < k + 1 && ratings@[n[i] as int] != 0 by {
                    if i < p {
                        assert(n[i] == old_out[i]);
                    } else if i > p {
                        assert(n[i] == old_out[i - 1]);
                    }
                }
                assert forall|m: int| 0 <= m < k + 1 && ratings@[m] != 0 implies n.contains(m as usize) by {
                    if m == k {
                        assert(n[p as int] == k);
                    } else {
                        let i = choose|i: int| 0 <= i < old_out.len() && old_out[i] == m as usize;
                        if i < p {
                            assert(n[i] == old_out[i]);
                        } else {
                            assert(n[i + 1] == old_out[i]);
                        }
                    }
                }
                assert forall|i: int, j: int| 0 <= i < j < n.len() implies ranks_before(ratings@, n[i] as int, n[j] as int) by {
                    if j < p {
                        assert(n[i] == old_out[i] && n[j] == old_out[j]);
                    } else if j == p {
                        assert(n[i] == old_out[i]);
                    } else if i == p {
                        assert(n[j] == old_out[j - 1]);
                        assert(p < old_out.len());
                        assert(ratings@[old_out[p as int] as int] < ratings@[k as int]);
                        if j - 1 > p {
                            assert(ranks_before(ratings@, old_out[p as int] as int, old_out[j - 1] as int));
                        }
                    } else if i < p {
                        assert(n[i] == old_out[i] && n[j] == old_out[j - 1]);
                    } else {
                        assert(n[i] == old_out[i - 1] && n[j] == old_out[j - 1]);
                    }
                }
            }
        }
        k = k + 1;
    }
    out
}

} // verus!
