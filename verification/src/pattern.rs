//! Regular expressions, as the regex crate runs them.
//!
//! What a pattern matches is the regex crate's business; the library
//! names it and builds on what the crate documents: matches come left to
//! right, do not overlap, and are pieces of the text.
use vstd::prelude::*;
use crate::registry::strs;

verus! {

#[verifier::external_type_specification]
#[verifier::external_body]
pub struct ExRegex(regex::Regex);

/// A compiled pattern with its source.
pub struct Pattern {
    source: String,
    re: regex::Regex,
}

impl Pattern {
    pub closed spec fn source_view(&self) -> Seq<char> {
        self.source@
    }
}

/// What the regex crate says of a pattern it refuses (the error's display
/// text); `None` for a pattern it accepts.
pub uninterp spec fn regex_error(p: Seq<char>) -> Option<Seq<char>>;

/// Whether the regex crate accepts `p`.
pub open spec fn regex_compiles(p: Seq<char>) -> bool {
    regex_error(p) is None
}

/// Whether pattern `p` matches somewhere in `text`.
pub uninterp spec fn regex_matches(p: Seq<char>, text: Seq<char>) -> bool;

/// The texts between the successive non-overlapping leftmost-first
/// matches of `p` in `text`, and the text after the last.
pub uninterp spec fn regex_gaps(p: Seq<char>, text: Seq<char>) -> Seq<Seq<char>>;

/// The texts of the successive non-overlapping leftmost-first matches of
/// `p` in `text`.
pub uninterp spec fn regex_found(p: Seq<char>, text: Seq<char>) -> Seq<Seq<char>>;

/// Each match with the gap before it.
pub open spec fn zip_pieces(gaps: Seq<Seq<char>>, found: Seq<Seq<char>>) -> Seq<(Seq<char>, Seq<char>)> {
    Seq::new(found.len(), |i: int| (gaps[i], found[i]))
}

/// `text` cut by the matches of `p`: each piece is the text before a match
/// and the match; then the rest.
pub open spec fn regex_split(p: Seq<char>, text: Seq<char>) -> (Seq<(Seq<char>, Seq<char>)>, Seq<char>) {
    (zip_pieces(regex_gaps(p, text), regex_found(p, text)), regex_gaps(p, text).last())
}

/// The pieces and the rest, put back together.
pub open spec fn joined(pieces: Seq<(Seq<char>, Seq<char>)>, rest: Seq<char>) -> Seq<char>
    decreases pieces.len(),
{
    if pieces.len() == 0 {
        rest
    } else {
        pieces[0].0 + pieces[0].1 + joined(pieces.drop_first(), rest)
    }
}

pub open spec fn pairs_of(v: Seq<(String, String)>) -> Seq<(Seq<char>, Seq<char>)> {
    v.map_values(|e: (String, String)| (e.0@, e.1@))
}

/// `regex::Regex::new`; a refusal comes back as the error's display text.
#[verifier::external_body]
pub fn compile(source: &str) -> (r: Result<Pattern, String>)
    ensures
        r is Ok == regex_compiles(source@),
        r matches Ok(p) ==> p.source_view() == source@,
        r matches Err(t) ==> regex_error(source@) == Some(t@),
{
    match regex::Regex::new(source) {
        Ok(re) => Ok(Pattern { source: source.to_string(), re }),
        Err(e) => Err(e.to_string()),
    }
}

/// `regex::Regex::is_match`.
#[verifier::external_body]
pub fn is_match(p: &Pattern, text: &str) -> (r: bool)
    ensures
        r == regex_matches(p.source_view(), text@),
{
    p.re.is_match(text)
}

/// `regex::Regex::split`: the texts between the matches, and the rest.
#[verifier::external_body]
fn gaps(p: &Pattern, text: &str) -> (r: Vec<String>)
    ensures
        strs(r@) == regex_gaps(p.source_view(), text@),
{
    p.re.split(text).map(|g| g.to_string()).collect()
}

/// `regex::Regex::find_iter`: the texts of the matches. There is one gap
/// more than there are matches, and gaps and matches in turn make up the
/// text.
#[verifier::external_body]
fn found(p: &Pattern, text: &str) -> (r: Vec<String>)
    ensures
        strs(r@) == regex_found(p.source_view(), text@),
        r@.len() + 1 == regex_gaps(p.source_view(), text@).len(),
        joined(zip_pieces(regex_gaps(p.source_view(), text@), strs(r@)), regex_gaps(p.source_view(), text@).last())
            == text@,
{
    p.re.find_iter(text).map(|m| m.as_str().to_string()).collect()
}

/// The text before each match and the match, then the rest. The pieces put
/// back together are the text.
fn split(p: &Pattern, text: &str) -> (r: (Vec<(String, String)>, String))
    ensures
        (pairs_of(r.0@), r.1@) == regex_split(p.source_view(), text@),
        joined(pairs_of(r.0@), r.1@) == text@,
{
    let g = gaps(p, text);
    let f = found(p, text);
    let ghost gs = strs(g@);
    let ghost fs = strs(f@);
    let mut pieces: Vec<(String, String)> = Vec::new();
    let mut i: usize = 0;
    while i < f.len()
        invariant
            i <= f@.len(),
            g@.len() == f@.len() + 1,
            gs == strs(g@),
            fs == strs(f@),
            pairs_of(pieces@) == zip_pieces(gs, fs).take(i as int),
        decreases f.len() - i,
    {
        let ghost before = pairs_of(pieces@);
        let gap = g[i].clone();
        let m = f[i].clone();
        assert(gs[i as int] == gap@ && fs[i as int] == m@);
        pieces.push((gap, m));
        assert(pairs_of(pieces@) =~= before.push((gs[i as int], fs[i as int])));
        assert(pairs_of(pieces@) =~= zip_pieces(gs, fs).take(i + 1));
        i = i + 1;
    }
    let rest = g[f.len()].clone();
    assert(pairs_of(pieces@) =~= zip_pieces(gs, fs));
    assert(rest@ == gs.last());
    (pieces, rest)
}

/// How a replacement treats a match.
pub enum Replacement {
    /// The match becomes this text.
    Fixed(String),
    /// The match keeps its first characters (see `partial_mask`).
    PartialMask,
    /// An e-mail address keeps its domain (see `mask_email`).
    EmailMask,
}

pub enum ReplacementV {
    Fixed(Seq<char>),
    PartialMask,
    EmailMask,
}

impl View for Replacement {
    type V = ReplacementV;

    open spec fn view(&self) -> ReplacementV {
        match self {
            Replacement::Fixed(t) => ReplacementV::Fixed(t@),
            Replacement::PartialMask => ReplacementV::PartialMask,
            Replacement::EmailMask => ReplacementV::EmailMask,
        }
    }
}

pub open spec fn replaced(rep: ReplacementV, m: Seq<char>) -> Seq<char> {
    match rep {
        ReplacementV::Fixed(t) => t,
        ReplacementV::PartialMask => crate::pii::partial_mask_spec(m),
        ReplacementV::EmailMask => crate::pii::mask_email_spec(m),
    }
}

/// The pieces with each match replaced, and the rest.
pub open spec fn rejoined(pieces: Seq<(Seq<char>, Seq<char>)>, rest: Seq<char>, rep: ReplacementV) -> Seq<char>
    decreases pieces.len(),
{
    if pieces.len() == 0 {
        rest
    } else {
        pieces[0].0 + replaced(rep, pieces[0].1) + rejoined(pieces.drop_first(), rest, rep)
    }
}

/// Every match of `p` in `text` replaced, left to right.
pub open spec fn replace_all_spec(p: Seq<char>, text: Seq<char>, rep: ReplacementV) -> Seq<char> {
    rejoined(regex_split(p, text).0, regex_split(p, text).1, rep)
}

fn apply_replacement(rep: &Replacement, m: &str) -> (r: String)
    ensures
        r@ == replaced(rep@, m@),
{
    match rep {
        Replacement::Fixed(t) => t.clone(),
        Replacement::PartialMask => crate::pii::partial_mask(m),
        Replacement::EmailMask => crate::pii::mask_email(m),
    }
}

proof fn lemma_rejoined_step(pieces: Seq<(Seq<char>, Seq<char>)>, rest: Seq<char>, rep: ReplacementV, i: int)
    requires
        0 <= i < pieces.len(),
    ensures
        rejoined(pieces.subrange(i, pieces.len() as int), rest, rep) == pieces[i].0 + replaced(rep, pieces[i].1)
            + rejoined(pieces.subrange(i + 1, pieces.len() as int), rest, rep),
{
    assert(pieces.subrange(i, pieces.len() as int).drop_first() =~= pieces.subrange(i + 1, pieces.len() as int));
}

/// Replaces every match of `p` in `text`.
pub fn replace_all(p: &Pattern, text: &str, rep: &Replacement) -> (r: String)
    ensures
        r@ == replace_all_spec(p.source_view(), text@, rep@),
{
    let (pieces, rest) = split(p, text);
    let ghost ps = pairs_of(pieces@);
    let mut out = String::new();
    let mut i: usize = 0;
    assert(ps.subrange(0, ps.len() as int) =~= ps);
    while i < pieces.len()
        invariant
            i <= pieces.len(),
            ps == pairs_of(pieces@),
            ps.len() == pieces@.len(),
            out@ + rejoined(ps.subrange(i as int, ps.len() as int), rest@, rep@) == rejoined(ps, rest@, rep@),
        decreases pieces.len() - i,
    {
        proof {
            lemma_rejoined_step(ps, rest@, rep@, i as int);
        }
        assert(ps[i as int] == (pieces@[i as int].0@, pieces@[i as int].1@));
        let piece = apply_replacement(rep, pieces[i].1.as_str());
        let ghost before = out@;
        out.append(pieces[i].0.as_str());
        out.append(piece.as_str());
        assert(out@ == before + ps[i as int].0 + replaced(rep@, ps[i as int].1));
        assert(out@ + rejoined(ps.subrange(i + 1, ps.len() as int), rest@, rep@) =~= before + rejoined(
            ps.subrange(i as int, ps.len() as int),
            rest@,
            rep@,
        ));
        i = i + 1;
    }
    assert(ps.subrange(ps.len() as int, ps.len() as int) =~= Seq::<(Seq<char>, Seq<char>)>::empty());
    out.append(rest.as_str());
    out
}

} // verus!
