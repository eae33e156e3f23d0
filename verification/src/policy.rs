//! The keep-or-remove symbol policy.
//!
//! A policy is a mode together with an ordered list of compiled regular
//! expressions. Regex matching itself is done by the `regex` crate; what
//! `is_match` returns for a given pattern source and subject is named by the
//! uninterpreted function [`regex_matches`], and every contract about the
//! policy is phrased over that name.

use vstd::prelude::*;

verus! {

/// Whether the regexes name the symbols to keep exported, or the symbols to
/// localize.
#[derive(Copy, Clone, Debug, PartialEq, Eq, Structural)]
pub enum ArmergeKeepOrRemove {
    KeepSymbols,
    RemoveSymbols,
}

#[verifier::external_type_specification]
#[verifier::external_body]
pub struct ExRegex(regex::Regex);

#[verifier::external_type_specification]
#[verifier::external_body]
pub struct ExRegexError(regex::Error);

/// What `regex::Regex::is_match` returns for the regex compiled from
/// `pattern` when run on `text`. The result depends on the two strings
/// alone.
pub uninterp spec fn regex_matches(pattern: Seq<char>, text: Seq<char>) -> bool;

/// Whether `regex::Regex::new` accepts `pattern`.
pub uninterp spec fn regex_compiles(pattern: Seq<char>) -> bool;

/// One compiled pattern, paired with the source text it was compiled from.
///
/// The fields are private: every `Pattern` is built by [`Pattern::new`], so
/// the compiled regex always corresponds to the stored source.
pub struct Pattern {
    src: String,
    re: regex::Regex,
}

impl View for Pattern {
    type V = Seq<char>;

    closed spec fn view(&self) -> Seq<char> {
        self.src@
    }
}

impl Pattern {
    /// Compile a pattern.
    ///
    /// Relies on `regex::Regex::new`: it returns `Ok` exactly for the
    /// pattern texts the `regex` crate accepts, and the compiled regex
    /// matches per the pattern text it was handed.
    #[verifier::external_body]
    pub fn new(src: &str) -> (r: Result<Pattern, regex::Error>)
        ensures
            r matches Ok(p) ==> p@ == src@ && regex_compiles(src@),
            r is Err ==> !regex_compiles(src@),
    {
        match regex::Regex::new(src) {
            Ok(re) => Ok(Pattern { src: src.to_owned(), re }),
            Err(e) => Err(e),
        }
    }

    /// The pattern source this regex was compiled from.
    #[verifier::external_body]
    pub fn as_str(&self) -> (r: &str)
        ensures
            r@ == self@,
    {
        self.src.as_str()
    }

    /// The compiled regex, for handing to other crates' APIs.
    #[verifier::external_body]
    pub fn as_regex(&self) -> &regex::Regex {
        &self.re
    }

    /// Relies on `regex::Regex::is_match`: the result is a function of the
    /// pattern source and the subject text alone.
    #[verifier::external_body]
    pub fn is_match(&self, text: &str) -> (r: bool)
        ensures
            r == regex_matches(self@, text@),
    {
        self.re.is_match(text)
    }

    /// Relies on `regex::Regex::clone`: the clone matches exactly as the
    /// original does.
    #[verifier::external_body]
    pub fn clone(&self) -> (r: Pattern)
        ensures
            r@ == self@,
    {
        Pattern { src: self.src.clone(), re: self.re.clone() }
    }
}

/// The pattern sources of a list of compiled patterns.
pub open spec fn pat_views(pats: Seq<Pattern>) -> Seq<Seq<char>> {
    pats.map_values(|p: Pattern| p@)
}

/// Pushing a pattern extends the list of pattern sources by its source.
pub proof fn lemma_pat_views_push(ps: Seq<Pattern>, p: Pattern)
    ensures
        pat_views(ps.push(p)) == pat_views(ps).push(p@),
{
    assert forall|k: int| 0 <= k < ps.len() + 1 implies pat_views(ps.push(p))[k] == pat_views(
        ps,
    ).push(p@)[k] by {
        if k < ps.len() {
            assert(ps.push(p)[k] == ps[k]);
        } else {
            assert(ps.push(p)[k] == p);
        }
    }
    assert(pat_views(ps.push(p)) =~= pat_views(ps).push(p@));
}

/// Some pattern in the list matches `text`.
pub open spec fn matches_any(pats: Seq<Seq<char>>, text: Seq<char>) -> bool {
    exists|i: int| 0 <= i < pats.len() && regex_matches(pats[i], text)
}

/// Appending one pattern to a list matches whatever the list or the new
/// pattern matches.
pub proof fn lemma_matches_any_push(pats: Seq<Seq<char>>, p: Seq<char>, text: Seq<char>)
    ensures
        matches_any(pats.push(p), text) <==> matches_any(pats, text) || regex_matches(p, text),
{
    if matches_any(pats.push(p), text) {
        let i = choose|i: int| 0 <= i < pats.push(p).len() && regex_matches(pats.push(p)[i], text);
        if i < pats.len() {
            assert(pats.push(p)[i] == pats[i]);
            assert(matches_any(pats, text));
        } else {
            assert(pats.push(p)[i] == p);
        }
    }
    if matches_any(pats, text) {
        let i = choose|i: int| 0 <= i < pats.len() && regex_matches(pats[i], text);
        assert(pats.push(p)[i] == pats[i]);
        assert(regex_matches(pats.push(p)[i], text));
    }
    if regex_matches(p, text) {
        assert(pats.push(p)[pats.len() as int] == p);
        assert(regex_matches(pats.push(p)[pats.len() as int], text));
    }
}

/// Some pattern in the list fails to match `text`.
pub open spec fn fails_some(pats: Seq<Seq<char>>, text: Seq<char>) -> bool {
    exists|i: int| 0 <= i < pats.len() && !regex_matches(pats[i], text)
}

/// Run every pattern against `text` until one matches.
pub fn name_matches_any(pats: &Vec<Pattern>, text: &str) -> (r: bool)
    ensures
        r == matches_any(pat_views(pats@), text@),
{
    for i in 0..pats.len()
        invariant
            forall|k: int| 0 <= k < i ==> !regex_matches(pat_views(pats@)[k], text@),
    {
        if pats[i].is_match(text) {
            proof {
                assert(regex_matches(pat_views(pats@)[i as int], text@));
            }
            return true;
        }
    }
    false
}

/// Run every pattern against `text` until one fails to match.
pub fn name_fails_some(pats: &Vec<Pattern>, text: &str) -> (r: bool)
    ensures
        r == fails_some(pat_views(pats@), text@),
{
    for i in 0..pats.len()
        invariant
            forall|k: int| 0 <= k < i ==> regex_matches(pat_views(pats@)[k], text@),
    {
        if !pats[i].is_match(text) {
            proof {
                assert(!regex_matches(pat_views(pats@)[i as int], text@));
            }
            return true;
        }
    }
    false
}

} // verus!
