//! Trusted bridge to the fuzzy scorer and to the string operations it needs.
//!
//! The scorer's result is a pure function of its two arguments, so it is
//! named by an uninterpreted spec function rather than written out.

use vstd::prelude::*;

verus! {

/// What `str::to_lowercase` returns for a given character sequence.
pub uninterp spec fn lower_of(s: Seq<char>) -> Seq<char>;

/// What the fuzzy scorer returns for a given choice/pattern pair:
/// `None` when the pattern does not match, otherwise the match score
/// (higher is better).
pub uninterp spec fn score_of(choice: Seq<char>, pattern: Seq<char>) -> Option<i64>;

/// A candidate string matches the query when the query is empty or the
/// scorer finds a match for the lowercased pair.
pub open spec fn matches_query(c: Seq<char>, q: Seq<char>) -> bool {
    q.len() == 0 || score_of(lower_of(c), lower_of(q)) is Some
}

/// The key the display projection is ranked by, in descending order.
/// With an empty query every candidate ranks equal.
pub open spec fn rank_score(c: Seq<char>, q: Seq<char>) -> int {
    if q.len() == 0 {
        0
    } else {
        match score_of(lower_of(c), lower_of(q)) {
            Option::Some(s) => s as int,
            Option::None => 0,
        }
    }
}

/// Relies on str::to_lowercase: the result depends on the characters alone,
/// and an empty string lowercases to an empty string.
#[verifier::external_body]
pub(crate) fn lowercase(s: &str) -> (r: String)
    ensures
        r@ == lower_of(s@),
        s@.len() == 0 ==> r@.len() == 0,
{
    s.to_lowercase()
}

/// Relies on fuzzy_matcher's SkimMatcherV2 (with its default configuration)
/// to score a choice against a pattern. Its result depends on the two
/// strings alone, and an empty pattern always matches with score zero.
#[verifier::external_body]
pub(crate) fn fuzzy_score(choice: &str, pattern: &str) -> (r: Option<i64>)
    ensures
        r == score_of(choice@, pattern@),
        pattern@.len() == 0 ==> r == Option::<i64>::Some(0i64),
{
    let matcher = fuzzy_matcher::skim::SkimMatcherV2::default();
    fuzzy_matcher::FuzzyMatcher::fuzzy_match(&matcher, choice, pattern)
}

/// Relies on String::push: appends one character at the end.
pub assume_specification[ String::push ](s: &mut String, ch: char)
    ensures
        final(s)@ == old(s)@.push(ch),
;

/// Relies on String::pop: removes and returns the last character, if any.
pub assume_specification[ String::pop ](s: &mut String) -> (r: Option<char>)
    ensures
        old(s)@.len() == 0 ==> r is None && final(s)@ == old(s)@,
        old(s)@.len() > 0 ==> r == Option::<char>::Some(old(s)@.last()) && final(s)@
            == old(s)@.drop_last(),
;

} // verus!
