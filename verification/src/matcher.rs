//! The external fuzzy matcher, behind a trusted wrapper.

use vstd::prelude::*;

verus! {

/// The score that the external fuzzy matcher, in its default configuration,
/// assigns to a candidate string against a query: `None` when the candidate
/// does not match the query, `Some(score)` (higher is better) when it does.
pub uninterp spec fn fuzzy_score(candidate: Seq<char>, query: Seq<char>) -> Option<i64>;

/// Whether a candidate string matches the query at all.
pub open spec fn is_match(candidate: Seq<char>, query: Seq<char>) -> bool {
    fuzzy_score(candidate, query) is Some
}

/// Relies on `fuzzy_matcher::skim::SkimMatcherV2::fuzzy_match` with the
/// default configuration: the score depends on the candidate and the query
/// alone (the matcher's thread-local buffers are cleared and rebuilt on every
/// call), and an empty query matches every candidate with score 0.
#[verifier::external_body]
pub(crate) fn fuzzy_match_score(candidate: &str, query: &str) -> (r: Option<i64>)
    ensures
        r == fuzzy_score(candidate@, query@),
        query@.len() == 0 ==> r == Some(0i64),
{
    fuzzy_matcher::FuzzyMatcher::fuzzy_match(
        &fuzzy_matcher::skim::SkimMatcherV2::default(),
        candidate,
        query,
    )
}

} // verus!
