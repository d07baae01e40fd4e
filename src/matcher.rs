//! The fuzzy matcher, from the `fuzzy-matcher` crate.

use vstd::prelude::*;
use fuzzy_matcher::skim::SkimMatcherV2;
use fuzzy_matcher::FuzzyMatcher;
use crate::search_results::valid_positions;

verus! {

#[verifier::external_type_specification]
#[verifier::external_body]
pub struct ExSkimMatcherV2(SkimMatcherV2);

/// Score and matched character positions that the skim matcher gives `pattern`
/// against `choice`, or none where `pattern` is no subsequence of it.
pub uninterp spec fn skim_match(choice: Seq<char>, pattern: Seq<char>) -> Option<(i64, Seq<usize>)>;

/// Relies on `SkimMatcherV2::default` and `use_cache`: a matcher with smart case
/// and a reusable scoring matrix.
#[verifier::external_body]
pub(crate) fn new_matcher() -> SkimMatcherV2 {
    SkimMatcherV2::default().use_cache(true)
}

/// Relies on `SkimMatcherV2::fuzzy_indices`: its result depends on the two texts
/// alone; an empty pattern matches with score 0 and no positions; the positions
/// are collected walking back through the choice and then reversed, so they rise
/// strictly and each is below the number of characters of the choice.
#[verifier::external_body]
pub(crate) fn fuzzy_indices(matcher: &SkimMatcherV2, choice: &str, pattern: &str) -> (r: Option<(i64, Vec<usize>)>)
    ensures
        match r {
            None => skim_match(choice@, pattern@) is None,
            Some((score, indices)) => skim_match(choice@, pattern@) == Some((score, indices@))
                && valid_positions(indices@, choice@),
        },
        pattern@.len() == 0 ==> r is Some && r->Some_0.0 == 0 && r->Some_0.1@.len() == 0,
{
    matcher.fuzzy_indices(choice, pattern)
}

} // verus!
