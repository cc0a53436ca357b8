use vstd::prelude::*;
use fuzzy_matcher::skim::SkimMatcherV2;
use fuzzy_matcher::FuzzyMatcher;

verus! {

/// The score that skim's V2 fuzzy matcher, in its default configuration, gives
/// the text `choice` for the query `pattern`, or `None` when `pattern` does not
/// match `choice`.
pub uninterp spec fn skim_match(choice: Seq<char>, pattern: Seq<char>) -> Option<i64>;

/// Calls `FuzzyMatcher::fuzzy_indices` of `fuzzy_matcher::skim::SkimMatcherV2::default()`
/// on `choice` and `pattern` and keeps the score, dropping the matched indices.
/// Trusted: the score depends on the two texts alone, so it is named `skim_match`
/// of their characters; nothing more is claimed of its value.
#[verifier::external_body]
pub fn fuzzy_score(choice: &str, pattern: &str) -> (score: Option<i64>)
    ensures
        score == skim_match(choice@, pattern@),
{
    SkimMatcherV2::default().fuzzy_indices(choice, pattern).map(|(score, _)| score)
}

} // verus!
