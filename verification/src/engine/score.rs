use vstd::prelude::*;
use vstd::utf8::encode_utf8;
use crate::text::{byte_prefix, starts_with};

verus! {

/// Points taken off a score for every `/` in a path.
pub const DEPTH_PENALTY: i64 = 3;

/// How far a child path must out-score a listed ancestor to be kept.
pub const CHILD_OVERRIDE_MARGIN: i64 = 25;

/// The byte `/`.
pub const SEPARATOR: u8 = 0x2f;

/// Number of `/` bytes in `bytes`.
pub open spec fn separator_count(bytes: Seq<u8>) -> nat
    decreases bytes.len(),
{
    if bytes.len() == 0 {
        0
    } else {
        separator_count(bytes.drop_last()) + if bytes.last() == SEPARATOR {
            1nat
        } else {
            0nat
        }
    }
}

/// Depth of a path: the number of `/` bytes in its UTF-8 encoding.
pub open spec fn path_depth(path: Seq<char>) -> nat {
    separator_count(encode_utf8(path))
}

/// The score of a path after the depth penalty.
pub open spec fn heuristic_score(path: Seq<char>, raw_score: int) -> int {
    raw_score - DEPTH_PENALTY * path_depth(path)
}

/// The depth penalty of `path` and the penalised score both fit in an `i64`.
pub open spec fn heuristics_fit(path: Seq<char>, raw_score: int) -> bool {
    &&& DEPTH_PENALTY * path_depth(path) <= i64::MAX
    &&& i64::MIN <= heuristic_score(path, raw_score)
}

/// For the same match score, a deeper path scores lower, by `DEPTH_PENALTY`
/// for each extra `/`.
pub proof fn lemma_deeper_paths_score_lower(a: Seq<char>, b: Seq<char>, raw_score: int)
    ensures
        path_depth(a) <= path_depth(b) ==> heuristic_score(b, raw_score) <= heuristic_score(a, raw_score),
        heuristic_score(a, raw_score) - heuristic_score(b, raw_score) == DEPTH_PENALTY * (path_depth(b) - path_depth(a)),
{
}

/// Counts the `/` bytes of `path`.
pub fn count_separators(path: &str) -> (n: usize)
    ensures
        n == path_depth(path@),
{
    let bytes = path.as_bytes();
    let mut n: usize = 0;
    let mut i: usize = 0;
    while i < bytes.len()
        invariant
            bytes@ == encode_utf8(path@),
            0 <= i <= bytes@.len(),
            n <= i,
            n == separator_count(bytes@.subrange(0, i as int)),
        decreases bytes@.len() - i,
    {
        assert(bytes@.subrange(0, i + 1).drop_last() =~= bytes@.subrange(0, i as int));
        if bytes[i] == SEPARATOR {
            n = n + 1;
        }
        i = i + 1;
    }
    assert(bytes@.subrange(0, i as int) =~= bytes@);
    n
}

/// Lowers a fuzzy-match score by `DEPTH_PENALTY` for every `/` in the path,
/// so that shallower directories rank above deeper ones.
pub fn apply_heuristics(path: &str, raw_score: i64) -> (score: i64)
    requires
        heuristics_fit(path@, raw_score as int),
    ensures
        score == heuristic_score(path@, raw_score as int),
{
    let depth = count_separators(path);
    let depth = depth as i64;
    raw_score - depth * DEPTH_PENALTY
}

/// A listed result `(existing_score, existing_path)` makes a new `(score, path)`
/// redundant when `path` lies under `existing_path` and does not beat it by
/// more than `CHILD_OVERRIDE_MARGIN`.
pub open spec fn overridden_by(path: Seq<char>, score: i64, existing: (i64, String)) -> bool {
    &&& byte_prefix(existing.1@, path)
    &&& score <= existing.0 + CHILD_OVERRIDE_MARGIN
}

/// Some listed result makes `(score, path)` redundant.
pub open spec fn redundant(path: Seq<char>, score: i64, results: Seq<(i64, String)>) -> bool {
    exists|i: int| 0 <= i < results.len() && #[trigger] overridden_by(path, score, results[i])
}

/// The scan of `results` never has to add the margin to a score where the sum
/// leaves `i64`: every prefix entry whose score is too large for that comes
/// after an entry that already decides the answer.
pub open spec fn redundancy_fits(path: Seq<char>, score: i64, results: Seq<(i64, String)>) -> bool {
    forall|j: int|
        0 <= j < results.len() && byte_prefix(#[trigger] results[j].1@, path) && results[j].0
            + CHILD_OVERRIDE_MARGIN > i64::MAX ==> exists|i: int|
            0 <= i < j && #[trigger] overridden_by(path, score, results[i])
}

/// A match is redundant exactly when some listed path is a byte-wise prefix of
/// its path (the path itself or an ancestor) and that listed score plus
/// `CHILD_OVERRIDE_MARGIN` reaches the match's score. A listed path that is
/// not a prefix of the match's path (a descendant, a sibling) never counts.
pub proof fn lemma_redundant_iff_covered_by_listed_prefix(
    path: Seq<char>,
    score: i64,
    results: Seq<(i64, String)>,
)
    ensures
        redundant(path, score, results) <==> exists|i: int|
            0 <= i < results.len() && encode_utf8(#[trigger] results[i].1@).is_prefix_of(
                encode_utf8(path),
            ) && score <= results[i].0 + CHILD_OVERRIDE_MARGIN,
{
    if redundant(path, score, results) {
        let i = choose|i: int| 0 <= i < results.len() && #[trigger] overridden_by(path, score, results[i]);
        assert(encode_utf8(results[i].1@).is_prefix_of(encode_utf8(path)));
    }
    if exists|i: int|
        0 <= i < results.len() && encode_utf8(#[trigger] results[i].1@).is_prefix_of(
            encode_utf8(path),
        ) && score <= results[i].0 + CHILD_OVERRIDE_MARGIN {
        let i = choose|i: int|
            0 <= i < results.len() && encode_utf8(#[trigger] results[i].1@).is_prefix_of(
                encode_utf8(path),
            ) && score <= results[i].0 + CHILD_OVERRIDE_MARGIN;
        assert(overridden_by(path, score, results[i]));
    }
}

/// A listed path that is not a byte-wise prefix of `path` has no say: dropping
/// it from the list leaves the answer unchanged.
pub proof fn lemma_non_prefix_entry_has_no_say(
    path: Seq<char>,
    score: i64,
    results: Seq<(i64, String)>,
    k: int,
)
    requires
        0 <= k < results.len(),
        !encode_utf8(results[k].1@).is_prefix_of(encode_utf8(path)),
    ensures
        redundant(path, score, results) == redundant(path, score, results.remove(k)),
{
    let rest = results.remove(k);
    if redundant(path, score, results) {
        let i = choose|i: int| 0 <= i < results.len() && #[trigger] overridden_by(path, score, results[i]);
        assert(i != k);
        let j = if i < k { i } else { i - 1 };
        assert(rest[j] == results[i]);
        assert(overridden_by(path, score, rest[j]));
    }
    if redundant(path, score, rest) {
        let j = choose|j: int| 0 <= j < rest.len() && #[trigger] overridden_by(path, score, rest[j]);
        let i = if j < k { j } else { j + 1 };
        assert(rest[j] == results[i]);
        assert(overridden_by(path, score, results[i]));
    }
}

/// Whether `(score, path)` is redundant given the results already listed:
/// true when some listed path is a prefix of `path` and its score plus
/// `CHILD_OVERRIDE_MARGIN` is at least `score`.
pub fn is_redundant(path: &str, score: i64, current_results: &[(i64, String)]) -> (b: bool)
    requires
        redundancy_fits(path@, score, current_results@),
    ensures
        b == redundant(path@, score, current_results@),
        b ==> exists|i: int|
            0 <= i < current_results@.len() && encode_utf8(
                #[trigger] current_results@[i].1@,
            ).is_prefix_of(encode_utf8(path@)) && score <= current_results@[i].0
                + CHILD_OVERRIDE_MARGIN,
        !b ==> forall|i: int|
            0 <= i < current_results@.len() && encode_utf8(
                #[trigger] current_results@[i].1@,
            ).is_prefix_of(encode_utf8(path@)) ==> score > current_results@[i].0
                + CHILD_OVERRIDE_MARGIN,
{
    proof {
        lemma_redundant_iff_covered_by_listed_prefix(path@, score, current_results@);
    }
    let mut i: usize = 0;
    while i < current_results.len()
        invariant
            redundancy_fits(path@, score, current_results@),
            0 <= i <= current_results@.len(),
            forall|k: int| 0 <= k < i ==> !#[trigger] overridden_by(path@, score, current_results@[k]),
        decreases current_results@.len() - i,
    {
        let existing_score = current_results[i].0;
        if starts_with(path, current_results[i].1.as_str()) {
            // An earlier entry would already have decided the answer otherwise.
            assert(existing_score + CHILD_OVERRIDE_MARGIN <= i64::MAX);
            if score <= existing_score + CHILD_OVERRIDE_MARGIN {
                assert(overridden_by(path@, score, current_results@[i as int]));
                return true;
            }
        }
        assert(!overridden_by(path@, score, current_results@[i as int]));
        i = i + 1;
    }
    false
}

/// The penalised score, when `heuristics_fit`; `None` otherwise.
pub open spec fn checked_heuristic(path: Seq<char>, raw_score: i64) -> Option<i64> {
    if heuristics_fit(path, raw_score as int) {
        Some(heuristic_score(path, raw_score as int) as i64)
    } else {
        None
    }
}

/// `apply_heuristics` for any input: `None` where the penalty or the
/// penalised score would leave `i64`.
pub fn checked_heuristics(path: &str, raw_score: i64) -> (score: Option<i64>)
    ensures
        score == checked_heuristic(path@, raw_score),
{
    let depth = count_separators(path);
    if depth as u64 > (i64::MAX / DEPTH_PENALTY) as u64 {
        return None;
    }
    let penalty = (depth as i64) * DEPTH_PENALTY;
    if raw_score < i64::MIN + penalty {
        return None;
    }
    Some(raw_score - penalty)
}

/// `is_redundant` for any input: `None` where the scan would add the margin to
/// a score too large for `i64`.
pub fn checked_is_redundant(path: &str, score: i64, current_results: &[(i64, String)]) -> (b: Option<bool>)
    ensures
        b == (if redundancy_fits(path@, score, current_results@) {
            Some(redundant(path@, score, current_results@))
        } else {
            None
        }),
        b == Some(true) ==> exists|i: int|
            0 <= i < current_results@.len() && encode_utf8(
                #[trigger] current_results@[i].1@,
            ).is_prefix_of(encode_utf8(path@)) && score <= current_results@[i].0
                + CHILD_OVERRIDE_MARGIN,
{
    proof {
        lemma_redundant_iff_covered_by_listed_prefix(path@, score, current_results@);
    }
    let mut i: usize = 0;
    while i < current_results.len()
        invariant
            0 <= i <= current_results@.len(),
            forall|k: int| 0 <= k < i ==> !#[trigger] overridden_by(path@, score, current_results@[k]),
            forall|k: int|
                0 <= k < i ==> !(byte_prefix(#[trigger] current_results@[k].1@, path@)
                    && current_results@[k].0 + CHILD_OVERRIDE_MARGIN > i64::MAX),
        decreases current_results@.len() - i,
    {
        let existing_score = current_results[i].0;
        if starts_with(path, current_results[i].1.as_str()) {
            if existing_score > i64::MAX - CHILD_OVERRIDE_MARGIN {
                assert(!redundancy_fits(path@, score, current_results@));
                return None;
            }
            if score <= existing_score + CHILD_OVERRIDE_MARGIN {
                assert(overridden_by(path@, score, current_results@[i as int]));
                return Some(true);
            }
        }
        i = i + 1;
    }
    Some(false)
}

} // verus!
