use vstd::prelude::*;
use vstd::hash_set::StringHashSet;
use crate::engine::matcher::{fuzzy_score, skim_match};
use crate::engine::score::{
    path_depth, DEPTH_PENALTY,
    checked_heuristic, checked_heuristics, checked_is_redundant, is_redundant, redundancy_fits,
    redundant,
};
use crate::text::byte_len;

verus! {

/// Below this score a match is dropped when a listed ancestor already covers it.
pub const MIN_SCORE_THRESHOLD: i64 = 10;

/// A scored path by its characters.
pub open spec fn scored(x: (i64, String)) -> (i64, Seq<char>) {
    (x.0, x.1@)
}

/// `a` is listed before `b`: a higher score first, then the shorter path (in bytes).
pub open spec fn ranks_before(a: (i64, Seq<char>), b: (i64, Seq<char>)) -> bool {
    a.0 > b.0 || (a.0 == b.0 && byte_len(a.1) < byte_len(b.1))
}

/// Listing order is a strict weak order: no match ranks before itself or before
/// a match that ranks before it, ranking before is transitive, and matches that
/// tie with a third tie with each other.
pub proof fn lemma_ranks_before_strict_weak_order(
    a: (i64, Seq<char>),
    b: (i64, Seq<char>),
    c: (i64, Seq<char>),
)
    ensures
        !ranks_before(a, a),
        ranks_before(a, b) ==> !ranks_before(b, a),
        ranks_before(a, b) && ranks_before(b, c) ==> ranks_before(a, c),
        !ranks_before(a, b) && !ranks_before(b, a) && !ranks_before(b, c) && !ranks_before(c, b)
            ==> !ranks_before(a, c) && !ranks_before(c, a),
{
}

/// No entry of `s` ranks before an entry in front of it.
pub open spec fn sorted_by_rank(s: Seq<(i64, String)>) -> bool {
    forall|i: int, j: int|
        0 <= i < j < s.len() ==> !ranks_before(scored(#[trigger] s[j]), scored(#[trigger] s[i]))
}

/// The entries of `s` past the first `n`, as scored paths.
pub open spec fn cut_off(s: Seq<(i64, String)>, n: int) -> Seq<(i64, Seq<char>)> {
    if s.len() > n {
        s.skip(n).map_values(|x: (i64, String)| scored(x))
    } else {
        seq![]
    }
}

/// Where `x` goes in `s`: after the last entry that `x` does not rank before.
pub open spec fn insertion_point(s: Seq<(i64, String)>, x: (i64, String)) -> int
    decreases s.len(),
{
    if s.len() == 0 {
        0
    } else if ranks_before(scored(x), scored(s.last())) {
        insertion_point(s.drop_last(), x)
    } else {
        s.len() as int
    }
}

/// The score of a walked directory path for `query`, if it is kept: the fuzzy
/// score minus the depth penalty, when that fits an `i64` and is positive.
pub open spec fn directory_score(path: Seq<char>, query: Seq<char>) -> Option<i64> {
    match skim_match(path, query) {
        Some(raw) => match checked_heuristic(path, raw) {
            Some(score) => if score > 0 {
                Some(score)
            } else {
                None
            },
            None => None,
        },
        None => None,
    }
}

/// A walked directory is kept exactly when the matcher scores it and that score
/// minus `DEPTH_PENALTY` per `/` is positive; it is then kept with that score.
pub proof fn lemma_directory_score_is_positive_penalised_match(path: Seq<char>, query: Seq<char>)
    ensures
        directory_score(path, query) is Some <==> (skim_match(path, query) is Some && skim_match(
            path,
            query,
        )->0 - DEPTH_PENALTY * path_depth(path) > 0),
        directory_score(path, query) is Some ==> {
            &&& directory_score(path, query)->0 > 0
            &&& directory_score(path, query)->0 == skim_match(path, query)->0 - DEPTH_PENALTY
                * path_depth(path)
        },
{
}

/// Scores one entry of the disk walk. Only directories whose path is valid
/// UTF-8 (`path` is `Some`) are scored, and only a positive score is kept.
pub fn process_single_entry(is_dir: bool, path: Option<&str>, query: &str) -> (found: Option<(i64, String)>)
    ensures
        match found {
            Some(x) => is_dir && path is Some && x.1@ == path->0@ && directory_score(path->0@, query@)
                == Some(x.0),
            None => !is_dir || path is None || directory_score(path->0@, query@) is None,
        },
        found is Some ==> (found->0).0 > 0,
        found is Some ==> skim_match(path->0@, query@) is Some && (found->0).0 == skim_match(
            path->0@,
            query@,
        )->0 - DEPTH_PENALTY * path_depth(path->0@),
        is_dir && path is Some && skim_match(path->0@, query@) is Some && skim_match(
            path->0@,
            query@,
        )->0 - DEPTH_PENALTY * path_depth(path->0@) > 0 ==> found is Some,
{
    proof {
        if path is Some {
            lemma_directory_score_is_positive_penalised_match(path->0@, query@);
        }
    }
    if !is_dir {
        return None;
    }
    let path_str = match path {
        Some(p) => p,
        None => return None,
    };
    match fuzzy_score(path_str, query) {
        Some(raw_score) => match checked_heuristics(path_str, raw_score) {
            Some(final_score) => {
                if final_score > 0 {
                    Some((final_score, path_str.to_owned()))
                } else {
                    None
                }
            },
            None => None,
        },
        None => None,
    }
}

/// Orders scored paths: higher score first, then shorter path (in bytes).
pub fn compare_scored_paths(a: &(i64, String), b: &(i64, String)) -> (order: std::cmp::Ordering)
    ensures
        (order == std::cmp::Ordering::Less) == ranks_before(scored(*a), scored(*b)),
        (order == std::cmp::Ordering::Greater) == ranks_before(scored(*b), scored(*a)),
{
    if b.0 < a.0 {
        std::cmp::Ordering::Less
    } else if a.0 < b.0 {
        std::cmp::Ordering::Greater
    } else {
        let a_len = a.1.as_str().as_bytes().len();
        let b_len = b.1.as_str().as_bytes().len();
        if a_len < b_len {
            std::cmp::Ordering::Less
        } else if b_len < a_len {
            std::cmp::Ordering::Greater
        } else {
            std::cmp::Ordering::Equal
        }
    }
}

/// The paths of `results`, in order.
pub fn collect_paths(results: &[(i64, String)]) -> (paths: Vec<String>)
    ensures
        paths@.len() == results@.len(),
        forall|i: int| 0 <= i < paths@.len() ==> #[trigger] paths@[i]@ == results@[i].1@,
{
    let mut paths: Vec<String> = Vec::new();
    let mut i: usize = 0;
    while i < results.len()
        invariant
            0 <= i <= results@.len(),
            paths@.len() == i,
            forall|j: int| 0 <= j < i ==> #[trigger] paths@[j]@ == results@[j].1@,
        decreases results@.len() - i,
    {
        paths.push(results[i].1.clone());
        i = i + 1;
    }
    paths
}

/// Whether `a` is listed before `b`.
fn ranks_before_exec(a: &(i64, String), b: &(i64, String)) -> (before: bool)
    ensures
        before == ranks_before(scored(*a), scored(*b)),
{
    match compare_scored_paths(a, b) {
        std::cmp::Ordering::Less => true,
        _ => false,
    }
}

/// The best matches of one search so far, and every path already offered.
pub struct Aggregator {
    top_results: Vec<(i64, String)>,
    seen_path: StringHashSet,
    max_list_size: usize,
    /// Matches that were put in the list and later cut off it.
    passed_over: Ghost<Seq<(i64, Seq<char>)>>,
}

impl Aggregator {
    /// The listed matches, best first.
    pub closed spec fn results(&self) -> Seq<(i64, String)> {
        self.top_results@
    }

    /// Every path offered so far.
    pub closed spec fn seen(&self) -> Set<Seq<char>> {
        self.seen_path@
    }

    /// Matches that were put in the list and later cut off it, in that order.
    pub closed spec fn passed_over(&self) -> Seq<(i64, Seq<char>)> {
        self.passed_over@
    }

    /// How many matches are listed at most.
    pub closed spec fn capacity(&self) -> nat {
        self.max_list_size as nat
    }

    /// The list is sorted best first, within capacity, and lists each path at
    /// most once, each of them among the offered paths.
    pub closed spec fn wf(&self) -> bool {
        &&& sorted_by_rank(self.top_results@)
        &&& self.top_results@.len() <= self.max_list_size
        &&& forall|i: int|
            0 <= i < self.top_results@.len() ==> self.seen_path@.contains(
                #[trigger] self.top_results@[i].1@,
            )
        &&& forall|i: int, j: int|
            0 <= i < j < self.top_results@.len() ==> #[trigger] self.top_results@[i].1@
                != #[trigger] self.top_results@[j].1@
        &&& forall|d: int, i: int|
            0 <= d < self.passed_over@.len() && 0 <= i < self.top_results@.len() ==> !ranks_before(
                #[trigger] self.passed_over@[d],
                scored(#[trigger] self.top_results@[i]),
            )
        &&& self.passed_over@.len() > 0 ==> self.top_results@.len() == self.max_list_size
    }

    /// `offer(score, path)` can be made: a new path below `MIN_SCORE_THRESHOLD`
    /// is checked for redundancy, and that check must stay within `i64`.
    pub open spec fn admits(&self, score: i64, path: Seq<char>) -> bool {
        !self.seen().contains(path) && score < MIN_SCORE_THRESHOLD ==> redundancy_fits(
            path,
            score,
            self.results(),
        )
    }

    /// An empty list that holds at most `max_list_size` matches.
    pub fn new(max_list_size: u16) -> (agg: Self)
        ensures
            agg.wf(),
            agg.results().len() == 0,
            agg.seen() == Set::<Seq<char>>::empty(),
            agg.passed_over().len() == 0,
            agg.capacity() == max_list_size,
    {
        Aggregator {
            top_results: Vec::new(),
            seen_path: StringHashSet::new(),
            max_list_size: max_list_size as usize,
            passed_over: Ghost(Seq::empty()),
        }
    }

    /// Whether `offer(score, path)` can be made.
    pub fn can_offer(&self, score: i64, path: &str) -> (ok: bool)
        ensures
            ok == self.admits(score, path@),
    {
        if self.seen_path.contains(path) || score >= MIN_SCORE_THRESHOLD {
            return true;
        }
        checked_is_redundant(path, score, self.top_results.as_slice()).is_some()
    }

    /// Offers a match. A path offered before is ignored; a new path is
    /// remembered, dropped when it scores below `MIN_SCORE_THRESHOLD` and a
    /// listed ancestor covers it, and otherwise put in its place in the list,
    /// which is then cut to capacity. Returns whether the match was put in.
    pub fn offer(&mut self, score: i64, path: String) -> (accepted: bool)
        requires
            old(self).wf(),
            old(self).admits(score, path@),
        ensures
            final(self).wf(),
            final(self).capacity() == old(self).capacity(),
            final(self).seen() == old(self).seen().insert(path@),
            accepted == (!old(self).seen().contains(path@) && !(score < MIN_SCORE_THRESHOLD
                && redundant(path@, score, old(self).results()))),
            accepted ==> final(self).results() == old(self).results().insert(
                insertion_point(old(self).results(), (score, path)),
                (score, path),
            ).take(
                if old(self).results().len() + 1 <= old(self).capacity() {
                    old(self).results().len() + 1int
                } else {
                    old(self).capacity() as int
                },
            ),
            accepted ==> final(self).passed_over() == old(self).passed_over() + cut_off(
                old(self).results().insert(
                    insertion_point(old(self).results(), (score, path)),
                    (score, path),
                ),
                old(self).capacity() as int,
            ),
            !accepted ==> final(self).results() == old(self).results(),
            !accepted ==> final(self).passed_over() == old(self).passed_over(),
    {
        let ghost old_results = self.top_results@;
        if !self.seen_path.insert(path.clone()) {
            return false;
        }
        if score < MIN_SCORE_THRESHOLD && is_redundant(
            path.as_str(),
            score,
            self.top_results.as_slice(),
        ) {
            return false;
        }
        let item = (score, path);
        let mut pos = self.top_results.len();
        assert(old_results.take(pos as int) =~= old_results);
        while pos > 0 && ranks_before_exec(&item, &self.top_results[pos - 1])
            invariant
                self.top_results@ == old_results,
                0 <= pos <= old_results.len(),
                insertion_point(old_results.take(pos as int), item) == insertion_point(
                    old_results,
                    item,
                ),
                forall|k: int|
                    pos <= k < old_results.len() ==> ranks_before(
                        scored(item),
                        scored(#[trigger] old_results[k]),
                    ),
            decreases pos,
        {
            assert(old_results.take(pos as int).drop_last() =~= old_results.take(pos - 1));
            pos = pos - 1;
        }
        proof {
            if pos > 0 {
                assert(old_results.take(pos as int).last() == old_results[pos - 1]);
            }
            assert(insertion_point(old_results, item) == pos);
            assert forall|i: int| 0 <= i < pos implies !ranks_before(
                scored(item),
                scored(#[trigger] old_results[i]),
            ) by {
                if i < pos - 1 {
                    assert(!ranks_before(scored(old_results[pos - 1]), scored(old_results[i])));
                }
            }
        }
        self.top_results.insert(pos, item);
        let ghost inserted = self.top_results@;
        assert(inserted == old_results.insert(pos as int, item));
        assert(sorted_by_rank(inserted)) by {
            assert forall|i: int, j: int| 0 <= i < j < inserted.len() implies !ranks_before(
                scored(#[trigger] inserted[j]),
                scored(#[trigger] inserted[i]),
            ) by {
                if j < pos {
                    assert(inserted[i] == old_results[i] && inserted[j] == old_results[j]);
                } else if j == pos {
                    assert(inserted[i] == old_results[i]);
                } else if i == pos {
                    assert(inserted[j] == old_results[j - 1]);
                } else if i < pos {
                    assert(inserted[i] == old_results[i] && inserted[j] == old_results[j - 1]);
                } else {
                    assert(inserted[i] == old_results[i - 1] && inserted[j] == old_results[j - 1]);
                }
            }
        }
        self.top_results.truncate(self.max_list_size);
        let ghost cut = cut_off(inserted, self.max_list_size as int);
        let ghost old_passed = self.passed_over@;
        self.passed_over = Ghost(old_passed + cut);
        proof {
            let new_results = self.top_results@;
            let passed = self.passed_over@;
            assert forall|d: int, i: int|
                0 <= d < passed.len() && 0 <= i < new_results.len() implies !ranks_before(
                #[trigger] passed[d],
                scored(#[trigger] new_results[i]),
            ) by {
                assert(new_results[i] == inserted[i]);
                if d >= old_passed.len() {
                    let c = d - old_passed.len();
                    assert(passed[d] == scored(inserted[self.max_list_size + c]));
                } else if i < pos {
                    assert(inserted[i] == old_results[i]);
                } else if i == pos {
                    assert(old_results.len() == self.max_list_size);
                    assert(pos < old_results.len());
                    assert(ranks_before(scored(item), scored(old_results[pos as int])));
                    assert(!ranks_before(old_passed[d], scored(old_results[pos as int])));
                } else {
                    assert(inserted[i] == old_results[i - 1]);
                }
            }
            assert(new_results =~= inserted.take(new_results.len() as int));
            assert forall|i: int, j: int| 0 <= i < j < new_results.len() implies #[trigger] new_results[i].1@
                != #[trigger] new_results[j].1@ by {
                let i2 = if i < pos { i } else if i == pos { i } else { i - 1 };
                let j2 = if j < pos { j } else if j == pos { j } else { j - 1 };
                if i != pos && j != pos {
                    assert(old_results[i2].1@ != old_results[j2].1@);
                } else if i == pos {
                    assert(self.seen_path@.contains(old_results[j2].1@));
                } else {
                    assert(old(self).seen().contains(old_results[i2].1@));
                }
            }
        }
        true
    }

    /// The listed matches, best first.
    pub fn top_results(&self) -> (results: &[(i64, String)])
        ensures
            results@ == self.results(),
    {
        self.top_results.as_slice()
    }

    /// The listed paths, best first.
    pub fn paths(&self) -> (paths: Vec<String>)
        ensures
            paths@.len() == self.results().len(),
            forall|i: int| 0 <= i < paths@.len() ==> #[trigger] paths@[i]@ == self.results()[i].1@,
    {
        collect_paths(self.top_results.as_slice())
    }
}

/// What the list of an aggregator always is: sorted best first, within
/// capacity, each path at most once and only paths that were offered; no match
/// that was cut off ranks before a listed one, and once a match was cut off
/// the list stays full.
pub proof fn lemma_listed_results_are_best(agg: &Aggregator)
    requires
        agg.wf(),
    ensures
        sorted_by_rank(agg.results()),
        agg.results().len() <= agg.capacity(),
        forall|i: int, j: int|
            0 <= i < j < agg.results().len() ==> #[trigger] agg.results()[i].1@
                != #[trigger] agg.results()[j].1@,
        forall|i: int|
            0 <= i < agg.results().len() ==> agg.seen().contains(#[trigger] agg.results()[i].1@),
        forall|d: int, i: int|
            0 <= d < agg.passed_over().len() && 0 <= i < agg.results().len() ==> !ranks_before(
                #[trigger] agg.passed_over()[d],
                scored(#[trigger] agg.results()[i]),
            ),
        agg.passed_over().len() > 0 ==> agg.results().len() == agg.capacity(),
{
}

} // verus!
