use fast_jump::engine::walker::{
    collect_paths, compare_scored_paths, process_single_entry, Aggregator, MIN_SCORE_THRESHOLD,
};
use fuzzy_matcher::skim::SkimMatcherV2;
use fuzzy_matcher::FuzzyMatcher;
use std::cmp::Ordering;

fn sp(score: i64, path: &str) -> (i64, String) {
    (score, path.to_string())
}

#[test]
fn process_single_entry_skips_files_and_non_utf8() {
    assert_eq!(process_single_entry(false, Some("/home/user/projects"), "proj"), None);
    assert_eq!(process_single_entry(true, None, "proj"), None);
}

#[test]
fn process_single_entry_scores_directories() {
    let raw = SkimMatcherV2::default().fuzzy_match("/projects", "proj").unwrap();
    assert!(raw - 3 > 0);
    assert_eq!(process_single_entry(true, Some("/projects"), "proj"), Some((raw - 3, "/projects".to_string())));
    assert_eq!(process_single_entry(true, Some("/home/user"), "zzz"), None);
}

#[test]
fn process_single_entry_drops_non_positive_scores() {
    // empty query scores 0 before the depth penalty
    assert_eq!(process_single_entry(true, Some("/a"), ""), None);
    assert_eq!(process_single_entry(true, Some("a"), ""), None);
}

#[test]
fn compare_prefers_higher_score_then_shorter_path() {
    assert_eq!(compare_scored_paths(&sp(10, "/a"), &sp(5, "/b")), Ordering::Less);
    assert_eq!(compare_scored_paths(&sp(5, "/a"), &sp(10, "/b")), Ordering::Greater);
    assert_eq!(compare_scored_paths(&sp(5, "/a"), &sp(5, "/bb")), Ordering::Less);
    assert_eq!(compare_scored_paths(&sp(5, "/aa"), &sp(5, "/b")), Ordering::Greater);
    assert_eq!(compare_scored_paths(&sp(5, "/a"), &sp(5, "/b")), Ordering::Equal);
}

#[test]
fn collect_paths_keeps_order() {
    let results = vec![sp(3, "/x"), sp(2, "/y")];
    assert_eq!(collect_paths(&results), vec!["/x".to_string(), "/y".to_string()]);
    assert_eq!(collect_paths(&[]), Vec::<String>::new());
}

#[test]
fn aggregator_sorts_and_truncates() {
    let mut agg = Aggregator::new(3);
    assert!(agg.offer(20, "/b".to_string()));
    assert!(agg.offer(50, "/a".to_string()));
    assert!(agg.offer(20, "/cc".to_string()));
    assert!(agg.offer(20, "/c".to_string()));
    assert_eq!(agg.top_results(), &[sp(50, "/a"), sp(20, "/b"), sp(20, "/c")][..]);
    assert!(agg.offer(30, "/d".to_string()));
    assert_eq!(agg.paths(), vec!["/a".to_string(), "/d".to_string(), "/b".to_string()]);
    // a worse match is put in and cut off at once
    assert!(agg.offer(1, "/z".to_string()));
    assert_eq!(agg.paths(), vec!["/a".to_string(), "/d".to_string(), "/b".to_string()]);
}

#[test]
fn aggregator_ignores_repeated_paths() {
    let mut agg = Aggregator::new(5);
    assert!(agg.offer(20, "/a".to_string()));
    assert!(!agg.offer(90, "/a".to_string()));
    assert_eq!(agg.top_results(), &[sp(20, "/a")][..]);
}

#[test]
fn aggregator_drops_low_scoring_children_of_listed_paths() {
    let mut agg = Aggregator::new(5);
    assert!(agg.offer(20, "/home".to_string()));
    assert!(!agg.offer(MIN_SCORE_THRESHOLD - 1, "/home/user".to_string()));
    assert!(agg.offer(MIN_SCORE_THRESHOLD, "/home/other".to_string()));
    assert!(agg.offer(MIN_SCORE_THRESHOLD - 1, "/var".to_string()));
    assert_eq!(agg.paths(), vec!["/home".to_string(), "/home/other".to_string(), "/var".to_string()]);
    // the dropped child was still remembered
    assert!(!agg.offer(100, "/home/user".to_string()));
}

#[test]
fn aggregator_with_zero_capacity_lists_nothing() {
    let mut agg = Aggregator::new(0);
    assert!(agg.offer(5, "/a".to_string()));
    assert!(agg.top_results().is_empty());
}

#[test]
fn can_offer_flags_overflowing_redundancy_check() {
    let mut agg = Aggregator::new(5);
    assert!(agg.offer(i64::MAX, "/a".to_string()));
    assert!(!agg.can_offer(0, "/a/b"));
    assert!(agg.can_offer(MIN_SCORE_THRESHOLD, "/a/b"));
    assert!(agg.can_offer(0, "/x"));
    assert!(agg.can_offer(0, "/a"));
}
