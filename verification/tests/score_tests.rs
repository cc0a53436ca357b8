use fast_jump::engine::score::{
    apply_heuristics, checked_heuristics, checked_is_redundant, count_separators, is_redundant,
    CHILD_OVERRIDE_MARGIN, DEPTH_PENALTY,
};
use fast_jump::text::{same_text, starts_with};

#[test]
fn count_separators_counts_slashes() {
    assert_eq!(count_separators(""), 0);
    assert_eq!(count_separators("home"), 0);
    assert_eq!(count_separators("/home/user/projects"), 3);
    assert_eq!(count_separators("/é/ü/"), 3);
}

#[test]
fn apply_heuristics_subtracts_depth_penalty() {
    assert_eq!(apply_heuristics("/home/user", 100), 100 - 2 * DEPTH_PENALTY);
    assert_eq!(apply_heuristics("/a/b/c/d", 10), -2);
    assert_eq!(apply_heuristics("relative", 42), 42);
}

#[test]
fn deeper_path_scores_lower() {
    let shallow = apply_heuristics("/home/user", 50);
    let deep = apply_heuristics("/home/user/a/b", 50);
    assert!(deep < shallow);
    assert_eq!(shallow - deep, 2 * DEPTH_PENALTY);
}

#[test]
fn checked_heuristics_reports_overflow() {
    assert_eq!(checked_heuristics("/a/b", 100), Some(94));
    assert_eq!(checked_heuristics("/a", i64::MIN), None);
    assert_eq!(checked_heuristics("/a", i64::MIN + 3), Some(i64::MIN));
    assert_eq!(checked_heuristics("", i64::MIN), Some(i64::MIN));
}

#[test]
fn starts_with_is_byte_prefix() {
    assert!(starts_with("/home/user/src", "/home/user"));
    assert!(starts_with("/home/user", ""));
    assert!(starts_with("/home/user", "/home/user"));
    assert!(!starts_with("/home", "/home/user"));
    assert!(!starts_with("/home/usr", "/home/user"));
    assert!(starts_with("/home/userspace", "/home/user"));
}

#[test]
fn same_text_compares_characters() {
    assert!(same_text("abc", "abc"));
    assert!(!same_text("abc", "abd"));
    assert!(!same_text("abc", "ab"));
    assert!(same_text("", ""));
}

#[test]
fn child_within_margin_is_redundant() {
    let results = vec![(50i64, "/home/user".to_string())];
    assert!(is_redundant("/home/user/docs", 50 + CHILD_OVERRIDE_MARGIN, &results));
    assert!(is_redundant("/home/user/docs", 3, &results));
    assert!(!is_redundant("/home/user/docs", 50 + CHILD_OVERRIDE_MARGIN + 1, &results));
}

#[test]
fn unrelated_path_is_not_redundant() {
    let results = vec![(50i64, "/home/user".to_string()), (40, "/tmp".to_string())];
    assert!(!is_redundant("/var/log", 0, &results));
    assert!(!is_redundant("/home/other", 0, &[]));
}

#[test]
fn later_ancestor_can_decide() {
    let results = vec![(0i64, "/a/b".to_string()), (100, "/a".to_string())];
    assert!(is_redundant("/a/b/c", 60, &results));
}

#[test]
fn checked_is_redundant_flags_overflowing_scan() {
    let big = vec![(i64::MAX, "/a".to_string())];
    assert_eq!(checked_is_redundant("/a/b", 0, &big), None);
    assert_eq!(checked_is_redundant("/x", 0, &big), Some(false));
    let decided_first = vec![(10i64, "/a".to_string()), (i64::MAX, "/a".to_string())];
    assert_eq!(checked_is_redundant("/a/b", 0, &decided_first), Some(true));
    let results = vec![(50i64, "/home/user".to_string())];
    assert_eq!(checked_is_redundant("/home/user/x", 90, &results), Some(false));
}
