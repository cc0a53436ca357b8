use fast_jump::engine::db::{
    calc_based_on_frecency, calculate_frecency_rank, update_db, FrecencyDB, FrecencyEntry,
    MAX_DB_SIZE, PRUNE_TARGET, TIME_ONE_DAY, TIME_ONE_HOUR, TIME_ONE_MONTH, TIME_ONE_WEEK,
};
use fuzzy_matcher::skim::SkimMatcherV2;
use fuzzy_matcher::FuzzyMatcher;

const NOW: u64 = 1_700_000_000;

fn entry(visits: u32, last_visited: u64) -> FrecencyEntry {
    FrecencyEntry { visits, last_visited }
}

#[test]
fn new_entry_is_unvisited() {
    let e = FrecencyEntry::new();
    assert_eq!(e.visits, 0);
    assert_eq!(e.last_visited, 0);
}

#[test]
fn rank_combines_recency_and_frequency() {
    assert_eq!(calculate_frecency_rank(&entry(0, NOW), &NOW), 50);
    assert_eq!(calculate_frecency_rank(&entry(50, NOW), &NOW), 100);
    assert_eq!(calculate_frecency_rank(&entry(500, NOW), &NOW), 100);
    assert_eq!(calculate_frecency_rank(&entry(25, NOW - TIME_ONE_HOUR), &NOW), (80 + 50) / 2);
    assert_eq!(calculate_frecency_rank(&entry(10, NOW - TIME_ONE_DAY), &NOW), (50 + 20) / 2);
    assert_eq!(calculate_frecency_rank(&entry(1, NOW - TIME_ONE_WEEK), &NOW), (20 + 2) / 2);
    assert_eq!(calculate_frecency_rank(&entry(10, NOW - TIME_ONE_MONTH), &NOW), (5 + 20) / 2);
    assert_eq!(calculate_frecency_rank(&entry(10, 0), &NOW), (5 + 20) / 2);
}

#[test]
fn rank_of_future_visit_counts_as_now() {
    assert_eq!(calculate_frecency_rank(&entry(0, NOW + 100), &NOW), 50);
}

#[test]
fn insert_and_get() {
    let mut db = FrecencyDB::new();
    assert_eq!(db.len(), 0);
    db.insert("/a".to_string(), entry(1, 2));
    db.insert("/b".to_string(), entry(3, 4));
    db.insert("/a".to_string(), entry(5, 6));
    assert_eq!(db.len(), 2);
    assert_eq!(db.get("/a"), Some(entry(5, 6)));
    assert_eq!(db.get("/b"), Some(entry(3, 4)));
    assert_eq!(db.get("/c"), None);
    let list = db.entry_list();
    assert_eq!(list.len(), 2);
}

#[test]
fn record_visit_counts_and_stamps() {
    let mut db = FrecencyDB::new();
    db.record_visit("/a".to_string(), 10);
    assert_eq!(db.get("/a"), Some(entry(1, 10)));
    db.record_visit("/a".to_string(), 20);
    assert_eq!(db.get("/a"), Some(entry(2, 20)));
    assert_eq!(db.len(), 1);
}

#[test]
fn update_db_records_visit_without_pruning() {
    let mut db = FrecencyDB::new();
    db.insert("/x".to_string(), entry(4, 0));
    let db = update_db(db, "/y".to_string(), NOW);
    assert_eq!(db.len(), 2);
    assert_eq!(db.get("/y"), Some(entry(1, NOW)));
    assert_eq!(db.get("/x"), Some(entry(4, 0)));
}

#[test]
fn update_db_prunes_to_target_keeping_highest_ranked() {
    let mut db = FrecencyDB::new();
    // 300 entries of the highest rank, 450 of a low rank.
    for i in 0..300 {
        db.insert(format!("/hot/{}", i), entry(50, NOW));
    }
    for i in 0..450 {
        db.insert(format!("/cold/{}", i), entry(1, 0));
    }
    assert_eq!(db.len(), MAX_DB_SIZE);
    let db = update_db(db, "/new".to_string(), NOW);
    assert_eq!(db.len(), PRUNE_TARGET);
    for i in 0..300 {
        assert_eq!(db.get(&format!("/hot/{}", i)), Some(entry(50, NOW)));
    }
    assert_eq!(db.get("/new"), Some(entry(1, NOW)));
    let cold_kept = (0..450).filter(|i| db.get(&format!("/cold/{}", i)).is_some()).count();
    assert_eq!(cold_kept, PRUNE_TARGET - 301);
}

#[test]
fn update_db_at_limit_does_not_prune() {
    let mut db = FrecencyDB::new();
    for i in 0..MAX_DB_SIZE - 1 {
        db.insert(format!("/d/{}", i), entry(1, 0));
    }
    let db = update_db(db, "/e".to_string(), NOW);
    assert_eq!(db.len(), MAX_DB_SIZE);
}

#[test]
fn frecency_scores_add_bonus_to_penalised_match() {
    let mut db = FrecencyDB::new();
    db.insert("/home/user/projects".to_string(), entry(50, NOW));
    db.insert("/var/log".to_string(), entry(0, 0));
    let matches = calc_based_on_frecency(&db, "proj", NOW);
    assert_eq!(matches.len(), 1);
    let raw = SkimMatcherV2::default().fuzzy_match("/home/user/projects", "proj").unwrap();
    // rank 100 gives the full bonus of 75; depth 3 costs 9.
    assert_eq!(matches[0], (raw - 9 + 75, "/home/user/projects".to_string()));
}

#[test]
fn frecency_scores_every_entry_for_empty_query() {
    let mut db = FrecencyDB::new();
    db.insert("/a".to_string(), entry(0, 0));
    db.insert("/b/c".to_string(), entry(50, NOW));
    let mut matches = calc_based_on_frecency(&db, "", NOW);
    matches.sort();
    // empty query: raw score 0; "/a": rank (5+0)/2=2, bonus 1; "/b/c": bonus 75.
    assert_eq!(matches, vec![(-3 + 1, "/a".to_string()), (-6 + 75, "/b/c".to_string())]);
}
