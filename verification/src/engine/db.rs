use vstd::prelude::*;
use crate::engine::matcher::{fuzzy_score, skim_match};
use crate::engine::score::checked_heuristic;
use crate::engine::score::checked_heuristics;
use crate::text::same_text;

verus! {

/// Largest number of entries the database may hold before it is pruned.
pub const MAX_DB_SIZE: usize = 750;

/// Number of entries kept when the database is pruned.
pub const PRUNE_TARGET: usize = 500;

/// Visits needed to reach the largest frequency weight.
pub const FRECENCY_VISIT_CAP: u32 = 50;

/// Largest bonus that frecency adds to a match score.
pub const MAX_FRECENCY_BONUS: i64 = 75;

/// Age brackets, in seconds.
pub const TIME_ONE_HOUR: u64 = 3_600;
pub const TIME_ONE_DAY: u64 = 86_400;
pub const TIME_ONE_WEEK: u64 = 604_800;
pub const TIME_ONE_MONTH: u64 = 2_592_000;

/// Recency weights (0 to 100) of the age brackets.
pub const WEIGHT_HOUR: u64 = 100;
pub const WEIGHT_DAY: u64 = 80;
pub const WEIGHT_WEEK: u64 = 50;
pub const WEIGHT_MONTH: u64 = 20;
pub const WEIGHT_OLDER: u64 = 5;

/// How often and how recently a directory was chosen.
#[derive(Clone, Copy, Debug, PartialEq, Eq, Structural)]
pub struct FrecencyEntry {
    pub visits: u32,
    /// Unix time, in seconds, of the last visit.
    pub last_visited: u64,
}

impl FrecencyEntry {
    /// An entry that was never visited.
    pub fn new() -> (entry: Self)
        ensures
            entry.visits == 0,
            entry.last_visited == 0,
    {
        FrecencyEntry { visits: 0, last_visited: 0 }
    }
}

/// Seconds since the last visit, or 0 when the visit lies in the future.
pub open spec fn entry_age(entry: FrecencyEntry, now: u64) -> int {
    if now >= entry.last_visited {
        now - entry.last_visited
    } else {
        0
    }
}

/// Recency weight of an age: 100 within an hour, then 80, 50, 20 and 5.
pub open spec fn recency_weight(age: int) -> int {
    if age < TIME_ONE_HOUR {
        WEIGHT_HOUR as int
    } else if age < TIME_ONE_DAY {
        WEIGHT_DAY as int
    } else if age < TIME_ONE_WEEK {
        WEIGHT_WEEK as int
    } else if age < TIME_ONE_MONTH {
        WEIGHT_MONTH as int
    } else {
        WEIGHT_OLDER as int
    }
}

/// Frequency weight (0 to 100): visits, capped at `FRECENCY_VISIT_CAP`, scaled to 100.
pub open spec fn frequency_weight(visits: u32) -> int {
    let capped: int = if visits < FRECENCY_VISIT_CAP {
        visits as int
    } else {
        FRECENCY_VISIT_CAP as int
    };
    100 * capped / (FRECENCY_VISIT_CAP as int)
}

/// Frecency rank (0 to 100): the mean of the recency and frequency weights, rounded down.
pub open spec fn frecency_rank(entry: FrecencyEntry, now: u64) -> int {
    (recency_weight(entry_age(entry, now)) + frequency_weight(entry.visits)) / 2
}

/// The bonus that frecency adds to a match score.
pub open spec fn frecency_bonus(entry: FrecencyEntry, now: u64) -> int {
    frecency_rank(entry, now) * MAX_FRECENCY_BONUS / 100
}

/// Computes the frecency rank of `entry` at time `now`.
pub fn calculate_frecency_rank(entry: &FrecencyEntry, now: &u64) -> (rank: u64)
    ensures
        rank == frecency_rank(*entry, *now),
        rank <= 100,
{
    let age_sec = now.saturating_sub(entry.last_visited);

    let recency_score = if age_sec < TIME_ONE_HOUR {
        WEIGHT_HOUR
    } else if age_sec < TIME_ONE_DAY {
        WEIGHT_DAY
    } else if age_sec < TIME_ONE_WEEK {
        WEIGHT_WEEK
    } else if age_sec < TIME_ONE_MONTH {
        WEIGHT_MONTH
    } else {
        WEIGHT_OLDER
    };

    let visits = if entry.visits < FRECENCY_VISIT_CAP {
        entry.visits
    } else {
        FRECENCY_VISIT_CAP
    };
    let freq_score = (100 * visits) / FRECENCY_VISIT_CAP;

    (recency_score + freq_score as u64) / 2
}

/// A frecency rank lies between 0 and 100, and the bonus it gives between 0 and
/// `MAX_FRECENCY_BONUS`.
pub proof fn lemma_frecency_bounds(entry: FrecencyEntry, now: u64)
    ensures
        0 <= frecency_rank(entry, now) <= 100,
        0 <= frecency_bonus(entry, now) <= MAX_FRECENCY_BONUS,
{
    assert(0 <= frecency_rank(entry, now) * MAX_FRECENCY_BONUS <= 100 * MAX_FRECENCY_BONUS) by (nonlinear_arith)
        requires
            0 <= frecency_rank(entry, now) <= 100,
    ;
}

/// More visits, or a more recent last visit, never lower the rank; from
/// `FRECENCY_VISIT_CAP` visits on, further visits no longer change it.
pub proof fn lemma_frecency_rank_monotone(a: FrecencyEntry, b: FrecencyEntry, now: u64)
    ensures
        a.visits <= b.visits && a.last_visited <= b.last_visited ==> frecency_rank(a, now)
            <= frecency_rank(b, now),
        a.visits >= FRECENCY_VISIT_CAP && b.visits >= FRECENCY_VISIT_CAP && a.last_visited
            == b.last_visited ==> frecency_rank(a, now) == frecency_rank(b, now),
{
    if a.visits <= b.visits {
        let ca: int = if a.visits < FRECENCY_VISIT_CAP { a.visits as int } else { 50 };
        let cb: int = if b.visits < FRECENCY_VISIT_CAP { b.visits as int } else { 50 };
        assert(100 * ca / 50 <= 100 * cb / 50) by (nonlinear_arith)
            requires
                0 <= ca <= cb,
        ;
    }
}

/// Keys of an entry list are pairwise distinct.
pub open spec fn distinct_keys(s: Seq<(Seq<char>, FrecencyEntry)>) -> bool {
    forall|i: int, j: int| 0 <= i < j < s.len() ==> #[trigger] s[i].0 != #[trigger] s[j].0
}

/// The map that an entry list describes.
pub open spec fn entries_to_map(s: Seq<(Seq<char>, FrecencyEntry)>) -> Map<Seq<char>, FrecencyEntry>
    decreases s.len(),
{
    if s.len() == 0 {
        Map::empty()
    } else {
        entries_to_map(s.drop_last()).insert(s.last().0, s.last().1)
    }
}

/// The map of an entry list holds exactly its keys; with distinct keys each key
/// maps to its own entry and the map has as many keys as the list has entries.
pub proof fn lemma_entries_to_map(s: Seq<(Seq<char>, FrecencyEntry)>)
    ensures
        entries_to_map(s).dom().finite(),
        forall|k: Seq<char>|
            #[trigger] entries_to_map(s).dom().contains(k) <==> exists|i: int|
                0 <= i < s.len() && s[i].0 == k,
        distinct_keys(s) ==> entries_to_map(s).dom().len() == s.len(),
        distinct_keys(s) ==> forall|i: int|
            0 <= i < s.len() ==> #[trigger] entries_to_map(s)[s[i].0] == s[i].1,
    decreases s.len(),
{
    if s.len() > 0 {
        let t = s.drop_last();
        lemma_entries_to_map(t);
        assert forall|k: Seq<char>|
            #[trigger] entries_to_map(s).dom().contains(k) <==> exists|i: int|
                0 <= i < s.len() && s[i].0 == k by {
            if entries_to_map(s).dom().contains(k) && k != s.last().0 {
                let i = choose|i: int| 0 <= i < t.len() && t[i].0 == k;
                assert(s[i].0 == k);
            }
            if exists|i: int| 0 <= i < s.len() && s[i].0 == k {
                let i = choose|i: int| 0 <= i < s.len() && s[i].0 == k;
                if i < t.len() {
                    assert(t[i].0 == k);
                }
            }
        }
        if distinct_keys(s) {
            assert(distinct_keys(t)) by {
                assert forall|i: int, j: int| 0 <= i < j < t.len() implies t[i].0 != t[j].0 by {
                    assert(s[i].0 != s[j].0);
                }
            }
            assert(!entries_to_map(t).dom().contains(s.last().0)) by {
                if entries_to_map(t).dom().contains(s.last().0) {
                    let i = choose|i: int| 0 <= i < t.len() && t[i].0 == s.last().0;
                    assert(s[i].0 == s[s.len() - 1].0);
                }
            }
            assert forall|i: int| 0 <= i < s.len() implies #[trigger] entries_to_map(s)[s[i].0]
                == s[i].1 by {
                if i < t.len() {
                    assert(t[i].0 == s[i].0);
                    assert(s[i].0 != s[s.len() - 1].0);
                }
            }
        }
    }
}

/// Removing one entry of a list with distinct keys removes its key from the map.
pub proof fn lemma_remove_entry(s: Seq<(Seq<char>, FrecencyEntry)>, i: int)
    requires
        distinct_keys(s),
        0 <= i < s.len(),
    ensures
        distinct_keys(s.remove(i)),
        entries_to_map(s.remove(i)) == entries_to_map(s).remove(s[i].0),
{
    let t = s.remove(i);
    assert forall|a: int, b: int| 0 <= a < b < t.len() implies #[trigger] t[a].0 != #[trigger] t[b].0 by {
        let a2 = if a < i { a } else { a + 1 };
        let b2 = if b < i { b } else { b + 1 };
        assert(t[a] == s[a2] && t[b] == s[b2]);
    }
    lemma_entries_to_map(s);
    lemma_entries_to_map(t);
    let m = entries_to_map(s).remove(s[i].0);
    assert forall|k: Seq<char>| #[trigger] entries_to_map(t).dom().contains(k) <==> m.dom().contains(k) by {
        if entries_to_map(t).dom().contains(k) {
            let j = choose|j: int| 0 <= j < t.len() && t[j].0 == k;
            let j2 = if j < i { j } else { j + 1 };
            assert(s[j2].0 == k);
            assert(s[j2].0 != s[i].0);
        }
        if m.dom().contains(k) {
            let j = choose|j: int| 0 <= j < s.len() && s[j].0 == k;
            assert(j != i);
            let j2 = if j < i { j } else { j - 1 };
            assert(t[j2].0 == k);
        }
    }
    assert forall|k: Seq<char>| #[trigger] entries_to_map(t).dom().contains(k) implies entries_to_map(t)[k] == m[k] by {
        let j = choose|j: int| 0 <= j < t.len() && t[j].0 == k;
        let j2 = if j < i { j } else { j + 1 };
        assert(t[j] == s[j2]);
        assert(entries_to_map(t)[t[j].0] == t[j].1);
        assert(entries_to_map(s)[s[j2].0] == s[j2].1);
    }
    assert(entries_to_map(t) =~= m);
}

/// The entry recorded for a visit at `now`, given the entry stored before, if any.
pub open spec fn visited_entry(previous: Option<FrecencyEntry>, now: u64) -> FrecencyEntry {
    FrecencyEntry {
        visits: match previous {
            Some(e) => (e.visits + 1) as u32,
            None => 1,
        },
        last_visited: now,
    }
}

/// `db` after recording a visit to `path` at `now`.
pub open spec fn record_visit_map(db: Map<Seq<char>, FrecencyEntry>, path: Seq<char>, now: u64) -> Map<
    Seq<char>,
    FrecencyEntry,
> {
    db.insert(
        path,
        visited_entry(
            if db.dom().contains(path) {
                Some(db[path])
            } else {
                None
            },
            now,
        ),
    )
}

/// `after` keeps some of the entries of `before`, unchanged, and every kept entry
/// ranks at least as high at `now` as every entry that was dropped.
pub open spec fn keeps_highest_ranked(
    before: Map<Seq<char>, FrecencyEntry>,
    after: Map<Seq<char>, FrecencyEntry>,
    now: u64,
) -> bool {
    &&& after.dom().subset_of(before.dom())
    &&& forall|k: Seq<char>| #[trigger] after.dom().contains(k) ==> after[k] == before[k]
    &&& forall|kept: Seq<char>, dropped: Seq<char>|
        #![trigger after.dom().contains(kept), before.dom().contains(dropped)]
        after.dom().contains(kept) && before.dom().contains(dropped) && !after.dom().contains(
            dropped,
        ) ==> frecency_rank(before[kept], now) >= frecency_rank(before[dropped], now)
}

/// The database of visited directories, keyed by path, each path at most once.
#[derive(Clone, Debug)]
pub struct FrecencyDB {
    entries: Vec<(String, FrecencyEntry)>,
}

impl View for FrecencyDB {
    type V = Map<Seq<char>, FrecencyEntry>;

    closed spec fn view(&self) -> Map<Seq<char>, FrecencyEntry> {
        entries_to_map(self.entries())
    }
}

impl FrecencyDB {
    /// The entries in storage order, each path by its characters.
    pub closed spec fn entries(&self) -> Seq<(Seq<char>, FrecencyEntry)> {
        self.entries@.map_values(|e: (String, FrecencyEntry)| (e.0@, e.1))
    }

    /// Well-formed: no path is stored twice.
    pub closed spec fn wf(&self) -> bool {
        distinct_keys(self.entries())
    }

    /// The map view is the map of the stored entries; with `wf` it has one key per entry.
    pub proof fn lemma_view(&self)
        ensures
            self@ == entries_to_map(self.entries()),
            self@.dom().finite(),
            forall|k: Seq<char>|
                #[trigger] self@.dom().contains(k) <==> exists|i: int|
                    0 <= i < self.entries().len() && self.entries()[i].0 == k,
            self.wf() ==> self@.dom().len() == self.entries().len(),
            self.wf() ==> forall|i: int|
                0 <= i < self.entries().len() ==> #[trigger] self@[self.entries()[i].0]
                    == self.entries()[i].1,
    {
        lemma_entries_to_map(self.entries());
    }

    /// An empty database.
    pub fn new() -> (db: Self)
        ensures
            db.wf(),
            db@ == Map::<Seq<char>, FrecencyEntry>::empty(),
            db.entries().len() == 0,
    {
        let db = FrecencyDB { entries: Vec::new() };
        assert(db.entries() =~= Seq::<(Seq<char>, FrecencyEntry)>::empty());
        db
    }

    /// Number of stored paths.
    pub fn len(&self) -> (n: usize)
        requires
            self.wf(),
        ensures
            n == self@.len(),
            n == self.entries().len(),
    {
        proof {
            self.lemma_view();
        }
        self.entries.len()
    }

    /// Index of `path` in storage, if stored.
    fn position(&self, path: &str) -> (found: Option<usize>)
        requires
            self.wf(),
        ensures
            match found {
                Some(i) => i < self.entries().len() && self.entries()[i as int].0 == path@,
                None => !self@.dom().contains(path@),
            },
    {
        proof {
            self.lemma_view();
        }
        let mut i: usize = 0;
        while i < self.entries.len()
            invariant
                0 <= i <= self.entries@.len(),
                forall|k: int| 0 <= k < i ==> self.entries()[k].0 != path@,
            decreases self.entries@.len() - i,
        {
            if same_text(self.entries[i].0.as_str(), path) {
                return Some(i);
            }
            i = i + 1;
        }
        None
    }

    /// The entry stored for `path`.
    pub fn get(&self, path: &str) -> (found: Option<FrecencyEntry>)
        requires
            self.wf(),
        ensures
            found == (if self@.dom().contains(path@) {
                Some(self@[path@])
            } else {
                None
            }),
    {
        proof {
            self.lemma_view();
        }
        match self.position(path) {
            Some(i) => Some(self.entries[i].1),
            None => None,
        }
    }

    /// The stored entries, in storage order.
    pub fn entry_list(&self) -> (list: Vec<(String, FrecencyEntry)>)
        ensures
            list@.len() == self.entries().len(),
            forall|i: int|
                0 <= i < list@.len() ==> (#[trigger] list@[i].0@, list@[i].1) == self.entries()[i],
    {
        let mut list: Vec<(String, FrecencyEntry)> = Vec::new();
        let mut i: usize = 0;
        while i < self.entries.len()
            invariant
                0 <= i <= self.entries@.len(),
                list@.len() == i,
                forall|j: int| 0 <= j < i ==> (#[trigger] list@[j].0@, list@[j].1) == self.entries()[j],
            decreases self.entries@.len() - i,
        {
            list.push((self.entries[i].0.clone(), self.entries[i].1));
            i = i + 1;
        }
        list
    }

    /// Records a visit to `path` at `now`: one more visit, last visited at `now`.
    pub fn record_visit(&mut self, path: String, now: u64)
        requires
            old(self).wf(),
            old(self)@.dom().contains(path@) ==> old(self)@[path@].visits < u32::MAX,
        ensures
            final(self).wf(),
            final(self)@ == record_visit_map(old(self)@, path@, now),
    {
        let mut entry = match self.get(path.as_str()) {
            Some(e) => e,
            None => FrecencyEntry::new(),
        };
        entry.visits = entry.visits + 1;
        entry.last_visited = now;
        self.insert(path, entry);
    }

    /// Index of the entry that ranks lowest at `now` (the last one among equals).
    fn lowest_ranked(&self, now: u64) -> (m: usize)
        requires
            self.entries().len() > 0,
        ensures
            m < self.entries().len(),
            forall|i: int|
                0 <= i < self.entries().len() ==> frecency_rank(self.entries()[m as int].1, now)
                    <= frecency_rank(#[trigger] self.entries()[i].1, now),
    {
        let mut m: usize = 0;
        let mut lowest = calculate_frecency_rank(&self.entries[0].1, &now);
        let mut i: usize = 1;
        while i < self.entries.len()
            invariant
                self.entries@.len() > 0,
                1 <= i <= self.entries@.len(),
                m < i,
                lowest == frecency_rank(self.entries()[m as int].1, now),
                forall|j: int|
                    0 <= j < i ==> lowest <= frecency_rank(#[trigger] self.entries()[j].1, now),
            decreases self.entries@.len() - i,
        {
            let r = calculate_frecency_rank(&self.entries[i].1, &now);
            if r <= lowest {
                m = i;
                lowest = r;
            }
            i = i + 1;
        }
        m
    }

    /// Drops the lowest-ranked entries until `PRUNE_TARGET` remain.
    fn prune(&mut self, now: u64)
        requires
            old(self).wf(),
            old(self)@.len() > PRUNE_TARGET,
        ensures
            final(self).wf(),
            final(self)@.len() == PRUNE_TARGET,
            keeps_highest_ranked(old(self)@, final(self)@, now),
    {
        let ghost orig = self@;
        proof {
            self.lemma_view();
        }
        while self.entries.len() > PRUNE_TARGET
            invariant
                self.wf(),
                self@.len() == self.entries().len(),
                self.entries().len() >= PRUNE_TARGET,
                keeps_highest_ranked(orig, self@, now),
            decreases self.entries@.len(),
        {
            let m = self.lowest_ranked(now);
            let ghost before = self.entries();
            let ghost cur = self@;
            let ghost key = before[m as int].0;
            proof {
                self.lemma_view();
            }
            self.entries.remove(m);
            proof {
                assert(self.entries() =~= before.remove(m as int));
                lemma_remove_entry(before, m as int);
                self.lemma_view();
                assert(self@ == cur.remove(key));
                assert forall|kept: Seq<char>, dropped: Seq<char>|
                    self@.dom().contains(kept) && orig.dom().contains(dropped)
                        && !self@.dom().contains(dropped) implies frecency_rank(orig[kept], now)
                    >= frecency_rank(orig[dropped], now) by {
                    if dropped == key {
                        let j = choose|j: int| 0 <= j < before.len() && before[j].0 == kept;
                        assert(cur[before[j].0] == before[j].1);
                        assert(cur[before[m as int].0] == before[m as int].1);
                        assert(frecency_rank(before[m as int].1, now) <= frecency_rank(before[j].1, now));
                    }
                }
            }
        }
    }

    /// Stores `entry` for `path`, replacing any entry stored before.
    pub fn insert(&mut self, path: String, entry: FrecencyEntry)
        requires
            old(self).wf(),
        ensures
            final(self).wf(),
            final(self)@ == old(self)@.insert(path@, entry),
    {
        proof {
            self.lemma_view();
        }
        let ghost old_entries = self.entries();
        let ghost key = path@;
        match self.position(path.as_str()) {
            Some(i) => {
                self.entries.set(i, (path, entry));
                let ghost new_entries = self.entries();
                assert(new_entries =~= old_entries.update(i as int, (key, entry)));
                assert(distinct_keys(new_entries)) by {
                    assert forall|a: int, b: int| 0 <= a < b < new_entries.len() implies
                        #[trigger] new_entries[a].0 != #[trigger] new_entries[b].0 by {
                        assert(old_entries[a].0 != old_entries[b].0);
                    }
                }
                proof {
                    self.lemma_view();
                    assert forall|k: Seq<char>| #[trigger] self@.dom().contains(k) <==> old(self)@.insert(key, entry).dom().contains(k) by {
                        if old(self)@.dom().contains(k) {
                            let j = choose|j: int| 0 <= j < old_entries.len() && old_entries[j].0 == k;
                            assert(new_entries[j].0 == k);
                        }
                        if k == key {
                            assert(new_entries[i as int].0 == k);
                        }
                        if self@.dom().contains(k) {
                            let j = choose|j: int| 0 <= j < new_entries.len() && new_entries[j].0 == k;
                            if j != i {
                                assert(old_entries[j].0 == k);
                            }
                        }
                    }
                    assert forall|k: Seq<char>| #[trigger] self@.dom().contains(k) implies self@[k] == old(self)@.insert(key, entry)[k] by {
                        let j = choose|j: int| 0 <= j < new_entries.len() && new_entries[j].0 == k;
                        assert(self@[new_entries[j].0] == new_entries[j].1);
                        if j != i {
                            assert(old_entries[j] == new_entries[j]);
                            assert(old(self)@[old_entries[j].0] == old_entries[j].1);
                        }
                    }
                    assert(self@ =~= old(self)@.insert(key, entry));
                }
            },
            None => {
                self.entries.push((path, entry));
                let ghost new_entries = self.entries();
                assert(new_entries =~= old_entries.push((key, entry)));
                assert(distinct_keys(new_entries)) by {
                    assert forall|a: int, b: int| 0 <= a < b < new_entries.len() implies
                        #[trigger] new_entries[a].0 != #[trigger] new_entries[b].0 by {
                        if b == old_entries.len() {
                            assert(old(self)@.dom().contains(old_entries[a].0));
                        } else {
                            assert(old_entries[a].0 != old_entries[b].0);
                        }
                    }
                }
                proof {
                    assert(entries_to_map(new_entries) == entries_to_map(old_entries).insert(key, entry)) by {
                        assert(new_entries.drop_last() =~= old_entries);
                    }
                }
            },
        }
    }
}

/// Records a visit to `selected_path` at `now` and, when the database then holds
/// more than `MAX_DB_SIZE` paths, keeps only the `PRUNE_TARGET` highest-ranked.
pub fn update_db(db: FrecencyDB, selected_path: String, now: u64) -> (updated: FrecencyDB)
    requires
        db.wf(),
        db@.dom().contains(selected_path@) ==> db@[selected_path@].visits < u32::MAX,
    ensures
        updated.wf(),
        updated@.len() <= MAX_DB_SIZE,
        record_visit_map(db@, selected_path@, now).len() > MAX_DB_SIZE ==> {
            &&& updated@.len() == PRUNE_TARGET
            &&& keeps_highest_ranked(record_visit_map(db@, selected_path@, now), updated@, now)
        },
        record_visit_map(db@, selected_path@, now).len() <= MAX_DB_SIZE ==> updated@
            == record_visit_map(db@, selected_path@, now),
{
    let mut db = db;
    db.record_visit(selected_path, now);
    if db.len() > MAX_DB_SIZE {
        db.prune(now);
    }
    db
}

/// The score of a database path that the matcher scored `raw_score`: the
/// depth-penalised score plus the frecency bonus, when that fits an `i64`.
pub open spec fn frecency_match_score(path: Seq<char>, raw_score: i64, entry: FrecencyEntry, now: u64) -> Option<i64> {
    match checked_heuristic(path, raw_score) {
        Some(h) => if h + frecency_bonus(entry, now) <= i64::MAX {
            Some((h + frecency_bonus(entry, now)) as i64)
        } else {
            None
        },
        None => None,
    }
}

/// The scored paths of `entries` that match `query`, in entry order.
pub open spec fn frecency_matches(entries: Seq<(Seq<char>, FrecencyEntry)>, query: Seq<char>, now: u64) -> Seq<(i64, Seq<char>)>
    decreases entries.len(),
{
    if entries.len() == 0 {
        seq![]
    } else {
        let rest = frecency_matches(entries.drop_last(), query, now);
        let (path, entry) = entries.last();
        match skim_match(path, query) {
            Some(raw) => match frecency_match_score(path, raw, entry, now) {
                Some(score) => rest.push((score, path)),
                None => rest,
            },
            None => rest,
        }
    }
}

/// A list of scored paths by the characters of each path.
pub open spec fn scored_view(v: Seq<(i64, String)>) -> Seq<(i64, Seq<char>)> {
    v.map_values(|x: (i64, String)| (x.0, x.1@))
}

/// Scores every database path that matches `query` at time `now`: the fuzzy
/// score, lowered by the depth penalty and raised by the frecency bonus.
pub fn calc_based_on_frecency(db: &FrecencyDB, query: &str, now: u64) -> (matches: Vec<(i64, String)>)
    ensures
        scored_view(matches@) == frecency_matches(db.entries(), query@, now),
{
    let mut matches: Vec<(i64, String)> = Vec::new();
    let mut i: usize = 0;
    while i < db.entries.len()
        invariant
            0 <= i <= db.entries@.len(),
            scored_view(matches@) == frecency_matches(db.entries().subrange(0, i as int), query@, now),
        decreases db.entries@.len() - i,
    {
        let ghost done = db.entries().subrange(0, i as int);
        let ghost next = db.entries().subrange(0, i + 1);
        assert(next.drop_last() =~= done);
        let path = &db.entries[i].0;
        let entry = &db.entries[i].1;
        if let Some(raw_score) = fuzzy_score(path.as_str(), query) {
            if let Some(heuristic_score) = checked_heuristics(path.as_str(), raw_score) {
                let frecency_rank = calculate_frecency_rank(entry, &now);
                let bonus = (frecency_rank as i64) * MAX_FRECENCY_BONUS / 100;
                if heuristic_score <= i64::MAX - bonus {
                    let ghost before = matches@;
                    let score = heuristic_score + bonus;
                    matches.push((score, path.clone()));
                    assert(scored_view(matches@) =~= scored_view(before).push((score, path@)));
                }
            }
        }
        i = i + 1;
    }
    assert(db.entries().subrange(0, db.entries@.len() as int) =~= db.entries());
    matches
}

} // verus!
