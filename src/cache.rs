//! A time-bounded store of earlier check outcomes, keyed by package name and
//! running version.

use vstd::prelude::*;
use crate::outcome::{duplicate_outcome, outcome_view, OutcomeView, UpdateResult};
use crate::version::same_text;

verus! {

/// Entries older than this many seconds are treated as absent.
pub const CACHE_EXPIRE_TIME: u64 = 3600;

/// A stored outcome and when it was stored.
#[derive(Debug)]
pub struct CacheEntry {
    /// When the entry was stored, in seconds since the Unix epoch.
    pub timestamp: u64,
    /// The outcome: present where a newer version was found.
    pub result: Option<UpdateResult>,
}

/// The plain value of a `CacheEntry`.
pub struct EntryView {
    pub timestamp: u64,
    pub result: Option<OutcomeView>,
}

impl View for CacheEntry {
    type V = EntryView;

    open spec fn view(&self) -> EntryView {
        EntryView { timestamp: self.timestamp, result: outcome_view(self.result) }
    }
}

/// A cache key: package name and running version.
pub type KeyView = (Seq<char>, Seq<char>);

/// An entry with its key, as the cache holds and persists it.
#[derive(Debug)]
pub struct CacheRecord {
    pub crate_name: String,
    pub crate_version: String,
    pub entry: CacheEntry,
}

/// The plain value of a `CacheRecord`.
pub struct RecordView {
    pub key: KeyView,
    pub entry: EntryView,
}

impl View for CacheRecord {
    type V = RecordView;

    open spec fn view(&self) -> RecordView {
        RecordView { key: (self.crate_name@, self.crate_version@), entry: self.entry@ }
    }
}

impl CacheRecord {
    /// A copy of this record.
    pub fn duplicate(&self) -> (r: Self)
        ensures
            r@ == self@,
    {
        CacheRecord {
            crate_name: self.crate_name.clone(),
            crate_version: self.crate_version.clone(),
            entry: CacheEntry {
                timestamp: self.entry.timestamp,
                result: duplicate_outcome(&self.entry.result),
            },
        }
    }
}

/// The plain values of a sequence of records.
pub open spec fn records_view(s: Seq<CacheRecord>) -> Seq<RecordView> {
    s.map_values(|r: CacheRecord| r@)
}

/// The entry that a sequence of records gives `k`: the last one under that
/// key.
pub open spec fn lookup(s: Seq<RecordView>, k: KeyView) -> Option<EntryView>
    decreases s.len(),
{
    if s.len() == 0 {
        None
    } else if s.last().key == k {
        Some(s.last().entry)
    } else {
        lookup(s.drop_last(), k)
    }
}

/// The map from key to entry that a sequence of records stands for; a later
/// record replaces an earlier one under the same key.
pub open spec fn cache_map(s: Seq<RecordView>) -> Map<KeyView, EntryView> {
    Map::new(|k: KeyView| lookup(s, k) is Some, |k: KeyView| lookup(s, k)->0)
}

/// Whether no two records share a key.
pub open spec fn unique_keys(s: Seq<RecordView>) -> bool {
    forall|i: int, j: int| 0 <= i < j < s.len() ==> s[i].key != s[j].key
}

/// Whether an entry is still fresh at time `now`: stored less than
/// `CACHE_EXPIRE_TIME` seconds before it.
pub open spec fn is_fresh(e: EntryView, now: u64) -> bool {
    (now as int) < e.timestamp as int + CACHE_EXPIRE_TIME as int
}

/// What a read of `k` at time `now` gives: the stored outcome where the entry
/// is there and fresh, else nothing.
pub open spec fn fresh_result(m: Map<KeyView, EntryView>, k: KeyView, now: u64) -> Option<
    Option<OutcomeView>,
> {
    if m.contains_key(k) && is_fresh(m[k], now) {
        Some(m[k].result)
    } else {
        None
    }
}

/// The plain value of what a read returned.
pub open spec fn read_view(r: Option<Option<UpdateResult>>) -> Option<Option<OutcomeView>> {
    match r {
        Some(o) => Some(outcome_view(o)),
        None => None,
    }
}

proof fn lemma_lookup_push(s: Seq<RecordView>, r: RecordView)
    ensures
        cache_map(s.push(r)) == cache_map(s).insert(r.key, r.entry),
{
    assert(s.push(r).drop_last() =~= s);
    assert(cache_map(s.push(r)) =~= cache_map(s).insert(r.key, r.entry));
}

proof fn lemma_lookup_found(s: Seq<RecordView>, i: int)
    requires
        unique_keys(s),
        0 <= i < s.len(),
    ensures
        lookup(s, s[i].key) == Some(s[i].entry),
    decreases s.len(),
{
    if i < s.len() - 1 {
        assert(s.drop_last()[i] == s[i]);
        lemma_lookup_found(s.drop_last(), i);
    }
}

proof fn lemma_lookup_absent(s: Seq<RecordView>, k: KeyView)
    requires
        forall|i: int| 0 <= i < s.len() ==> s[i].key != k,
    ensures
        lookup(s, k) is None,
    decreases s.len(),
{
    if s.len() > 0 {
        assert(s.last().key != k);
        assert forall|i: int| 0 <= i < s.drop_last().len() implies s.drop_last()[i].key != k by {
            assert(s[i].key != k);
        }
        lemma_lookup_absent(s.drop_last(), k);
    }
}

proof fn lemma_lookup_update(s: Seq<RecordView>, i: int, r: RecordView, k: KeyView)
    requires
        unique_keys(s),
        0 <= i < s.len(),
        s[i].key == r.key,
    ensures
        lookup(s.update(i, r), k) == if k == r.key {
            Some(r.entry)
        } else {
            lookup(s, k)
        },
    decreases s.len(),
{
    let t = s.update(i, r);
    if i == s.len() - 1 {
        assert(t.drop_last() =~= s.drop_last());
    } else {
        assert(t.drop_last() =~= s.drop_last().update(i, r));
        assert(t.last() == s.last());
        assert(s.last().key != s[i].key);
        lemma_lookup_update(s.drop_last(), i, r, k);
    }
}

/// The records of a cache, each key at most once, in the order in which keys
/// were first stored.
pub struct ResultCache {
    records: Vec<CacheRecord>,
}

impl View for ResultCache {
    type V = Map<KeyView, EntryView>;

    closed spec fn view(&self) -> Map<KeyView, EntryView> {
        cache_map(records_view(self.records@))
    }
}

impl ResultCache {
    /// Whether no key is stored twice.
    pub closed spec fn wf(&self) -> bool {
        unique_keys(records_view(self.records@))
    }

    /// The records that a snapshot of this cache holds.
    pub closed spec fn snapshot_view(&self) -> Seq<RecordView> {
        records_view(self.records@)
    }

    /// An empty cache.
    pub fn new() -> (r: Self)
        ensures
            r.wf(),
            r@ == Map::<KeyView, EntryView>::empty(),
    {
        let r = ResultCache { records: Vec::new() };
        assert(r@ =~= Map::<KeyView, EntryView>::empty());
        r
    }

    fn find(&self, crate_name: &str, crate_version: &str) -> (r: Option<usize>)
        ensures
            match r {
                Some(i) => i < self.records@.len() && records_view(self.records@)[i as int].key == (
                crate_name@,
                crate_version@,
                ),
                None => forall|i: int|
                    0 <= i < self.records@.len() ==> records_view(self.records@)[i].key != (
                        crate_name@,
                        crate_version@,
                    ),
            },
    {
        let mut i: usize = 0;
        while i < self.records.len()
            invariant
                i <= self.records@.len(),
                forall|j: int|
                    0 <= j < i ==> records_view(self.records@)[j].key != (
                        crate_name@,
                        crate_version@,
                    ),
            decreases self.records@.len() - i,
        {
            let rec = &self.records[i];
            if same_text(rec.crate_name.as_str(), crate_name) && same_text(
                rec.crate_version.as_str(),
                crate_version,
            ) {
                return Some(i);
            }
            i += 1;
        }
        None
    }

    /// The outcome stored for (`crate_name`, `crate_version`) where it is
    /// fresh at time `now`; `None` where there is no such entry or it has
    /// expired.
    pub fn get(&self, crate_name: &str, crate_version: &str, now: u64) -> (r: Option<
        Option<UpdateResult>,
    >)
        requires
            self.wf(),
        ensures
            read_view(r) == fresh_result(self@, (crate_name@, crate_version@), now),
    {
        match self.find(crate_name, crate_version) {
            Some(i) => {
                proof {
                    lemma_lookup_found(records_view(self.records@), i as int);
                }
                let entry = &self.records[i].entry;
                if now < entry.timestamp || now - entry.timestamp < CACHE_EXPIRE_TIME {
                    Some(duplicate_outcome(&entry.result))
                } else {
                    None
                }
            },
            None => {
                proof {
                    lemma_lookup_absent(
                        records_view(self.records@),
                        (crate_name@, crate_version@),
                    );
                }
                None
            },
        }
    }

    fn store(&mut self, record: CacheRecord)
        requires
            old(self).wf(),
        ensures
            final(self).wf(),
            final(self)@ == old(self)@.insert(record@.key, record@.entry),
    {
        let ghost s = records_view(self.records@);
        let ghost rv = record@;
        match self.find(record.crate_name.as_str(), record.crate_version.as_str()) {
            Some(i) => {
                self.records.set(i, record);
                proof {
                    assert(records_view(self.records@) =~= s.update(i as int, rv));
                    assert forall|k: KeyView| #[trigger]
                        lookup(s.update(i as int, rv), k) == if k == rv.key {
                            Some(rv.entry)
                        } else {
                            lookup(s, k)
                        } by {
                        lemma_lookup_update(s, i as int, rv, k);
                    }
                    assert(self@ =~= old(self)@.insert(rv.key, rv.entry));
                }
            },
            None => {
                self.records.push(record);
                proof {
                    assert(records_view(self.records@) =~= s.push(rv));
                    lemma_lookup_push(s, rv);
                }
            },
        }
    }

    /// Stores `result` for (`crate_name`, `crate_version`) at time `now`,
    /// replacing whatever was stored under that key.
    pub fn put(
        &mut self,
        crate_name: &str,
        crate_version: &str,
        result: Option<UpdateResult>,
        now: u64,
    )
        requires
            old(self).wf(),
        ensures
            final(self).wf(),
            final(self)@ == old(self)@.insert(
                (crate_name@, crate_version@),
                EntryView { timestamp: now, result: outcome_view(result) },
            ),
    {
        let record = CacheRecord {
            crate_name: String::from_str(crate_name),
            crate_version: String::from_str(crate_version),
            entry: CacheEntry { timestamp: now, result },
        };
        self.store(record);
    }

    /// A copy of the records, to be persisted.
    pub fn snapshot(&self) -> (r: Vec<CacheRecord>)
        ensures
            records_view(r@) == self.snapshot_view(),
    {
        let mut out: Vec<CacheRecord> = Vec::new();
        let mut i: usize = 0;
        while i < self.records.len()
            invariant
                i <= self.records@.len(),
                records_view(out@) =~= records_view(self.records@).take(i as int),
            decreases self.records@.len() - i,
        {
            let ghost before = out@;
            out.push(self.records[i].duplicate());
            assert(records_view(out@) =~= records_view(before).push(self.records@[i as int]@));
            i += 1;
        }
        assert(records_view(self.records@).take(i as int) =~= records_view(self.records@));
        out
    }

    /// A cache holding `records`; where two share a key, the later one wins.
    pub fn restore(records: Vec<CacheRecord>) -> (r: Self)
        ensures
            r.wf(),
            r@ == cache_map(records_view(records@)),
    {
        let mut cache = ResultCache::new();
        let mut rest = records;
        let ghost all = records_view(rest@);
        let mut taken: Vec<CacheRecord> = Vec::new();
        let mut i: usize = 0;
        assert(all.take(0) =~= Seq::<RecordView>::empty());
        assert(cache@ =~= cache_map(Seq::<RecordView>::empty()));
        while i < rest.len()
            invariant
                i <= rest@.len(),
                records_view(rest@) == all,
                cache.wf(),
                cache@ == cache_map(all.take(i as int)),
            decreases rest@.len() - i,
        {
            let record = rest[i].duplicate();
            proof {
                assert(all.take(i + 1) =~= all.take(i as int).push(record@));
                lemma_lookup_push(all.take(i as int), record@);
            }
            cache.store(record);
            i += 1;
        }
        assert(all.take(i as int) =~= all);
        cache
    }
}

/// A read right after a write of the same key returns what was written, for
/// as long as the entry is fresh; from `CACHE_EXPIRE_TIME` seconds on it
/// returns nothing, though the entry is still stored.
pub proof fn lemma_put_then_get(
    m: Map<KeyView, EntryView>,
    k: KeyView,
    result: Option<OutcomeView>,
    stored_at: u64,
    now: u64,
)
    ensures
        ({
            let m2 = m.insert(k, EntryView { timestamp: stored_at, result });
            &&& stored_at <= now < stored_at + CACHE_EXPIRE_TIME ==> fresh_result(m2, k, now)
                == Some(result)
            &&& now >= stored_at + CACHE_EXPIRE_TIME ==> fresh_result(m2, k, now) is None
                && m2.contains_key(k) && m2[k].result == result
        }),
{
}

/// Restoring a snapshot of a cache gives the same keys, the same outcomes
/// and the same timestamps.
pub proof fn lemma_snapshot_restore(c: ResultCache)
    requires
        c.wf(),
    ensures
        cache_map(c.snapshot_view()) == c@,
{
}

} // verus!
