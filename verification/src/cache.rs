//! The store cache: an evicting in-memory map from resource key to table.
//!
//! Entries live until a time-to-live (measured from insertion) or a
//! time-to-idle (measured from the last access) elapses, whichever comes
//! first. Eviction is the only path that hands a value out for write-back,
//! and the value handed out is the one the cache last knew. The cache never
//! performs a load itself: a miss tells the caller to load from the storage
//! collaborator and insert, so a key is loaded once per residency.
//!
//! Time enters as a plain millisecond reading taken by the caller; the
//! cache itself never consults a clock.

use vstd::prelude::*;

use crate::keyed::{
    distinct_keys, key_index, lemma_key_index, lemma_key_index_push, lemma_key_index_remove,
    lemma_key_index_update, Keyed,
};
use crate::table::Table;

verus! {

/// Spec-level snapshot of one cache entry: the table it holds and its two
/// timestamps.
pub struct EntryView {
    /// The cached table.
    pub value: Seq<Seq<char>>,
    /// When the entry was inserted (milliseconds).
    pub inserted_at: u64,
    /// When the entry was last read or written (milliseconds).
    pub last_access: u64,
}

/// The entry a load completed at time `now` puts into the cache.
pub open spec fn inserted_entry(value: Seq<Seq<char>>, now: u64) -> EntryView {
    EntryView { value, inserted_at: now, last_access: now }
}

/// Whether an entry is still alive at `now`: neither its time-to-live
/// (since insertion) nor its time-to-idle (since last access) has elapsed.
pub open spec fn fresh_at(e: EntryView, ttl: u64, tti: u64, now: u64) -> bool {
    now - e.inserted_at < ttl && now - e.last_access < tti
}

/// Once a load has filled the cache at `t0`, every later access before
/// either bound elapses finds the entry alive, so it hits the cache and
/// triggers no second load: one load per residency.
pub proof fn lemma_load_once(value: Seq<Seq<char>>, ttl: u64, tti: u64, t0: u64, t1: u64)
    requires
        t0 <= t1,
        t1 - t0 < ttl,
        t1 - t0 < tti,
    ensures
        fresh_at(inserted_entry(value, t0), ttl, tti, t1),
{
}

/// An entry whose time-to-idle has elapsed with no intervening access is
/// no longer alive, whatever its time-to-live says: the next sweep (or
/// lookup) evicts it and hands its last-known value out for write-back.
pub proof fn lemma_idle_entry_expires(e: EntryView, ttl: u64, tti: u64, now: u64)
    requires
        now >= e.last_access,
        now - e.last_access >= tti,
    ensures
        !fresh_at(e, ttl, tti, now),
{
}

/// An evicted pair owed to the storage collaborator: persist `table` under
/// `key`.
pub struct WriteBack {
    /// The key the value was cached under.
    pub key: String,
    /// The last table value the cache knew for the key.
    pub table: Table,
}

/// Whether some write-back in `ws` names the key `k`.
pub open spec fn written_back(ws: Seq<WriteBack>, k: Seq<char>) -> bool {
    exists|w: int| 0 <= w < ws.len() && (#[trigger] ws[w]).key@ == k
}

/// What a cache lookup came to.
pub enum GetOutcome {
    /// The key was cached and alive: the table, and the idle clock restarts.
    Hit(Table),
    /// The key was not cached: load from storage, then insert.
    Absent,
    /// The key was cached but its time had elapsed: the entry is gone and
    /// its last value must be written back before the key is reloaded.
    Expired(WriteBack),
}

/// One cached table with its bookkeeping.
struct CacheEntry {
    key: String,
    table: Table,
    inserted_at: u64,
    last_access: u64,
}

impl Keyed for CacheEntry {
    closed spec fn key_of(&self) -> Seq<char> {
        self.key@
    }
}

/// The spec-level snapshot of a concrete entry.
spec fn entry_of(e: CacheEntry) -> EntryView {
    EntryView { value: e.table@, inserted_at: e.inserted_at, last_access: e.last_access }
}

/// The store cache. Both bounds are required and must be positive.
pub struct StoreCache {
    ttl: u64,
    tti: u64,
    entries: Vec<CacheEntry>,
}

impl StoreCache {
    /// Internal consistency: one entry per key, positive bounds.
    pub closed spec fn wf(self) -> bool {
        distinct_keys(self.entries@) && self.ttl >= 1 && self.tti >= 1
    }

    /// The configured time-to-live, in milliseconds.
    pub closed spec fn spec_ttl(self) -> u64 {
        self.ttl
    }

    /// The configured time-to-idle, in milliseconds.
    pub closed spec fn spec_tti(self) -> u64 {
        self.tti
    }

    /// Whether the cache holds an entry for `k`.
    pub closed spec fn has_entry(self, k: Seq<char>) -> bool {
        key_index(self.entries@, k) != -1
    }

    /// The entry for `k`; meaningful only when `has_entry(k)`.
    pub closed spec fn entry_at(self, k: Seq<char>) -> EntryView {
        entry_of(self.entries@[key_index(self.entries@, k)])
    }

    /// No timestamp in the cache lies in the future of `now`. Every method
    /// taking a clock reading requires this; it holds whenever the readings
    /// handed in never decrease.
    pub closed spec fn stamps_le(self, now: u64) -> bool {
        forall|j: int|
            0 <= j < self.entries@.len() ==> (#[trigger] self.entries@[j]).inserted_at <= now
                && self.entries@[j].last_access <= now
    }

    /// An empty cache with the given bounds. Both bounds are required to be
    /// positive.
    pub fn new(ttl: u64, tti: u64) -> (c: StoreCache)
        requires
            ttl >= 1,
            tti >= 1,
        ensures
            c.wf(),
            c.spec_ttl() == ttl,
            c.spec_tti() == tti,
            forall|k: Seq<char>| !c.has_entry(k),
            forall|now: u64| c.stamps_le(now),
    {
        let c = StoreCache { ttl, tti, entries: Vec::new() };
        proof {
            assert forall|k: Seq<char>| !c.has_entry(k) by {
                assert(key_index(c.entries@, k) == -1);
            }
        }
        c
    }

    /// The index of the entry for `key`, if the cache has one.
    fn find_entry(&self, key: &String) -> (r: Option<usize>)
        ensures
            match r {
                Some(i) => i < self.entries@.len() && i as int == key_index(self.entries@, key@),
                None => key_index(self.entries@, key@) == -1,
            },
    {
        let n = self.entries.len();
        let mut i: usize = 0;
        while i < n
            invariant
                n == self.entries@.len(),
                i <= n,
                forall|j: int| 0 <= j < i ==> self.entries@[j].key_of() != key@,
            decreases n - i,
        {
            if self.entries[i].key == *key {
                proof {
                    lemma_key_index(self.entries@, key@);
                }
                return Some(i);
            }
            i = i + 1;
        }
        proof {
            lemma_key_index(self.entries@, key@);
        }
        None
    }

    /// Looks `key` up at time `now`. A cached, alive entry is a hit: its
    /// table is returned and its idle clock restarts. A key that was never
    /// cached (or was evicted) is absent: the caller loads and inserts. A
    /// cached entry whose time has elapsed is evicted here and now, and its
    /// last value is handed out for write-back. Other keys are untouched.
    pub fn get(&mut self, key: &String, now: u64) -> (r: GetOutcome)
        requires
            old(self).wf(),
            old(self).stamps_le(now),
        ensures
            final(self).wf(),
            forall|t: u64| now <= t ==> final(self).stamps_le(t),
            final(self).spec_ttl() == old(self).spec_ttl(),
            final(self).spec_tti() == old(self).spec_tti(),
            forall|k: Seq<char>|
                k != key@ ==> #[trigger] final(self).has_entry(k) == old(self).has_entry(k) && (old(self).has_entry(k) ==> final(self).entry_at(k) == old(self).entry_at(k)),
            !old(self).has_entry(key@) ==> (r is Absent && *final(self) == *old(self)),
            old(self).has_entry(key@) && fresh_at(
                old(self).entry_at(key@),
                old(self).spec_ttl(),
                old(self).spec_tti(),
                now,
            ) ==> (r matches GetOutcome::Hit(t) && t@ == old(self).entry_at(key@).value && final(self).has_entry(key@) && final(self).entry_at(key@) == (EntryView {
                value: old(self).entry_at(key@).value,
                inserted_at: old(self).entry_at(key@).inserted_at,
                last_access: now,
            })),
            old(self).has_entry(key@) && !fresh_at(
                old(self).entry_at(key@),
                old(self).spec_ttl(),
                old(self).spec_tti(),
                now,
            ) ==> (r matches GetOutcome::Expired(w) && w.key@ == key@ && w.table@ == old(self).entry_at(key@).value && !final(self).has_entry(key@)),
    {
        match self.find_entry(key) {
            None => GetOutcome::Absent,
            Some(i) => {
                proof {
                    lemma_key_index(self.entries@, key@);
                }
                let alive = now - self.entries[i].inserted_at < self.ttl && now
                    - self.entries[i].last_access < self.tti;
                if alive {
                    let ghost prev = self.entries@;
                    self.entries[i].last_access = now;
                    let t = self.entries[i].table.duplicate();
                    proof {
                        assert(self.entries@ =~= prev.update(i as int, self.entries@[i as int]));
                        lemma_key_index_update(prev, i as int, self.entries@[i as int]);
                        assert forall|k: Seq<char>|
                            k != key@ implies #[trigger] self.has_entry(k) == old(self).has_entry(k) && (old(self).has_entry(k) ==> self.entry_at(k) == old(self).entry_at(k)) by {
                            lemma_key_index(prev, k);
                        }
                    }
                    GetOutcome::Hit(t)
                } else {
                    let ghost prev = self.entries@;
                    let entry = self.entries.remove(i);
                    proof {
                        lemma_key_index_remove(prev, i as int);
                    }
                    GetOutcome::Expired(WriteBack { key: entry.key, table: entry.table })
                }
            },
        }
    }

    /// Inserts the table a load for `key` just produced, stamped `now`.
    /// Loads happen only on a miss, so the key must not be cached.
    pub fn insert(&mut self, key: &String, table: Table, now: u64)
        requires
            old(self).wf(),
            old(self).stamps_le(now),
            !old(self).has_entry(key@),
        ensures
            final(self).wf(),
            forall|t: u64| now <= t ==> final(self).stamps_le(t),
            final(self).spec_ttl() == old(self).spec_ttl(),
            final(self).spec_tti() == old(self).spec_tti(),
            final(self).has_entry(key@),
            final(self).entry_at(key@) == inserted_entry(table@, now),
            forall|k: Seq<char>|
                k != key@ ==> #[trigger] final(self).has_entry(k) == old(self).has_entry(k) && (old(self).has_entry(k) ==> final(self).entry_at(k) == old(self).entry_at(k)),
    {
        let ghost prev = self.entries@;
        let entry = CacheEntry { key: key.clone(), table, inserted_at: now, last_access: now };
        proof {
            lemma_key_index_push(prev, entry);
            lemma_key_index(prev, key@);
        }
        self.entries.push(entry);
        proof {
            assert forall|k: Seq<char>|
                k != key@ implies #[trigger] self.has_entry(k) == old(self).has_entry(k) && (old(self).has_entry(k) ==> self.entry_at(k) == old(self).entry_at(k)) by {
                lemma_key_index(prev, k);
            }
        }
    }

    /// Sweeps the whole cache at time `now`: every entry whose time-to-live
    /// or time-to-idle has elapsed is removed and its last-known value is
    /// handed out for write-back, each evicted key exactly once; alive
    /// entries are untouched. This is the only bulk path that produces
    /// write-backs, and a second sweep finds nothing left to evict.
    pub fn evict_expired(&mut self, now: u64) -> (ws: Vec<WriteBack>)
        requires
            old(self).wf(),
            old(self).stamps_le(now),
        ensures
            final(self).wf(),
            forall|t: u64| now <= t ==> final(self).stamps_le(t),
            final(self).spec_ttl() == old(self).spec_ttl(),
            final(self).spec_tti() == old(self).spec_tti(),
            forall|k: Seq<char>|
                #[trigger] final(self).has_entry(k) == (old(self).has_entry(k) && fresh_at(
                    old(self).entry_at(k),
                    old(self).spec_ttl(),
                    old(self).spec_tti(),
                    now,
                )),
            forall|k: Seq<char>|
                final(self).has_entry(k) ==> #[trigger] final(self).entry_at(k) == old(
                    self,
                ).entry_at(k),
            forall|w: int|
                0 <= w < ws@.len() ==> old(self).has_entry((#[trigger] ws@[w]).key@) && !fresh_at(
                    old(self).entry_at(ws@[w].key@),
                    old(self).spec_ttl(),
                    old(self).spec_tti(),
                    now,
                ) && ws@[w].table@ == old(self).entry_at(ws@[w].key@).value,
            forall|w1: int, w2: int|
                0 <= w1 < w2 < ws@.len() ==> (#[trigger] ws@[w1]).key@ != (#[trigger] ws@[w2]).key@,
            forall|k: Seq<char>|
                #[trigger] old(self).has_entry(k) && !fresh_at(
                    old(self).entry_at(k),
                    old(self).spec_ttl(),
                    old(self).spec_tti(),
                    now,
                ) ==> written_back(ws@, k),
    {
        let n = self.entries.len();
        let mut kept: Vec<CacheEntry> = Vec::new();
        let mut ws: Vec<WriteBack> = Vec::new();
        let mut i: usize = 0;
        while i < n
            invariant
                old(self).wf(),
                old(self).stamps_le(now),
                *self == *old(self),
                n == self.entries@.len(),
                i <= n,
                forall|j: int|
                    0 <= j < kept@.len() ==> kept_matches(
                        self.entries@,
                        i as int,
                        self.ttl,
                        self.tti,
                        now,
                        #[trigger] kept@[j],
                    ),
                forall|m: int|
                    0 <= m < i && entry_alive(#[trigger] self.entries@[m], self.ttl, self.tti, now)
                        ==> kept_has(kept@, self.entries@[m].key_of()),
                forall|j1: int, j2: int|
                    0 <= j1 < j2 < kept@.len() ==> (#[trigger] kept@[j1]).key_of() != (
                    #[trigger] kept@[j2]).key_of(),
                forall|w: int|
                    0 <= w < ws@.len() ==> wb_matches(
                        self.entries@,
                        i as int,
                        self.ttl,
                        self.tti,
                        now,
                        #[trigger] ws@[w],
                    ),
                forall|m: int|
                    0 <= m < i && !entry_alive(#[trigger] self.entries@[m], self.ttl, self.tti, now)
                        ==> written_back(ws@, self.entries@[m].key_of()),
                forall|w1: int, w2: int|
                    0 <= w1 < w2 < ws@.len() ==> (#[trigger] ws@[w1]).key@ != (
                    #[trigger] ws@[w2]).key@,
                forall|j: int, w: int|
                    0 <= j < kept@.len() && 0 <= w < ws@.len() ==> (#[trigger] kept@[j]).key_of()
                        != (#[trigger] ws@[w]).key@,
            decreases n - i,
        {
            let alive = now - self.entries[i].inserted_at < self.ttl && now
                - self.entries[i].last_access < self.tti;
            let ghost kprev = kept@;
            let ghost wprev = ws@;
            if alive {
                let e = &self.entries[i];
                kept.push(
                    CacheEntry {
                        key: e.key.clone(),
                        table: e.table.duplicate(),
                        inserted_at: e.inserted_at,
                        last_access: e.last_access,
                    },
                );
                proof {
                    let klen = kprev.len() as int;
                    assert(same_entry(kept@[klen], self.entries@[i as int]));
                    assert(entry_alive(self.entries@[i as int], self.ttl, self.tti, now));
                    assert(kept_matches(
                        self.entries@,
                        i + 1,
                        self.ttl,
                        self.tti,
                        now,
                        kept@[klen],
                    ));
                    assert forall|j: int| 0 <= j < klen implies kept_matches(
                        self.entries@,
                        i + 1,
                        self.ttl,
                        self.tti,
                        now,
                        #[trigger] kept@[j],
                    ) by {
                        assert(kept@[j] == kprev[j]);
                        let m = choose|m: int|
                            0 <= m < i && same_entry(kprev[j], #[trigger] self.entries@[m])
                                && entry_alive(self.entries@[m], self.ttl, self.tti, now);
                        assert(kept_matches(
                            self.entries@,
                            i + 1,
                            self.ttl,
                            self.tti,
                            now,
                            kept@[j],
                        ));
                    }
                    assert forall|m: int|
                        0 <= m < i + 1 && entry_alive(
                            #[trigger] self.entries@[m],
                            self.ttl,
                            self.tti,
                            now,
                        ) implies kept_has(kept@, self.entries@[m].key_of()) by {
                        if m < i {
                            let j = choose|j: int|
                                0 <= j < kprev.len() && (#[trigger] kprev[j]).key_of()
                                    == self.entries@[m].key_of();
                            assert(kept@[j].key_of() == self.entries@[m].key_of());
                        } else {
                            assert(kept@[klen].key_of() == self.entries@[m].key_of());
                        }
                    }
                    assert forall|j1: int, j2: int|
                        0 <= j1 < j2 < kept@.len() implies (#[trigger] kept@[j1]).key_of() != (
                    #[trigger] kept@[j2]).key_of() by {
                        if j2 == klen {
                            let m1 = choose|m: int|
                                0 <= m < i && same_entry(kprev[j1], #[trigger] self.entries@[m])
                                    && entry_alive(self.entries@[m], self.ttl, self.tti, now);
                            assert(kept@[j1].key_of() == self.entries@[m1].key_of());
                            assert(self.entries@[m1].key_of() != self.entries@[i as int].key_of());
                        }
                    }
                    assert forall|j: int, w: int|
                        0 <= j < kept@.len() && 0 <= w < ws@.len() implies (
                    #[trigger] kept@[j]).key_of() != (#[trigger] ws@[w]).key@ by {
                        if j == klen {
                            let m = choose|m: int|
                                0 <= m < i && (#[trigger] ws@[w]).key@ == self.entries@[m].key_of()
                                    && ws@[w].table@ == self.entries@[m].table@ && !entry_alive(
                                    self.entries@[m],
                                    self.ttl,
                                    self.tti,
                                    now,
                                );
                            assert(self.entries@[m].key_of() != self.entries@[i as int].key_of());
                        }
                    }
                    assert forall|w: int| 0 <= w < ws@.len() implies wb_matches(
                        self.entries@,
                        i + 1,
                        self.ttl,
                        self.tti,
                        now,
                        #[trigger] ws@[w],
                    ) by {
                        let m = choose|m: int|
                            0 <= m < i && (#[trigger] ws@[w]).key@ == self.entries@[m].key_of()
                                && ws@[w].table@ == self.entries@[m].table@ && !entry_alive(
                                self.entries@[m],
                                self.ttl,
                                self.tti,
                                now,
                            );
                        assert(wb_matches(self.entries@, i + 1, self.ttl, self.tti, now, ws@[w]));
                    }
                }
            } else {
                let e = &self.entries[i];
                ws.push(WriteBack { key: e.key.clone(), table: e.table.duplicate() });
                proof {
                    let wlen = wprev.len() as int;
                    assert(ws@[wlen].key@ == self.entries@[i as int].key_of());
                    assert(ws@[wlen].table@ == self.entries@[i as int].table@);
                    assert(!entry_alive(self.entries@[i as int], self.ttl, self.tti, now));
                    assert(wb_matches(self.entries@, i + 1, self.ttl, self.tti, now, ws@[wlen]));
                    assert forall|w: int| 0 <= w < wlen implies wb_matches(
                        self.entries@,
                        i + 1,
                        self.ttl,
                        self.tti,
                        now,
                        #[trigger] ws@[w],
                    ) by {
                        assert(ws@[w] == wprev[w]);
                        let m = choose|m: int|
                            0 <= m < i && (#[trigger] wprev[w]).key@ == self.entries@[m].key_of()
                                && wprev[w].table@ == self.entries@[m].table@ && !entry_alive(
                                self.entries@[m],
                                self.ttl,
                                self.tti,
                                now,
                            );
                        assert(wb_matches(self.entries@, i + 1, self.ttl, self.tti, now, ws@[w]));
                    }
                    assert forall|m: int|
                        0 <= m < i + 1 && !entry_alive(
                            #[trigger] self.entries@[m],
                            self.ttl,
                            self.tti,
                            now,
                        ) implies written_back(ws@, self.entries@[m].key_of()) by {
                        if m < i {
                            let w = choose|w: int|
                                0 <= w < wprev.len() && (#[trigger] wprev[w]).key@
                                    == self.entries@[m].key_of();
                            assert(ws@[w].key@ == self.entries@[m].key_of());
                        } else {
                            assert(ws@[wlen].key@ == self.entries@[m].key_of());
                        }
                    }
                    assert forall|w1: int, w2: int|
                        0 <= w1 < w2 < ws@.len() implies (#[trigger] ws@[w1]).key@ != (
                    #[trigger] ws@[w2]).key@ by {
                        if w2 == wlen {
                            let m1 = choose|m: int|
                                0 <= m < i && (#[trigger] ws@[w1]).key@
                                    == self.entries@[m].key_of() && ws@[w1].table@
                                    == self.entries@[m].table@ && !entry_alive(
                                    self.entries@[m],
                                    self.ttl,
                                    self.tti,
                                    now,
                                );
                            assert(self.entries@[m1].key_of() != self.entries@[i as int].key_of());
                        }
                    }
                    assert forall|j: int, w: int|
                        0 <= j < kept@.len() && 0 <= w < ws@.len() implies (
                    #[trigger] kept@[j]).key_of() != (#[trigger] ws@[w]).key@ by {
                        if w == wlen {
                            let m = choose|m: int|
                                0 <= m < i && same_entry(kept@[j], #[trigger] self.entries@[m])
                                    && entry_alive(self.entries@[m], self.ttl, self.tti, now);
                            assert(kept@[j].key_of() == self.entries@[m].key_of());
                            assert(self.entries@[m].key_of() != self.entries@[i as int].key_of());
                        }
                    }
                }
            }
            i = i + 1;
        }
        let ghost orig = self.entries@;
        self.entries = kept;
        proof {
            assert forall|k: Seq<char>|
                (#[trigger] self.has_entry(k) == (old(self).has_entry(k) && fresh_at(
                    old(self).entry_at(k),
                    self.ttl,
                    self.tti,
                    now,
                ))) && (self.has_entry(k) ==> self.entry_at(k) == old(self).entry_at(k)) by {
                lemma_key_index(self.entries@, k);
                lemma_key_index(orig, k);
                if key_index(self.entries@, k) != -1 {
                    let j = key_index(self.entries@, k);
                    let m = choose|m: int|
                        0 <= m < n && same_entry(self.entries@[j], #[trigger] orig[m])
                            && entry_alive(orig[m], self.ttl, self.tti, now);
                    assert(key_index(orig, k) == m);
                }
                if key_index(orig, k) != -1 {
                    let m = key_index(orig, k);
                    if entry_alive(orig[m], self.ttl, self.tti, now) {
                        assert(kept_has(self.entries@, k));
                        let j = choose|j: int|
                            0 <= j < self.entries@.len() && (#[trigger] self.entries@[j]).key_of()
                                == k;
                        assert(key_index(self.entries@, k) != -1);
                    }
                }
            }
            assert forall|w: int|
                0 <= w < ws@.len() implies old(self).has_entry((#[trigger] ws@[w]).key@)
                && !fresh_at(
                old(self).entry_at(ws@[w].key@),
                self.ttl,
                self.tti,
                now,
            ) && ws@[w].table@ == old(self).entry_at(ws@[w].key@).value by {
                let m = choose|m: int|
                    0 <= m < n && (#[trigger] ws@[w]).key@ == orig[m].key_of() && ws@[w].table@
                        == orig[m].table@ && !entry_alive(orig[m], self.ttl, self.tti, now);
                lemma_key_index(orig, ws@[w].key@);
                assert(key_index(orig, ws@[w].key@) == m);
            }
            assert forall|k: Seq<char>|
                #[trigger] old(self).has_entry(k) && !fresh_at(
                    old(self).entry_at(k),
                    self.ttl,
                    self.tti,
                    now,
                ) implies written_back(ws@, k) by {
                lemma_key_index(orig, k);
            }
        }
        ws
    }
}

/// Whether two concrete entries carry the same key, table and timestamps.
spec fn same_entry(a: CacheEntry, b: CacheEntry) -> bool {
    a.key_of() == b.key_of() && entry_of(a) == entry_of(b)
}

/// Whether `e` mirrors an alive entry among the first `hi` entries.
spec fn kept_matches(s: Seq<CacheEntry>, hi: int, ttl: u64, tti: u64, now: u64, e: CacheEntry) -> bool {
    exists|m: int|
        0 <= m < hi && same_entry(e, #[trigger] s[m]) && entry_alive(s[m], ttl, tti, now)
}

/// Whether `w` carries the key and last value of an elapsed entry among the
/// first `hi` entries.
spec fn wb_matches(s: Seq<CacheEntry>, hi: int, ttl: u64, tti: u64, now: u64, w: WriteBack) -> bool {
    exists|m: int|
        0 <= m < hi && w.key@ == (#[trigger] s[m]).key_of() && w.table@ == s[m].table@
            && !entry_alive(s[m], ttl, tti, now)
}

/// Whether a concrete entry is past neither bound at `now`.
spec fn entry_alive(e: CacheEntry, ttl: u64, tti: u64, now: u64) -> bool {
    fresh_at(entry_of(e), ttl, tti, now)
}

/// Whether some kept entry is filed under `k`.
spec fn kept_has(s: Seq<CacheEntry>, k: Seq<char>) -> bool {
    exists|j: int| 0 <= j < s.len() && (#[trigger] s[j]).key_of() == k
}

} // verus!
