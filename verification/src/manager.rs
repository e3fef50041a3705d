//! The dataframe manager: the store cache composed with the storage
//! collaborator.
//!
//! [`DataframeManager::get`] is the read path of the core: return the
//! cached table for a key, loading it from storage on first access. An
//! entry whose time has elapsed is evicted on the way: its last-known
//! value is persisted first and the reload then observes it, so a reader
//! never sees disk state older than what the cache knew. This is the
//! sequential composition against the in-memory store; a runtime that must
//! not block its read path hands the write-backs of [`StoreCache`] to an
//! out-of-band step instead, exactly as the eviction sweep does.

use vstd::prelude::*;

use crate::cache::{fresh_at, inserted_entry, GetOutcome, StoreCache};
use crate::config::Config;
use crate::storage::{load_result, MemStorage};
use crate::table::Table;

verus! {

/// Manages the in-use tables: a store cache bound to configured limits.
pub struct DataframeManager {
    cache: StoreCache,
}

impl DataframeManager {
    /// Internal consistency, inherited from the cache.
    pub closed spec fn wf(self) -> bool {
        self.cache.wf()
    }

    /// The configured time-to-live, in milliseconds.
    pub closed spec fn spec_ttl(self) -> u64 {
        self.cache.spec_ttl()
    }

    /// The configured time-to-idle, in milliseconds.
    pub closed spec fn spec_tti(self) -> u64 {
        self.cache.spec_tti()
    }

    /// Whether the cache holds an entry for `k`.
    pub closed spec fn has_entry(self, k: Seq<char>) -> bool {
        self.cache.has_entry(k)
    }

    /// The entry for `k`; meaningful only when `has_entry(k)`.
    pub closed spec fn entry_at(self, k: Seq<char>) -> crate::cache::EntryView {
        self.cache.entry_at(k)
    }

    /// No cached timestamp lies in the future of `now`.
    pub closed spec fn stamps_le(self, now: u64) -> bool {
        self.cache.stamps_le(now)
    }

    /// A manager over an empty cache, bounded as the configuration says.
    pub fn new(config: &Config) -> (m: DataframeManager)
        requires
            config.valid(),
        ensures
            m.wf(),
            m.spec_ttl() == config.cache_ttl,
            m.spec_tti() == config.cache_tti,
            forall|k: Seq<char>| !m.has_entry(k),
            forall|now: u64| m.stamps_le(now),
    {
        DataframeManager { cache: StoreCache::new(config.cache_ttl, config.cache_tti) }
    }

    /// Returns the table for `key` at time `now`, loading it from the
    /// storage collaborator on first access. A key whose cached entry has
    /// elapsed first has that last-known value persisted, and the reload
    /// observes it: whenever the cache held an entry, elapsed or not, the
    /// caller gets that entry's value back, and a key the cache did not
    /// hold comes from storage, loaded once and cached.
    pub fn get(&mut self, storage: &mut MemStorage, key: &String, now: u64) -> (t: Table)
        requires
            old(self).wf(),
            old(self).stamps_le(now),
            old(storage).wf(),
        ensures
            final(self).wf(),
            forall|t2: u64| now <= t2 ==> final(self).stamps_le(t2),
            final(self).spec_ttl() == old(self).spec_ttl(),
            final(self).spec_tti() == old(self).spec_tti(),
            final(storage).wf(),
            old(self).has_entry(key@) ==> t@ == old(self).entry_at(key@).value,
            !old(self).has_entry(key@) ==> t@ == load_result(old(storage).stored(key@)),
            old(self).has_entry(key@) && fresh_at(
                old(self).entry_at(key@),
                old(self).spec_ttl(),
                old(self).spec_tti(),
                now,
            ) ==> *final(storage) == *old(storage),
            !(old(self).has_entry(key@) && fresh_at(
                old(self).entry_at(key@),
                old(self).spec_ttl(),
                old(self).spec_tti(),
                now,
            )) ==> final(storage).stored(key@) == Some(t@),
            forall|k: Seq<char>| k != key@ ==> final(storage).stored(k) == old(storage).stored(k),
            final(self).has_entry(key@),
            final(self).entry_at(key@).value == t@,
            final(self).entry_at(key@).last_access == now,
            old(self).has_entry(key@) && fresh_at(
                old(self).entry_at(key@),
                old(self).spec_ttl(),
                old(self).spec_tti(),
                now,
            ) ==> final(self).entry_at(key@).inserted_at == old(self).entry_at(key@).inserted_at,
            !(old(self).has_entry(key@) && fresh_at(
                old(self).entry_at(key@),
                old(self).spec_ttl(),
                old(self).spec_tti(),
                now,
            )) ==> final(self).entry_at(key@) == inserted_entry(t@, now),
            forall|k: Seq<char>|
                k != key@ ==> #[trigger] final(self).has_entry(k) == old(self).has_entry(k) && (old(
                    self,
                ).has_entry(k) ==> final(self).entry_at(k) == old(self).entry_at(k)),
    {
        match self.cache.get(key, now) {
            GetOutcome::Hit(t) => t,
            GetOutcome::Absent => {
                let t = storage.load(key);
                self.cache.insert(key, t.duplicate(), now);
                proof {
                    assert(self.cache.entry_at(key@) == inserted_entry(t@, now));
                }
                t
            },
            GetOutcome::Expired(wb) => {
                // The evicted value is the freshest the core ever knew for
                // the key: persist it before anything reloads the store.
                storage.store(&wb.key, wb.table);
                let t = storage.load(key);
                self.cache.insert(key, t.duplicate(), now);
                proof {
                    assert(self.cache.entry_at(key@) == inserted_entry(t@, now));
                }
                t
            },
        }
    }
}

} // verus!
