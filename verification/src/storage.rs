//! The storage collaborator's contract, and an in-memory store meeting it.
//!
//! The coordination core treats "read table from key" and "write table to
//! key" as atomic black-box operations. Their behaviour is pinned down by
//! [`load_result`] and [`store_result`]: a load never fails and materializes
//! the empty template table for a key that was never stored, and a store
//! atomically replaces whatever the key held. [`MemStorage`] is a store
//! with exactly that behaviour, used directly and standing in for the
//! file-backed store a process wires in at its edge.

use vstd::prelude::*;

use crate::keyed::{
    distinct_keys, key_index, lemma_key_index, lemma_key_index_push, lemma_key_index_update, Keyed,
};
use crate::table::Table;

verus! {

/// What a load returns, given what the store held for the key: the stored
/// table, or the empty template for a key never stored. A load never
/// reports "not found".
pub open spec fn load_result(prev: Option<Seq<Seq<char>>>) -> Seq<Seq<char>> {
    match prev {
        Some(v) => v,
        None => Seq::empty(),
    }
}

/// What the store holds for a key after `v` was stored under it: exactly
/// `v`, whatever was there before.
pub open spec fn store_result(prev: Option<Seq<Seq<char>>>, v: Seq<Seq<char>>) -> Option<
    Seq<Seq<char>>,
> {
    Some(v)
}

/// Round trip: a table value stored under a key is observationally equal to
/// what a load of that key then returns.
pub proof fn lemma_store_then_load(prev: Option<Seq<Seq<char>>>, v: Seq<Seq<char>>)
    ensures
        load_result(store_result(prev, v)) == v,
{
}

/// One key's stored table.
struct StoredEntry {
    key: String,
    table: Table,
}

impl Keyed for StoredEntry {
    closed spec fn key_of(&self) -> Seq<char> {
        self.key@
    }
}

/// An in-memory store: one table per key, loads materialize the empty
/// template, stores replace atomically.
pub struct MemStorage {
    entries: Vec<StoredEntry>,
}

impl MemStorage {
    /// Internal consistency: one entry per key.
    pub closed spec fn wf(self) -> bool {
        distinct_keys(self.entries@)
    }

    /// The table stored under `k`, if any was ever stored or loaded.
    pub closed spec fn stored(self, k: Seq<char>) -> Option<Seq<Seq<char>>> {
        let i = key_index(self.entries@, k);
        if i == -1 {
            None
        } else {
            Some(self.entries@[i].table@)
        }
    }

    /// An empty store.
    pub fn new() -> (s: MemStorage)
        ensures
            s.wf(),
            forall|k: Seq<char>| s.stored(k) is None,
    {
        let s = MemStorage { entries: Vec::new() };
        proof {
            assert forall|k: Seq<char>| s.stored(k) is None by {
                assert(key_index(s.entries@, k) == -1);
            }
        }
        s
    }

    /// The index of the entry for `key`, if the store has one.
    fn find_entry(&self, key: &String) -> (r: Option<usize>)
        ensures
            match r {
                Some(i) => i < self.entries@.len() && i as int == key_index(self.entries@, key@),
                None => key_index(self.entries@, key@) == -1,
            },
    {
        let n = self.entries.len();
        let mut i: usize = 0;
        while i < n
            invariant
                n == self.entries@.len(),
                i <= n,
                forall|j: int| 0 <= j < i ==> self.entries@[j].key_of() != key@,
            decreases n - i,
        {
            if self.entries[i].key == *key {
                proof {
                    lemma_key_index(self.entries@, key@);
                }
                return Some(i);
            }
            i = i + 1;
        }
        proof {
            lemma_key_index(self.entries@, key@);
        }
        None
    }

    /// Loads the table under `key`. A key never stored is materialized as
    /// the empty template table and kept, so a load never fails and never
    /// reports "not found".
    pub fn load(&mut self, key: &String) -> (t: Table)
        requires
            old(self).wf(),
        ensures
            final(self).wf(),
            t@ == load_result(old(self).stored(key@)),
            final(self).stored(key@) == Some(t@),
            forall|k: Seq<char>| k != key@ ==> final(self).stored(k) == old(self).stored(k),
    {
        match self.find_entry(key) {
            Some(i) => {
                proof {
                    lemma_key_index(self.entries@, key@);
                }
                self.entries[i].table.duplicate()
            },
            None => {
                let ghost prev = self.entries@;
                let t = Table::new();
                let entry = StoredEntry { key: key.clone(), table: t.duplicate() };
                proof {
                    lemma_key_index_push(prev, entry);
                    lemma_key_index(prev, key@);
                }
                self.entries.push(entry);
                proof {
                    assert forall|k: Seq<char>| k != key@ implies self.stored(k) == old(
                        self,
                    ).stored(k) by {
                        lemma_key_index(prev, k);
                    }
                }
                t
            },
        }
    }

    /// Stores `table` under `key`, atomically replacing what was there.
    pub fn store(&mut self, key: &String, table: Table)
        requires
            old(self).wf(),
        ensures
            final(self).wf(),
            final(self).stored(key@) == store_result(old(self).stored(key@), table@),
            forall|k: Seq<char>| k != key@ ==> final(self).stored(k) == old(self).stored(k),
    {
        match self.find_entry(key) {
            Some(i) => {
                let ghost prev = self.entries@;
                self.entries[i].table = table;
                proof {
                    assert(self.entries@ =~= prev.update(i as int, self.entries@[i as int]));
                    lemma_key_index_update(prev, i as int, self.entries@[i as int]);
                    lemma_key_index(prev, key@);
                    assert forall|k: Seq<char>| k != key@ implies self.stored(k) == old(
                        self,
                    ).stored(k) by {
                        lemma_key_index(prev, k);
                    }
                }
            },
            None => {
                let ghost prev = self.entries@;
                let entry = StoredEntry { key: key.clone(), table };
                proof {
                    lemma_key_index_push(prev, entry);
                    lemma_key_index(prev, key@);
                }
                self.entries.push(entry);
                proof {
                    assert forall|k: Seq<char>| k != key@ implies self.stored(k) == old(
                        self,
                    ).stored(k) by {
                        lemma_key_index(prev, k);
                    }
                }
            },
        }
    }
}

/// Creates the stores that must exist when the process first starts: the
/// users table, materialized as the empty template.
pub fn setup_dataframes() -> (s: MemStorage)
    ensures
        s.wf(),
        s.stored("users.parquet"@) == Some(Seq::<Seq<char>>::empty()),
        forall|k: Seq<char>| k != "users.parquet"@ ==> s.stored(k) is None,
{
    let mut s = MemStorage::new();
    let key = String::from_str("users.parquet");
    let _ = s.load(&key);
    s
}

} // verus!
