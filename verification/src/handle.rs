//! The managed store handle: a lock-scoped load–mutate–persist session.
//!
//! A handle couples a [`ResourceLock`] with the table loaded at that lock's
//! key. The only mutation path is [`StoreHandle::apply`], which replaces
//! the held table with the result of a pure transformation. Disposal
//! persists the current table under the still-held lock and only then
//! releases it, so no concurrent writer can race the persistence; a handle
//! disposed without any apply persists the value it loaded, which is safe
//! because persisting an unchanged value changes nothing.

use vstd::prelude::*;

use crate::arbiter::ResourceLock;
use crate::storage::{load_result, store_result, MemStorage};
use crate::table::Table;

verus! {

/// A lock-scoped session over one store: the lock, and the table value as
/// mutated so far.
pub struct StoreHandle {
    lock: ResourceLock,
    table: Table,
}

impl StoreHandle {
    /// The resource key this session holds exclusively.
    pub closed spec fn key(self) -> Seq<char> {
        self.lock@
    }

    /// The table as mutated so far.
    pub closed spec fn table_view(self) -> Seq<Seq<char>> {
        self.table@
    }

    /// The held table as a value, for speaking about transformations.
    pub closed spec fn table_value(self) -> Table {
        self.table
    }

    /// Opens a session: takes ownership of a granted lock and eagerly loads
    /// the table at that lock's key from the storage collaborator.
    pub fn new(lock: ResourceLock, storage: &mut MemStorage) -> (h: StoreHandle)
        requires
            old(storage).wf(),
        ensures
            final(storage).wf(),
            h.key() == lock@,
            h.table_view() == load_result(old(storage).stored(lock@)),
            final(storage).stored(lock@) == Some(h.table_view()),
            forall|k: Seq<char>| k != lock@ ==> final(storage).stored(k) == old(storage).stored(k),
    {
        let path = lock.get_path_owned();
        let table = storage.load(&path);
        StoreHandle { lock, table }
    }

    /// The key this handle's lock represents.
    pub fn get_path(&self) -> (r: &String)
        ensures
            r@ == self.key(),
    {
        self.lock.get_path()
    }

    /// Read-only access to the table as mutated so far.
    pub fn table(&self) -> (t: &Table)
        ensures
            t@ == self.table_view(),
    {
        &self.table
    }

    /// Replaces the held table with the result of applying the pure
    /// transformation `f` to it. This is the only mutation path: the table
    /// is never handed out by mutable reference, so the value that later
    /// crosses to persistence is exactly the one built here.
    pub fn apply<F: FnOnce(Table) -> Table>(self, f: F) -> (h: StoreHandle)
        requires
            call_requires(f, (self.table_value(),)),
        ensures
            h.key() == self.key(),
            call_ensures(f, (self.table_value(),), h.table_value()),
            self.table_value()@ == self.table_view(),
            h.table_value()@ == h.table_view(),
    {
        let StoreHandle { lock, table } = self;
        let table = f(table);
        StoreHandle { lock, table }
    }

    /// Disposes the session: the current table is persisted under the
    /// still-held lock, and only then is the lock given up. The returned
    /// key is the lock's single release notification, owed to the arbiter.
    /// A session disposed with zero applies persists exactly the value it
    /// loaded.
    pub fn dispose(self, storage: &mut MemStorage) -> (released: String)
        requires
            old(storage).wf(),
        ensures
            final(storage).wf(),
            released@ == self.key(),
            final(storage).stored(self.key()) == store_result(
                old(storage).stored(self.key()),
                self.table_view(),
            ),
            forall|k: Seq<char>|
                k != self.key() ==> final(storage).stored(k) == old(storage).stored(k),
    {
        let StoreHandle { lock, table } = self;
        let path = lock.get_path_owned();
        storage.store(&path, table);
        lock.release()
    }

    /// Splits the session for a runtime whose persistence runs on another
    /// task: the table to hand over, and the lock, which must be held until
    /// the store completes and only then released.
    pub fn into_parts(self) -> (r: (Table, ResourceLock))
        ensures
            r.0@ == self.table_view(),
            r.1@ == self.key(),
    {
        let StoreHandle { lock, table } = self;
        (table, lock)
    }
}

/// Disposing a session that never saw an apply persists a value equal to
/// the one its construction loaded: with no change made, persistence is
/// idempotent, and a store that already held the key is left
/// observationally unchanged.
pub proof fn lemma_dispose_without_apply(prev: Option<Seq<Seq<char>>>)
    ensures
        store_result(Some(load_result(prev)), load_result(prev)) == Some(load_result(prev)),
        prev is Some ==> store_result(Some(load_result(prev)), load_result(prev)) == prev,
{
}

} // verus!
