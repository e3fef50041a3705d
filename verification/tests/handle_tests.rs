use cubby::arbiter::LockArbiter;
use cubby::arbiter::ResourceLock;
use cubby::handle::StoreHandle;
use cubby::storage::MemStorage;
use cubby::table::Table;

fn key(s: &str) -> String {
    String::from(s)
}

fn grant_lock(arbiter: &mut LockArbiter, path: &str, ticket: u64) -> ResourceLock {
    arbiter.enqueue_request(&key(path), ticket);
    let mut grants = arbiter.issue_grants();
    assert_eq!(grants.len(), 1);
    grants.pop().unwrap().lock
}

#[test]
fn new_loads_the_table_at_the_locks_key() {
    let mut arbiter = LockArbiter::new();
    let mut storage = MemStorage::new();
    let mut seeded = Table::new();
    seeded.insert_row(key("seed"));
    storage.store(&key("users.parquet"), seeded);

    let lock = grant_lock(&mut arbiter, "users.parquet", 1);
    let handle = StoreHandle::new(lock, &mut storage);
    assert_eq!(handle.get_path(), &key("users.parquet"));
    assert_eq!(handle.table().len(), 1);
    assert_eq!(handle.table().row(0), &key("seed"));
}

#[test]
fn dispose_without_apply_persists_the_loaded_value() {
    let mut arbiter = LockArbiter::new();
    let mut storage = MemStorage::new();
    let mut seeded = Table::new();
    seeded.insert_row(key("seed"));
    storage.store(&key("users.parquet"), seeded);

    let lock = grant_lock(&mut arbiter, "users.parquet", 1);
    let handle = StoreHandle::new(lock, &mut storage);
    let released = handle.dispose(&mut storage);
    assert_eq!(released, key("users.parquet"));

    // The persisted value equals what was loaded: no implicit mutation.
    let after = storage.load(&key("users.parquet"));
    assert_eq!(after.len(), 1);
    assert_eq!(after.row(0), &key("seed"));
}

#[test]
fn apply_then_dispose_persists_the_transformed_value() {
    let mut arbiter = LockArbiter::new();
    let mut storage = MemStorage::new();

    let lock = grant_lock(&mut arbiter, "users.parquet", 1);
    let handle = StoreHandle::new(lock, &mut storage);
    let handle = handle.apply(|mut t: Table| {
        t.insert_row(String::from("alice"));
        t
    });
    assert_eq!(handle.table().len(), 1);
    handle.dispose(&mut storage);

    let after = storage.load(&key("users.parquet"));
    assert_eq!(after.len(), 1);
    assert_eq!(after.row(0), &key("alice"));
}

#[test]
fn applies_compose_in_order() {
    let mut arbiter = LockArbiter::new();
    let mut storage = MemStorage::new();
    let lock = grant_lock(&mut arbiter, "users.parquet", 1);
    let handle = StoreHandle::new(lock, &mut storage);
    let handle = handle
        .apply(|mut t: Table| {
            t.insert_row(String::from("first"));
            t
        })
        .apply(|mut t: Table| {
            t.insert_row(String::from("second"));
            t
        });
    handle.dispose(&mut storage);
    let after = storage.load(&key("users.parquet"));
    assert_eq!(after.len(), 2);
    assert_eq!(after.row(0), &key("first"));
    assert_eq!(after.row(1), &key("second"));
}

#[test]
fn into_parts_surrenders_table_and_lock_unchanged() {
    let mut arbiter = LockArbiter::new();
    let mut storage = MemStorage::new();
    let lock = grant_lock(&mut arbiter, "users.parquet", 1);
    let handle = StoreHandle::new(lock, &mut storage);
    let handle = handle.apply(|mut t: Table| {
        t.insert_row(String::from("carried"));
        t
    });
    let (table, lock) = handle.into_parts();
    assert_eq!(table.len(), 1);
    assert_eq!(table.row(0), &key("carried"));
    assert_eq!(lock.get_path(), &key("users.parquet"));
    // The runtime persists, then releases, in that order.
    storage.store(&key("users.parquet"), table);
    let released = lock.release();
    arbiter.note_release(&released);
}
