use cubby::storage::{setup_dataframes, MemStorage};
use cubby::table::Table;

fn key(s: &str) -> String {
    String::from(s)
}

#[test]
fn load_of_unknown_key_materializes_the_empty_template() {
    let mut storage = MemStorage::new();
    let t = storage.load(&key("users.parquet"));
    assert_eq!(t.len(), 0);
    // The template is kept: a second load sees the same store, not an error.
    let t2 = storage.load(&key("users.parquet"));
    assert_eq!(t2.len(), 0);
}

#[test]
fn store_then_load_round_trips_the_value() {
    let mut storage = MemStorage::new();
    let mut t = Table::new();
    t.insert_row(key("alice"));
    t.insert_row(key("bob"));
    storage.store(&key("users.parquet"), t);

    let loaded = storage.load(&key("users.parquet"));
    assert_eq!(loaded.len(), 2);
    assert_eq!(loaded.row(0), &key("alice"));
    assert_eq!(loaded.row(1), &key("bob"));
}

#[test]
fn store_replaces_atomically() {
    let mut storage = MemStorage::new();
    let mut t1 = Table::new();
    t1.insert_row(key("old"));
    storage.store(&key("users.parquet"), t1);

    let mut t2 = Table::new();
    t2.insert_row(key("new"));
    storage.store(&key("users.parquet"), t2);

    let loaded = storage.load(&key("users.parquet"));
    assert_eq!(loaded.len(), 1);
    assert_eq!(loaded.row(0), &key("new"));
}

#[test]
fn stores_under_different_keys_do_not_alias() {
    let mut storage = MemStorage::new();
    let mut t = Table::new();
    t.insert_row(key("alice"));
    storage.store(&key("users.parquet"), t);
    let other = storage.load(&key("rooms.parquet"));
    assert_eq!(other.len(), 0);
    let users = storage.load(&key("users.parquet"));
    assert_eq!(users.len(), 1);
}

#[test]
fn setup_dataframes_creates_the_users_store() {
    let mut storage = setup_dataframes();
    let users = storage.load(&key("users.parquet"));
    assert_eq!(users.len(), 0);
}
