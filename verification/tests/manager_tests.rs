use cubby::config::Config;
use cubby::manager::DataframeManager;
use cubby::storage::MemStorage;
use cubby::table::Table;

fn key(s: &str) -> String {
    String::from(s)
}

fn config() -> Config {
    let mut c = Config::default();
    c.cache_ttl = 1000;
    c.cache_tti = 50;
    c
}

#[test]
fn first_access_loads_and_later_accesses_come_from_the_cache() {
    let cfg = config();
    let mut storage = MemStorage::new();
    let mut t = Table::new();
    t.insert_row(key("alice"));
    storage.store(&key("users.parquet"), t);

    let mut manager = DataframeManager::new(&cfg);
    let first = manager.get(&mut storage, &key("users.parquet"), 0);
    assert_eq!(first.len(), 1);
    assert_eq!(first.row(0), &key("alice"));

    // Change the store behind the cache's back: a fresh entry means the
    // next get must not reload, so the change stays invisible.
    let mut t2 = Table::new();
    t2.insert_row(key("mallory"));
    storage.store(&key("users.parquet"), t2);

    let second = manager.get(&mut storage, &key("users.parquet"), 40);
    assert_eq!(second.len(), 1);
    assert_eq!(second.row(0), &key("alice"));
}

#[test]
fn an_elapsed_entry_is_written_back_before_the_reload_observes_it() {
    let cfg = config();
    let mut storage = MemStorage::new();
    let mut t = Table::new();
    t.insert_row(key("alice"));
    storage.store(&key("users.parquet"), t);

    let mut manager = DataframeManager::new(&cfg);
    let first = manager.get(&mut storage, &key("users.parquet"), 0);
    assert_eq!(first.row(0), &key("alice"));

    // The entry idles past its bound; the write-back persists the last
    // value the cache knew, and the reload returns exactly that value.
    let after = manager.get(&mut storage, &key("users.parquet"), 100);
    assert_eq!(after.len(), 1);
    assert_eq!(after.row(0), &key("alice"));

    let on_disk = storage.load(&key("users.parquet"));
    assert_eq!(on_disk.len(), 1);
    assert_eq!(on_disk.row(0), &key("alice"));
}

#[test]
fn a_key_never_stored_is_materialized_empty_and_cached() {
    let cfg = config();
    let mut storage = MemStorage::new();
    let mut manager = DataframeManager::new(&cfg);
    let t = manager.get(&mut storage, &key("rooms.parquet"), 0);
    assert_eq!(t.len(), 0);
    let t = manager.get(&mut storage, &key("rooms.parquet"), 10);
    assert_eq!(t.len(), 0);
}

#[test]
fn keys_are_cached_independently() {
    let cfg = config();
    let mut storage = MemStorage::new();
    let mut a = Table::new();
    a.insert_row(key("alice"));
    storage.store(&key("a.parquet"), a);
    let mut b = Table::new();
    b.insert_row(key("bob"));
    storage.store(&key("b.parquet"), b);

    let mut manager = DataframeManager::new(&cfg);
    let ta = manager.get(&mut storage, &key("a.parquet"), 0);
    let tb = manager.get(&mut storage, &key("b.parquet"), 1);
    assert_eq!(ta.row(0), &key("alice"));
    assert_eq!(tb.row(0), &key("bob"));
}
