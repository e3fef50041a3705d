use cubby::cache::{GetOutcome, StoreCache};
use cubby::table::Table;

fn key(s: &str) -> String {
    String::from(s)
}

fn table_with(rows: &[&str]) -> Table {
    let mut t = Table::new();
    for r in rows {
        t.insert_row(String::from(*r));
    }
    t
}

#[test]
fn absent_key_misses_and_leaves_cache_alone() {
    let mut cache = StoreCache::new(100, 50);
    match cache.get(&key("users.parquet"), 0) {
        GetOutcome::Absent => {},
        _ => panic!("expected a miss on an empty cache"),
    }
}

#[test]
fn insert_then_get_hits_with_the_inserted_value() {
    let mut cache = StoreCache::new(100, 50);
    cache.insert(&key("users.parquet"), table_with(&["alice"]), 0);
    match cache.get(&key("users.parquet"), 10) {
        GetOutcome::Hit(t) => {
            assert_eq!(t.len(), 1);
            assert_eq!(t.row(0), &key("alice"));
        },
        _ => panic!("expected a hit within both bounds"),
    }
}

#[test]
fn repeated_gets_within_bounds_never_reload() {
    // One load fills the cache; every access before a bound elapses hits,
    // so the loader would be called exactly once for this residency.
    let mut cache = StoreCache::new(1000, 50);
    let mut loads = 0;
    for now in [0u64, 40, 80, 120, 160] {
        let outcome = cache.get(&key("users.parquet"), now);
        match outcome {
            GetOutcome::Hit(t) => {
                assert_eq!(t.len(), 0);
            },
            GetOutcome::Absent => {
                loads += 1;
                cache.insert(&key("users.parquet"), Table::new(), now);
            },
            GetOutcome::Expired(_) => panic!("accesses are 40ms apart, under both bounds"),
        }
    }
    assert_eq!(loads, 1);
}

#[test]
fn time_to_idle_elapses_without_access() {
    let mut cache = StoreCache::new(1000, 50);
    cache.insert(&key("users.parquet"), table_with(&["bob"]), 0);
    // 60ms idle with a 50ms time-to-idle: the entry expired; its last
    // value comes out for write-back, exactly once.
    match cache.get(&key("users.parquet"), 60) {
        GetOutcome::Expired(wb) => {
            assert_eq!(wb.key, key("users.parquet"));
            assert_eq!(wb.table.len(), 1);
            assert_eq!(wb.table.row(0), &key("bob"));
        },
        _ => panic!("expected the idle bound to have elapsed"),
    }
    match cache.get(&key("users.parquet"), 61) {
        GetOutcome::Absent => {},
        _ => panic!("an evicted entry is gone; nothing is handed out twice"),
    }
}

#[test]
fn time_to_live_elapses_despite_steady_access() {
    let mut cache = StoreCache::new(100, 50);
    cache.insert(&key("users.parquet"), Table::new(), 0);
    for now in [30u64, 60, 90] {
        match cache.get(&key("users.parquet"), now) {
            GetOutcome::Hit(_) => {},
            _ => panic!("still within time-to-live at {now}"),
        }
    }
    // Accesses kept it from idling, but 110ms after insertion the
    // time-to-live bound has elapsed regardless.
    match cache.get(&key("users.parquet"), 110) {
        GetOutcome::Expired(_) => {},
        _ => panic!("expected the time-to-live bound to have elapsed"),
    }
}

#[test]
fn sweep_evicts_elapsed_entries_exactly_once() {
    let mut cache = StoreCache::new(1000, 50);
    cache.insert(&key("idle.parquet"), table_with(&["stale"]), 0);
    cache.insert(&key("busy.parquet"), table_with(&["live"]), 0);

    // A get for a different key is in flight; it does not disturb the
    // idle entry's eviction.
    match cache.get(&key("busy.parquet"), 40) {
        GetOutcome::Hit(_) => {},
        _ => panic!("busy entry is fresh"),
    }

    let writebacks = cache.evict_expired(60);
    assert_eq!(writebacks.len(), 1);
    assert_eq!(writebacks[0].key, key("idle.parquet"));
    assert_eq!(writebacks[0].table.row(0), &key("stale"));

    // A second sweep finds nothing left to evict: the value was handed
    // out for persistence exactly once.
    let writebacks = cache.evict_expired(61);
    assert_eq!(writebacks.len(), 0);

    // The fresh entry survived untouched.
    match cache.get(&key("busy.parquet"), 62) {
        GetOutcome::Hit(t) => assert_eq!(t.row(0), &key("live")),
        _ => panic!("busy entry should have survived the sweep"),
    }
}

#[test]
fn hit_restarts_the_idle_clock() {
    let mut cache = StoreCache::new(1000, 50);
    cache.insert(&key("users.parquet"), Table::new(), 0);
    for now in [40u64, 80, 120] {
        match cache.get(&key("users.parquet"), now) {
            GetOutcome::Hit(_) => {},
            _ => panic!("each access came {now} with under 50ms idle"),
        }
    }
}
