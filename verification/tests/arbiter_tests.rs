use cubby::arbiter::{Grant, LockArbiter, LockRequest};

fn key(s: &str) -> String {
    String::from(s)
}

#[test]
fn grants_follow_request_order_for_one_key() {
    let mut arbiter = LockArbiter::new();
    arbiter.enqueue_request(&key("users.parquet"), 1);
    arbiter.enqueue_request(&key("users.parquet"), 2);
    arbiter.enqueue_request(&key("users.parquet"), 3);

    let grants = arbiter.issue_grants();
    assert_eq!(grants.len(), 1);
    let Grant { ticket, lock } = grants.into_iter().next().unwrap();
    assert_eq!(ticket, 1);
    assert_eq!(lock.get_path(), &key("users.parquet"));

    // The key is locked: nobody else is served until the lock is released.
    let grants = arbiter.issue_grants();
    assert_eq!(grants.len(), 0);

    let released = lock.release();
    arbiter.note_release(&released);
    let grants = arbiter.issue_grants();
    assert_eq!(grants.len(), 1);
    assert_eq!(grants[0].ticket, 2);
}

#[test]
fn full_fifo_drain_of_three_requesters() {
    let mut arbiter = LockArbiter::new();
    for ticket in [10u64, 20, 30] {
        arbiter.enqueue_request(&key("rooms.parquet"), ticket);
    }
    let mut served: Vec<u64> = Vec::new();
    loop {
        let mut grants = arbiter.issue_grants();
        if grants.is_empty() {
            break;
        }
        assert_eq!(grants.len(), 1);
        let grant = grants.pop().unwrap();
        served.push(grant.ticket);
        let released = grant.lock.release();
        arbiter.note_release(&released);
    }
    assert_eq!(served, vec![10, 20, 30]);
}

#[test]
fn independent_keys_are_served_independently() {
    let mut arbiter = LockArbiter::new();
    arbiter.enqueue_request(&key("a.parquet"), 1);
    arbiter.enqueue_request(&key("b.parquet"), 2);
    let grants = arbiter.issue_grants();
    assert_eq!(grants.len(), 2);
    let mut keys: Vec<String> = grants.iter().map(|g| g.lock.get_path_owned()).collect();
    keys.sort();
    assert_eq!(keys, vec![key("a.parquet"), key("b.parquet")]);
}

#[test]
fn release_for_unknown_key_is_recorded_idle() {
    let mut arbiter = LockArbiter::new();
    arbiter.note_release(&key("never-seen.parquet"));
    arbiter.enqueue_request(&key("never-seen.parquet"), 7);
    let grants = arbiter.issue_grants();
    assert_eq!(grants.len(), 1);
    assert_eq!(grants[0].ticket, 7);
}

#[test]
fn run_iteration_drains_releases_then_requests_then_grants() {
    let mut arbiter = LockArbiter::new();
    arbiter.enqueue_request(&key("users.parquet"), 1);
    let mut grants = arbiter.issue_grants();
    let lock = grants.pop().unwrap().lock;

    // One iteration carrying the release and two new requests: the release
    // is drained first, so the head requester is served in the same turn.
    let releases = vec![lock.release()];
    let requests = vec![
        LockRequest { path: key("users.parquet"), ticket: 2 },
        LockRequest { path: key("users.parquet"), ticket: 3 },
    ];
    let grants = arbiter.run_iteration(&releases, &requests);
    assert_eq!(grants.len(), 1);
    assert_eq!(grants[0].ticket, 2);

    // The next iteration with no release grants nothing: ticket 2 holds it.
    let grants = arbiter.run_iteration(&Vec::new(), &Vec::new());
    assert_eq!(grants.len(), 0);
}

#[test]
fn lock_paths_expose_the_granted_key() {
    let mut arbiter = LockArbiter::new();
    arbiter.enqueue_request(&key("media.parquet"), 5);
    let mut grants = arbiter.issue_grants();
    let lock = grants.pop().unwrap().lock;
    assert_eq!(lock.get_path(), &key("media.parquet"));
    assert_eq!(lock.get_path_owned(), key("media.parquet"));
    assert_eq!(lock.release(), key("media.parquet"));
}
