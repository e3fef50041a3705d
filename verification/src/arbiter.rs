//! The lock arbiter: per-key exclusive locks granted in request order.
//!
//! One arbiter owns all lock state for a process. Requesters and lock holders
//! talk to it through messages; the surrounding runtime drains its channels
//! into batches and drives the state machine kept here. Each resource key has
//! a locked flag and a FIFO queue of waiting requesters; a lock is granted by
//! popping the head of a queue whose key is unlocked, and a key becomes
//! unlocked again only when the granted [`ResourceLock`] is released.
//!
//! The spec-level model is per key: [`LockArbiter::key_view`] projects the
//! state of one key as a [`KeyView`], and every transition is specified as a
//! pure function on that view ([`after_request`], [`after_release`],
//! [`after_grant`], [`after_batch`]).

use vstd::prelude::*;

use crate::keyed::{
    distinct_keys, key_index, lemma_key_index, lemma_key_index_push, lemma_key_index_same_keys,
    lemma_key_index_update, Keyed,
};

verus! {

/// Spec-level snapshot of one resource key inside the arbiter: whether a
/// lock is outstanding, and the tickets of the waiting requesters in
/// arrival order.
pub struct KeyView {
    /// Whether a granted lock for the key is still outstanding.
    pub locked: bool,
    /// Tickets of the requesters waiting for the key, oldest first.
    pub queue: Seq<u64>,
}

/// The state of a key the arbiter has never heard of: unlocked, no queue.
pub open spec fn idle_key() -> KeyView {
    KeyView { locked: false, queue: Seq::empty() }
}

/// A new request joins the back of the key's queue.
pub open spec fn after_request(s: KeyView, ticket: u64) -> KeyView {
    KeyView { locked: s.locked, queue: s.queue.push(ticket) }
}

/// A release notification marks the key unlocked; the queue is untouched.
pub open spec fn after_release(s: KeyView) -> KeyView {
    KeyView { locked: false, queue: s.queue }
}

/// A lock can be granted when the key is unlocked and someone is waiting.
pub open spec fn can_grant(s: KeyView) -> bool {
    !s.locked && s.queue.len() > 0
}

/// The requester a grant goes to: the head of the queue.
pub open spec fn grant_ticket(s: KeyView) -> u64 {
    s.queue.first()
}

/// Granting locks the key and serves the head of the queue.
pub open spec fn after_grant(s: KeyView) -> KeyView {
    KeyView { locked: true, queue: s.queue.drop_first() }
}

/// One key's state after a batch of `nrel` release notifications and the
/// queued tickets `ts` have been drained, before any grant is issued.
pub open spec fn drained_view(s: KeyView, nrel: nat, ts: Seq<u64>) -> KeyView {
    KeyView { locked: s.locked && nrel == 0, queue: s.queue + ts }
}

/// One key's state after a full arbiter iteration: drain releases, drain
/// requests, then grant at most one lock.
pub open spec fn after_batch(s: KeyView, nrel: nat, ts: Seq<u64>) -> KeyView {
    let d = drained_view(s, nrel, ts);
    if can_grant(d) {
        after_grant(d)
    } else {
        d
    }
}

/// An exclusive lock on one resource key.
///
/// Only the arbiter creates these, one per grant. The lock cannot be
/// duplicated, and the only way to give it up is [`ResourceLock::release`],
/// which consumes it and surrenders the key exactly once; handing that key
/// back to [`LockArbiter::note_release`] is what makes the key grantable
/// again.
pub struct ResourceLock {
    path: String,
}

impl View for ResourceLock {
    type V = Seq<char>;

    closed spec fn view(&self) -> Seq<char> {
        self.path@
    }
}

impl ResourceLock {
    /// The resource key this lock holds exclusively.
    pub fn get_path(&self) -> (r: &String)
        ensures
            r@ == self@,
    {
        &self.path
    }

    /// An owned copy of the resource key this lock holds.
    pub fn get_path_owned(&self) -> (r: String)
        ensures
            r@ == self@,
    {
        self.path.clone()
    }

    /// Gives the lock up, yielding the single release notification owed to
    /// the arbiter. Consuming `self` is the only way to release: the
    /// returned key must be delivered to [`LockArbiter::note_release`] (in a
    /// running system, sent on the release channel) or every later
    /// requester of the key waits forever.
    pub fn release(self) -> (r: String)
        ensures
            r@ == self@,
    {
        self.path
    }
}

/// One key's entry in the arbiter: its locked flag and FIFO queue.
struct KeyEntry {
    key: String,
    locked: bool,
    pending: Vec<u64>,
}

impl Keyed for KeyEntry {
    closed spec fn key_of(&self) -> Seq<char> {
        self.key@
    }
}

/// A granted lock on its way back to the requester identified by `ticket`.
pub struct Grant {
    /// The ticket of the requester being served.
    pub ticket: u64,
    /// The lock itself.
    pub lock: ResourceLock,
}

/// A lock request as it arrives at the arbiter: which key, and the ticket
/// of the requester to hand the grant back to.
pub struct LockRequest {
    /// The resource key to lock.
    pub path: String,
    /// The requester's ticket.
    pub ticket: u64,
}

/// The arbiter's whole state: per-key locked flags and FIFO queues.
pub struct LockArbiter {
    entries: Vec<KeyEntry>,
}

impl LockArbiter {
    /// Internal consistency: one entry per key.
    pub closed spec fn wf(self) -> bool {
        distinct_keys(self.entries@)
    }

    /// The state of key `k`: a key without history is idle.
    pub closed spec fn key_view(self, k: Seq<char>) -> KeyView {
        let i = key_index(self.entries@, k);
        if i == -1 {
            idle_key()
        } else {
            KeyView { locked: self.entries@[i].locked, queue: self.entries@[i].pending@ }
        }
    }

    /// A fresh arbiter: every key idle.
    pub fn new() -> (a: LockArbiter)
        ensures
            a.wf(),
            forall|k: Seq<char>| a.key_view(k) == idle_key(),
    {
        let a = LockArbiter { entries: Vec::new() };
        proof {
            assert forall|k: Seq<char>| a.key_view(k) == idle_key() by {
                assert(key_index(a.entries@, k) == -1);
            }
        }
        a
    }

    /// The index of the entry for `key`, if the arbiter has one.
    fn find_entry(&self, key: &String) -> (r: Option<usize>)
        ensures
            match r {
                Some(i) => i < self.entries@.len() && i as int == key_index(self.entries@, key@),
                None => key_index(self.entries@, key@) == -1,
            },
    {
        let n = self.entries.len();
        let mut i: usize = 0;
        while i < n
            invariant
                n == self.entries@.len(),
                i <= n,
                forall|j: int| 0 <= j < i ==> self.entries@[j].key_of() != key@,
            decreases n - i,
        {
            if self.entries[i].key == *key {
                proof {
                    lemma_key_index(self.entries@, key@);
                }
                return Some(i);
            }
            i = i + 1;
        }
        proof {
            lemma_key_index(self.entries@, key@);
        }
        None
    }

    /// Records that the lock on `key` has been released: the key is marked
    /// unlocked and its queue is kept as it was. A release for an unknown
    /// key simply records the key as idle.
    pub fn note_release(&mut self, key: &String)
        requires
            old(self).wf(),
        ensures
            final(self).wf(),
            final(self).key_view(key@) == after_release(old(self).key_view(key@)),
            forall|k: Seq<char>| k != key@ ==> final(self).key_view(k) == old(self).key_view(k),
    {
        match self.find_entry(key) {
            Some(i) => {
                let ghost prev = self.entries@;
                self.entries[i].locked = false;
                proof {
                    assert(self.entries@ =~= prev.update(i as int, self.entries@[i as int]));
                    lemma_key_index_update(prev, i as int, self.entries@[i as int]);
                    lemma_key_index(prev, key@);
                    assert forall|k: Seq<char>| k != key@ implies self.key_view(k) == old(self).key_view(k) by {
                        lemma_key_index(prev, k);
                    }
                }
            },
            None => {
                let ghost prev = self.entries@;
                let entry = KeyEntry { key: key.clone(), locked: false, pending: Vec::new() };
                proof {
                    lemma_key_index_push(prev, entry);
                    lemma_key_index(prev, key@);
                }
                self.entries.push(entry);
                proof {
                    assert(self.key_view(key@) =~= after_release(old(self).key_view(key@)));
                    assert forall|k: Seq<char>| k != key@ implies self.key_view(k) == old(self).key_view(k) by {
                        lemma_key_index(prev, k);
                    }
                }
            },
        }
    }

    /// Appends the requester `ticket` to the queue for `key`, creating the
    /// queue when the key has no history. No grant happens here: grants are
    /// issued by [`LockArbiter::issue_grants`].
    pub fn enqueue_request(&mut self, key: &String, ticket: u64)
        requires
            old(self).wf(),
        ensures
            final(self).wf(),
            final(self).key_view(key@) == after_request(old(self).key_view(key@), ticket),
            forall|k: Seq<char>| k != key@ ==> final(self).key_view(k) == old(self).key_view(k),
    {
        match self.find_entry(key) {
            Some(i) => {
                let ghost prev = self.entries@;
                self.entries[i].pending.push(ticket);
                proof {
                    assert(self.entries@ =~= prev.update(i as int, self.entries@[i as int]));
                    lemma_key_index_update(prev, i as int, self.entries@[i as int]);
                    lemma_key_index(prev, key@);
                    assert forall|k: Seq<char>| k != key@ implies self.key_view(k) == old(self).key_view(k) by {
                        lemma_key_index(prev, k);
                    }
                }
            },
            None => {
                let ghost prev = self.entries@;
                let mut pending: Vec<u64> = Vec::new();
                pending.push(ticket);
                let entry = KeyEntry { key: key.clone(), locked: false, pending };
                proof {
                    lemma_key_index_push(prev, entry);
                    lemma_key_index(prev, key@);
                }
                self.entries.push(entry);
                proof {
                    assert(self.key_view(key@).queue =~= after_request(
                        old(self).key_view(key@),
                        ticket,
                    ).queue);
                    assert forall|k: Seq<char>| k != key@ implies self.key_view(k) == old(self).key_view(k) by {
                        lemma_key_index(prev, k);
                    }
                }
            },
        }
    }
    /// Serves every key that can be served: for each key that is unlocked
    /// and has a waiter, pops the head of its queue, marks the key locked,
    /// and emits a [`Grant`] carrying a fresh [`ResourceLock`]. Keys that
    /// are locked or have nobody waiting are untouched. Each granted key
    /// appears exactly once among the grants, with the ticket that stood at
    /// the head of its queue.
    pub fn issue_grants(&mut self) -> (grants: Vec<Grant>)
        requires
            old(self).wf(),
        ensures
            final(self).wf(),
            forall|k: Seq<char>| can_grant(#[trigger] old(self).key_view(k)) ==> final(self).key_view(k) == after_grant(old(self).key_view(k)),
            forall|k: Seq<char>| !can_grant(#[trigger] old(self).key_view(k)) ==> final(self).key_view(k) == old(self).key_view(k),
            forall|g: int|
                0 <= g < grants@.len() ==> can_grant(
                    old(self).key_view((#[trigger] grants@[g]).lock@),
                ) && grants@[g].ticket == grant_ticket(old(self).key_view(grants@[g].lock@)),
            forall|g1: int, g2: int|
                0 <= g1 < g2 < grants@.len() ==> (#[trigger] grants@[g1]).lock@ != (
                #[trigger] grants@[g2]).lock@,
            forall|k: Seq<char>|
                can_grant(#[trigger] old(self).key_view(k)) ==> granted_for(grants@, k),
    {
        let n = self.entries.len();
        let mut grants: Vec<Grant> = Vec::new();
        let mut i: usize = 0;
        while i < n
            invariant
                old(self).wf(),
                n == self.entries@.len(),
                n == old(self).entries@.len(),
                i <= n,
                forall|j: int|
                    0 <= j < n ==> #[trigger] self.entries@[j].key_of() == old(self).entries@[j].key_of(),
                forall|j: int| i <= j < n ==> self.entries@[j] == old(self).entries@[j],
                forall|j: int|
                    0 <= j < i && grantable_entry(#[trigger] old(self).entries@[j]) ==> (
                    self.entries@[j].locked && self.entries@[j].pending@ == old(self).entries@[j].pending@.drop_first()),
                forall|j: int|
                    0 <= j < i && !grantable_entry(#[trigger] old(self).entries@[j])
                        ==> self.entries@[j] == old(self).entries@[j],
                forall|g: int|
                    0 <= g < grants@.len() ==> grant_matches(
                        old(self).entries@,
                        i as int,
                        #[trigger] grants@[g],
                    ),
                forall|j: int|
                    0 <= j < i && grantable_entry(#[trigger] old(self).entries@[j])
                        ==> granted_for(grants@, old(self).entries@[j].key_of()),
                forall|g1: int, g2: int|
                    0 <= g1 < g2 < grants@.len() ==> (#[trigger] grants@[g1]).lock@ != (
                    #[trigger] grants@[g2]).lock@,
            decreases n - i,
        {
            let serve = !self.entries[i].locked && self.entries[i].pending.len() > 0;
            if serve {
                let ghost prev = self.entries@;
                let ticket = self.entries[i].pending.remove(0);
                self.entries[i].locked = true;
                let path = self.entries[i].key.clone();
                proof {
                    assert(self.entries@ =~= prev.update(i as int, self.entries@[i as int]));
                    assert(self.entries@[i as int].pending@ =~= prev[i as int].pending@
                        .drop_first());
                }
                let ghost glen = grants@.len();
                let ghost gprev = grants@;
                grants.push(Grant { ticket, lock: ResourceLock { path } });
                proof {
                    assert(grants@[glen as int].lock@ == old(self).entries@[i as int].key_of()
                        && grants@[glen as int].ticket == old(self).entries@[i as int].pending@[0]
                        && grantable_entry(old(self).entries@[i as int]));
                    assert(grant_matches(old(self).entries@, i + 1, grants@[glen as int]));
                    assert(granted_for(grants@, old(self).entries@[i as int].key_of()));
                    assert forall|j: int|
                        0 <= j < i && grantable_entry(#[trigger] old(self).entries@[j]) implies
                        granted_for(grants@, old(self).entries@[j].key_of()) by {
                        let k = old(self).entries@[j].key_of();
                        let g = choose|g: int| 0 <= g < gprev.len() && (#[trigger] gprev[g]).lock@
                            == k;
                        assert(grants@[g].lock@ == k);
                    }
                    assert forall|g: int| 0 <= g < glen implies grant_matches(
                        old(self).entries@,
                        i + 1,
                        #[trigger] grants@[g],
                    ) by {
                        let j = choose|j: int|
                            0 <= j < i && grantable_entry(#[trigger] old(self).entries@[j])
                                && grants@[g].lock@ == old(self).entries@[j].key_of()
                                && grants@[g].ticket == old(self).entries@[j].pending@[0];
                        assert(grant_matches(old(self).entries@, i + 1, grants@[g]));
                    }
                }
            }
            i = i + 1;
        }
        proof {
            lemma_key_index_same_keys(old(self).entries@, self.entries@);
            assert forall|k: Seq<char>|
                (can_grant(#[trigger] old(self).key_view(k)) ==> self.key_view(k) == after_grant(
                    old(self).key_view(k),
                )) && (!can_grant(old(self).key_view(k)) ==> self.key_view(k) == old(self).key_view(k)) by {
                lemma_key_index(old(self).entries@, k);
            }
            assert forall|g: int| 0 <= g < grants@.len() implies can_grant(
                old(self).key_view((#[trigger] grants@[g]).lock@),
            ) && grants@[g].ticket == grant_ticket(old(self).key_view(grants@[g].lock@)) by {
                let gk = grants@[g].lock@;
                let j = choose|j: int|
                    0 <= j < n && grantable_entry(#[trigger] old(self).entries@[j]) && gk == old(
                        self,
                    ).entries@[j].key_of() && grants@[g].ticket == old(self).entries@[j].pending@[0];
                lemma_key_index(old(self).entries@, gk);
                assert(key_index(old(self).entries@, gk) == j);
            }
            assert forall|k: Seq<char>| can_grant(#[trigger] old(self).key_view(k)) implies
                granted_for(grants@, k) by {
                lemma_key_index(old(self).entries@, k);
            }
        }
        grants
    }

    /// One full turn of the arbiter loop: drain a batch of release
    /// notifications, drain a batch of lock requests, then grant a lock on
    /// every key that ended up unlocked with a waiter. Per key the effect is
    /// exactly [`after_batch`]; the returned grants serve exactly the keys
    /// that were grantable once the batches were drained, each with the
    /// ticket at the head of its drained queue.
    pub fn run_iteration(&mut self, releases: &Vec<String>, requests: &Vec<LockRequest>) -> (grants:
        Vec<Grant>)
        requires
            old(self).wf(),
        ensures
            final(self).wf(),
            forall|k: Seq<char>|
                final(self).key_view(k) == after_batch(
                    #[trigger] old(self).key_view(k),
                    release_count(releases@, k),
                    request_tickets(requests@, k),
                ),
            forall|g: int|
                0 <= g < grants@.len() ==> (can_grant(
                    drained_view(
                        old(self).key_view((#[trigger] grants@[g]).lock@),
                        release_count(releases@, grants@[g].lock@),
                        request_tickets(requests@, grants@[g].lock@),
                    ),
                ) && grants@[g].ticket == grant_ticket(
                    drained_view(
                        old(self).key_view(grants@[g].lock@),
                        release_count(releases@, grants@[g].lock@),
                        request_tickets(requests@, grants@[g].lock@),
                    ),
                )),
            forall|g1: int, g2: int|
                0 <= g1 < g2 < grants@.len() ==> (#[trigger] grants@[g1]).lock@ != (
                #[trigger] grants@[g2]).lock@,
            forall|k: Seq<char>|
                can_grant(
                    drained_view(
                        #[trigger] old(self).key_view(k),
                        release_count(releases@, k),
                        request_tickets(requests@, k),
                    ),
                ) ==> granted_for(grants@, k),
    {
        let ghost orig = *self;
        let nrel = releases.len();
        let mut ri: usize = 0;
        while ri < nrel
            invariant
                self.wf(),
                nrel == releases@.len(),
                ri <= nrel,
                forall|k: Seq<char>|
                    (#[trigger] self.key_view(k)).locked == (orig.key_view(k).locked
                        && release_count(releases@.take(ri as int), k) == 0) && self.key_view(
                        k,
                    ).queue == orig.key_view(k).queue,
            decreases nrel - ri,
        {
            let ghost before = *self;
            self.note_release(&releases[ri]);
            proof {
                assert(releases@.take(ri + 1).drop_last() =~= releases@.take(ri as int));
                assert(releases@.take(ri + 1).last() == releases@[ri as int]);
                assert forall|k: Seq<char>|
                    (#[trigger] self.key_view(k)).locked == (orig.key_view(k).locked
                        && release_count(releases@.take(ri + 1), k) == 0) && self.key_view(
                        k,
                    ).queue == orig.key_view(k).queue by {
                    if k != releases@[ri as int]@ {
                        assert(self.key_view(k) == before.key_view(k));
                    }
                }
            }
            ri = ri + 1;
        }
        proof {
            assert(releases@.take(nrel as int) =~= releases@);
        }
        let nreq = requests.len();
        let mut qi: usize = 0;
        proof {
            assert forall|k: Seq<char>|
                (#[trigger] self.key_view(k)).queue == orig.key_view(k).queue + request_tickets(
                    requests@.take(0),
                    k,
                ) by {
                assert(requests@.take(0) =~= Seq::<LockRequest>::empty());
                assert(orig.key_view(k).queue + request_tickets(requests@.take(0), k)
                    =~= orig.key_view(k).queue);
            }
        }
        while qi < nreq
            invariant
                self.wf(),
                nreq == requests@.len(),
                qi <= nreq,
                forall|k: Seq<char>|
                    (#[trigger] self.key_view(k)).locked == (orig.key_view(k).locked
                        && release_count(releases@, k) == 0) && self.key_view(k).queue
                        == orig.key_view(k).queue + request_tickets(requests@.take(qi as int), k),
            decreases nreq - qi,
        {
            let ghost before = *self;
            self.enqueue_request(&requests[qi].path, requests[qi].ticket);
            proof {
                assert(requests@.take(qi + 1).drop_last() =~= requests@.take(qi as int));
                assert(requests@.take(qi + 1).last() == requests@[qi as int]);
                assert forall|k: Seq<char>|
                    (#[trigger] self.key_view(k)).locked == (orig.key_view(k).locked
                        && release_count(releases@, k) == 0) && self.key_view(k).queue
                        == orig.key_view(k).queue + request_tickets(
                        requests@.take(qi + 1),
                        k,
                    ) by {
                    if k == requests@[qi as int].path@ {
                        assert(orig.key_view(k).queue + request_tickets(requests@.take(qi + 1), k)
                            =~= (orig.key_view(k).queue + request_tickets(
                            requests@.take(qi as int),
                            k,
                        )).push(requests@[qi as int].ticket));
                    } else {
                        assert(self.key_view(k) == before.key_view(k));
                    }
                }
            }
            qi = qi + 1;
        }
        proof {
            assert(requests@.take(nreq as int) =~= requests@);
        }
        let ghost mid = *self;
        let grants = self.issue_grants();
        proof {
            assert forall|k: Seq<char>| #[trigger] mid.key_view(k) == drained_view(
                orig.key_view(k),
                release_count(releases@, k),
                request_tickets(requests@, k),
            ) by {}
            assert forall|k: Seq<char>| self.key_view(k) == after_batch(
                #[trigger] orig.key_view(k),
                release_count(releases@, k),
                request_tickets(requests@, k),
            ) by {
                assert(mid.key_view(k) == drained_view(
                    orig.key_view(k),
                    release_count(releases@, k),
                    request_tickets(requests@, k),
                ));
            }
            assert forall|k: Seq<char>|
                can_grant(
                    drained_view(
                        #[trigger] orig.key_view(k),
                        release_count(releases@, k),
                        request_tickets(requests@, k),
                    ),
                ) implies granted_for(grants@, k) by {
                assert(mid.key_view(k) == drained_view(
                    orig.key_view(k),
                    release_count(releases@, k),
                    request_tickets(requests@, k),
                ));
            }
        }
        grants
    }
}

/// How many of the release notifications in `keys` name the key `k`.
pub open spec fn release_count(keys: Seq<String>, k: Seq<char>) -> nat
    decreases keys.len(),
{
    if keys.len() == 0 {
        0
    } else {
        release_count(keys.drop_last(), k) + (if keys.last()@ == k {
            1nat
        } else {
            0nat
        })
    }
}

/// The tickets of the requests in `reqs` that name the key `k`, in arrival
/// order.
pub open spec fn request_tickets(reqs: Seq<LockRequest>, k: Seq<char>) -> Seq<u64>
    decreases reqs.len(),
{
    if reqs.len() == 0 {
        Seq::empty()
    } else {
        let t = request_tickets(reqs.drop_last(), k);
        if reqs.last().path@ == k {
            t.push(reqs.last().ticket)
        } else {
            t
        }
    }
}

/// Whether this entry's key can be served a lock right now.
spec fn grantable_entry(e: KeyEntry) -> bool {
    !e.locked && e.pending@.len() > 0
}

/// Whether some grant in `gs` serves the key `k`.
pub open spec fn granted_for(gs: Seq<Grant>, k: Seq<char>) -> bool {
    exists|g: int| 0 <= g < gs.len() && (#[trigger] gs[g]).lock@ == k
}

/// Whether `g` serves a grantable entry among the first `hi` entries, with
/// the ticket at the head of that entry's queue.
spec fn grant_matches(s: Seq<KeyEntry>, hi: int, g: Grant) -> bool {
    exists|j: int|
        0 <= j < hi && grantable_entry(#[trigger] s[j]) && g.lock@ == s[j].key_of() && g.ticket
            == s[j].pending@[0]
}

/// One key's share of one arbiter iteration: how many release notifications
/// named the key, and which tickets were enqueued for it, in arrival order.
pub struct KeyBatch {
    /// Release notifications for the key drained in this iteration.
    pub releases: nat,
    /// Tickets requested for the key in this iteration, oldest first.
    pub tickets: Seq<u64>,
}

/// The state of one key after the arbiter has run one iteration for each
/// batch in `bs`, starting from the idle state. Per iteration the effect is
/// [`after_batch`], exactly what [`LockArbiter::run_iteration`] ensures of
/// every key.
pub open spec fn run_batches(bs: Seq<KeyBatch>) -> KeyView
    decreases bs.len(),
{
    if bs.len() == 0 {
        idle_key()
    } else {
        after_batch(run_batches(bs.drop_last()), bs.last().releases, bs.last().tickets)
    }
}

/// The tickets the key's lock was granted to over the iterations, in grant
/// order.
pub open spec fn grants_of(bs: Seq<KeyBatch>) -> Seq<u64>
    decreases bs.len(),
{
    if bs.len() == 0 {
        Seq::empty()
    } else {
        let d = drained_view(run_batches(bs.drop_last()), bs.last().releases, bs.last().tickets);
        let g = grants_of(bs.drop_last());
        if can_grant(d) {
            g.push(grant_ticket(d))
        } else {
            g
        }
    }
}

/// All tickets requested for the key over the iterations, in arrival order.
pub open spec fn requests_of(bs: Seq<KeyBatch>) -> Seq<u64>
    decreases bs.len(),
{
    if bs.len() == 0 {
        Seq::empty()
    } else {
        requests_of(bs.drop_last()) + bs.last().tickets
    }
}

/// The total number of release notifications received for the key.
pub open spec fn releases_of(bs: Seq<KeyBatch>) -> nat
    decreases bs.len(),
{
    if bs.len() == 0 {
        0
    } else {
        releases_of(bs.drop_last()) + bs.last().releases
    }
}

/// A history is well-formed when every release notification comes from the
/// disposal of a granted lock: an iteration carries at most as many
/// releases for the key as there are grants not yet released when it runs.
pub open spec fn valid_history(bs: Seq<KeyBatch>) -> bool
    decreases bs.len(),
{
    if bs.len() == 0 {
        true
    } else {
        valid_history(bs.drop_last()) && bs.last().releases + releases_of(bs.drop_last())
            <= grants_of(bs.drop_last()).len()
    }
}

/// However request and release batches arrive for a key, its queue holds
/// exactly the requests not yet served: the grants issued so far, followed
/// by the waiting tickets, reproduce all requests in arrival order.
pub proof fn lemma_queue_is_unserved_requests(bs: Seq<KeyBatch>)
    ensures
        grants_of(bs) + run_batches(bs).queue == requests_of(bs),
    decreases bs.len(),
{
    if bs.len() == 0 {
        assert(grants_of(bs) + run_batches(bs).queue =~= requests_of(bs));
    } else {
        lemma_queue_is_unserved_requests(bs.drop_last());
        let s = run_batches(bs.drop_last());
        let b = bs.last();
        let d = drained_view(s, b.releases, b.tickets);
        assert(grants_of(bs) + run_batches(bs).queue =~= grants_of(bs.drop_last()) + d.queue);
        assert(grants_of(bs.drop_last()) + d.queue =~= (grants_of(bs.drop_last()) + s.queue)
            + b.tickets);
    }
}

/// Lock grants for a key occur in the order the requests were submitted:
/// the tickets granted so far are exactly the first requested tickets, in
/// arrival order.
pub proof fn lemma_grants_in_arrival_order(bs: Seq<KeyBatch>)
    ensures
        grants_of(bs).len() <= requests_of(bs).len(),
        grants_of(bs) == requests_of(bs).take(grants_of(bs).len() as int),
{
    lemma_queue_is_unserved_requests(bs);
    assert(grants_of(bs) =~= requests_of(bs).take(grants_of(bs).len() as int));
}

/// At most one lock per key is outstanding at any instant: as long as every
/// release stems from a granted lock's disposal, the grants made so far
/// exceed the releases received exactly when the key is locked, and never
/// by more than one. Applied to every prefix of a history, this pins the
/// number of outstanding locks to zero or one at each step.
pub proof fn lemma_at_most_one_outstanding(bs: Seq<KeyBatch>)
    requires
        valid_history(bs),
    ensures
        grants_of(bs).len() == releases_of(bs) + (if run_batches(bs).locked {
            1nat
        } else {
            0nat
        }),
    decreases bs.len(),
{
    if bs.len() > 0 {
        lemma_at_most_one_outstanding(bs.drop_last());
    }
}

} // verus!
