use vstd::prelude::*;

use crate::basic::Credentials;

verus! {

/// The state of one credential key in the table.
pub enum Slot<V> {
    /// A resolution for the key was claimed at `since` and is in flight.
    Pending { since: u64 },
    /// A resolution finished with `outcome`, served until `expires_at`.
    Ready { outcome: V, expires_at: u64 },
}

/// What a lookup tells its caller to do.
#[derive(Debug, Clone, Copy, PartialEq, Eq, Structural)]
pub enum Decision {
    /// Serve the stored outcome; no upstream call.
    Cached,
    /// Another caller is resolving this key: wait for its outcome.
    Wait,
    /// This caller now owns the resolution of the key.
    Resolve,
}

/// The slot of `k` in `m`, if any.
pub open spec fn slot_of<V>(m: Map<(Seq<char>, Seq<char>), Slot<V>>, k: (Seq<char>, Seq<char>)) -> Option<Slot<V>> {
    if m.contains_key(k) {
        Some(m[k])
    } else {
        None
    }
}

/// The decision for a key whose slot is `slot`, at time `now`, in a table
/// whose time to live is `ttl`. A claim older than `ttl` is taken to have
/// failed without an outcome and may be taken over.
pub open spec fn decide<V>(slot: Option<Slot<V>>, now: u64, ttl: u64) -> Decision {
    match slot {
        Some(Slot::Ready { expires_at, .. }) => if now < expires_at {
            Decision::Cached
        } else {
            Decision::Resolve
        },
        Some(Slot::Pending { since }) => if now < expiry(since, ttl) {
            Decision::Wait
        } else {
            Decision::Resolve
        },
        None => Decision::Resolve,
    }
}

/// When an outcome stored at `now` stops being served.
pub open spec fn expiry(now: u64, ttl: u64) -> u64 {
    if now + ttl > u64::MAX {
        u64::MAX
    } else {
        (now + ttl) as u64
    }
}

/// A single-flight table of resolution outcomes keyed by credentials.
///
/// Each key is absent, pending (one caller is resolving it) or ready (its
/// outcome is served until it expires). Success and failure are stored
/// alike. A claim that has been pending for the time to live is taken to have
/// failed and may be taken over. When the table holds `max_size` keys,
/// claiming a new key first evicts the oldest ready entry; only when every
/// key held is pending does the table grow past `max_size`, since a pending
/// key has callers waiting on it.
pub struct CredentialCache<V> {
    keys: Vec<Credentials>,
    slots: Vec<Slot<V>>,
    ttl: u64,
    max_size: usize,
    table: Ghost<Map<(Seq<char>, Seq<char>), Slot<V>>>,
}

impl<V> View for CredentialCache<V> {
    type V = Map<(Seq<char>, Seq<char>), Slot<V>>;

    closed spec fn view(&self) -> Map<(Seq<char>, Seq<char>), Slot<V>> {
        self.table@
    }
}

impl<V> CredentialCache<V> {
    pub closed spec fn wf(&self) -> bool {
        &&& self.keys@.len() == self.slots@.len()
        &&& forall|i: int, j: int|
            0 <= i < j < self.keys@.len() ==> #[trigger] self.keys@[i]@ != #[trigger] self.keys@[j]@
        &&& forall|i: int|
            0 <= i < self.keys@.len() ==> #[trigger] self.table@.contains_key(self.keys@[i]@)
                && self.table@[self.keys@[i]@] == self.slots@[i]
        &&& forall|k: (Seq<char>, Seq<char>)| #[trigger]
            self.table@.contains_key(k) ==> exists|i: int|
                0 <= i < self.keys@.len() && #[trigger] self.keys@[i]@ == k
    }

    /// How long an outcome is served.
    pub closed spec fn ttl(&self) -> u64 {
        self.ttl
    }

    /// The number of keys the table holds before it evicts.
    pub closed spec fn max_size(&self) -> usize {
        self.max_size
    }

    /// The number of keys held.
    pub closed spec fn size(&self) -> nat {
        self.keys@.len()
    }

    pub fn new(ttl: u64, max_size: usize) -> (r: CredentialCache<V>)
        ensures
            r.wf(),
            r@ == Map::<(Seq<char>, Seq<char>), Slot<V>>::empty(),
            r.ttl() == ttl,
            r.max_size() == max_size,
            r.size() == 0,
    {
        CredentialCache {
            keys: Vec::new(),
            slots: Vec::new(),
            ttl,
            max_size,
            table: Ghost(Map::empty()),
        }
    }

    pub fn len(&self) -> (r: usize)
        requires
            self.wf(),
        ensures
            r == self.size(),
    {
        self.keys.len()
    }

    fn find(&self, key: &Credentials) -> (r: Option<usize>)
        requires
            self.wf(),
        ensures
            match r {
                Some(i) => i < self.keys@.len() && self.keys@[i as int]@ == key@,
                None => !self@.contains_key(key@),
            },
    {
        let mut i: usize = 0;
        while i < self.keys.len()
            invariant
                self.wf(),
                i <= self.keys@.len(),
                forall|j: int| 0 <= j < i ==> self.keys@[j]@ != key@,
            decreases self.keys.len() - i,
        {
            if self.keys[i] == *key {
                return Some(i);
            }
            i = i + 1;
        }
        None
    }

    /// Removes the oldest ready entry, if there is one.
    fn evict_oldest_ready(&mut self)
        requires
            old(self).wf(),
        ensures
            final(self).wf(),
            final(self).ttl() == old(self).ttl(),
            final(self).max_size() == old(self).max_size(),
            final(self).size() <= old(self).size(),
            (exists|k: (Seq<char>, Seq<char>)| #[trigger] old(self)@.contains_key(k) && old(self)@[k] is Ready)
                ==> final(self).size() < old(self).size(),
            forall|k: (Seq<char>, Seq<char>)| #[trigger] final(self)@.contains_key(k)
                ==> old(self)@.contains_key(k) && final(self)@[k] == old(self)@[k],
            forall|k: (Seq<char>, Seq<char>)| #[trigger] old(self)@.contains_key(k) && old(self)@[k] is Pending
                ==> final(self)@.contains_key(k),
    {
        let mut j: usize = 0;
        while j < self.slots.len()
            invariant
                self.wf(),
                self.ttl == old(self).ttl,
                self.max_size == old(self).max_size,
                self.table@ == old(self).table@,
                self.keys@.len() == old(self).keys@.len(),
                j <= self.slots@.len(),
                forall|i: int| 0 <= i < j ==> self.slots@[i] is Pending,
            decreases self.slots.len() - j,
        {
            if let Slot::Ready { .. } = &self.slots[j] {
                let ghost old_keys = self.keys@;
                let ghost old_slots = self.slots@;
                let ghost old_table = self.table@;
                let ghost gone = self.keys@[j as int]@;
                self.keys.remove(j);
                self.slots.remove(j);
                self.table = Ghost(self.table@.remove(gone));
                proof {
                    assert forall|i: int| 0 <= i < self.keys@.len() implies #[trigger] self.table@.contains_key(self.keys@[i]@)
                        && self.table@[self.keys@[i]@] == self.slots@[i] by {
                        if i < j {
                            assert(self.keys@[i] == old_keys[i]);
                            assert(self.slots@[i] == old_slots[i]);
                            assert(old_table.contains_key(old_keys[i]@));
                            assert(old_keys[i]@ != old_keys[j as int]@);
                        } else {
                            assert(self.keys@[i] == old_keys[i + 1]);
                            assert(self.slots@[i] == old_slots[i + 1]);
                            assert(old_keys[j as int]@ != old_keys[i + 1]@);
                            assert(old_table.contains_key(old_keys[i + 1]@));
                        }
                    }
                    assert forall|k: (Seq<char>, Seq<char>)| #[trigger] self.table@.contains_key(k) implies exists|i: int|
                        0 <= i < self.keys@.len() && #[trigger] self.keys@[i]@ == k by {
                        let i = choose|i: int| 0 <= i < old_keys.len() && #[trigger] old_keys[i]@ == k;
                        if i < j {
                            assert(self.keys@[i]@ == k);
                        } else {
                            assert(i != j);
                            assert(self.keys@[i - 1]@ == k);
                        }
                    }
                    assert forall|a: int, b: int| 0 <= a < b < self.keys@.len() implies #[trigger] self.keys@[a]@
                        != #[trigger] self.keys@[b]@ by {
                        let a0 = if a < j { a } else { a + 1 };
                        let b0 = if b < j { b } else { b + 1 };
                        assert(old_keys[a0]@ != old_keys[b0]@);
                    }
                    assert forall|k: (Seq<char>, Seq<char>)| #[trigger] old_table.contains_key(k) && old_table[k] is Pending
                        implies self.table@.contains_key(k) by {
                        if k == gone {
                            assert(old_table[old_keys[j as int]@] == old_slots[j as int]);
                        }
                    }
                }
                return;
            }
            j = j + 1;
        }
        proof {
            assert forall|k: (Seq<char>, Seq<char>)| #[trigger] self.table@.contains_key(k) implies !(self.table@[k] is Ready) by {
                let i = choose|i: int| 0 <= i < self.keys@.len() && #[trigger] self.keys@[i]@ == k;
                assert(self.slots@[i] is Pending);
            }
        }
    }

    /// Looks `key` up at time `now` and claims it when no outcome is being
    /// served: an expired entry is dropped, and the key is marked pending so
    /// that later lookups wait for this caller's outcome.
    pub fn begin(&mut self, key: Credentials, now: u64) -> (r: Decision)
        requires
            old(self).wf(),
        ensures
            final(self).wf(),
            final(self).ttl() == old(self).ttl(),
            final(self).max_size() == old(self).max_size(),
            r == decide(slot_of(old(self)@, key@), now, old(self).ttl()),
            r != Decision::Resolve ==> final(self)@ == old(self)@ && final(self).size() == old(self).size(),
            r == Decision::Resolve ==> final(self)@.contains_key(key@) && final(self)@[key@] == (Slot::<V>::Pending { since: now }),
            r == Decision::Resolve ==> forall|k: (Seq<char>, Seq<char>)|
                k != key@ && #[trigger] final(self)@.contains_key(k) ==> old(self)@.contains_key(k)
                    && final(self)@[k] == old(self)@[k],
            r == Decision::Resolve ==> forall|k: (Seq<char>, Seq<char>)|
                #[trigger] old(self)@.contains_key(k) && old(self)@[k] is Pending ==> final(self)@.contains_key(k),
            final(self).size() <= old(self).size() + 1,
            old(self).size() >= old(self).max_size() && (exists|k: (Seq<char>, Seq<char>)|
                #[trigger] old(self)@.contains_key(k) && old(self)@[k] is Ready) ==> final(self).size()
                <= old(self).size(),
            final(self).size() > old(self).max_size() ==> (final(self).size() <= old(self).size() || (
            forall|k: (Seq<char>, Seq<char>)| #[trigger] old(self)@.contains_key(k) ==> (old(self)@[k] is Pending))),
    {
        match self.find(&key) {
            Some(i) => {
                let d = match &self.slots[i] {
                    Slot::Pending { since } => if *since <= u64::MAX - self.ttl && now < *since
                        + self.ttl {
                        Decision::Wait
                    } else if *since > u64::MAX - self.ttl && now < u64::MAX {
                        Decision::Wait
                    } else {
                        Decision::Resolve
                    },
                    Slot::Ready { expires_at, .. } => if now < *expires_at {
                        Decision::Cached
                    } else {
                        Decision::Resolve
                    },
                };
                if d == Decision::Resolve {
                    let ghost old_table = self.table@;
                    self.slots.set(i, Slot::Pending { since: now });
                    self.table = Ghost(self.table@.insert(key@, Slot::Pending { since: now }));
                    proof {
                        assert forall|a: int| 0 <= a < self.keys@.len() implies #[trigger] self.table@.contains_key(self.keys@[a]@)
                            && self.table@[self.keys@[a]@] == self.slots@[a] by {
                            if a != i {
                                assert(old_table.contains_key(self.keys@[a]@));
                                if a < i {
                                    assert(self.keys@[a]@ != self.keys@[i as int]@);
                                } else {
                                    assert(self.keys@[i as int]@ != self.keys@[a]@);
                                }
                            }
                        }
                        assert forall|k: (Seq<char>, Seq<char>)| #[trigger] self.table@.contains_key(k) implies exists|a: int|
                            0 <= a < self.keys@.len() && #[trigger] self.keys@[a]@ == k by {
                            if k == key@ {
                                assert(self.keys@[i as int]@ == k);
                            } else {
                                assert(old_table.contains_key(k));
                            }
                        }
                    }
                }
                d
            },
            None => {
                let ghost t0 = self@;
                assert(!t0.contains_key(key@));
                if self.keys.len() >= self.max_size {
                    self.evict_oldest_ready();
                }
                assert forall|k: (Seq<char>, Seq<char>)| #[trigger] self@.contains_key(k) implies t0.contains_key(k)
                    && self@[k] == t0[k] by {}
                let ghost old_keys = self.keys@;
                let ghost old_table = self@;
                let ghost k0 = key@;
                self.keys.push(key);
                self.slots.push(Slot::Pending { since: now });
                self.table = Ghost(self.table@.insert(k0, Slot::Pending { since: now }));
                proof {
                    let n = old_keys.len() as int;
                    if old_table.contains_key(k0) {
                        assert(t0.contains_key(k0));
                    }
                    assert forall|k: (Seq<char>, Seq<char>)| k != k0 && #[trigger] self.table@.contains_key(k) implies t0.contains_key(k)
                        && self.table@[k] == t0[k] by {
                        assert(old_table.contains_key(k));
                    }
                    assert(self.keys@[n]@ == k0);
                    assert forall|a: int| 0 <= a < self.keys@.len() implies #[trigger] self.table@.contains_key(self.keys@[a]@)
                        && self.table@[self.keys@[a]@] == self.slots@[a] by {
                        if a < n {
                            assert(old_table.contains_key(old_keys[a]@));
                            assert(old_keys[a]@ != k0);
                        }
                    }
                    assert forall|k: (Seq<char>, Seq<char>)| #[trigger] self.table@.contains_key(k) implies exists|a: int|
                        0 <= a < self.keys@.len() && #[trigger] self.keys@[a]@ == k by {
                        if k == k0 {
                            assert(self.keys@[n]@ == k);
                        } else {
                            let a = choose|a: int| 0 <= a < old_keys.len() && #[trigger] old_keys[a]@ == k;
                            assert(self.keys@[a]@ == k);
                        }
                    }
                    assert forall|a: int, b: int| 0 <= a < b < self.keys@.len() implies #[trigger] self.keys@[a]@
                        != #[trigger] self.keys@[b]@ by {
                        if b == n {
                            assert(old_table.contains_key(old_keys[a]@));
                        }
                    }
                }
                Decision::Resolve
            },
        }
    }

    /// Stores the outcome of a finished resolution of `key`, served until
    /// `now` plus the table's time to live; waiters then find it.
    pub fn complete(&mut self, key: Credentials, outcome: V, now: u64)
        requires
            old(self).wf(),
        ensures
            final(self).wf(),
            final(self).ttl() == old(self).ttl(),
            final(self).max_size() == old(self).max_size(),
            final(self)@ == old(self)@.insert(
                key@,
                Slot::Ready { outcome, expires_at: expiry(now, old(self).ttl()) },
            ),
            final(self).size() <= old(self).size() + 1,
            old(self)@.contains_key(key@) ==> final(self).size() == old(self).size(),
    {
        let expires_at = if now > u64::MAX - self.ttl {
            u64::MAX
        } else {
            now + self.ttl
        };
        let ghost k0 = key@;
        let ghost old_keys = self.keys@;
        let ghost old_table = self@;
        let ghost slot = Slot::Ready { outcome, expires_at };
        match self.find(&key) {
            Some(i) => {
                self.slots.set(i, Slot::Ready { outcome, expires_at });
                self.table = Ghost(self.table@.insert(k0, slot));
                proof {
                    assert forall|a: int| 0 <= a < self.keys@.len() implies #[trigger] self.table@.contains_key(self.keys@[a]@)
                        && self.table@[self.keys@[a]@] == self.slots@[a] by {
                        if a != i {
                            assert(old_table.contains_key(self.keys@[a]@));
                            if a < i {
                                assert(self.keys@[a]@ != self.keys@[i as int]@);
                            } else {
                                assert(self.keys@[i as int]@ != self.keys@[a]@);
                            }
                        }
                    }
                    assert forall|k: (Seq<char>, Seq<char>)| #[trigger] self.table@.contains_key(k) implies exists|a: int|
                        0 <= a < self.keys@.len() && #[trigger] self.keys@[a]@ == k by {
                        if k == k0 {
                            assert(self.keys@[i as int]@ == k);
                        } else {
                            assert(old_table.contains_key(k));
                        }
                    }
                }
            },
            None => {
                self.keys.push(key);
                self.slots.push(Slot::Ready { outcome, expires_at });
                self.table = Ghost(self.table@.insert(k0, slot));
                proof {
                    let n = old_keys.len() as int;
                    assert(self.keys@[n]@ == k0);
                    assert forall|a: int| 0 <= a < self.keys@.len() implies #[trigger] self.table@.contains_key(self.keys@[a]@)
                        && self.table@[self.keys@[a]@] == self.slots@[a] by {
                        if a < n {
                            assert(old_table.contains_key(old_keys[a]@));
                            assert(old_keys[a]@ != k0);
                        }
                    }
                    assert forall|k: (Seq<char>, Seq<char>)| #[trigger] self.table@.contains_key(k) implies exists|a: int|
                        0 <= a < self.keys@.len() && #[trigger] self.keys@[a]@ == k by {
                        if k == k0 {
                            assert(self.keys@[n]@ == k);
                        } else {
                            let a = choose|a: int| 0 <= a < old_keys.len() && #[trigger] old_keys[a]@ == k;
                            assert(self.keys@[a]@ == k);
                        }
                    }
                    assert forall|a: int, b: int| 0 <= a < b < self.keys@.len() implies #[trigger] self.keys@[a]@
                        != #[trigger] self.keys@[b]@ by {
                        if b == n {
                            assert(old_table.contains_key(old_keys[a]@));
                        }
                    }
                }
            },
        }
    }

    /// The outcome stored for `key`, if a resolution of it has finished. It
    /// may have expired: `begin` decides whether it is served.
    pub fn outcome(&self, key: &Credentials) -> (r: Option<&V>)
        requires
            self.wf(),
        ensures
            match slot_of(self@, key@) {
                Some(Slot::Ready { outcome, .. }) => r matches Some(v) && *v == outcome,
                _ => r is None,
            },
    {
        match self.find(key) {
            Some(i) => match &self.slots[i] {
                Slot::Ready { outcome, .. } => Some(outcome),
                Slot::Pending { .. } => None,
            },
            None => None,
        }
    }
}

/// Once a caller has claimed a key at `now`, every lookup of that key before
/// the claim goes stale waits for its outcome instead of starting another
/// upstream call.
pub proof fn lemma_single_flight<V>(
    before: Map<(Seq<char>, Seq<char>), Slot<V>>,
    after: Map<(Seq<char>, Seq<char>), Slot<V>>,
    k: (Seq<char>, Seq<char>),
    ttl: u64,
    now: u64,
    later: u64,
)
    requires
        decide(slot_of(before, k), now, ttl) == Decision::Resolve,
        after.contains_key(k) && after[k] == (Slot::<V>::Pending { since: now }),
        later < expiry(now, ttl),
    ensures
        decide(slot_of(after, k), later, ttl) == Decision::Wait,
{
}

/// A run of lookups of one key, each related to the next state as `begin`
/// relates them, with no outcome stored in between.
pub open spec fn lookup_run<V>(
    states: Seq<Map<(Seq<char>, Seq<char>), Slot<V>>>,
    k: (Seq<char>, Seq<char>),
    ttl: u64,
    times: Seq<u64>,
    decisions: Seq<Decision>,
) -> bool {
    &&& states.len() == decisions.len() + 1
    &&& times.len() == decisions.len()
    &&& forall|i: int|
        0 <= i < decisions.len() ==> #[trigger] decisions[i] == decide(slot_of(states[i], k), times[i], ttl)
    &&& forall|i: int|
        0 <= i < decisions.len() && #[trigger] decisions[i] == Decision::Resolve ==> states[i
            + 1].contains_key(k) && states[i + 1][k] == (Slot::<V>::Pending { since: times[i] })
    &&& forall|i: int|
        0 <= i < decisions.len() && #[trigger] decisions[i] != Decision::Resolve ==> states[i + 1]
            == states[i]
}

proof fn lemma_pending_stays<V>(
    states: Seq<Map<(Seq<char>, Seq<char>), Slot<V>>>,
    k: (Seq<char>, Seq<char>),
    ttl: u64,
    times: Seq<u64>,
    decisions: Seq<Decision>,
    i: int,
    j: int,
)
    requires
        lookup_run(states, k, ttl, times, decisions),
        0 <= i < j <= decisions.len(),
        decisions[i] == Decision::Resolve,
        forall|m: int| i < m < decisions.len() ==> #[trigger] times[m] < expiry(times[i], ttl),
    ensures
        states[j].contains_key(k) && states[j][k] == (Slot::<V>::Pending { since: times[i] }),
    decreases j - i,
{
    if j > i + 1 {
        lemma_pending_stays(states, k, ttl, times, decisions, i, j - 1);
        assert(times[j - 1] < expiry(times[i], ttl));
        assert(decisions[j - 1] == decide(slot_of(states[j - 1], k), times[j - 1], ttl));
    }
}

/// However many lookups of one key arrive while no outcome is stored, each
/// within the time to live of every earlier one, at most one of them starts an
/// upstream resolution: every one after it waits.
pub proof fn lemma_at_most_one_resolution<V>(
    states: Seq<Map<(Seq<char>, Seq<char>), Slot<V>>>,
    k: (Seq<char>, Seq<char>),
    ttl: u64,
    times: Seq<u64>,
    decisions: Seq<Decision>,
)
    requires
        lookup_run(states, k, ttl, times, decisions),
        forall|i: int, j: int|
            0 <= i < j < times.len() ==> #[trigger] times[j] < expiry(#[trigger] times[i], ttl),
    ensures
        forall|i: int, j: int|
            0 <= i < j < decisions.len() && #[trigger] decisions[i] == Decision::Resolve
                ==> #[trigger] decisions[j] == Decision::Wait,
{
    assert forall|i: int, j: int|
        0 <= i < j < decisions.len() && #[trigger] decisions[i] == Decision::Resolve
            implies #[trigger] decisions[j] == Decision::Wait by {
        assert forall|m: int| i < m < decisions.len() implies #[trigger] times[m] < expiry(times[i], ttl) by {
            assert(times[m] < expiry(times[i], ttl));
        }
        lemma_pending_stays(states, k, ttl, times, decisions, i, j);
        assert(times[j] < expiry(times[i], ttl));
    }
}

/// An outcome stored at `stored` is served, with no upstream call, to every
/// lookup before `stored` plus the time to live.
pub proof fn lemma_fresh_outcome_served<V>(
    before: Map<(Seq<char>, Seq<char>), Slot<V>>,
    k: (Seq<char>, Seq<char>),
    outcome: V,
    stored: u64,
    ttl: u64,
    now: u64,
)
    requires
        now < expiry(stored, ttl),
    ensures
        decide(
            slot_of(before.insert(k, Slot::Ready { outcome, expires_at: expiry(stored, ttl) }), k),
            now,
            ttl,
        ) == Decision::Cached,
{
}

/// A lookup at or after an entry's expiry starts a fresh resolution.
pub proof fn lemma_expired_entry_resolved<V>(
    m: Map<(Seq<char>, Seq<char>), Slot<V>>,
    k: (Seq<char>, Seq<char>),
    ttl: u64,
    now: u64,
)
    requires
        m.contains_key(k),
        m[k] matches Slot::Ready { expires_at, .. } && expires_at <= now,
    ensures
        decide(slot_of(m, k), now, ttl) == Decision::Resolve,
{
}

} // verus!
