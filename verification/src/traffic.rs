//! Per-user traffic accounting: bytes exchanged with Workers and with model
//! upstreams, counted since the user was first seen.
use vstd::prelude::*;
use crate::clock::now;
use crate::text::str_equals;

verus! {

/// Byte counters of one user; each wraps around at 2^64 as an atomic
/// counter does.
pub struct Counters {
    pub worker_received: u64,
    pub worker_sent: u64,
    pub upstream_received: u64,
    pub upstream_sent: u64,
    pub since: i64,
}

#[derive(Debug)]
pub struct Snapshot {
    pub worker_received_bytes: u64,
    pub worker_sent_bytes: u64,
    pub upstream_received_bytes: u64,
    pub upstream_sent_bytes: u64,
    pub since: i64,
}

/// The value of one user's counters.
pub struct CountersV {
    pub worker_received: u64,
    pub worker_sent: u64,
    pub upstream_received: u64,
    pub upstream_sent: u64,
    pub since: i64,
}

pub open spec fn counters_view(c: Counters) -> CountersV {
    CountersV {
        worker_received: c.worker_received,
        worker_sent: c.worker_sent,
        upstream_received: c.upstream_received,
        upstream_sent: c.upstream_sent,
        since: c.since,
    }
}

pub open spec fn snapshot_view(s: Snapshot) -> CountersV {
    CountersV {
        worker_received: s.worker_received_bytes,
        worker_sent: s.worker_sent_bytes,
        upstream_received: s.upstream_received_bytes,
        upstream_sent: s.upstream_sent_bytes,
        since: s.since,
    }
}

/// The four directions that traffic is counted in.
#[derive(PartialEq, Eq, Structural, Clone, Copy, Debug)]
pub enum Direction {
    WorkerReceived,
    WorkerSent,
    UpstreamReceived,
    UpstreamSent,
}

/// `a + b` modulo 2^64.
pub open spec fn wrap(a: u64, b: u64) -> u64 {
    ((a as int + b as int) % 0x1_0000_0000_0000_0000int) as u64
}

/// Counters after `bytes` more in direction `d`.
pub open spec fn count(c: CountersV, d: Direction, bytes: u64) -> CountersV {
    match d {
        Direction::WorkerReceived => CountersV { worker_received: wrap(c.worker_received, bytes), ..c },
        Direction::WorkerSent => CountersV { worker_sent: wrap(c.worker_sent, bytes), ..c },
        Direction::UpstreamReceived => CountersV {
            upstream_received: wrap(c.upstream_received, bytes),
            ..c
        },
        Direction::UpstreamSent => CountersV { upstream_sent: wrap(c.upstream_sent, bytes), ..c },
    }
}

/// The counter of direction `d`.
pub open spec fn counter_in(c: CountersV, d: Direction) -> u64 {
    match d {
        Direction::WorkerReceived => c.worker_received,
        Direction::WorkerSent => c.worker_sent,
        Direction::UpstreamReceived => c.upstream_received,
        Direction::UpstreamSent => c.upstream_sent,
    }
}

/// Counting bytes in one direction adds them, modulo 2^64, to that
/// direction's counter alone: the three other counters and the start time
/// stay as they were, and below 2^64 the addition is exact.
pub proof fn lemma_count_one_direction(c: CountersV, d: Direction, bytes: u64)
    ensures
        counter_in(count(c, d, bytes), d) == wrap(counter_in(c, d), bytes),
        counter_in(c, d) + bytes < 0x1_0000_0000_0000_0000int ==> counter_in(count(c, d, bytes), d)
            == counter_in(c, d) + bytes,
        forall|e: Direction| e != d ==> #[trigger] counter_in(count(c, d, bytes), e) == counter_in(c, e),
        count(c, d, bytes).since == c.since,
{
}

/// Counters of a user first seen at `since`.
pub open spec fn fresh(since: i64) -> CountersV {
    CountersV { worker_received: 0, worker_sent: 0, upstream_received: 0, upstream_sent: 0, since }
}

fn wrapping(a: u64, b: u64) -> (r: u64)
    ensures
        r == wrap(a, b),
{
    a.wrapping_add(b)
}

impl Counters {
    pub fn snapshot(&self) -> (s: Snapshot)
        ensures
            snapshot_view(s) == counters_view(*self),
    {
        Snapshot {
            worker_received_bytes: self.worker_received,
            worker_sent_bytes: self.worker_sent,
            upstream_received_bytes: self.upstream_received,
            upstream_sent_bytes: self.upstream_sent,
            since: self.since,
        }
    }
}

/// The counters of every user seen, under distinct user IDs.
pub struct Monitor {
    users: Vec<(String, Counters)>,
}

impl Monitor {
    pub closed spec fn well_formed(&self) -> bool {
        forall|i: int, j: int|
            0 <= i < j < self.users@.len() ==> self.users@[i].0@ != self.users@[j].0@
    }

    /// Counters by user ID.
    pub closed spec fn view(&self) -> Map<Seq<char>, CountersV> {
        Map::new(
            |id: Seq<char>| exists|i: int| 0 <= i < self.users@.len() && self.users@[i].0@ == id,
            |id: Seq<char>|
                counters_view(
                    self.users@[choose|i: int| 0 <= i < self.users@.len() && self.users@[i].0@ == id].1,
                ),
        )
    }

    proof fn lemma_view_at(&self, i: int)
        requires
            self.well_formed(),
            0 <= i < self.users@.len(),
        ensures
            self.view().contains_key(self.users@[i].0@),
            self.view()[self.users@[i].0@] == counters_view(self.users@[i].1),
    {
        let id = self.users@[i].0@;
        let k = choose|k: int| 0 <= k < self.users@.len() && self.users@[k].0@ == id;
        if k < i {
            assert(self.users@[k].0@ != self.users@[i].0@);
        } else if k > i {
            assert(self.users@[i].0@ != self.users@[k].0@);
        }
    }

    /// Replacing the counters of entry `i` changes only that user's view.
    proof fn lemma_replace(&self, before: Seq<(String, Counters)>, i: int, prev: &Monitor)
        requires
            prev.well_formed(),
            prev.users@ == before,
            0 <= i < before.len(),
            self.users@ == before.update(i, self.users@[i]),
            self.users@[i].0@ == before[i].0@,
        ensures
            self.well_formed(),
            self.view() == prev.view().insert(before[i].0@, counters_view(self.users@[i].1)),
    {
        let uid = before[i].0@;
        assert forall|a: int, b: int|
            0 <= a < b < self.users@.len() implies self.users@[a].0@ != self.users@[b].0@ by {
            assert(before[a].0@ != before[b].0@);
        }
        assert forall|x: Seq<char>|
            #![auto]
            self.view().contains_key(x) == prev.view().insert(uid, counters_view(self.users@[i].1)).contains_key(x) by {
            if exists|k: int| 0 <= k < before.len() && before[k].0@ == x {
                let k = choose|k: int| 0 <= k < before.len() && before[k].0@ == x;
                assert(self.users@[k].0@ == x);
            }
            if exists|k: int| 0 <= k < self.users@.len() && self.users@[k].0@ == x {
                let k = choose|k: int| 0 <= k < self.users@.len() && self.users@[k].0@ == x;
                assert(before[k].0@ == x);
            }
        }
        assert forall|x: Seq<char>|
            self.view().contains_key(x) implies #[trigger] self.view()[x] == prev.view().insert(
                uid,
                counters_view(self.users@[i].1),
            )[x] by {
            let k = choose|k: int| 0 <= k < self.users@.len() && self.users@[k].0@ == x;
            self.lemma_view_at(k);
            assert(before[k].0@ == x);
            prev.lemma_view_at(k);
        }
        assert(self.view() =~= prev.view().insert(uid, counters_view(self.users@[i].1)));
    }

    /// Appending a user not yet present adds exactly that user.
    proof fn lemma_push(&self, before: Seq<(String, Counters)>, prev: &Monitor)
        requires
            prev.well_formed(),
            prev.users@ == before,
            self.users@ == before.push(self.users@[before.len() as int]),
            !prev.view().contains_key(self.users@[before.len() as int].0@),
        ensures
            self.well_formed(),
            self.view() == prev.view().insert(
                self.users@[before.len() as int].0@,
                counters_view(self.users@[before.len() as int].1),
            ),
    {
        let n = before.len() as int;
        let uid = self.users@[n].0@;
        let cv = counters_view(self.users@[n].1);
        assert forall|a: int, b: int|
            0 <= a < b < self.users@.len() implies self.users@[a].0@ != self.users@[b].0@ by {
            if b == n {
                if before[a].0@ == uid {
                    assert(prev.view().contains_key(uid));
                }
            } else {
                assert(before[a].0@ != before[b].0@);
            }
        }
        assert forall|x: Seq<char>|
            #![auto]
            self.view().contains_key(x) == prev.view().insert(uid, cv).contains_key(x) by {
            if exists|k: int| 0 <= k < before.len() && before[k].0@ == x {
                let k = choose|k: int| 0 <= k < before.len() && before[k].0@ == x;
                assert(self.users@[k].0@ == x);
            }
            if x == uid {
                assert(self.users@[n].0@ == x);
            }
            if exists|k: int| 0 <= k < self.users@.len() && self.users@[k].0@ == x {
                let k = choose|k: int| 0 <= k < self.users@.len() && self.users@[k].0@ == x;
                if k < n {
                    assert(before[k].0@ == x);
                }
            }
        }
        assert forall|x: Seq<char>|
            self.view().contains_key(x) implies #[trigger] self.view()[x] == prev.view().insert(
                uid,
                cv,
            )[x] by {
            let k = choose|k: int| 0 <= k < self.users@.len() && self.users@[k].0@ == x;
            self.lemma_view_at(k);
            if k < n {
                assert(before[k].0@ == x);
                prev.lemma_view_at(k);
            }
        }
        assert(self.view() =~= prev.view().insert(uid, cv));
    }

    pub fn new() -> (m: Monitor)
        ensures
            m.well_formed(),
            m.view() == Map::<Seq<char>, CountersV>::empty(),
    {
        let m = Monitor { users: Vec::new() };
        assert(m.view() =~= Map::<Seq<char>, CountersV>::empty());
        m
    }

    fn find(&self, user_id: &str) -> (r: Option<usize>)
        requires
            self.well_formed(),
        ensures
            r matches Some(i) ==> i < self.users@.len() && self.users@[i as int].0@ == user_id@,
            r is Some <==> self.view().contains_key(user_id@),
    {
        let mut i: usize = 0;
        while i < self.users.len()
            invariant
                self.well_formed(),
                i <= self.users@.len(),
                forall|j: int| 0 <= j < i ==> self.users@[j].0@ != user_id@,
            decreases self.users@.len() - i,
        {
            if str_equals(self.users[i].0.as_str(), user_id) {
                proof {
                    self.lemma_view_at(i as int);
                }
                return Some(i);
            }
            i += 1;
        }
        None
    }

    /// Sets the counters of a user, as the stored rows are loaded.
    pub fn restore(&mut self, user_id: String, snapshot: Snapshot)
        requires
            old(self).well_formed(),
        ensures
            final(self).well_formed(),
            final(self).view() == old(self).view().insert(user_id@, snapshot_view(snapshot)),
    {
        let counters = Counters {
            worker_received: snapshot.worker_received_bytes,
            worker_sent: snapshot.worker_sent_bytes,
            upstream_received: snapshot.upstream_received_bytes,
            upstream_sent: snapshot.upstream_sent_bytes,
            since: snapshot.since,
        };
        let ghost before = self.users@;
        match self.find(user_id.as_str()) {
            Some(i) => {
                self.users.set(i, (user_id, counters));
                proof {
                    self.lemma_replace(before, i as int, old(self));
                }
            },
            None => {
                self.users.push((user_id, counters));
                proof {
                    self.lemma_push(before, old(self));
                }
            },
        }
    }

    /// The registry as stored: each row sets a user's counters, a later row
    /// for the same user replacing an earlier one.
    pub fn from_rows(rows: Vec<(String, Snapshot)>) -> (m: Monitor)
        ensures
            m.well_formed(),
            forall|id: Seq<char>|
                #![auto]
                m.view().contains_key(id) <==> exists|i: int| 0 <= i < rows@.len() && rows@[i].0@ == id,
            forall|i: int|
                0 <= i < rows@.len() && (forall|j: int| i < j < rows@.len() ==> rows@[j].0@ != rows@[i].0@)
                    ==> m.view()[#[trigger] rows@[i].0@] == snapshot_view(rows@[i].1),
    {
        let mut m = Monitor::new();
        let ghost all = rows@;
        let total = rows.len();
        assert(all.len() == total);
        let mut rest = rows;
        let mut reversed: Vec<(String, Snapshot)> = Vec::new();
        while rest.len() > 0
            invariant
                reversed@.len() + rest@.len() == all.len(),
                all.len() <= usize::MAX,
                rest@ == all.take(rest@.len() as int),
                forall|j: int| 0 <= j < reversed@.len() ==> #[trigger] reversed@[j] == all[all.len() - 1 - j],
            decreases rest.len(),
        {
            let ghost b = rest@;
            let e = rest.pop().unwrap();
            assert(all.take(b.len() as int).drop_last() =~= all.take(b.len() - 1));
            reversed.push(e);
        }
        let mut k: usize = 0;
        while reversed.len() > 0
            invariant
                reversed@.len() + k == all.len(),
                all.len() <= usize::MAX,
                forall|j: int| 0 <= j < reversed@.len() ==> #[trigger] reversed@[j] == all[all.len() - 1 - j],
                m.well_formed(),
                forall|id: Seq<char>|
                    #![auto]
                    m.view().contains_key(id) <==> exists|i: int| 0 <= i < k && all[i].0@ == id,
                forall|i: int|
                    0 <= i < k && (forall|j: int| i < j < k ==> all[j].0@ != all[i].0@)
                        ==> m.view()[#[trigger] all[i].0@] == snapshot_view(all[i].1),
            decreases reversed.len(),
        {
            let (id, s) = reversed.pop().unwrap();
            assert((id, s) == all[k as int]);
            let ghost prev = m.view();
            m.restore(id, s);
            proof {
                assert forall|x: Seq<char>|
                    #![auto]
                    m.view().contains_key(x) <==> exists|i: int| 0 <= i < k + 1 && all[i].0@ == x by {
                    if exists|i: int| 0 <= i < k && all[i].0@ == x {
                        let i = choose|i: int| 0 <= i < k && all[i].0@ == x;
                    }
                    if exists|i: int| 0 <= i < k + 1 && all[i].0@ == x {
                        let i = choose|i: int| 0 <= i < k + 1 && all[i].0@ == x;
                        if i < k {
                            assert(exists|i: int| 0 <= i < k && all[i].0@ == x);
                        }
                    }
                }
                assert forall|i: int|
                    0 <= i < k + 1 && (forall|j: int| i < j < k + 1 ==> all[j].0@ != all[i].0@)
                        implies m.view()[#[trigger] all[i].0@] == snapshot_view(all[i].1) by {
                    if i < k {
                        assert(all[k as int].0@ != all[i].0@);
                    }
                }
            }
            k += 1;
        }
        m
    }

    /// The counters of a user, created with zero counts at time `now` when
    /// the user is new.
    pub fn for_user_at(&mut self, user_id: &str, now: i64) -> (s: Snapshot)
        requires
            old(self).well_formed(),
        ensures
            final(self).well_formed(),
            old(self).view().contains_key(user_id@) ==> final(self).view() == old(self).view(),
            !old(self).view().contains_key(user_id@) ==> final(self).view() == old(self).view().insert(
                user_id@,
                fresh(now),
            ),
            final(self).view().contains_key(user_id@),
            snapshot_view(s) == final(self).view()[user_id@],
    {
        match self.find(user_id) {
            Some(i) => {
                proof {
                    self.lemma_view_at(i as int);
                }
                self.users[i].1.snapshot()
            },
            None => {
                let ghost before = self.users@;
                let counters = Counters {
                    worker_received: 0,
                    worker_sent: 0,
                    upstream_received: 0,
                    upstream_sent: 0,
                    since: now,
                };
                let s = counters.snapshot();
                self.users.push((user_id.to_owned(), counters));
                proof {
                    self.lemma_push(before, old(self));
                }
                s
            },
        }
    }

    /// The counters of a user, created with zero counts now when the user is
    /// new.
    pub fn for_user(&mut self, user_id: &str) -> (s: Snapshot)
        requires
            old(self).well_formed(),
        ensures
            final(self).well_formed(),
            old(self).view().contains_key(user_id@) ==> final(self).view() == old(self).view(),
            !old(self).view().contains_key(user_id@) ==> (exists|t: i64|
                0 <= t <= 10_000_000_000_000 && final(self).view() == old(self).view().insert(
                    user_id@,
                    #[trigger] fresh(t),
                )),
            snapshot_view(s) == final(self).view()[user_id@],
    {
        let t = now();
        let s = self.for_user_at(user_id, t);
        proof {
            if !old(self).view().contains_key(user_id@) {
                assert(self.view() == old(self).view().insert(user_id@, fresh(t)));
            }
        }
        s
    }

    /// Counts `bytes` more for a user in direction `d`; the user is created
    /// at time `now` when new.
    pub fn record(&mut self, user_id: &str, d: Direction, bytes: u64, now: i64)
        requires
            old(self).well_formed(),
        ensures
            final(self).well_formed(),
            final(self).view() == old(self).view().insert(
                user_id@,
                count(
                    if old(self).view().contains_key(user_id@) {
                        old(self).view()[user_id@]
                    } else {
                        fresh(now)
                    },
                    d,
                    bytes,
                ),
            ),
    {
        let ghost start = self.view();
        self.for_user_at(user_id, now);
        let ghost mid = self.view();
        let i = match self.find(user_id) {
            Some(i) => i,
            None => {
                return;
            },
        };
        proof {
            self.lemma_view_at(i as int);
        }
        let ghost before = self.users@;
        let ghost prev_self = *self;
        let (id, c) = self.users.remove(i);
        let updated = match d {
            Direction::WorkerReceived => Counters {
                worker_received: wrapping(c.worker_received, bytes),
                ..c
            },
            Direction::WorkerSent => Counters { worker_sent: wrapping(c.worker_sent, bytes), ..c },
            Direction::UpstreamReceived => Counters {
                upstream_received: wrapping(c.upstream_received, bytes),
                ..c
            },
            Direction::UpstreamSent => Counters {
                upstream_sent: wrapping(c.upstream_sent, bytes),
                ..c
            },
        };
        self.users.insert(i, (id, updated));
        proof {
            assert(self.users@ =~= before.update(i as int, self.users@[i as int]));
            self.lemma_replace(before, i as int, &prev_self);
            assert(self.view() =~= start.insert(
                user_id@,
                count(
                    if start.contains_key(user_id@) {
                        start[user_id@]
                    } else {
                        fresh(now)
                    },
                    d,
                    bytes,
                ),
            ));
        }
    }

    /// The counters of a known user.
    pub fn snapshot(&self, user_id: &str) -> (r: Option<Snapshot>)
        requires
            self.well_formed(),
        ensures
            r is Some <==> self.view().contains_key(user_id@),
            r matches Some(s) ==> snapshot_view(s) == self.view()[user_id@],
    {
        match self.find(user_id) {
            Some(i) => {
                proof {
                    self.lemma_view_at(i as int);
                }
                Some(self.users[i].1.snapshot())
            },
            None => None,
        }
    }

    /// The rows to store: one per user with that user's counters.
    pub fn persist(&self) -> (rows: Vec<(String, Snapshot)>)
        requires
            self.well_formed(),
        ensures
            rows@.len() == self.view().dom().len(),
            forall|i: int|
                0 <= i < rows@.len() ==> self.view().contains_key(#[trigger] rows@[i].0@)
                    && snapshot_view(rows@[i].1) == self.view()[rows@[i].0@],
            forall|i: int, j: int| 0 <= i < j < rows@.len() ==> rows@[i].0@ != rows@[j].0@,
    {
        let mut rows: Vec<(String, Snapshot)> = Vec::new();
        let mut i: usize = 0;
        while i < self.users.len()
            invariant
                self.well_formed(),
                i <= self.users@.len(),
                rows@.len() == i,
                forall|j: int|
                    0 <= j < i ==> (#[trigger] rows@[j]).0@ == self.users@[j].0@ && snapshot_view(
                        rows@[j].1,
                    ) == counters_view(self.users@[j].1),
            decreases self.users@.len() - i,
        {
            rows.push((self.users[i].0.clone(), self.users[i].1.snapshot()));
            i += 1;
        }
        proof {
            assert forall|i: int|
                0 <= i < rows@.len() implies self.view().contains_key(#[trigger] rows@[i].0@)
                && snapshot_view(rows@[i].1) == self.view()[rows@[i].0@] by {
                self.lemma_view_at(i);
            }
            self.lemma_dom_len();
        }
        rows
    }

    proof fn lemma_dom_len(&self)
        requires
            self.well_formed(),
        ensures
            self.view().dom().len() == self.users@.len(),
    {
        let ids = self.users@.map_values(|u: (String, Counters)| u.0@);
        assert(ids.no_duplicates()) by {
            assert forall|i: int, j: int|
                0 <= i < ids.len() && 0 <= j < ids.len() && i != j implies ids[i] != ids[j] by {
                if i < j {
                    assert(self.users@[i].0@ != self.users@[j].0@);
                } else {
                    assert(self.users@[j].0@ != self.users@[i].0@);
                }
            }
        }
        assert(self.view().dom() =~= ids.to_set()) by {
            assert forall|id: Seq<char>| self.view().dom().contains(id) implies ids.to_set().contains(
                id,
            ) by {
                let k = choose|k: int| 0 <= k < self.users@.len() && self.users@[k].0@ == id;
                assert(ids[k] == id);
            }
            assert forall|id: Seq<char>| ids.to_set().contains(id) implies self.view().dom().contains(
                id,
            ) by {
                let k = choose|k: int| 0 <= k < ids.len() && ids[k] == id;
                assert(self.users@[k].0@ == id);
            }
        }
        ids.unique_seq_to_set();
    }

    /// The users of a monitor form a finite set, one entry per stored user.
    proof fn lemma_dom_finite(&self)
        requires
            self.well_formed(),
        ensures
            self.view().dom().finite(),
            self.view().dom().len() == self.users@.len(),
    {
        let ids = self.users@.map_values(|u: (String, Counters)| u.0@);
        assert(self.view().dom() =~= ids.to_set()) by {
            assert forall|id: Seq<char>| self.view().dom().contains(id) implies ids.to_set().contains(
                id,
            ) by {
                let k = choose|k: int| 0 <= k < self.users@.len() && self.users@[k].0@ == id;
                assert(ids[k] == id);
            }
            assert forall|id: Seq<char>| ids.to_set().contains(id) implies self.view().dom().contains(
                id,
            ) by {
                let k = choose|k: int| 0 <= k < ids.len() && ids[k] == id;
                assert(self.users@[k].0@ == id);
            }
        }
        vstd::seq_lib::seq_to_set_is_finite(ids);
        self.lemma_dom_len();
    }

    /// Storing the counters and reading the stored rows back restores every
    /// user's counters: the rows that `persist` returns, read back by
    /// `from_rows`, give a monitor with the same view.
    pub proof fn lemma_persist_then_restore(
        m: Monitor,
        rows: Seq<(String, Snapshot)>,
        restored: Monitor,
    )
        requires
            m.well_formed(),
            rows.len() == m.view().dom().len(),
            forall|i: int|
                0 <= i < rows.len() ==> m.view().contains_key(#[trigger] rows[i].0@)
                    && snapshot_view(rows[i].1) == m.view()[rows[i].0@],
            forall|i: int, j: int| 0 <= i < j < rows.len() ==> rows[i].0@ != rows[j].0@,
            forall|id: Seq<char>|
                #![auto]
                restored.view().contains_key(id) <==> exists|i: int|
                    0 <= i < rows.len() && rows[i].0@ == id,
            forall|i: int|
                0 <= i < rows.len() && (forall|j: int| i < j < rows.len() ==> rows[j].0@ != rows[i].0@)
                    ==> restored.view()[#[trigger] rows[i].0@] == snapshot_view(rows[i].1),
        ensures
            restored.view() == m.view(),
    {
        let ids = rows.map_values(|r: (String, Snapshot)| r.0@);
        assert(ids.no_duplicates()) by {
            assert forall|i: int, j: int|
                0 <= i < ids.len() && 0 <= j < ids.len() && i != j implies ids[i] != ids[j] by {
                if i < j {
                    assert(rows[i].0@ != rows[j].0@);
                } else {
                    assert(rows[j].0@ != rows[i].0@);
                }
            }
        }
        ids.unique_seq_to_set();
        vstd::seq_lib::seq_to_set_is_finite(ids);
        m.lemma_dom_finite();
        assert(ids.to_set().subset_of(m.view().dom())) by {
            assert forall|id: Seq<char>| ids.to_set().contains(id) implies m.view().dom().contains(
                id,
            ) by {
                let k = choose|k: int| 0 <= k < ids.len() && ids[k] == id;
                assert(m.view().contains_key(rows[k].0@));
            }
        }
        vstd::set_lib::lemma_subset_equality(ids.to_set(), m.view().dom());
        assert forall|id: Seq<char>| #![auto] restored.view().contains_key(id) == m.view().contains_key(
            id,
        ) by {
            if m.view().contains_key(id) {
                assert(ids.to_set().contains(id));
                let k = choose|k: int| 0 <= k < ids.len() && ids[k] == id;
                assert(rows[k].0@ == id);
            }
            if restored.view().contains_key(id) {
                let k = choose|k: int| 0 <= k < rows.len() && rows[k].0@ == id;
                assert(m.view().contains_key(rows[k].0@));
            }
        }
        assert forall|id: Seq<char>| m.view().contains_key(id) implies #[trigger] restored.view()[id]
            == m.view()[id] by {
            assert(ids.to_set().contains(id));
            let k = choose|k: int| 0 <= k < ids.len() && ids[k] == id;
            assert(rows[k].0@ == id);
            assert forall|j: int| k < j < rows.len() implies rows[j].0@ != rows[k].0@ by {}
        }
        assert(restored.view() =~= m.view());
    }
}

} // verus!
