//! The registry of the requests that are running, one per user thread, keyed
//! by the request key of the thread. It holds the history record each request
//! stands for; the cancellation channels themselves live beside it, under the
//! same keys, and every operation says which of them to signal.
use vstd::prelude::*;
use crate::text::str_equals;

verus! {

/// The running requests by thread key.
pub struct ActiveRequests {
    entries: Vec<(String, i64)>,
}

/// What registering a new input did.
#[derive(PartialEq, Eq, Structural, Clone, Copy, Debug)]
pub enum Registration {
    /// The input is now the thread's running request; `replaced` tells
    /// whether an older request was running and must be cancelled.
    Started { replaced: bool },
    /// A newer request already runs: the new one is cancelled at once.
    Cancelled,
}

impl ActiveRequests {
    pub closed spec fn well_formed(&self) -> bool {
        forall|i: int, j: int|
            0 <= i < j < self.entries@.len() ==> self.entries@[i].0@ != self.entries@[j].0@
    }

    /// The running request of each thread key.
    pub closed spec fn view(&self) -> Map<Seq<char>, i64> {
        Map::new(
            |k: Seq<char>| exists|i: int| 0 <= i < self.entries@.len() && self.entries@[i].0@ == k,
            |k: Seq<char>|
                self.entries@[choose|i: int|
                    0 <= i < self.entries@.len() && self.entries@[i].0@ == k].1,
        )
    }

    proof fn lemma_view_at(&self, i: int)
        requires
            self.well_formed(),
            0 <= i < self.entries@.len(),
        ensures
            self.view().contains_key(self.entries@[i].0@),
            self.view()[self.entries@[i].0@] == self.entries@[i].1,
    {
        let k = self.entries@[i].0@;
        let j = choose|j: int| 0 <= j < self.entries@.len() && self.entries@[j].0@ == k;
        if j != i {
            if j < i {
                assert(self.entries@[j].0@ != self.entries@[i].0@);
            } else {
                assert(self.entries@[i].0@ != self.entries@[j].0@);
            }
        }
    }

    pub fn new() -> (r: ActiveRequests)
        ensures
            r.well_formed(),
            r.view() == Map::<Seq<char>, i64>::empty(),
    {
        let r = ActiveRequests { entries: Vec::new() };
        assert(r.view() =~= Map::<Seq<char>, i64>::empty());
        r
    }

    fn find(&self, key: &str) -> (r: Option<usize>)
        requires
            self.well_formed(),
        ensures
            r matches Some(i) ==> i < self.entries@.len() && self.entries@[i as int].0@ == key@,
            r is Some <==> self.view().contains_key(key@),
    {
        let mut i: usize = 0;
        while i < self.entries.len()
            invariant
                self.well_formed(),
                i <= self.entries@.len(),
                forall|j: int| 0 <= j < i ==> self.entries@[j].0@ != key@,
            decreases self.entries@.len() - i,
        {
            if str_equals(self.entries[i].0.as_str(), key) {
                proof {
                    self.lemma_view_at(i as int);
                }
                return Some(i);
            }
            i += 1;
        }
        None
    }

    /// The record of the request running under `key`.
    pub fn current(&self, key: &str) -> (r: Option<i64>)
        requires
            self.well_formed(),
        ensures
            r == (if self.view().contains_key(key@) {
                Some(self.view()[key@])
            } else {
                None
            }),
    {
        match self.find(key) {
            Some(i) => {
                proof {
                    self.lemma_view_at(i as int);
                }
                Some(self.entries[i].1)
            },
            None => None,
        }
    }

    /// Whether the request for `record_idx` is still the one running under
    /// `key`.
    pub fn is_current(&self, key: &str, record_idx: i64) -> (r: bool)
        requires
            self.well_formed(),
        ensures
            r == (self.view().contains_key(key@) && self.view()[key@] == record_idx),
    {
        match self.current(key) {
            Some(i) => i == record_idx,
            None => false,
        }
    }

    fn set(&mut self, key: String, record_idx: i64) -> (replaced: bool)
        requires
            old(self).well_formed(),
        ensures
            final(self).well_formed(),
            final(self).view() == old(self).view().insert(key@, record_idx),
            replaced == old(self).view().contains_key(key@),
    {
        let ghost before = self.entries@;
        let ghost prev = *old(self);
        match self.find(key.as_str()) {
            Some(i) => {
                proof {
                    self.lemma_view_at(i as int);
                }
                self.entries.set(i, (key, record_idx));
                proof {
                    let k = before[i as int].0@;
                    assert forall|a: int, b: int|
                        0 <= a < b < self.entries@.len() implies self.entries@[a].0@
                        != self.entries@[b].0@ by {
                        assert(before[a].0@ != before[b].0@);
                    }
                    assert forall|x: Seq<char>| #[trigger]
                        self.view().contains_key(x) == prev.view().insert(k, record_idx).contains_key(
                            x,
                        ) by {
                        if exists|j: int| 0 <= j < before.len() && before[j].0@ == x {
                            let j = choose|j: int| 0 <= j < before.len() && before[j].0@ == x;
                            assert(self.entries@[j].0@ == x);
                        }
                        if exists|j: int| 0 <= j < self.entries@.len() && self.entries@[j].0@ == x {
                            let j = choose|j: int|
                                0 <= j < self.entries@.len() && self.entries@[j].0@ == x;
                            assert(before[j].0@ == x);
                        }
                    }
                    assert forall|x: Seq<char>| self.view().contains_key(x) implies #[trigger] self.view()[x]
                        == prev.view().insert(k, record_idx)[x] by {
                        let j = choose|j: int|
                            0 <= j < self.entries@.len() && self.entries@[j].0@ == x;
                        self.lemma_view_at(j);
                        assert(before[j].0@ == x);
                        if x != k {
                            prev.lemma_view_at(j);
                        }
                    }
                    assert(self.view() =~= prev.view().insert(k, record_idx));
                }
                true
            },
            None => {
                let ghost k = key@;
                self.entries.push((key, record_idx));
                proof {
                    let n = before.len() as int;
                    assert forall|a: int, b: int|
                        0 <= a < b < self.entries@.len() implies self.entries@[a].0@
                        != self.entries@[b].0@ by {
                        if b == n {
                            assert(!prev.view().contains_key(k));
                            assert(self.entries@[a] == before[a]);
                        } else {
                            assert(before[a].0@ != before[b].0@);
                        }
                    }
                    assert forall|x: Seq<char>| #[trigger]
                        self.view().contains_key(x) == prev.view().insert(k, record_idx).contains_key(
                            x,
                        ) by {
                        if exists|j: int| 0 <= j < before.len() && before[j].0@ == x {
                            let j = choose|j: int| 0 <= j < before.len() && before[j].0@ == x;
                            assert(self.entries@[j].0@ == x);
                        }
                        if x == k {
                            assert(self.entries@[n].0@ == x);
                        }
                        if exists|j: int| 0 <= j < self.entries@.len() && self.entries@[j].0@ == x {
                            let j = choose|j: int|
                                0 <= j < self.entries@.len() && self.entries@[j].0@ == x;
                            if j < n {
                                assert(before[j].0@ == x);
                            }
                        }
                    }
                    assert forall|x: Seq<char>| self.view().contains_key(x) implies #[trigger] self.view()[x]
                        == prev.view().insert(k, record_idx)[x] by {
                        let j = choose|j: int|
                            0 <= j < self.entries@.len() && self.entries@[j].0@ == x;
                        self.lemma_view_at(j);
                        if j < n {
                            assert(before[j].0@ == x);
                            prev.lemma_view_at(j);
                        }
                    }
                    assert(self.view() =~= prev.view().insert(k, record_idx));
                }
                false
            },
        }
    }

    fn remove_at(&mut self, i: usize)
        requires
            old(self).well_formed(),
            i < old(self).entries@.len(),
        ensures
            final(self).well_formed(),
            final(self).view() == old(self).view().remove(old(self).entries@[i as int].0@),
    {
        let ghost before = self.entries@;
        let ghost prev = *old(self);
        let ghost k = before[i as int].0@;
        self.entries.remove(i);
        proof {
            assert forall|a: int, b: int|
                0 <= a < b < self.entries@.len() implies self.entries@[a].0@
                != self.entries@[b].0@ by {
                let a0 = if a < i { a } else { a + 1 };
                let b0 = if b < i { b } else { b + 1 };
                assert(self.entries@[a] == before[a0]);
                assert(self.entries@[b] == before[b0]);
                assert(before[a0].0@ != before[b0].0@);
            }
            assert forall|x: Seq<char>| #[trigger]
                self.view().contains_key(x) == prev.view().remove(k).contains_key(x) by {
                if exists|j: int| 0 <= j < before.len() && before[j].0@ == x {
                    let j = choose|j: int| 0 <= j < before.len() && before[j].0@ == x;
                    if x != k {
                        assert(j != i);
                        if j < i {
                            assert(self.entries@[j].0@ == x);
                        } else {
                            assert(self.entries@[j - 1].0@ == x);
                        }
                    }
                }
                if exists|j: int| 0 <= j < self.entries@.len() && self.entries@[j].0@ == x {
                    let j = choose|j: int| 0 <= j < self.entries@.len() && self.entries@[j].0@ == x;
                    let j0 = if j < i { j } else { j + 1 };
                    assert(before[j0].0@ == x);
                    assert(j0 != i as int);
                    assert(before[j0].0@ != before[i as int].0@);
                }
            }
            assert forall|x: Seq<char>| self.view().contains_key(x) implies #[trigger] self.view()[x]
                == prev.view().remove(k)[x] by {
                let j = choose|j: int| 0 <= j < self.entries@.len() && self.entries@[j].0@ == x;
                self.lemma_view_at(j);
                let j0 = if j < i { j } else { j + 1 };
                assert(before[j0] == self.entries@[j]);
                prev.lemma_view_at(j0);
            }
            assert(self.view() =~= prev.view().remove(k));
        }
    }

    /// Registers the request of a new input: it becomes the running request
    /// unless a request for a later record already runs, in which case the
    /// new one is cancelled.
    pub fn register_input(&mut self, key: String, record_idx: i64) -> (r: Registration)
        requires
            old(self).well_formed(),
        ensures
            final(self).well_formed(),
            final(self).view() == register_view(old(self).view(), key@, record_idx),
            !old(self).view().contains_key(key@) ==> r == (Registration::Started { replaced: false })
                && final(self).view() == old(self).view().insert(key@, record_idx),
            old(self).view().contains_key(key@) && old(self).view()[key@] < record_idx ==> r
                == (Registration::Started { replaced: true }) && final(self).view()
                == old(self).view().insert(key@, record_idx),
            old(self).view().contains_key(key@) && old(self).view()[key@] >= record_idx ==> r
                == Registration::Cancelled && final(self).view() == old(self).view(),
    {
        let replace = match self.current(key.as_str()) {
            Some(current) => current < record_idx,
            None => true,
        };
        if replace {
            let replaced = self.set(key, record_idx);
            Registration::Started { replaced }
        } else {
            Registration::Cancelled
        }
    }

    /// Registers a continue, compact or resumed request: it always becomes
    /// the running request; the result tells whether another was replaced.
    pub fn register_control(&mut self, key: String, record_idx: i64) -> (replaced: bool)
        requires
            old(self).well_formed(),
        ensures
            final(self).well_formed(),
            final(self).view() == old(self).view().insert(key@, record_idx),
            replaced == old(self).view().contains_key(key@),
    {
        self.set(key, record_idx)
    }

    /// Takes the running request of `key` out of the registry, when the user
    /// cancels it; the result tells whether there was one to signal.
    pub fn cancel(&mut self, key: &str) -> (cancelled: bool)
        requires
            old(self).well_formed(),
        ensures
            final(self).well_formed(),
            final(self).view() == old(self).view().remove(key@),
            cancelled == old(self).view().contains_key(key@),
    {
        match self.find(key) {
            Some(i) => {
                self.remove_at(i);
                true
            },
            None => {
                assert(self.view().remove(key@) =~= self.view());
                false
            },
        }
    }

    /// A finished request leaves the registry, unless a newer one has taken
    /// its place.
    pub fn clear(&mut self, key: &str, record_idx: i64)
        requires
            old(self).well_formed(),
        ensures
            final(self).well_formed(),
            old(self).view().contains_key(key@) && old(self).view()[key@] == record_idx
                ==> final(self).view() == old(self).view().remove(key@),
            !(old(self).view().contains_key(key@) && old(self).view()[key@] == record_idx)
                ==> final(self).view() == old(self).view(),
    {
        match self.find(key) {
            Some(i) => {
                proof {
                    self.lemma_view_at(i as int);
                }
                if self.entries[i].1 == record_idx {
                    self.remove_at(i);
                }
            },
            None => {},
        }
    }
}

/// A newer input always wins, whatever order two inputs of a thread are
/// registered in: both orders leave the same registry, running the latest of
/// the two records and of the one that ran before.
pub proof fn lemma_newer_input_wins(m: Map<Seq<char>, i64>, key: Seq<char>, a: i64, b: i64)
    ensures
        register_view(register_view(m, key, a), key, b) == register_view(
            register_view(m, key, b),
            key,
            a,
        ),
        register_view(register_view(m, key, a), key, b)[key] == (if m.contains_key(key)
            && m[key] >= a && m[key] >= b {
            m[key]
        } else if a >= b {
            a
        } else {
            b
        }),
{
    assert(register_view(register_view(m, key, a), key, b) =~= register_view(
        register_view(m, key, b),
        key,
        a,
    ));
}

/// The registry after `register_input` of `record_idx` under `key`.
pub open spec fn register_view(m: Map<Seq<char>, i64>, key: Seq<char>, record_idx: i64) -> Map<
    Seq<char>,
    i64,
> {
    if !m.contains_key(key) || m[key] < record_idx {
        m.insert(key, record_idx)
    } else {
        m
    }
}

} // verus!
