//! Browser sessions: the registry of open sessions and their pending
//! approvals, key normalization, and which computer actions need approval.
//! The browser processes themselves are driven outside the library; each
//! decision here says what the driver must do.
use vstd::prelude::*;
use crate::json::{get_spec, lemma_object_view, member_views, str_member, views, Json, JsonV};
use crate::context::{remove_key, without_key};
use crate::ids::{is_web_url, web_url};
use crate::text::{
    decimal, ascii_upper, chars_of, extend_chars, seq_equals, str_equals, string_of, to_upper, upper_seq,
};

verus! {

#[derive(Debug)]
pub struct BrowserApproval {
    pub id: String,
    pub description: String,
}

#[derive(Debug)]
pub struct BrowserSessionSummary {
    pub id: String,
    pub computer_use_enabled: bool,
    pub created_at: String,
    pub url: String,
    pub pending_approval: Option<BrowserApproval>,
}

#[derive(Debug)]
pub struct BrowserRunScope {
    pub id: String,
    pub computer_use_enabled: bool,
}

/// What the registry knows of one session.
pub struct BrowserSession {
    pub id: String,
    pub computer_use_enabled: bool,
    pub created_at: String,
    pub url: String,
    pub pending_approval: Option<BrowserApproval>,
    /// Element references handed to the model (`r1`, `r2`, ...) and the
    /// page tokens they stand for.
    pub refs: Vec<(String, String)>,
    /// How many references were handed out.
    pub next_ref: u64,
}

/// The registry's view of one session.
pub struct SessionV {
    pub computer_use_enabled: bool,
    pub created_at: Seq<char>,
    pub url: Seq<char>,
    /// Identifier and description of the action awaiting approval.
    pub pending: Option<(Seq<char>, Seq<char>)>,
    pub refs: Seq<(Seq<char>, Seq<char>)>,
    pub next_ref: u64,
}

pub open spec fn refs_view(r: Seq<(String, String)>) -> Seq<(Seq<char>, Seq<char>)> {
    r.map_values(|p: (String, String)| (p.0@, p.1@))
}

pub open spec fn approval_view(a: Option<BrowserApproval>) -> Option<(Seq<char>, Seq<char>)> {
    match a {
        Some(p) => Some((p.id@, p.description@)),
        None => None,
    }
}

pub open spec fn session_view(s: BrowserSession) -> SessionV {
    SessionV {
        computer_use_enabled: s.computer_use_enabled,
        created_at: s.created_at@,
        url: s.url@,
        pending: approval_view(s.pending_approval),
        refs: refs_view(s.refs@),
        next_ref: s.next_ref,
    }
}

/// The open browser sessions, each under a distinct identifier.
pub struct BrowserManager {
    sessions: Vec<BrowserSession>,
}

/// The error that an unknown session answers with.
pub open spec fn missing_session() -> Seq<char> {
    "browser session does not exist"@
}

/// The error that an unknown element reference answers with.
pub open spec fn unknown_reference() -> Seq<char> {
    "unknown browser element reference; take a fresh snapshot"@
}

/// The name of the `n`-th element reference of a session.
pub open spec fn ref_name(n: int) -> Seq<char> {
    seq!['r'] + decimal(n as nat)
}

/// The references handed out for `tokens` after `start` earlier ones.
pub open spec fn new_refs(start: u64, tokens: Seq<Seq<char>>) -> Seq<(Seq<char>, Seq<char>)> {
    Seq::new(tokens.len(), |k: int| (ref_name(start + k + 1), tokens[k]))
}

/// Every one of the first `n` snapshot elements carries a page token.
pub open spec fn tokens_upto(items: Seq<JsonV>, n: int) -> bool {
    forall|j: int| 0 <= j < n ==> str_member(#[trigger] items[j], "token"@) is Some
}

/// The page tokens of snapshot elements.
pub open spec fn item_tokens(items: Seq<JsonV>) -> Seq<Seq<char>> {
    items.map_values(|v: JsonV| str_member(v, "token"@)->0)
}

/// The error that a snapshot element without a page token answers with.
pub open spec fn invalid_snapshot() -> Seq<char> {
    "browser returned an invalid element snapshot"@
}

/// The token of the latest reference named `name`.
pub open spec fn ref_lookup(refs: Seq<(Seq<char>, Seq<char>)>, name: Seq<char>) -> Option<Seq<char>>
    decreases refs.len(),
{
    if refs.len() == 0 {
        None
    } else if refs.last().0 == name {
        Some(refs.last().1)
    } else {
        ref_lookup(refs.drop_last(), name)
    }
}

fn ref_text(n: u64) -> (r: String)
    ensures
        r@ == ref_name(n as int),
{
    let mut v: Vec<char> = Vec::new();
    v.push('r');
    let d = crate::text::decimal_u64(n);
    crate::text::extend_chars(&mut v, d.as_slice());
    assert(v@ =~= seq!['r'] + decimal(n as nat));
    string_of(v.as_slice())
}

impl BrowserManager {
    pub closed spec fn well_formed(&self) -> bool {
        forall|i: int, j: int|
            0 <= i < j < self.sessions@.len() ==> self.sessions@[i].id@ != self.sessions@[j].id@
    }

    /// The sessions by identifier.
    pub closed spec fn view(&self) -> Map<Seq<char>, SessionV> {
        Map::new(
            |id: Seq<char>| exists|i: int| 0 <= i < self.sessions@.len() && self.sessions@[i].id@ == id,
            |id: Seq<char>|
                session_view(
                    self.sessions@[choose|i: int|
                        0 <= i < self.sessions@.len() && self.sessions@[i].id@ == id],
                ),
        )
    }

    proof fn lemma_view_at(&self, i: int)
        requires
            self.well_formed(),
            0 <= i < self.sessions@.len(),
        ensures
            self.view().contains_key(self.sessions@[i].id@),
            self.view()[self.sessions@[i].id@] == session_view(self.sessions@[i]),
    {
        let id = self.sessions@[i].id@;
        let k = choose|k: int| 0 <= k < self.sessions@.len() && self.sessions@[k].id@ == id;
        if k != i {
            if k < i {
                assert(self.sessions@[k].id@ != self.sessions@[i].id@);
            } else {
                assert(self.sessions@[i].id@ != self.sessions@[k].id@);
            }
        }
    }

    pub fn new() -> (m: BrowserManager)
        ensures
            m.well_formed(),
            m.view() == Map::<Seq<char>, SessionV>::empty(),
    {
        let m = BrowserManager { sessions: Vec::new() };
        assert(m.view() =~= Map::<Seq<char>, SessionV>::empty());
        m
    }

    fn find(&self, id: &str) -> (r: Option<usize>)
        requires
            self.well_formed(),
        ensures
            r matches Some(i) ==> i < self.sessions@.len() && self.sessions@[i as int].id@ == id@,
            r is None ==> !self.view().contains_key(id@),
            r is Some <==> self.view().contains_key(id@),
    {
        let mut i: usize = 0;
        while i < self.sessions.len()
            invariant
                self.well_formed(),
                i <= self.sessions@.len(),
                forall|j: int| 0 <= j < i ==> self.sessions@[j].id@ != id@,
            decreases self.sessions@.len() - i,
        {
            if str_equals(self.sessions[i].id.as_str(), id) {
                proof {
                    self.lemma_view_at(i as int);
                }
                return Some(i);
            }
            i += 1;
        }
        None
    }

    /// Registers a newly launched session; an existing session with the same
    /// identifier is replaced.
    pub fn insert(&mut self, session: BrowserSession) -> (summary: BrowserSessionSummary)
        requires
            old(self).well_formed(),
        ensures
            final(self).well_formed(),
            final(self).view() == old(self).view().insert(session.id@, session_view(session)),
            summary_matches(summary, session.id@, session_view(session)),
    {
        let summary = summary_of(&session);
        let ghost sid = session.id@;
        let ghost sv = session_view(session);
        match self.find(session.id.as_str()) {
            Some(i) => {
                let ghost before = self.sessions@;
                self.sessions.set(i, session);
                proof {
                    assert forall|a: int, b: int|
                        0 <= a < b < self.sessions@.len() implies self.sessions@[a].id@
                        != self.sessions@[b].id@ by {
                        assert(before[a].id@ != before[b].id@);
                    }
                    assert forall|id: Seq<char>|
                        #![auto]
                        self.view().contains_key(id) == old(self).view().insert(sid, sv).contains_key(id)
                        by {
                        if exists|k: int| 0 <= k < before.len() && before[k].id@ == id {
                            let k = choose|k: int| 0 <= k < before.len() && before[k].id@ == id;
                            assert(self.sessions@[k].id@ == id || k == i);
                        }
                        if exists|k: int| 0 <= k < self.sessions@.len() && self.sessions@[k].id@ == id {
                            let k = choose|k: int|
                                0 <= k < self.sessions@.len() && self.sessions@[k].id@ == id;
                            if k != i {
                                assert(before[k].id@ == id);
                            }
                        }
                    }
                    assert forall|id: Seq<char>|
                        self.view().contains_key(id) implies #[trigger] self.view()[id] == old(
                            self,
                        ).view().insert(sid, sv)[id] by {
                        let k = choose|k: int|
                            0 <= k < self.sessions@.len() && self.sessions@[k].id@ == id;
                        self.lemma_view_at(k);
                        if k != i {
                            assert(before[k].id@ == id);
                            old(self).lemma_view_at(k);
                        }
                    }
                    assert(self.view() =~= old(self).view().insert(sid, sv));
                }
            },
            None => {
                let ghost before = self.sessions@;
                self.sessions.push(session);
                proof {
                    let n = before.len() as int;
                    assert forall|a: int, b: int|
                        0 <= a < b < self.sessions@.len() implies self.sessions@[a].id@
                        != self.sessions@[b].id@ by {
                        if b == n {
                            assert(old(self).view().contains_key(before[a].id@)) by {
                                assert(before[a].id@ == before[a].id@);
                            }
                        } else {
                            assert(before[a].id@ != before[b].id@);
                        }
                    }
                    assert forall|id: Seq<char>|
                        #![auto]
                        self.view().contains_key(id) == old(self).view().insert(sid, sv).contains_key(id)
                        by {
                        if exists|k: int| 0 <= k < before.len() && before[k].id@ == id {
                            let k = choose|k: int| 0 <= k < before.len() && before[k].id@ == id;
                            assert(self.sessions@[k].id@ == id);
                        }
                        if id == sid {
                            assert(self.sessions@[n].id@ == id);
                        }
                        if exists|k: int| 0 <= k < self.sessions@.len() && self.sessions@[k].id@ == id {
                            let k = choose|k: int|
                                0 <= k < self.sessions@.len() && self.sessions@[k].id@ == id;
                            if k < n {
                                assert(before[k].id@ == id);
                            }
                        }
                    }
                    assert forall|id: Seq<char>|
                        self.view().contains_key(id) implies #[trigger] self.view()[id] == old(
                            self,
                        ).view().insert(sid, sv)[id] by {
                        let k = choose|k: int|
                            0 <= k < self.sessions@.len() && self.sessions@[k].id@ == id;
                        self.lemma_view_at(k);
                        if k < n {
                            assert(before[k].id@ == id);
                            old(self).lemma_view_at(k);
                        }
                    }
                    assert(self.view() =~= old(self).view().insert(sid, sv));
                }
            },
        }
        summary
    }

    /// Summaries of every open session.
    pub fn list(&self) -> (r: Vec<BrowserSessionSummary>)
        requires
            self.well_formed(),
        ensures
            r@.len() == self.view().dom().len(),
            forall|i: int|
                0 <= i < r@.len() ==> self.view().contains_key(#[trigger] r@[i].id@)
                    && summary_matches(r@[i], r@[i].id@, self.view()[r@[i].id@]),
            forall|i: int, j: int| 0 <= i < j < r@.len() ==> r@[i].id@ != r@[j].id@,
    {
        let mut out: Vec<BrowserSessionSummary> = Vec::new();
        let mut i: usize = 0;
        while i < self.sessions.len()
            invariant
                self.well_formed(),
                i <= self.sessions@.len(),
                out@.len() == i,
                forall|j: int|
                    0 <= j < i ==> (#[trigger] out@[j]).id@ == self.sessions@[j].id@
                        && summary_matches(out@[j], out@[j].id@, session_view(self.sessions@[j])),
            decreases self.sessions@.len() - i,
        {
            out.push(summary_of(&self.sessions[i]));
            i += 1;
        }
        proof {
            assert forall|i: int|
                0 <= i < out@.len() implies self.view().contains_key(#[trigger] out@[i].id@)
                && summary_matches(out@[i], out@[i].id@, self.view()[out@[i].id@]) by {
                self.lemma_view_at(i);
            }
            self.lemma_dom_len();
        }
        out
    }

    proof fn lemma_dom_len(&self)
        requires
            self.well_formed(),
        ensures
            self.view().dom().len() == self.sessions@.len(),
    {
        let ids = self.sessions@.map_values(|s: BrowserSession| s.id@);
        assert(ids.no_duplicates()) by {
            assert forall|i: int, j: int|
                0 <= i < ids.len() && 0 <= j < ids.len() && i != j implies ids[i] != ids[j] by {
                if i < j {
                    assert(self.sessions@[i].id@ != self.sessions@[j].id@);
                } else {
                    assert(self.sessions@[j].id@ != self.sessions@[i].id@);
                }
            }
        }
        assert(self.view().dom() =~= ids.to_set()) by {
            assert forall|id: Seq<char>| self.view().dom().contains(id) implies ids.to_set().contains(
                id,
            ) by {
                let k = choose|k: int| 0 <= k < self.sessions@.len() && self.sessions@[k].id@ == id;
                assert(ids[k] == id);
            }
            assert forall|id: Seq<char>| ids.to_set().contains(id) implies self.view().dom().contains(
                id,
            ) by {
                let k = choose|k: int| 0 <= k < ids.len() && ids[k] == id;
                assert(self.sessions@[k].id@ == id);
            }
        }
        ids.unique_seq_to_set();
    }

    /// The identity and Computer Use setting of a session.
    pub fn scope(&self, id: &str) -> (r: Result<BrowserRunScope, String>)
        requires
            self.well_formed(),
        ensures
            r is Ok <==> self.view().contains_key(id@),
            r matches Ok(s) ==> s.id@ == id@ && s.computer_use_enabled == self.view()[id@].computer_use_enabled,
            r matches Err(m) ==> m@ == "browser session does not exist or has expired"@,
    {
        match self.find(id) {
            Some(i) => {
                proof {
                    self.lemma_view_at(i as int);
                }
                Ok(
                    BrowserRunScope {
                        id: self.sessions[i].id.clone(),
                        computer_use_enabled: self.sessions[i].computer_use_enabled,
                    },
                )
            },
            None => Err("browser session does not exist or has expired".to_owned()),
        }
    }

    /// Removes a session. The result names the approval that was still
    /// waiting, which the driver must decline.
    pub fn close(&mut self, id: &str) -> (r: Result<Option<BrowserApproval>, String>)
        requires
            old(self).well_formed(),
        ensures
            final(self).well_formed(),
            r is Ok <==> old(self).view().contains_key(id@),
            r matches Ok(p) ==> final(self).view() == old(self).view().remove(id@) && approval_view(p)
                == old(self).view()[id@].pending,
            r is Err ==> final(self).view() == old(self).view(),
            r matches Err(m) ==> m@ == missing_session(),
    {
        match self.find(id) {
            Some(i) => {
                proof {
                    self.lemma_view_at(i as int);
                }
                let ghost before = self.sessions@;
                let removed = self.sessions.remove(i);
                proof {
                    assert forall|a: int, b: int|
                        0 <= a < b < self.sessions@.len() implies self.sessions@[a].id@
                        != self.sessions@[b].id@ by {
                        let a0 = if a < i {
                            a
                        } else {
                            a + 1
                        };
                        let b0 = if b < i {
                            b
                        } else {
                            b + 1
                        };
                        assert(before[a0].id@ != before[b0].id@);
                    }
                    assert forall|k: int|
                        0 <= k < self.sessions@.len() implies (#[trigger] self.sessions@[k]).id@ != id@ by {
                        let k0 = if k < i {
                            k
                        } else {
                            k + 1
                        };
                        if k0 < i {
                            assert(before[k0].id@ != before[i as int].id@);
                        } else {
                            assert(before[i as int].id@ != before[k0].id@);
                        }
                    }
                    assert forall|x: Seq<char>|
                        #![auto]
                        self.view().contains_key(x) == old(self).view().remove(id@).contains_key(x) by {
                        if exists|k: int| 0 <= k < before.len() && before[k].id@ == x {
                            let k = choose|k: int| 0 <= k < before.len() && before[k].id@ == x;
                            if x != id@ {
                                if k < i {
                                    assert(self.sessions@[k].id@ == x);
                                } else if k > i {
                                    assert(self.sessions@[k - 1].id@ == x);
                                }
                            }
                        }
                        if exists|k: int| 0 <= k < self.sessions@.len() && self.sessions@[k].id@ == x {
                            let k = choose|k: int|
                                0 <= k < self.sessions@.len() && self.sessions@[k].id@ == x;
                            if k < i {
                                assert(before[k].id@ == x);
                            } else {
                                assert(before[k + 1].id@ == x);
                            }
                        }
                    }
                    assert forall|x: Seq<char>|
                        self.view().contains_key(x) implies #[trigger] self.view()[x] == old(
                            self,
                        ).view().remove(id@)[x] by {
                        let k = choose|k: int|
                            0 <= k < self.sessions@.len() && self.sessions@[k].id@ == x;
                        self.lemma_view_at(k);
                        let k0 = if k < i {
                            k
                        } else {
                            k + 1
                        };
                        assert(before[k0].id@ == x);
                        old(self).lemma_view_at(k0);
                    }
                    assert(self.view() =~= old(self).view().remove(id@));
                }
                Ok(removed.pending_approval)
            },
            None => Err("browser session does not exist".to_owned()),
        }
    }

    /// Records that an action of session `id` awaits approval.
    pub fn begin_approval(&mut self, id: &str, approval: BrowserApproval) -> (r: Result<(), String>)
        requires
            old(self).well_formed(),
        ensures
            final(self).well_formed(),
            r is Ok <==> old(self).view().contains_key(id@) && old(self).view()[id@].pending is None,
            r is Ok ==> final(self).view() == old(self).view().insert(
                id@,
                SessionV { pending: Some((approval.id@, approval.description@)), ..old(self).view()[id@] },
            ),
            r is Err ==> final(self).view() == old(self).view(),
            r matches Err(m) ==> (if old(self).view().contains_key(id@) {
                m@ == "browser session is already waiting for approval"@
            } else {
                m@ == missing_session()
            }),
    {
        match self.find(id) {
            Some(i) => {
                proof {
                    self.lemma_view_at(i as int);
                }
                if self.sessions[i].pending_approval.is_some() {
                    return Err("browser session is already waiting for approval".to_owned());
                }
                let ghost av = (approval.id@, approval.description@);
                self.update_pending(i, Some(approval));
                Ok(())
            },
            None => Err("browser session does not exist".to_owned()),
        }
    }

    /// Takes the approval that session `id` waits for, so that the driver can
    /// allow the action.
    pub fn approve(&mut self, id: &str) -> (r: Result<BrowserApproval, String>)
        requires
            old(self).well_formed(),
        ensures
            final(self).well_formed(),
            r is Ok <==> old(self).view().contains_key(id@) && old(self).view()[id@].pending is Some,
            r matches Ok(a) ==> Some((a.id@, a.description@)) == old(self).view()[id@].pending
                && final(self).view() == old(self).view().insert(
                id@,
                SessionV { pending: None, ..old(self).view()[id@] },
            ),
            r is Err ==> final(self).view() == old(self).view(),
            r matches Err(m) ==> (if old(self).view().contains_key(id@) {
                m@ == "browser session has no action awaiting approval"@
            } else {
                m@ == missing_session()
            }),
    {
        match self.find(id) {
            Some(i) => {
                proof {
                    self.lemma_view_at(i as int);
                }
                if self.sessions[i].pending_approval.is_none() {
                    return Err("browser session has no action awaiting approval".to_owned());
                }
                let pending = self.update_pending(i, None);
                match pending {
                    Some(a) => Ok(a),
                    None => Err("browser session has no action awaiting approval".to_owned()),
                }
            },
            None => Err("browser session does not exist".to_owned()),
        }
    }

    /// Records the page that session `id` shows after an action.
    pub fn set_url(&mut self, id: &str, url: String) -> (r: Result<(), String>)
        requires
            old(self).well_formed(),
        ensures
            final(self).well_formed(),
            r is Ok <==> old(self).view().contains_key(id@),
            r is Ok ==> final(self).view() == old(self).view().insert(
                id@,
                SessionV { url: url@, ..old(self).view()[id@] },
            ),
            r is Err ==> final(self).view() == old(self).view(),
            r matches Err(m) ==> m@ == missing_session(),
    {
        match self.find(id) {
            Some(i) => {
                proof {
                    self.lemma_view_at(i as int);
                }
                let ghost before = self.sessions@;
                let ghost target = self.sessions@[i as int].id@;
                let s = self.sessions.remove(i);
                let updated = BrowserSession {
                    id: s.id,
                    computer_use_enabled: s.computer_use_enabled,
                    created_at: s.created_at,
                    url,
                    pending_approval: s.pending_approval,
                    refs: s.refs,
                    next_ref: s.next_ref,
                };
                self.sessions.insert(i, updated);
                proof {
                    assert(self.sessions@ =~= before.update(i as int, self.sessions@[i as int]));
                    self.lemma_replace(before, i as int, old(self));
                }
                Ok(())
            },
            None => Err("browser session does not exist".to_owned()),
        }
    }

    /// Hands out references for the elements of a fresh snapshot of session
    /// `id`, in order: each element counts one more reference, and its page
    /// token is kept under the new name. An element without a token ends the
    /// walk with an error; it has already been counted, and the references of
    /// the elements before it stay handed out.
    pub fn snapshot_refs(&mut self, id: &str, items: &[Json]) -> (r: Result<Vec<String>, String>)
        requires
            old(self).well_formed(),
            old(self).view().contains_key(id@) ==> old(self).view()[id@].next_ref + items@.len()
                <= u64::MAX,
        ensures
            final(self).well_formed(),
            !old(self).view().contains_key(id@) ==> (r matches Err(m) && m@ == missing_session()
                && final(self).view() == old(self).view()),
            old(self).view().contains_key(id@) && tokens_upto(views(items@), items@.len() as int)
                ==> (r matches Ok(names) && {
                let before = old(self).view()[id@];
                &&& names@.len() == items@.len()
                &&& forall|k: int|
                    0 <= k < names@.len() ==> (#[trigger] names@[k])@ == ref_name(
                        before.next_ref + k + 1,
                    )
                &&& final(self).view() == old(self).view().insert(
                    id@,
                    SessionV {
                        refs: before.refs + new_refs(before.next_ref, item_tokens(views(items@))),
                        next_ref: (before.next_ref + items@.len()) as u64,
                        ..before
                    },
                )
            }),
            forall|f: int|
                0 <= f < items@.len() && old(self).view().contains_key(id@) && tokens_upto(
                    views(items@),
                    f,
                ) && str_member(#[trigger] views(items@)[f], "token"@) is None ==> (r matches Err(m)
                    && m@ == invalid_snapshot() && {
                    let before = old(self).view()[id@];
                    final(self).view() == old(self).view().insert(
                        id@,
                        SessionV {
                            refs: before.refs + new_refs(
                                before.next_ref,
                                item_tokens(views(items@).take(f)),
                            ),
                            next_ref: (before.next_ref + f + 1) as u64,
                            ..before
                        },
                    )
                }),
    {
        let ghost iv = views(items@);
        match self.find(id) {
            Some(i) => {
                proof {
                    self.lemma_view_at(i as int);
                }
                let ghost before = self.sessions@;
                let ghost prev = *old(self);
                let ghost sv = session_view(self.sessions@[i as int]);
                let s = self.sessions.remove(i);
                let mut refs = s.refs;
                let mut next = s.next_ref;
                let start = s.next_ref;
                let ghost old_refs = refs_view(refs@);
                let mut names: Vec<String> = Vec::new();
                let mut k: usize = 0;
                while k < items.len()
                    invariant
                        k <= items@.len(),
                        start + items@.len() <= u64::MAX,
                        next == start + k,
                        iv == views(items@),
                        tokens_upto(iv, k as int),
                        refs_view(refs@) == old_refs + new_refs(start, item_tokens(iv.take(k as int))),
                        names@.len() == k,
                        forall|j: int| 0 <= j < k ==> (#[trigger] names@[j])@ == ref_name(start + j + 1),
                        self.sessions@ == before.remove(i as int),
                        0 <= i < before.len(),
                        prev.well_formed(),
                        prev.sessions@ == before,
                        before[i as int].id@ == id@,
                        prev == *old(self),
                        prev.view().contains_key(id@),
                        prev.view()[id@] == sv,
                        old_refs == sv.refs,
                        start == sv.next_ref,
                        s.id@ == id@,
                        sv.computer_use_enabled == s.computer_use_enabled,
                        sv.created_at == s.created_at@,
                        sv.url == s.url@,
                        sv.pending == approval_view(s.pending_approval),
                    decreases items@.len() - k,
                {
                    next = next + 1;
                    assert(iv[k as int] == items@[k as int]@);
                    match items[k].str_member("token") {
                        Some(t) => {
                            let name = ref_text(next);
                            let ghost nv = name@;
                            let ghost prevr = refs_view(refs@);
                            refs.push((name, t.clone()));
                            assert(refs_view(refs@) =~= prevr.push((nv, t@)));
                            names.push(ref_text(next));
                            proof {
                                assert(iv.take(k + 1) =~= iv.take(k as int).push(iv[k as int]));
                                assert(item_tokens(iv.take(k + 1)) =~= item_tokens(iv.take(k as int)).push(
                                    t@,
                                ));
                                assert(new_refs(start, item_tokens(iv.take(k + 1))) =~= new_refs(
                                    start,
                                    item_tokens(iv.take(k as int)),
                                ).push((ref_name(start + k + 1), t@)));
                            }
                        },
                        None => {
                            let updated = BrowserSession {
                                id: s.id,
                                computer_use_enabled: s.computer_use_enabled,
                                created_at: s.created_at,
                                url: s.url,
                                pending_approval: s.pending_approval,
                                refs,
                                next_ref: next,
                            };
                            self.sessions.insert(i, updated);
                            proof {
                                assert(self.sessions@ =~= before.update(i as int, self.sessions@[i as int]));
                                self.lemma_replace(before, i as int, &prev);
                                assert forall|f: int|
                                    0 <= f < items@.len() && tokens_upto(iv, f) && str_member(
                                        #[trigger] iv[f],
                                        "token"@,
                                    ) is None implies f == k by {
                                    if f < k {
                                        assert(str_member(iv[f], "token"@) is Some);
                                    } else if f > k {
                                        assert(str_member(iv[k as int], "token"@) is Some);
                                    }
                                }
                            }
                            return Err("browser returned an invalid element snapshot".to_owned());
                        },
                    }
                    k += 1;
                }
                assert(iv.take(k as int) =~= iv);
                let updated = BrowserSession {
                    id: s.id,
                    computer_use_enabled: s.computer_use_enabled,
                    created_at: s.created_at,
                    url: s.url,
                    pending_approval: s.pending_approval,
                    refs,
                    next_ref: next,
                };
                self.sessions.insert(i, updated);
                proof {
                    assert(self.sessions@ =~= before.update(i as int, self.sessions@[i as int]));
                    self.lemma_replace(before, i as int, &prev);
                }
                Ok(names)
            },
            None => Err("browser session does not exist".to_owned()),
        }
    }

    /// The page token that reference `reference` of session `id` stands for.
    pub fn element_token(&self, id: &str, reference: &str) -> (r: Result<String, String>)
        requires
            self.well_formed(),
        ensures
            !self.view().contains_key(id@) ==> (r matches Err(m) && m@ == missing_session()),
            self.view().contains_key(id@) ==> (match ref_lookup(self.view()[id@].refs, reference@) {
                Some(t) => r matches Ok(x) && x@ == t,
                None => r matches Err(m) && m@ == unknown_reference(),
            }),
    {
        match self.find(id) {
            Some(i) => {
                proof {
                    self.lemma_view_at(i as int);
                }
                let refs = &self.sessions[i].refs;
                let ghost rv = refs_view(refs@);
                assert(self.view()[id@].refs == rv);
                let mut k = refs.len();
                assert(rv.take(k as int) =~= rv);
                while k > 0
                    invariant
                        k <= refs@.len(),
                        rv == refs_view(refs@),
                        self.view().contains_key(id@),
                        self.view()[id@].refs == rv,
                        ref_lookup(rv, reference@) == ref_lookup(rv.take(k as int), reference@),
                    decreases k,
                {
                    assert(rv.take(k as int).drop_last() =~= rv.take(k - 1));
                    assert(rv[k - 1] == (refs@[k - 1].0@, refs@[k - 1].1@));
                    if str_equals(refs[k - 1].0.as_str(), reference) {
                        return Ok(refs[k - 1].1.clone());
                    }
                    k -= 1;
                }
                Err("unknown browser element reference; take a fresh snapshot".to_owned())
            },
            None => Err("browser session does not exist".to_owned()),
        }
    }

    /// Replaces the pending approval of session `i` and returns the old one.
    fn update_pending(&mut self, i: usize, pending: Option<BrowserApproval>) -> (r: Option<BrowserApproval>)
        requires
            old(self).well_formed(),
            i < old(self).sessions@.len(),
        ensures
            final(self).well_formed(),
            approval_view(r) == session_view(old(self).sessions@[i as int]).pending,
            final(self).view() == old(self).view().insert(
                old(self).sessions@[i as int].id@,
                SessionV {
                    pending: approval_view(pending),
                    ..session_view(old(self).sessions@[i as int])
                },
            ),
    {
        let ghost before = self.sessions@;
        let s = self.sessions.remove(i);
        let previous = s.pending_approval;
        let updated = BrowserSession {
            id: s.id,
            computer_use_enabled: s.computer_use_enabled,
            created_at: s.created_at,
            url: s.url,
            pending_approval: pending,
            refs: s.refs,
            next_ref: s.next_ref,
        };
        self.sessions.insert(i, updated);
        proof {
            assert(self.sessions@ =~= before.update(i as int, self.sessions@[i as int]));
            self.lemma_replace(before, i as int, old(self));
        }
        previous
    }

    /// Replacing entry `i` by one with the same identifier keeps the registry
    /// well formed and changes only that session's view.
    proof fn lemma_replace(&self, before: Seq<BrowserSession>, i: int, prev: &BrowserManager)
        requires
            prev.well_formed(),
            prev.sessions@ == before,
            0 <= i < before.len(),
            self.sessions@ == before.update(i, self.sessions@[i]),
            self.sessions@[i].id@ == before[i].id@,
        ensures
            self.well_formed(),
            self.view() == prev.view().insert(before[i].id@, session_view(self.sessions@[i])),
    {
        let sid = before[i].id@;
        assert forall|a: int, b: int|
            0 <= a < b < self.sessions@.len() implies self.sessions@[a].id@ != self.sessions@[b].id@ by {
            assert(before[a].id@ != before[b].id@);
        }
        assert forall|x: Seq<char>|
            #![auto]
            self.view().contains_key(x) == prev.view().insert(sid, session_view(self.sessions@[i])).contains_key(x) by {
            if exists|k: int| 0 <= k < before.len() && before[k].id@ == x {
                let k = choose|k: int| 0 <= k < before.len() && before[k].id@ == x;
                assert(self.sessions@[k].id@ == x);
            }
            if exists|k: int| 0 <= k < self.sessions@.len() && self.sessions@[k].id@ == x {
                let k = choose|k: int| 0 <= k < self.sessions@.len() && self.sessions@[k].id@ == x;
                assert(before[k].id@ == x);
            }
        }
        assert forall|x: Seq<char>|
            self.view().contains_key(x) implies #[trigger] self.view()[x] == prev.view().insert(
                sid,
                session_view(self.sessions@[i]),
            )[x] by {
            let k = choose|k: int| 0 <= k < self.sessions@.len() && self.sessions@[k].id@ == x;
            self.lemma_view_at(k);
            assert(before[k].id@ == x);
            prev.lemma_view_at(k);
        }
        assert(self.view() =~= prev.view().insert(sid, session_view(self.sessions@[i])));
    }
}

/// The summary describes the session `id` with view `s`.
pub open spec fn summary_matches(summary: BrowserSessionSummary, id: Seq<char>, s: SessionV) -> bool {
    &&& summary.id@ == id
    &&& summary.computer_use_enabled == s.computer_use_enabled
    &&& summary.created_at@ == s.created_at
    &&& summary.url@ == s.url
    &&& approval_view(summary.pending_approval) == s.pending
}

fn copy_approval(a: &Option<BrowserApproval>) -> (r: Option<BrowserApproval>)
    ensures
        approval_view(r) == approval_view(*a),
{
    match a {
        Some(p) => Some(BrowserApproval { id: p.id.clone(), description: p.description.clone() }),
        None => None,
    }
}

/// The summary that a session answers to the browser.
pub fn summary_of(session: &BrowserSession) -> (r: BrowserSessionSummary)
    ensures
        summary_matches(r, session.id@, session_view(*session)),
{
    BrowserSessionSummary {
        id: session.id.clone(),
        computer_use_enabled: session.computer_use_enabled,
        created_at: session.created_at.clone(),
        url: session.url.clone(),
        pending_approval: copy_approval(&session.pending_approval),
    }
}

/// The DOM key name for a key typed by the model or the user.
pub open spec fn key_name(u: Seq<char>) -> Option<Seq<char>> {
    if u == "ENTER"@ || u == "RETURN"@ {
        Some("Enter"@)
    } else if u == "ESC"@ || u == "ESCAPE"@ {
        Some("Escape"@)
    } else if u == "TAB"@ {
        Some("Tab"@)
    } else if u == "SPACE"@ {
        Some(" "@)
    } else if u == "BACKSPACE"@ {
        Some("Backspace"@)
    } else if u == "DELETE"@ || u == "DEL"@ {
        Some("Delete"@)
    } else if u == "ARROWUP"@ || u == "UP"@ {
        Some("ArrowUp"@)
    } else if u == "ARROWDOWN"@ || u == "DOWN"@ {
        Some("ArrowDown"@)
    } else if u == "ARROWLEFT"@ || u == "LEFT"@ {
        Some("ArrowLeft"@)
    } else if u == "ARROWRIGHT"@ || u == "RIGHT"@ {
        Some("ArrowRight"@)
    } else if u.len() == 1 && (u[0] as u32) < 128 {
        Some(u)
    } else {
        None
    }
}

/// Each named key has its own DOM name, reached from its names and from no
/// other typed key: `ArrowDown` only from `DOWN` and `ARROWDOWN`, and so on.
/// A single ASCII character names itself, so a space is reached from `SPACE`
/// and from " ".
pub proof fn lemma_named_keys(u: Seq<char>)
    ensures
        key_name(u) == Some("Enter"@) <==> (u == "ENTER"@ || u == "RETURN"@),
        key_name(u) == Some("Escape"@) <==> (u == "ESC"@ || u == "ESCAPE"@),
        key_name(u) == Some("Tab"@) <==> u == "TAB"@,
        key_name(u) == Some(" "@) <==> (u == "SPACE"@ || u == " "@),
        key_name(u) == Some("Backspace"@) <==> u == "BACKSPACE"@,
        key_name(u) == Some("Delete"@) <==> (u == "DELETE"@ || u == "DEL"@),
        key_name(u) == Some("ArrowUp"@) <==> (u == "ARROWUP"@ || u == "UP"@),
        key_name(u) == Some("ArrowDown"@) <==> (u == "ARROWDOWN"@ || u == "DOWN"@),
        key_name(u) == Some("ArrowLeft"@) <==> (u == "ARROWLEFT"@ || u == "LEFT"@),
        key_name(u) == Some("ArrowRight"@) <==> (u == "ARROWRIGHT"@ || u == "RIGHT"@),
{
    reveal_strlit("ENTER");
    reveal_strlit("RETURN");
    reveal_strlit("ESC");
    reveal_strlit("ESCAPE");
    reveal_strlit("TAB");
    reveal_strlit("SPACE");
    reveal_strlit("BACKSPACE");
    reveal_strlit("DELETE");
    reveal_strlit("DEL");
    reveal_strlit("ARROWUP");
    reveal_strlit("UP");
    reveal_strlit("ARROWDOWN");
    reveal_strlit("DOWN");
    reveal_strlit("ARROWLEFT");
    reveal_strlit("LEFT");
    reveal_strlit("ARROWRIGHT");
    reveal_strlit("RIGHT");
    reveal_strlit("Enter");
    reveal_strlit("Escape");
    reveal_strlit("Tab");
    reveal_strlit(" ");
    reveal_strlit("Backspace");
    reveal_strlit("Delete");
    reveal_strlit("ArrowUp");
    reveal_strlit("ArrowDown");
    reveal_strlit("ArrowLeft");
    reveal_strlit("ArrowRight");
    let names = seq![
        "Enter"@, "Escape"@, "Tab"@, " "@, "Backspace"@, "Delete"@, "ArrowUp"@, "ArrowDown"@,
        "ArrowLeft"@, "ArrowRight"@,
    ];
    assert forall|i: int, j: int| 0 <= i < j < names.len() implies names[i] != names[j] by {
        if names[i].len() == names[j].len() {
            assert(names[i][5] != names[j][5] || names[i][0] != names[j][0]);
        }
    }
    assert(" "@.len() == 1 && " "@[0] == ' ' && (' ' as u32) < 128);
    if u == " "@ {
        assert(u.len() == 1 && (u[0] as u32) < 128);
    }
    let typed = seq![
        "ENTER"@, "RETURN"@, "ESC"@, "ESCAPE"@, "TAB"@, "SPACE"@, "BACKSPACE"@, "DELETE"@,
        "DEL"@, "ARROWUP"@, "UP"@, "ARROWDOWN"@, "DOWN"@, "ARROWLEFT"@, "LEFT"@, "ARROWRIGHT"@,
        "RIGHT"@,
    ];
    assert forall|i: int, j: int| 0 <= i < j < typed.len() implies typed[i] != typed[j] by {
        if typed[i].len() == typed[j].len() {
            assert(typed[i][0] != typed[j][0] || typed[i][1] != typed[j][1] || typed[i][5]
                != typed[j][5]);
        }
    }
}

/// A typed key reaches the browser with the Windows virtual key code of the
/// key it names: the arrows 37 to 40 (left, up, right, down), Enter 13,
/// Escape 27, Tab 9, Backspace 8, Delete 46, a space 32, and any other
/// single ASCII character its own code.
pub proof fn lemma_key_codes(u: Seq<char>, c: char)
    ensures
        (u == "ARROWLEFT"@ || u == "LEFT"@) ==> key_code_spec(key_name(u)->0) == 37,
        (u == "ARROWUP"@ || u == "UP"@) ==> key_code_spec(key_name(u)->0) == 38,
        (u == "ARROWRIGHT"@ || u == "RIGHT"@) ==> key_code_spec(key_name(u)->0) == 39,
        (u == "ARROWDOWN"@ || u == "DOWN"@) ==> key_code_spec(key_name(u)->0) == 40,
        (u == "ENTER"@ || u == "RETURN"@) ==> key_code_spec(key_name(u)->0) == 13,
        (u == "ESC"@ || u == "ESCAPE"@) ==> key_code_spec(key_name(u)->0) == 27,
        u == "TAB"@ ==> key_code_spec(key_name(u)->0) == 9,
        u == "BACKSPACE"@ ==> key_code_spec(key_name(u)->0) == 8,
        (u == "DELETE"@ || u == "DEL"@) ==> key_code_spec(key_name(u)->0) == 46,
        u == "SPACE"@ ==> key_code_spec(key_name(u)->0) == 32,
        (c as u32) < 128 ==> key_name(seq![c]) == Some(seq![c]) && key_code_spec(seq![c]) == c
            as u32,
{
    lemma_named_keys(u);
    reveal_strlit("Enter");
    reveal_strlit("Escape");
    reveal_strlit("Tab");
    reveal_strlit(" ");
    reveal_strlit("Backspace");
    reveal_strlit("Delete");
    reveal_strlit("ArrowUp");
    reveal_strlit("ArrowDown");
    reveal_strlit("ArrowLeft");
    reveal_strlit("ArrowRight");
    reveal_strlit("ENTER");
    reveal_strlit("RETURN");
    reveal_strlit("ESC");
    reveal_strlit("ESCAPE");
    reveal_strlit("TAB");
    reveal_strlit("SPACE");
    reveal_strlit("BACKSPACE");
    reveal_strlit("DELETE");
    reveal_strlit("DEL");
    reveal_strlit("ARROWUP");
    reveal_strlit("UP");
    reveal_strlit("ARROWDOWN");
    reveal_strlit("DOWN");
    reveal_strlit("ARROWLEFT");
    reveal_strlit("LEFT");
    reveal_strlit("ARROWRIGHT");
    reveal_strlit("RIGHT");
    let names = seq![
        "Enter"@, "Escape"@, "Tab"@, "Backspace"@, "Delete"@, "ArrowUp"@, "ArrowDown"@,
        "ArrowLeft"@, "ArrowRight"@,
    ];
    assert forall|i: int, j: int| 0 <= i < j < names.len() implies names[i] != names[j] by {
        if names[i].len() == names[j].len() {
            assert(names[i][5] != names[j][5] || names[i][0] != names[j][0]);
        }
    }
    assert(" "@[0] == ' ' && (' ' as u32) == 32);
    let one = seq![c];
    if (c as u32) < 128 {
        assert forall|i: int| 0 <= i < names.len() implies names[i] != one by {
            assert(names[i].len() > 1);
        }
        assert(one.len() == 1);
        assert("ENTER"@.len() == 5 && "RETURN"@.len() == 6 && "ESC"@.len() == 3);
        assert("ESCAPE"@.len() == 6 && "TAB"@.len() == 3 && "SPACE"@.len() == 5);
        assert("BACKSPACE"@.len() == 9 && "DELETE"@.len() == 6 && "DEL"@.len() == 3);
        assert("ARROWUP"@.len() == 7 && "UP"@.len() == 2 && "ARROWDOWN"@.len() == 9);
        assert("DOWN"@.len() == 4 && "ARROWLEFT"@.len() == 9 && "LEFT"@.len() == 4);
        assert("ARROWRIGHT"@.len() == 10 && "RIGHT"@.len() == 5);
        assert(one != "ENTER"@ && one != "RETURN"@ && one != "ESC"@ && one != "ESCAPE"@);
        assert(one != "TAB"@ && one != "SPACE"@ && one != "BACKSPACE"@ && one != "DELETE"@);
        assert(one != "DEL"@ && one != "ARROWUP"@ && one != "UP"@ && one != "ARROWDOWN"@);
        assert(one != "DOWN"@ && one != "ARROWLEFT"@ && one != "LEFT"@ && one != "ARROWRIGHT"@);
        assert(one != "RIGHT"@);
        assert(one[0] == c);
        assert(((c as u32) % 65536) as u16 == c as u32);
    }
}

/// Maps a key to its DOM name: named keys case-insensitively, otherwise a
/// single ASCII character, upper-cased.
pub fn normalize_key(key: &str) -> (r: Result<String, String>)
    ensures
        r is Ok <==> key_name(upper_seq(key@)) is Some,
        r matches Ok(k) ==> k@ == key_name(upper_seq(key@))->0,
        r matches Err(m) ==> m@ == "unsupported browser key"@,
{
    let k = chars_of(key);
    let mut u: Vec<char> = Vec::new();
    let mut i: usize = 0;
    while i < k.len()
        invariant
            i <= k@.len(),
            u@.len() == i,
            forall|j: int| 0 <= j < i ==> u@[j] == ascii_upper(#[trigger] k@[j]),
        decreases k@.len() - i,
    {
        u.push(to_upper(k[i]));
        i += 1;
    }
    assert(u@ =~= upper_seq(key@));
    if eq_str(&u, "ENTER") || eq_str(&u, "RETURN") {
        return Ok("Enter".to_owned());
    }
    if eq_str(&u, "ESC") || eq_str(&u, "ESCAPE") {
        return Ok("Escape".to_owned());
    }
    if eq_str(&u, "TAB") {
        return Ok("Tab".to_owned());
    }
    if eq_str(&u, "SPACE") {
        return Ok(" ".to_owned());
    }
    if eq_str(&u, "BACKSPACE") {
        return Ok("Backspace".to_owned());
    }
    if eq_str(&u, "DELETE") || eq_str(&u, "DEL") {
        return Ok("Delete".to_owned());
    }
    if eq_str(&u, "ARROWUP") || eq_str(&u, "UP") {
        return Ok("ArrowUp".to_owned());
    }
    if eq_str(&u, "ARROWDOWN") || eq_str(&u, "DOWN") {
        return Ok("ArrowDown".to_owned());
    }
    if eq_str(&u, "ARROWLEFT") || eq_str(&u, "LEFT") {
        return Ok("ArrowLeft".to_owned());
    }
    if eq_str(&u, "ARROWRIGHT") || eq_str(&u, "RIGHT") {
        return Ok("ArrowRight".to_owned());
    }
    if u.len() == 1 && (u[0] as u32) < 128 {
        return Ok(string_of(u.as_slice()));
    }
    Err("unsupported browser key".to_owned())
}

fn eq_str(v: &Vec<char>, s: &str) -> (r: bool)
    ensures
        r == (v@ == s@),
{
    let c = chars_of(s);
    seq_equals(v.as_slice(), c.as_slice())
}

/// The Windows virtual key code of a DOM key name.
pub open spec fn key_code_spec(key: Seq<char>) -> u16 {
    if key == "Enter"@ {
        13
    } else if key == "Escape"@ {
        27
    } else if key == "Tab"@ {
        9
    } else if key == "Backspace"@ {
        8
    } else if key == "Delete"@ {
        46
    } else if key == "ArrowUp"@ {
        38
    } else if key == "ArrowDown"@ {
        40
    } else if key == "ArrowLeft"@ {
        37
    } else if key == "ArrowRight"@ {
        39
    } else if key.len() > 0 {
        ((key[0] as u32) % 65536) as u16
    } else {
        0
    }
}

pub fn key_code(key: &str) -> (r: u16)
    ensures
        r == key_code_spec(key@),
{
    let k = chars_of(key);
    if eq_str(&k, "Enter") {
        13
    } else if eq_str(&k, "Escape") {
        27
    } else if eq_str(&k, "Tab") {
        9
    } else if eq_str(&k, "Backspace") {
        8
    } else if eq_str(&k, "Delete") {
        46
    } else if eq_str(&k, "ArrowUp") {
        38
    } else if eq_str(&k, "ArrowDown") {
        40
    } else if eq_str(&k, "ArrowLeft") {
        37
    } else if eq_str(&k, "ArrowRight") {
        39
    } else if k.len() > 0 {
        ((k[0] as u32) % 65536) as u16
    } else {
        0
    }
}

/// Computer actions that only observe the screen run without approval.
pub open spec fn observing_action(v: JsonV) -> bool {
    let t = str_member(v, "type"@);
    t == Some("screenshot"@) || t == Some("scroll"@) || t == Some("move"@) || t == Some("wait"@)
}

/// Whether a batch of computer actions needs the user's approval: any action
/// that is not a screenshot, scroll, move or wait does.
pub fn actions_require_approval(actions: &[Json]) -> (r: bool)
    ensures
        r == exists|i: int| 0 <= i < actions@.len() && !observing_action(#[trigger] actions@[i]@),
{
    let mut i: usize = 0;
    while i < actions.len()
        invariant
            i <= actions@.len(),
            forall|j: int| 0 <= j < i ==> observing_action(#[trigger] actions@[j]@),
        decreases actions@.len() - i,
    {
        let a = &actions[i];
        let observing = a.str_member_is("type", "screenshot") || a.str_member_is("type", "scroll")
            || a.str_member_is("type", "move") || a.str_member_is("type", "wait");
        if !observing {
            return true;
        }
        i += 1;
    }
    false
}

/// The action types of a batch, joined with `, `.
pub open spec fn action_summary_spec(actions: Seq<JsonV>) -> Seq<char>
    decreases actions.len(),
{
    if actions.len() == 0 {
        Seq::empty()
    } else {
        let rest = action_summary_spec(actions.drop_last());
        match str_member(actions.last(), "type"@) {
            Some(t) => if !has_typed(actions.drop_last()) {
                t
            } else {
                rest + ", "@ + t
            },
            None => rest,
        }
    }
}

/// Some action of the batch names its type.
pub open spec fn has_typed(actions: Seq<JsonV>) -> bool {
    exists|i: int| 0 <= i < actions.len() && str_member(#[trigger] actions[i], "type"@) is Some
}

proof fn lemma_untyped_summary_empty(actions: Seq<JsonV>)
    requires
        !has_typed(actions),
    ensures
        action_summary_spec(actions) == Seq::<char>::empty(),
    decreases actions.len(),
{
    if actions.len() > 0 {
        assert(!has_typed(actions.drop_last())) by {
            if has_typed(actions.drop_last()) {
                let k = choose|k: int|
                    0 <= k < actions.drop_last().len() && str_member(
                        #[trigger] actions.drop_last()[k],
                        "type"@,
                    ) is Some;
                assert(actions[k] == actions.drop_last()[k]);
            }
        }
        assert(str_member(actions[actions.len() - 1], "type"@) is None);
        lemma_untyped_summary_empty(actions.drop_last());
    }
}

pub fn action_summary(actions: &[Json]) -> (r: String)
    ensures
        r@ == action_summary_spec(crate::json::views(actions@)),
{
    let ghost av = crate::json::views(actions@);
    let mut out: Vec<char> = Vec::new();
    let mut any = false;
    let mut i: usize = 0;
    assert(av.take(0) =~= Seq::<JsonV>::empty());
    while i < actions.len()
        invariant
            i <= actions@.len(),
            av == crate::json::views(actions@),
            out@ == action_summary_spec(av.take(i as int)),
            any == has_typed(av.take(i as int)),
        decreases actions@.len() - i,
    {
        assert(av.take(i + 1).drop_last() =~= av.take(i as int));
        assert(av.take(i + 1).last() == actions@[i as int]@);
        match actions[i].str_member("type") {
            Some(t) => {
                proof {
                    if !any {
                        lemma_untyped_summary_empty(av.take(i as int));
                    }
                }
                if any {
                    extend_chars(&mut out, chars_of(", ").as_slice());
                }
                extend_chars(&mut out, chars_of(t.as_str()).as_slice());
                any = true;
                assert(has_typed(av.take(i + 1))) by {
                    assert(av.take(i + 1)[i as int] == actions@[i as int]@);
                }
            },
            None => {
                assert(has_typed(av.take(i + 1)) == has_typed(av.take(i as int))) by {
                    if has_typed(av.take(i + 1)) {
                        let k = choose|k: int|
                            0 <= k < av.take(i + 1).len() && str_member(
                                #[trigger] av.take(i + 1)[k],
                                "type"@,
                            ) is Some;
                        assert(k < i);
                        assert(av.take(i as int)[k] == av.take(i + 1)[k]);
                    }
                    if has_typed(av.take(i as int)) {
                        let k = choose|k: int|
                            0 <= k < av.take(i as int).len() && str_member(
                                #[trigger] av.take(i as int)[k],
                                "type"@,
                            ) is Some;
                        assert(av.take(i + 1)[k] == av.take(i as int)[k]);
                    }
                }
            },
        }
        proof {
            if has_typed(av.take(i as int)) {
                let k = choose|k: int|
                    0 <= k < av.take(i as int).len() && str_member(#[trigger] av.take(i as int)[k], "type"@)
                        is Some;
                assert(av.take(i as int)[k] == av.take(i + 1)[k]);
            }
        }
        i += 1;
    }
    assert(av.take(i as int) =~= av);
    string_of(out.as_slice())
}

/// A string argument that must be present and non-empty.
pub open spec fn required_string_spec(args: JsonV, key: Seq<char>) -> Result<Seq<char>, Seq<char>> {
    match str_member(args, key) {
        Some(v) => if v.len() > 0 {
            Ok(v)
        } else {
            Err("browser action requires "@ + key)
        },
        None => Err("browser action requires "@ + key),
    }
}

pub fn required_string(args: &Json, key: &str) -> (r: Result<String, String>)
    ensures
        (match r {
            Ok(v) => required_string_spec(args@, key@) == Ok::<Seq<char>, Seq<char>>(v@),
            Err(m) => required_string_spec(args@, key@) == Err::<Seq<char>, Seq<char>>(m@),
        }),
{
    match args.str_member(key) {
        Some(v) => {
            if v.as_str().unicode_len() > 0 {
                return Ok(v.clone());
            }
        },
        None => {},
    }
    let mut m = chars_of("browser action requires ");
    crate::text::extend_str(&mut m, key);
    Err(string_of(m.as_slice()))
}

/// A browser tool call, with its checked arguments.
#[derive(Debug)]
pub enum BrowserToolCall {
    Snapshot { session_id: String },
    Screenshot { session_id: String },
    Navigate { session_id: String, url: String },
    Click { session_id: String, reference: String },
    Type { session_id: String, reference: String, text: String },
    Keypress { session_id: String, key: String },
    /// `delta_y` is a JSON number; the driver reads it.
    Scroll { session_id: String },
}

pub open spec fn numeric(v: Option<JsonV>) -> bool {
    v matches Some(x) && (x is Int || x is Number)
}

/// The error of a browser tool call, if its arguments do not fit the tool.
pub open spec fn browser_tool_error(name: Seq<char>, args: JsonV) -> Option<Seq<char>> {
    let missing = |r: Result<Seq<char>, Seq<char>>|
        match r {
            Err(m) => Some(m),
            Ok(_) => None::<Seq<char>>,
        };
    match required_string_spec(args, "session_id"@) {
        Err(m) => Some(m),
        Ok(_) => if name == "browser_snapshot"@ || name == "browser_screenshot"@ {
            None
        } else if name == "browser_navigate"@ {
            match required_string_spec(args, "url"@) {
                Err(m) => Some(m),
                Ok(u) => if web_url(u) {
                    None
                } else {
                    Some("browser navigation requires an HTTP(S) URL"@)
                },
            }
        } else if name == "browser_click"@ {
            missing(required_string_spec(args, "ref"@))
        } else if name == "browser_type"@ {
            if required_string_spec(args, "ref"@) is Err {
                missing(required_string_spec(args, "ref"@))
            } else {
                missing(required_string_spec(args, "text"@))
            }
        } else if name == "browser_keypress"@ {
            missing(required_string_spec(args, "key"@))
        } else if name == "browser_scroll"@ {
            if numeric(get_spec(args, "delta_y"@)) {
                None
            } else {
                Some("browser_scroll requires a numeric delta_y"@)
            }
        } else {
            Some("unknown browser tool"@)
        },
    }
}

/// The checked arguments of a call that fits its tool.
pub open spec fn browser_call_fits(c: BrowserToolCall, name: Seq<char>, args: JsonV) -> bool {
    let arg = |k: Seq<char>, v: Seq<char>| required_string_spec(args, k) == Ok::<Seq<char>, Seq<char>>(v);
    match c {
        BrowserToolCall::Snapshot { session_id } => name == "browser_snapshot"@ && arg("session_id"@, session_id@),
        BrowserToolCall::Screenshot { session_id } => name == "browser_screenshot"@ && arg("session_id"@, session_id@),
        BrowserToolCall::Navigate { session_id, url } => name == "browser_navigate"@ && arg("session_id"@, session_id@) && arg("url"@, url@),
        BrowserToolCall::Click { session_id, reference } => name == "browser_click"@ && arg("session_id"@, session_id@) && arg("ref"@, reference@),
        BrowserToolCall::Type { session_id, reference, text } => name == "browser_type"@ && arg("session_id"@, session_id@) && arg("ref"@, reference@) && arg("text"@, text@),
        BrowserToolCall::Keypress { session_id, key } => name == "browser_keypress"@ && arg("session_id"@, session_id@) && arg("key"@, key@),
        BrowserToolCall::Scroll { session_id } => name == "browser_scroll"@ && arg("session_id"@, session_id@),
    }
}

/// Reads a browser tool call: every tool names its session, then the
/// arguments of each tool; navigation only goes to web URLs.
pub fn browser_tool_call(name: &str, args: &Json) -> (r: Result<BrowserToolCall, String>)
    ensures
        r is Err <==> browser_tool_error(name@, args@) is Some,
        r matches Err(m) ==> browser_tool_error(name@, args@) == Some(m@),
        r matches Ok(c) ==> browser_call_fits(c, name@, args@),
{
    let session_id = required_string(args, "session_id")?;
    if str_equals(name, "browser_snapshot") {
        Ok(BrowserToolCall::Snapshot { session_id })
    } else if str_equals(name, "browser_screenshot") {
        Ok(BrowserToolCall::Screenshot { session_id })
    } else if str_equals(name, "browser_navigate") {
        let url = required_string(args, "url")?;
        if !is_web_url(url.as_str()) {
            return Err("browser navigation requires an HTTP(S) URL".to_owned());
        }
        Ok(BrowserToolCall::Navigate { session_id, url })
    } else if str_equals(name, "browser_click") {
        let reference = required_string(args, "ref")?;
        Ok(BrowserToolCall::Click { session_id, reference })
    } else if str_equals(name, "browser_type") {
        let reference = required_string(args, "ref")?;
        let text = required_string(args, "text")?;
        Ok(BrowserToolCall::Type { session_id, reference, text })
    } else if str_equals(name, "browser_keypress") {
        let key = required_string(args, "key")?;
        Ok(BrowserToolCall::Keypress { session_id, key })
    } else if str_equals(name, "browser_scroll") {
        let ok = match args.get("delta_y") {
            Some(Json::Int(_)) => true,
            Some(Json::Number(_)) => true,
            _ => false,
        };
        if !ok {
            return Err("browser_scroll requires a numeric delta_y".to_owned());
        }
        Ok(BrowserToolCall::Scroll { session_id })
    } else {
        Err("unknown browser tool".to_owned())
    }
}

/// Pressing Enter (or Return, in any case) submits forms and needs approval.
pub fn keypress_needs_approval(key: &str) -> (r: bool)
    ensures
        r == (upper_seq(key@) == "ENTER"@ || upper_seq(key@) == "RETURN"@),
{
    let k = chars_of(key);
    let mut u: Vec<char> = Vec::new();
    let mut i: usize = 0;
    while i < k.len()
        invariant
            i <= k@.len(),
            u@ == upper_seq(k@.take(i as int)),
        decreases k@.len() - i,
    {
        u.push(to_upper(k[i]));
        assert(upper_seq(k@.take(i + 1)) =~= upper_seq(k@.take(i as int)).push(ascii_upper(k@[i as int])));
        i += 1;
    }
    assert(k@.take(i as int) =~= k@);
    let enter = chars_of("ENTER");
    let ret = chars_of("RETURN");
    seq_equals(u.as_slice(), enter.as_slice()) || seq_equals(u.as_slice(), ret.as_slice())
}

fn with_reference(prefix: &str, reference: &str) -> (r: String)
    ensures
        r@ == prefix@ + reference@,
{
    let mut v = chars_of(prefix);
    crate::text::extend_str(&mut v, reference);
    string_of(v.as_slice())
}

/// What the user is asked before the agent activates an element that
/// submits or navigates.
pub fn click_approval_text(reference: &str) -> (r: String)
    ensures
        r@ == "Allow the agent to activate browser element "@ + reference@,
{
    with_reference("Allow the agent to activate browser element ", reference)
}

/// What the user is asked before the agent types into a sensitive field.
pub fn typing_approval_text(reference: &str) -> (r: String)
    ensures
        r@ == "Allow the agent to enter sensitive data into browser element "@ + reference@,
{
    with_reference("Allow the agent to enter sensitive data into browser element ", reference)
}

/// What the user is asked before a batch of computer actions.
pub fn computer_approval_text(actions: &[Json]) -> (r: String)
    ensures
        r@ == "Allow the computer to execute: "@ + action_summary_spec(actions@.map_values(|a: Json| a@)),
{
    let summary = action_summary(actions);
    with_reference("Allow the computer to execute: ", summary.as_str())
}

/// Computer actions run only in sessions that enabled Computer Use.
pub fn computer_use_check(scope: &BrowserRunScope) -> (r: Result<(), String>)
    ensures
        r is Ok <==> scope.computer_use_enabled,
        r matches Err(m) ==> m@ == "Computer Use is disabled for this browser session"@,
{
    if !scope.computer_use_enabled {
        return Err("Computer Use is disabled for this browser session".to_owned());
    }
    Ok(())
}

/// The answer of an approval request: an approval, a decline, or a channel
/// closed before an answer (the session went away).
pub fn approval_outcome(answer: Option<bool>) -> (r: Result<(), String>)
    ensures
        answer == Some(true) ==> r is Ok,
        answer == Some(false) ==> (r matches Err(m) && m@ == "browser action was declined"@),
        answer is None ==> (r matches Err(m) && m@ == "browser action approval expired"@),
{
    match answer {
        Some(true) => Ok(()),
        Some(false) => Err("browser action was declined".to_owned()),
        None => Err("browser action approval expired".to_owned()),
    }
}

/// An element as the model sees it: its page token removed and its
/// reference added.
pub open spec fn snapshot_row_spec(item: JsonV, name: Seq<char>) -> JsonV {
    match item {
        JsonV::Object(m) => JsonV::Object(
            without_key(without_key(m, "token"@), "ref"@).push(("ref"@, JsonV::Str(name))),
        ),
        other => other,
    }
}

pub fn snapshot_rows(items: &[Json], names: &[String]) -> (r: Vec<Json>)
    requires
        items@.len() == names@.len(),
    ensures
        r@.len() == items@.len(),
        forall|k: int| 0 <= k < r@.len() ==> (#[trigger] r@[k])@ == snapshot_row_spec(items@[k]@, names@[k]@),
{
    let mut out: Vec<Json> = Vec::new();
    let mut k: usize = 0;
    while k < items.len()
        invariant
            k <= items@.len() == names@.len(),
            out@.len() == k,
            forall|j: int| 0 <= j < k ==> (#[trigger] out@[j])@ == snapshot_row_spec(items@[j]@, names@[j]@),
        decreases items@.len() - k,
    {
        let row = match &items[k] {
            Json::Object(m) => {
                proof {
                    lemma_object_view(*m);
                }
                let without_token = remove_key(m.as_slice(), "token");
                let mut members = remove_key(without_token.as_slice(), "ref");
                let ghost before = member_views(members@);
                members.push(("ref".to_owned(), Json::Str(names[k].clone())));
                assert(member_views(members@) =~= before.push(("ref"@, JsonV::Str(names@[k as int]@))));
                proof {
                    lemma_object_view(members);
                }
                Json::Object(members)
            },
            other => other.copy(),
        };
        out.push(row);
        k += 1;
    }
    out
}

/// Approving hands back exactly the approval that the action asked for, and
/// leaves the session as it was before the action asked: the view after
/// `begin_approval` followed by the view after `approve`.
pub proof fn lemma_approval_round_trip(
    sessions: Map<Seq<char>, SessionV>,
    id: Seq<char>,
    approval_id: Seq<char>,
    description: Seq<char>,
)
    requires
        sessions.contains_key(id),
        sessions[id].pending is None,
    ensures
        ({
            let waiting = sessions.insert(
                id,
                SessionV { pending: Some((approval_id, description)), ..sessions[id] },
            );
            &&& waiting[id].pending == Some((approval_id, description))
            &&& waiting.insert(id, SessionV { pending: None, ..waiting[id] }) == sessions
        }),
{
    let waiting = sessions.insert(
        id,
        SessionV { pending: Some((approval_id, description)), ..sessions[id] },
    );
    assert(waiting.insert(id, SessionV { pending: None, ..waiting[id] }) =~= sessions);
}

} // verus!
