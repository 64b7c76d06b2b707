//! Session registry: one record per connected session, keyed by its id.

use vstd::prelude::*;
use crate::outbox::{Outbox, SessionHandle};

verus! {

/// Identity of a session: the 128 bits of the id the transport layer assigned.
pub type SessionId = u128;

/// `after` is `before` with one more push of `payload`, whose outcome was `ok`,
/// and nothing else changed.
pub open spec fn pushed_once<H, P>(
    before: ClientRecord<H, P>,
    after: ClientRecord<H, P>,
    payload: Seq<char>,
    ok: bool,
) -> bool {
    &&& after.id == before.id
    &&& after.handle.owner() == before.handle.owner()
    &&& after.last_position == before.last_position
    &&& after.handle.sent() == before.handle.sent().push((payload, ok))
}

/// What the hub keeps about one connected session.
pub struct ClientRecord<H, P> {
    pub id: SessionId,
    pub handle: Outbox<H>,
    pub last_position: Option<P>,
}

/// The set of connected sessions, at most one record per id.
///
/// The records stand in a `Vec` in the order the sessions connected: each
/// push goes through a record's handle in place, which vstd specifies for a
/// `Vec` element and not for a value inside a hash map.
pub struct Registry<H, P> {
    records: Vec<ClientRecord<H, P>>,
}

/// Whether some record of `s` carries `id`.
pub open spec fn holds_id<H, P>(s: Seq<ClientRecord<H, P>>, id: SessionId) -> bool {
    exists|i: int| 0 <= i < s.len() && #[trigger] s[i].id == id
}

/// No two records of `s` carry the same id.
pub open spec fn unique_ids<H, P>(s: Seq<ClientRecord<H, P>>) -> bool {
    forall|i: int, j: int| 0 <= i < s.len() && 0 <= j < s.len() && i != j ==> s[i].id != s[j].id
}

/// The records of `s` as a map from id to record.
pub open spec fn records_map<H, P>(s: Seq<ClientRecord<H, P>>) -> Map<SessionId, ClientRecord<H, P>> {
    Map::new(
        |id: SessionId| holds_id(s, id),
        |id: SessionId| s[choose|i: int| 0 <= i < s.len() && #[trigger] s[i].id == id],
    )
}

proof fn lemma_lookup<H, P>(s: Seq<ClientRecord<H, P>>, i: int)
    requires
        unique_ids(s),
        0 <= i < s.len(),
    ensures
        records_map(s).contains_key(s[i].id),
        records_map(s)[s[i].id] == s[i],
{
    let id = s[i].id;
    assert(holds_id(s, id));
    let j = choose|j: int| 0 <= j < s.len() && #[trigger] s[j].id == id;
    assert(j == i);
}

proof fn lemma_map_update<H, P>(s: Seq<ClientRecord<H, P>>, i: int, rec: ClientRecord<H, P>)
    requires
        unique_ids(s),
        0 <= i < s.len(),
        rec.id == s[i].id,
    ensures
        unique_ids(s.update(i, rec)),
        records_map(s.update(i, rec)) == records_map(s).insert(rec.id, rec),
{
    let s2 = s.update(i, rec);
    let m = records_map(s);
    let m2 = records_map(s2);
    assert forall|k: SessionId| #[trigger] m2.contains_key(k) <==> m.insert(rec.id, rec).contains_key(k) by {
        if holds_id(s, k) {
            let j = choose|j: int| 0 <= j < s.len() && #[trigger] s[j].id == k;
            assert(s2[j].id == k);
        }
        if holds_id(s2, k) {
            let j = choose|j: int| 0 <= j < s2.len() && #[trigger] s2[j].id == k;
            assert(s[j].id == k);
        }
    }
    assert forall|k: SessionId| #[trigger] m2.contains_key(k) implies m2[k] == m.insert(rec.id, rec)[k] by {
        let j = choose|j: int| 0 <= j < s2.len() && #[trigger] s2[j].id == k;
        lemma_lookup(s2, j);
        if j != i {
            lemma_lookup(s, j);
        }
    }
    assert(m2 =~= m.insert(rec.id, rec));
}

proof fn lemma_map_push<H, P>(s: Seq<ClientRecord<H, P>>, rec: ClientRecord<H, P>)
    requires
        unique_ids(s),
        !holds_id(s, rec.id),
    ensures
        unique_ids(s.push(rec)),
        records_map(s.push(rec)) == records_map(s).insert(rec.id, rec),
{
    let s2 = s.push(rec);
    let m = records_map(s);
    let m2 = records_map(s2);
    assert(s2[s.len() as int].id == rec.id);
    assert forall|k: SessionId| #[trigger] m2.contains_key(k) <==> m.insert(rec.id, rec).contains_key(k) by {
        if holds_id(s, k) {
            let j = choose|j: int| 0 <= j < s.len() && #[trigger] s[j].id == k;
            assert(s2[j].id == k);
        }
        if holds_id(s2, k) && k != rec.id {
            let j = choose|j: int| 0 <= j < s2.len() && #[trigger] s2[j].id == k;
            assert(s[j].id == k);
        }
    }
    assert forall|k: SessionId| #[trigger] m2.contains_key(k) implies m2[k] == m.insert(rec.id, rec)[k] by {
        let j = choose|j: int| 0 <= j < s2.len() && #[trigger] s2[j].id == k;
        lemma_lookup(s2, j);
        if j < s.len() {
            lemma_lookup(s, j);
        }
    }
    assert(m2 =~= m.insert(rec.id, rec));
}

proof fn lemma_map_remove<H, P>(s: Seq<ClientRecord<H, P>>, i: int)
    requires
        unique_ids(s),
        0 <= i < s.len(),
    ensures
        unique_ids(s.remove(i)),
        records_map(s.remove(i)) == records_map(s).remove(s[i].id),
{
    let s2 = s.remove(i);
    let id = s[i].id;
    let m = records_map(s);
    let m2 = records_map(s2);
    assert forall|a: int, b: int| 0 <= a < s2.len() && 0 <= b < s2.len() && a != b implies s2[a].id != s2[b].id by {
        let a1 = if a < i { a } else { a + 1 };
        let b1 = if b < i { b } else { b + 1 };
        assert(s2[a] == s[a1]);
        assert(s2[b] == s[b1]);
    }
    assert forall|k: SessionId| #[trigger] m2.contains_key(k) <==> m.remove(id).contains_key(k) by {
        if holds_id(s, k) && k != id {
            let j = choose|j: int| 0 <= j < s.len() && #[trigger] s[j].id == k;
            if j < i {
                assert(s2[j].id == k);
            } else {
                assert(s2[j - 1].id == k);
            }
        }
        if holds_id(s2, k) {
            let j = choose|j: int| 0 <= j < s2.len() && #[trigger] s2[j].id == k;
            let j1 = if j < i { j } else { j + 1 };
            assert(s[j1].id == k);
        }
    }
    assert forall|k: SessionId| #[trigger] m2.contains_key(k) implies m2[k] == m.remove(id)[k] by {
        let j = choose|j: int| 0 <= j < s2.len() && #[trigger] s2[j].id == k;
        let j1 = if j < i { j } else { j + 1 };
        assert(s2[j] == s[j1]);
        lemma_lookup(s2, j);
        lemma_lookup(s, j1);
    }
    assert(m2 =~= m.remove(id));
}

impl<H, P> View for Registry<H, P> {
    type V = Map<SessionId, ClientRecord<H, P>>;

    closed spec fn view(&self) -> Map<SessionId, ClientRecord<H, P>> {
        records_map(self.records@)
    }
}

impl<H, P> Registry<H, P> {
    /// Well-formed: at most one record per id.
    pub closed spec fn wf(&self) -> bool {
        unique_ids(self.records@)
    }

    /// An empty registry.
    pub fn new() -> (r: Self)
        ensures
            r.wf(),
            r@ == Map::<SessionId, ClientRecord<H, P>>::empty(),
    {
        let r = Registry { records: Vec::new() };
        assert(r@ =~= Map::<SessionId, ClientRecord<H, P>>::empty());
        r
    }

    /// Adds the session `id` with `handle`, replacing any record it had: a
    /// reconnect starts again with no known position.
    pub fn insert(&mut self, id: SessionId, handle: H)
        requires
            old(self).wf(),
        ensures
            final(self).wf(),
            final(self)@ == old(self)@.insert(
                id,
                ClientRecord { id, handle: Outbox::spec_new(id, handle), last_position: None },
            ),
    {
        let rec = ClientRecord { id, handle: Outbox::new(id, handle), last_position: None };
        match self.find(id) {
            Some(i) => {
                proof {
                    lemma_map_update(self.records@, i as int, rec);
                }
                let _ = self.records.remove(i);
                self.records.insert(i, rec);
                assert(self.records@ =~= old(self).records@.update(i as int, rec));
            },
            None => {
                proof {
                    lemma_map_push(self.records@, rec);
                }
                self.records.push(rec);
            },
        }
    }

    /// Deletes the record of `id`; `true` when there was one. Removing an
    /// absent id changes nothing.
    pub fn remove(&mut self, id: SessionId) -> (r: bool)
        requires
            old(self).wf(),
        ensures
            final(self).wf(),
            r == old(self)@.contains_key(id),
            final(self)@ == old(self)@.remove(id),
    {
        match self.find(id) {
            Some(i) => {
                proof {
                    lemma_map_remove(self.records@, i as int);
                    lemma_lookup(self.records@, i as int);
                }
                let _ = self.records.remove(i);
                true
            },
            None => {
                assert(self@ =~= old(self)@.remove(id));
                false
            },
        }
    }

    /// Sets the last known position of `id`; `false`, with nothing changed,
    /// when no session `id` is connected.
    pub fn update_position(&mut self, id: SessionId, position: P) -> (r: bool)
        requires
            old(self).wf(),
        ensures
            final(self).wf(),
            r == old(self)@.contains_key(id),
            r ==> final(self)@ == old(self)@.insert(
                id,
                ClientRecord { last_position: Some(position), ..old(self)@[id] },
            ),
            !r ==> final(self)@ == old(self)@,
    {
        match self.find(id) {
            Some(i) => {
                proof {
                    lemma_lookup(self.records@, i as int);
                }
                let old_rec = self.records.remove(i);
                let rec = ClientRecord { id: old_rec.id, handle: old_rec.handle, last_position: Some(position) };
                proof {
                    lemma_map_update(old(self).records@, i as int, rec);
                }
                self.records.insert(i, rec);
                assert(self.records@ =~= old(self).records@.update(i as int, rec));
                true
            },
            None => false,
        }
    }

    /// The record of `id`, if that session is connected.
    pub fn get(&self, id: SessionId) -> (r: Option<&ClientRecord<H, P>>)
        requires
            self.wf(),
        ensures
            match r {
                Some(rec) => self@.contains_key(id) && *rec == self@[id],
                None => !self@.contains_key(id),
            },
    {
        match self.find(id) {
            Some(i) => {
                proof {
                    lemma_lookup(self.records@, i as int);
                }
                Some(&self.records[i])
            },
            None => None,
        }
    }

    /// The ids of all connected sessions, each once, taken at call time.
    pub fn all_ids(&self) -> (r: Vec<SessionId>)
        requires
            self.wf(),
        ensures
            r@.no_duplicates(),
            forall|id: SessionId| r@.contains(id) <==> self@.contains_key(id),
    {
        let mut out: Vec<SessionId> = Vec::new();
        let mut i: usize = 0;
        while i < self.records.len()
            invariant
                i <= self.records@.len(),
                unique_ids(self.records@),
                out@.len() == i,
                forall|j: int| 0 <= j < i ==> out@[j] == self.records@[j].id,
            decreases self.records@.len() - i,
        {
            out.push(self.records[i].id);
            i = i + 1;
        }
        proof {
            assert forall|id: SessionId| out@.contains(id) <==> self@.contains_key(id) by {
                if holds_id(self.records@, id) {
                    let j = choose|j: int| 0 <= j < self.records@.len() && #[trigger] self.records@[j].id == id;
                    assert(out@[j] == id);
                }
                if out@.contains(id) {
                    let j = choose|j: int| 0 <= j < out@.len() && out@[j] == id;
                    assert(self.records@[j].id == id);
                }
            }
        }
        out
    }

    /// Number of connected sessions.
    pub fn len(&self) -> (r: usize)
        requires
            self.wf(),
        ensures
            r == self@.len(),
    {
        proof {
            self.lemma_len();
        }
        self.records.len()
    }

    proof fn lemma_len(&self)
        requires
            self.wf(),
        ensures
            self@.len() == self.records@.len(),
    {
        let ids = self.records@.map_values(|r: ClientRecord<H, P>| r.id);
        assert forall|a: int, b: int| 0 <= a < ids.len() && 0 <= b < ids.len() && a != b implies ids[a] != ids[b] by {
            assert(ids[a] == self.records@[a].id);
            assert(ids[b] == self.records@[b].id);
        }
        assert(ids.no_duplicates());
        ids.unique_seq_to_set();
        assert forall|id: SessionId| #[trigger] ids.to_set().contains(id) <==> self@.dom().contains(id) by {
            if holds_id(self.records@, id) {
                let j = choose|j: int| 0 <= j < self.records@.len() && #[trigger] self.records@[j].id == id;
                assert(ids[j] == id);
            }
            if ids.contains(id) {
                let j = choose|j: int| 0 <= j < ids.len() && ids[j] == id;
                assert(self.records@[j].id == id);
            }
        }
        assert(ids.to_set() =~= self@.dom());
    }

    /// Index of the record of `id`, if any.
    fn find(&self, id: SessionId) -> (r: Option<usize>)
        requires
            self.wf(),
        ensures
            match r {
                Some(i) => i < self.records@.len() && self.records@[i as int].id == id,
                None => !holds_id(self.records@, id),
            },
    {
        let mut i: usize = 0;
        while i < self.records.len()
            invariant
                i <= self.records@.len(),
                forall|j: int| 0 <= j < i ==> self.records@[j].id != id,
            decreases self.records@.len() - i,
        {
            if self.records[i].id == id {
                return Some(i);
            }
            i = i + 1;
        }
        None
    }
}

proof fn lemma_push_contains(s: Seq<SessionId>, x: SessionId)
    requires
        s.no_duplicates(),
        !s.contains(x),
    ensures
        s.push(x).no_duplicates(),
        forall|k: SessionId| s.push(x).contains(k) <==> s.contains(k) || k == x,
{
    let t = s.push(x);
    assert(t[s.len() as int] == x);
    assert forall|k: SessionId| t.contains(k) <==> s.contains(k) || k == x by {
        if s.contains(k) {
            let l = choose|l: int| 0 <= l < s.len() && s[l] == k;
            assert(t[l] == k);
        }
        if t.contains(k) {
            let l = choose|l: int| 0 <= l < t.len() && t[l] == k;
            if l < s.len() {
                assert(s[l] == k);
            }
        }
    }
}

proof fn lemma_report_count(a: Seq<SessionId>, b: Seq<SessionId>, d: Set<SessionId>)
    requires
        a.no_duplicates(),
        b.no_duplicates(),
        forall|k: SessionId| !(a.contains(k) && b.contains(k)),
        forall|k: SessionId| a.contains(k) || b.contains(k) <==> d.contains(k),
    ensures
        a.len() + b.len() == d.len(),
{
    let c = a + b;
    assert forall|i: int, j: int| 0 <= i < c.len() && 0 <= j < c.len() && i != j implies c[i] != c[j] by {
        if i < a.len() && j >= a.len() {
            assert(a.contains(c[i]));
            assert(b[j - a.len()] == c[j]);
            assert(b.contains(c[j]));
        }
        if j < a.len() && i >= a.len() {
            assert(a.contains(c[j]));
            assert(b[i - a.len()] == c[i]);
            assert(b.contains(c[i]));
        }
    }
    c.unique_seq_to_set();
    assert forall|k: SessionId| #[trigger] c.to_set().contains(k) <==> d.contains(k) by {
        if a.contains(k) {
            let l = choose|l: int| 0 <= l < a.len() && a[l] == k;
            assert(c[l] == k);
        }
        if b.contains(k) {
            let l = choose|l: int| 0 <= l < b.len() && b[l] == k;
            assert(c[a.len() + l] == k);
        }
        if c.contains(k) {
            let l = choose|l: int| 0 <= l < c.len() && c[l] == k;
            if l < a.len() {
                assert(a[l] == k);
            } else {
                assert(b[l - a.len()] == k);
            }
        }
    }
    assert(c.to_set() =~= d);
}

/// Outcome of sending one payload to one session.
#[derive(Debug, Clone, Copy, PartialEq, Eq, Structural)]
pub enum Delivery {
    /// The session's transport accepted the payload.
    Sent,
    /// The session is connected but its transport refused the payload.
    Failed,
    /// No session with that id is connected.
    UnknownSession,
}

/// Outcome of one broadcast: every addressed session is in exactly one list.
pub struct BroadcastReport {
    pub delivered: Vec<SessionId>,
    pub failed: Vec<SessionId>,
}

/// Whether a broadcast over the sessions `m` that skips `exclude` addresses `id`.
pub open spec fn is_target<H, P>(
    m: Map<SessionId, ClientRecord<H, P>>,
    exclude: Option<SessionId>,
    id: SessionId,
) -> bool {
    m.contains_key(id) && exclude != Some(id)
}

/// `s2` holds the records of `s1`, at the same places and with the same ids.
proof fn lemma_same_ids<H, P>(s1: Seq<ClientRecord<H, P>>, s2: Seq<ClientRecord<H, P>>)
    requires
        unique_ids(s1),
        s1.len() == s2.len(),
        forall|j: int| 0 <= j < s1.len() ==> #[trigger] s2[j].id == s1[j].id,
    ensures
        unique_ids(s2),
        records_map(s2).dom() == records_map(s1).dom(),
        forall|j: int| 0 <= j < s1.len() ==> records_map(s1)[#[trigger] s1[j].id] == s1[j]
            && records_map(s2)[s1[j].id] == s2[j],
{
    assert forall|i: int, j: int| 0 <= i < s2.len() && 0 <= j < s2.len() && i != j implies s2[i].id != s2[j].id by {
        assert(s2[i].id == s1[i].id);
        assert(s2[j].id == s1[j].id);
    }
    assert forall|k: SessionId| #[trigger] holds_id(s2, k) <==> holds_id(s1, k) by {
        if holds_id(s1, k) {
            let j = choose|j: int| 0 <= j < s1.len() && #[trigger] s1[j].id == k;
            assert(s2[j].id == k);
        }
        if holds_id(s2, k) {
            let j = choose|j: int| 0 <= j < s2.len() && #[trigger] s2[j].id == k;
            assert(s1[j].id == s2[j].id);
        }
    }
    assert(records_map(s2).dom() =~= records_map(s1).dom());
    assert forall|j: int| 0 <= j < s1.len() implies records_map(s1)[#[trigger] s1[j].id] == s1[j]
        && records_map(s2)[s1[j].id] == s2[j] by {
        lemma_lookup(s1, j);
        lemma_lookup(s2, j);
    }
}

impl<H: SessionHandle, P> Registry<H, P> {
    /// Pushes `payload` once to the session `id` and to no other. An unknown
    /// id or a refused push is reported, never raised; nothing is retried.
    pub fn send_to(&mut self, id: SessionId, payload: &str) -> (r: Delivery)
        requires
            old(self).wf(),
        ensures
            final(self).wf(),
            (r == Delivery::UnknownSession) <==> !old(self)@.contains_key(id),
            final(self)@.dom() == old(self)@.dom(),
            old(self)@.contains_key(id) ==> pushed_once(
                old(self)@[id],
                final(self)@[id],
                payload@,
                r == Delivery::Sent,
            ),
            forall|k: SessionId| k != id && #[trigger] old(self)@.contains_key(k) ==> final(self)@[k] == old(self)@[k],
    {
        match self.find(id) {
            Some(i) => {
                let ghost s1 = self.records@;
                let ok = self.records[i].handle.push(payload);
                proof {
                    lemma_same_ids(s1, self.records@);
                    assert forall|k: SessionId| k != id && #[trigger] old(self)@.contains_key(k) implies self@[k] == old(self)@[k] by {
                        let j = choose|j: int| 0 <= j < s1.len() && #[trigger] s1[j].id == k;
                        assert(s1[j].id == k);
                    }
                    assert(s1[i as int].id == id);
                }
                if ok {
                    Delivery::Sent
                } else {
                    Delivery::Failed
                }
            },
            None => {
                assert(!self@.contains_key(id));
                Delivery::UnknownSession
            },
        }
    }

    /// Pushes `payload` once to every connected session but `exclude`, and to
    /// no other. A session whose push fails is listed as failed and the others
    /// are still served; nothing is retried.
    pub fn broadcast(&mut self, payload: &str, exclude: Option<SessionId>) -> (r: BroadcastReport)
        requires
            old(self).wf(),
        ensures
            final(self).wf(),
            final(self)@.dom() == old(self)@.dom(),
            forall|id: SessionId| #[trigger] old(self)@.contains_key(id) ==> if is_target(old(self)@, exclude, id) {
                pushed_once(old(self)@[id], final(self)@[id], payload@, r.delivered@.contains(id))
            } else {
                final(self)@[id] == old(self)@[id]
            },
            r.delivered@.no_duplicates(),
            r.failed@.no_duplicates(),
            forall|id: SessionId|
                r.delivered@.contains(id) || r.failed@.contains(id) <==> is_target(old(self)@, exclude, id),
            forall|id: SessionId| !(r.delivered@.contains(id) && r.failed@.contains(id)),
            exclude is None ==> r.delivered@.len() + r.failed@.len() == old(self)@.len(),
    {
        let ghost orig = self.records@;
        let mut delivered: Vec<SessionId> = Vec::new();
        let mut failed: Vec<SessionId> = Vec::new();
        let mut i: usize = 0;
        while i < self.records.len()
            invariant
                i <= self.records@.len(),
                self.records@.len() == orig.len(),
                unique_ids(orig),
                forall|j: int| 0 <= j < orig.len() ==> #[trigger] self.records@[j].id == orig[j].id,
                forall|j: int| i <= j < orig.len() ==> #[trigger] self.records@[j] == orig[j],
                forall|j: int| 0 <= j < i ==> if exclude != Some(orig[j].id) {
                    pushed_once(orig[j], #[trigger] self.records@[j], payload@, delivered@.contains(orig[j].id))
                } else {
                    self.records@[j] == orig[j]
                },
                delivered@.no_duplicates(),
                failed@.no_duplicates(),
                forall|id: SessionId|
                    delivered@.contains(id) || failed@.contains(id) <==> exists|j: int|
                        0 <= j < i && #[trigger] orig[j].id == id && exclude != Some(id),
                forall|id: SessionId| !(delivered@.contains(id) && failed@.contains(id)),
            decreases orig.len() - i,
        {
            let id = self.records[i].id;
            proof {
                assert(self.records@[i as int] == orig[i as int]);
                assert forall|j: int| 0 <= j < i implies orig[j].id != id by {}
            }
            let is_excluded = match exclude {
                Some(x) => x == id,
                None => false,
            };
            let ghost d0 = delivered@;
            let ghost f0 = failed@;
            let ghost r0 = self.records@;
            proof {
                assert(!d0.contains(id) && !f0.contains(id));
            }
            if !is_excluded {
                let ok = self.records[i].handle.push(payload);
                if ok {
                    delivered.push(id);
                    proof {
                        lemma_push_contains(d0, id);
                    }
                } else {
                    failed.push(id);
                    proof {
                        lemma_push_contains(f0, id);
                    }
                }
                proof {
                    assert(delivered@.contains(id) == ok);
                    assert forall|j: int| 0 <= j < i && exclude != Some(orig[j].id) implies
                        delivered@.contains(orig[j].id) == d0.contains(orig[j].id) by {
                        assert(orig[j].id != id);
                    }
                }
            }
            proof {
                assert forall|j: int| 0 <= j < orig.len() && j != i implies #[trigger] self.records@[j] == r0[j] by {}
                assert forall|k: SessionId|
                    delivered@.contains(k) || failed@.contains(k) <==> exists|j: int|
                        0 <= j < i + 1 && #[trigger] orig[j].id == k && exclude != Some(k) by {
                    if k == id && !is_excluded {
                        assert(orig[i as int].id == k);
                    }
                    if exists|j: int| 0 <= j < i && #[trigger] orig[j].id == k && exclude != Some(k) {
                        assert(d0.contains(k) || f0.contains(k));
                    }
                    if d0.contains(k) || f0.contains(k) {
                        let j = choose|j: int| 0 <= j < i && #[trigger] orig[j].id == k && exclude != Some(k);
                        assert(0 <= j < i + 1 && orig[j].id == k);
                    }
                }
            }
            i = i + 1;
        }
        proof {
            let fin = self.records@;
            lemma_same_ids(orig, fin);
            assert forall|id: SessionId|
                delivered@.contains(id) || failed@.contains(id) <==> is_target(old(self)@, exclude, id) by {
                if holds_id(orig, id) {
                    let j = choose|j: int| 0 <= j < orig.len() && #[trigger] orig[j].id == id;
                }
            }
            assert forall|id: SessionId| #[trigger] old(self)@.contains_key(id) implies if is_target(old(self)@, exclude, id) {
                pushed_once(old(self)@[id], self@[id], payload@, delivered@.contains(id))
            } else {
                self@[id] == old(self)@[id]
            } by {
                let j = choose|j: int| 0 <= j < orig.len() && #[trigger] orig[j].id == id;
                assert(fin[j].id == orig[j].id);
            }
            if exclude is None {
                lemma_report_count(delivered@, failed@, old(self)@.dom());
            }
        }
        BroadcastReport { delivered, failed }
    }
}

} // verus!
