//! The hub: single owner of the session registry. It applies session events
//! one at a time and decides what each poll tick broadcasts.

use vstd::prelude::*;
use crate::outbox::{Outbox, SessionHandle};
use crate::registry::{
    pushed_once, BroadcastReport, ClientRecord, Delivery, Registry, SessionId,
};
use crate::snapshot::{build_snapshot, vehicles_of, FeedEntity, VehicleSnapshot};

verus! {

/// Seconds between two polls of the vehicle-position feed unless configured.
pub const DEFAULT_POLL_PERIOD_SECS: u64 = 5;

/// Fixed-cadence poll schedule: no backoff, whatever a fetch returned.
#[derive(Debug, Clone, Copy, PartialEq, Eq, Structural)]
pub struct PollSchedule {
    pub period_secs: u64,
    /// Unix seconds at which the next tick is due.
    pub next_due: u64,
}

impl PollSchedule {
    /// The schedule after one more tick.
    pub open spec fn advanced(self) -> PollSchedule {
        PollSchedule {
            period_secs: self.period_secs,
            next_due: if self.next_due + self.period_secs <= u64::MAX {
                (self.next_due + self.period_secs) as u64
            } else {
                u64::MAX
            },
        }
    }
}

/// A session event as the transport layer delivers it to the hub.
pub enum HubEvent<H, P> {
    Connect { id: SessionId, handle: H },
    Disconnect { id: SessionId },
    PositionUpdate { id: SessionId, position: P },
}

/// The sessions after `ev` was applied to the sessions `m`.
pub open spec fn step<H, P>(
    m: Map<SessionId, ClientRecord<H, P>>,
    ev: HubEvent<H, P>,
) -> Map<SessionId, ClientRecord<H, P>> {
    match ev {
        HubEvent::Connect { id, handle } => m.insert(
            id,
            ClientRecord { id, handle: Outbox::spec_new(id, handle), last_position: None },
        ),
        HubEvent::Disconnect { id } => m.remove(id),
        HubEvent::PositionUpdate { id, position } => if m.contains_key(id) {
            m.insert(id, ClientRecord { last_position: Some(position), ..m[id] })
        } else {
            m
        },
    }
}

/// The sessions after `evs` were applied in order to the sessions `m`.
pub open spec fn run<H, P>(
    m: Map<SessionId, ClientRecord<H, P>>,
    evs: Seq<HubEvent<H, P>>,
) -> Map<SessionId, ClientRecord<H, P>>
    decreases evs.len(),
{
    if evs.len() == 0 {
        m
    } else {
        step(run(m, evs.drop_last()), evs.last())
    }
}

/// For the last Connect or Disconnect of `id` in `evs`: `Some(true)` for a
/// Connect, `Some(false)` for a Disconnect; `None` when there is neither.
pub open spec fn last_lifecycle<H, P>(evs: Seq<HubEvent<H, P>>, id: SessionId) -> Option<bool>
    decreases evs.len(),
{
    if evs.len() == 0 {
        None
    } else {
        match evs.last() {
            HubEvent::Connect { id: x, .. } if x == id => Some(true),
            HubEvent::Disconnect { id: x } if x == id => Some(false),
            _ => last_lifecycle(evs.drop_last(), id),
        }
    }
}

/// After any sequence of events, a session is connected exactly when the
/// last Connect or Disconnect of its id was a Connect; with neither in the
/// sequence, it is connected exactly when it was before.
pub proof fn lemma_connected_iff_last_connect<H, P>(
    m: Map<SessionId, ClientRecord<H, P>>,
    evs: Seq<HubEvent<H, P>>,
    id: SessionId,
)
    ensures
        run(m, evs).contains_key(id) == match last_lifecycle(evs, id) {
            Some(connected) => connected,
            None => m.contains_key(id),
        },
    decreases evs.len(),
{
    if evs.len() > 0 {
        lemma_connected_iff_last_connect(m, evs.drop_last(), id);
    }
}

/// The hub: owns the registry of connected sessions and the poll schedule.
pub struct Lobby<H, P> {
    clients: Registry<H, P>,
    schedule: PollSchedule,
}

impl<H, P> Lobby<H, P> {
    /// Well-formed: the registry holds at most one record per id.
    pub closed spec fn wf(&self) -> bool {
        self.clients.wf()
    }

    /// The connected sessions.
    pub closed spec fn sessions(&self) -> Map<SessionId, ClientRecord<H, P>> {
        self.clients@
    }

    /// The poll schedule, in contracts.
    pub closed spec fn schedule_spec(&self) -> PollSchedule {
        self.schedule
    }

    /// A hub with no session whose first tick is due `period_secs` after
    /// `start`.
    pub fn new(period_secs: u64, start: u64) -> (r: Self)
        ensures
            r.wf(),
            r.sessions() == Map::<SessionId, ClientRecord<H, P>>::empty(),
            r.schedule_spec() == (PollSchedule { period_secs, next_due: start }).advanced(),
    {
        Lobby {
            clients: Registry::new(),
            schedule: PollSchedule { period_secs, next_due: start.saturating_add(period_secs) },
        }
    }

    /// The poll schedule.
    pub fn schedule(&self) -> (r: PollSchedule)
        ensures
            r == self.schedule_spec(),
    {
        self.schedule
    }

    /// Number of connected sessions.
    pub fn session_count(&self) -> (r: usize)
        requires
            self.wf(),
        ensures
            r == self.sessions().len(),
    {
        self.clients.len()
    }

    /// Whether session `id` is connected.
    pub fn is_connected(&self, id: SessionId) -> (r: bool)
        requires
            self.wf(),
        ensures
            r == self.sessions().contains_key(id),
    {
        self.clients.get(id).is_some()
    }

    /// The last position session `id` reported, if it is connected and
    /// reported one.
    pub fn last_position(&self, id: SessionId) -> (r: Option<&P>)
        requires
            self.wf(),
        ensures
            match r {
                Some(p) => self.sessions().contains_key(id) && self.sessions()[id].last_position == Some(*p),
                None => !self.sessions().contains_key(id) || self.sessions()[id].last_position is None,
            },
    {
        match self.clients.get(id) {
            Some(rec) => match &rec.last_position {
                Some(p) => Some(p),
                None => None,
            },
            None => None,
        }
    }

    /// Connect: registers session `id`, replacing an earlier record of it.
    pub fn handle_connect(&mut self, id: SessionId, handle: H)
        requires
            old(self).wf(),
        ensures
            final(self).wf(),
            final(self).sessions() == old(self).sessions().insert(
                id,
                ClientRecord { id, handle: Outbox::spec_new(id, handle), last_position: None },
            ),
            final(self).schedule_spec() == old(self).schedule_spec(),
    {
        self.clients.insert(id, handle);
    }

    /// Disconnect: forgets session `id`; `true` when it was connected. For an
    /// id that is not connected nothing changes.
    pub fn handle_disconnect(&mut self, id: SessionId) -> (r: bool)
        requires
            old(self).wf(),
        ensures
            final(self).wf(),
            r == old(self).sessions().contains_key(id),
            final(self).sessions() == old(self).sessions().remove(id),
            !r ==> final(self).sessions() == old(self).sessions(),
            final(self).schedule_spec() == old(self).schedule_spec(),
    {
        let r = self.clients.remove(id);
        assert(!r ==> self.sessions() =~= old(self).sessions());
        r
    }

    /// PositionUpdate: stores `position` as the last one of session `id`;
    /// `false`, with nothing changed and no record created, for an id that is
    /// not connected.
    pub fn handle_position_update(&mut self, id: SessionId, position: P) -> (r: bool)
        requires
            old(self).wf(),
        ensures
            final(self).wf(),
            r == old(self).sessions().contains_key(id),
            r ==> final(self).sessions() == old(self).sessions().insert(
                id,
                ClientRecord { last_position: Some(position), ..old(self).sessions()[id] },
            ),
            !r ==> final(self).sessions() == old(self).sessions(),
            final(self).schedule_spec() == old(self).schedule_spec(),
    {
        self.clients.update_position(id, position)
    }

    /// Applies one session event.
    pub fn handle(&mut self, ev: HubEvent<H, P>)
        requires
            old(self).wf(),
        ensures
            final(self).wf(),
            final(self).sessions() == step(old(self).sessions(), ev),
            final(self).schedule_spec() == old(self).schedule_spec(),
    {
        match ev {
            HubEvent::Connect { id, handle } => self.handle_connect(id, handle),
            HubEvent::Disconnect { id } => {
                self.handle_disconnect(id);
            },
            HubEvent::PositionUpdate { id, position } => {
                self.handle_position_update(id, position);
            },
        }
    }

    /// Applies `evs` one at a time, in order.
    pub fn handle_events(&mut self, evs: Vec<HubEvent<H, P>>)
        requires
            old(self).wf(),
        ensures
            final(self).wf(),
            final(self).sessions() == run(old(self).sessions(), evs@),
            final(self).schedule_spec() == old(self).schedule_spec(),
    {
        let ghost all = evs@;
        let ghost start = self.sessions();
        let n: usize = evs.len();
        let mut rest = evs;
        let mut k: usize = 0;
        while rest.len() > 0
            invariant
                self.wf(),
                k <= all.len(),
                all.len() == n,
                rest@ == all.subrange(k as int, all.len() as int),
                self.sessions() == run(start, all.subrange(0, k as int)),
                self.schedule_spec() == old(self).schedule_spec(),
            decreases rest@.len(),
        {
            assert(rest@.len() == all.len() - k);
            let ev = rest.remove(0);
            proof {
                let next = all.subrange(0, k as int + 1);
                assert(next.drop_last() =~= all.subrange(0, k as int));
                assert(next.last() == ev);
            }
            self.handle(ev);
            k = k + 1;
            assert(rest@ =~= all.subrange(k as int, all.len() as int));
        }
        assert(all.subrange(0, k as int) =~= all);
    }

    /// One poll tick at `now` with the result of the feed fetch. A failed
    /// fetch gives nothing to broadcast; a successful one gives the snapshot
    /// of its entities stamped `now`. Either way the sessions stay as they
    /// are and the next tick is due one period later.
    pub fn on_tick<E>(&mut self, now: u64, fetched: Result<Vec<FeedEntity<P>>, E>) -> (r: Option<
        VehicleSnapshot<P>,
    >)
        requires
            old(self).wf(),
        ensures
            final(self).wf(),
            final(self).sessions() == old(self).sessions(),
            final(self).schedule_spec() == old(self).schedule_spec().advanced(),
            final(self).schedule_spec().period_secs == old(self).schedule_spec().period_secs,
            old(self).schedule_spec().next_due + old(self).schedule_spec().period_secs <= u64::MAX
                ==> final(self).schedule_spec().next_due == old(self).schedule_spec().next_due
                + old(self).schedule_spec().period_secs,
            match fetched {
                Ok(entities) => match r {
                    Some(s) => s.timestamp == now && s.vehicles@ == vehicles_of(entities@),
                    None => false,
                },
                Err(_) => r is None,
            },
    {
        self.schedule = PollSchedule {
            period_secs: self.schedule.period_secs,
            next_due: self.schedule.next_due.saturating_add(self.schedule.period_secs),
        };
        match fetched {
            Ok(entities) => Some(build_snapshot(now, entities)),
            Err(_) => None,
        }
    }
}

impl<H: SessionHandle, P> Lobby<H, P> {
    /// Sends `message` once to session `id_to` and to no other session.
    pub fn send_message(&mut self, message: &str, id_to: SessionId) -> (r: Delivery)
        requires
            old(self).wf(),
        ensures
            final(self).wf(),
            (r == Delivery::UnknownSession) <==> !old(self).sessions().contains_key(id_to),
            final(self).sessions().dom() == old(self).sessions().dom(),
            old(self).sessions().contains_key(id_to) ==> pushed_once(
                old(self).sessions()[id_to],
                final(self).sessions()[id_to],
                message@,
                r == Delivery::Sent,
            ),
            forall|k: SessionId|
                k != id_to && #[trigger] old(self).sessions().contains_key(k) ==> final(self).sessions()[k]
                    == old(self).sessions()[k],
            final(self).schedule_spec() == old(self).schedule_spec(),
    {
        self.clients.send_to(id_to, message)
    }

    /// Sends `message` once to every connected session.
    pub fn send_to_everyone(&mut self, message: &str) -> (r: BroadcastReport)
        requires
            old(self).wf(),
        ensures
            final(self).wf(),
            final(self).sessions().dom() == old(self).sessions().dom(),
            forall|id: SessionId| #[trigger] old(self).sessions().contains_key(id) ==> pushed_once(
                old(self).sessions()[id],
                final(self).sessions()[id],
                message@,
                r.delivered@.contains(id),
            ),
            r.delivered@.no_duplicates(),
            r.failed@.no_duplicates(),
            forall|id: SessionId|
                r.delivered@.contains(id) || r.failed@.contains(id) <==> old(self).sessions().contains_key(id),
            forall|id: SessionId| !(r.delivered@.contains(id) && r.failed@.contains(id)),
            r.delivered@.len() + r.failed@.len() == old(self).sessions().len(),
            final(self).schedule_spec() == old(self).schedule_spec(),
    {
        self.clients.broadcast(message, None)
    }

    /// Sends `message` once to every connected session but `self_id`, which
    /// is sent nothing.
    pub fn send_to_everyone_except_self(&mut self, message: &str, self_id: SessionId) -> (r: BroadcastReport)
        requires
            old(self).wf(),
        ensures
            final(self).wf(),
            final(self).sessions().dom() == old(self).sessions().dom(),
            forall|id: SessionId| #[trigger] old(self).sessions().contains_key(id) ==> if id != self_id {
                pushed_once(old(self).sessions()[id], final(self).sessions()[id], message@, r.delivered@.contains(id))
            } else {
                final(self).sessions()[id] == old(self).sessions()[id]
            },
            r.delivered@.no_duplicates(),
            r.failed@.no_duplicates(),
            forall|id: SessionId|
                r.delivered@.contains(id) || r.failed@.contains(id) <==> (old(self).sessions().contains_key(id)
                    && id != self_id),
            forall|id: SessionId| !(r.delivered@.contains(id) && r.failed@.contains(id)),
            final(self).schedule_spec() == old(self).schedule_spec(),
    {
        self.clients.broadcast(message, Some(self_id))
    }
}

} // verus!
