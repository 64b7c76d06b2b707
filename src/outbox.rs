//! The send side of a session: the transport's handle and the record of what
//! was pushed through it.

use vstd::prelude::*;
use crate::registry::SessionId;

verus! {

/// A capability to push one outbound text message to one connected session.
pub trait SessionHandle {
    /// Pushes `payload` to the session; `false` when the transport refused it
    /// (closed or broken connection).
    fn push(&mut self, payload: &str) -> bool;
}

/// A session's handle together with the record of every push made through
/// it: the payload and whether the transport accepted it, in order. The
/// handle is reached only through `push`, which calls it once per record entry.
pub struct Outbox<H> {
    handle: H,
    owner: Ghost<SessionId>,
    sent: Ghost<Seq<(Seq<char>, bool)>>,
}

impl<H> Outbox<H> {
    /// The pushes made through this outbox so far.
    pub closed spec fn sent(&self) -> Seq<(Seq<char>, bool)> {
        self.sent@
    }

    /// The session this outbox was made for.
    pub closed spec fn owner(&self) -> SessionId {
        self.owner@
    }

    /// A fresh outbox over `handle` for session `owner`.
    pub closed spec fn spec_new(owner: SessionId, handle: H) -> Outbox<H> {
        Outbox { handle, owner: Ghost(owner), sent: Ghost(Seq::empty()) }
    }

    /// A fresh outbox belongs to the session it was made for and has pushed
    /// nothing.
    pub proof fn lemma_fresh(owner: SessionId, handle: H)
        ensures
            Self::spec_new(owner, handle).sent() == Seq::<(Seq<char>, bool)>::empty(),
            Self::spec_new(owner, handle).owner() == owner,
    {
    }

    pub fn new(owner: SessionId, handle: H) -> (r: Self)
        ensures
            r == Self::spec_new(owner, handle),
    {
        Outbox { handle, owner: Ghost(owner), sent: Ghost(Seq::empty()) }
    }
}

impl<H: SessionHandle> Outbox<H> {
    /// Pushes `payload` through the handle, once.
    pub fn push(&mut self, payload: &str) -> (r: bool)
        ensures
            final(self).owner() == old(self).owner(),
            final(self).sent() == old(self).sent().push((payload@, r)),
    {
        let r = self.handle.push(payload);
        self.sent = Ghost(self.sent@.push((payload@, r)));
        r
    }
}

} // verus!
