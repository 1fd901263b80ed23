use vstd::prelude::*;
use crate::auth::{AuthError, authenticate, uuid_value};
use crate::connection::{ConnState, Connection, ConnectionView};
use crate::message::{ConnectionId, SessionId};
use crate::registry::{RegistryError, SessionRegistry};

verus! {

#[derive(Clone, Copy, Debug, PartialEq, Eq, Structural)]
pub enum AcceptError {
    /// Every connection identity has been handed out.
    Exhausted,
    /// The registry refused to bind the connection.
    Registry(RegistryError),
}

pub struct SupervisorView {
    /// The next connection identity to hand out; all earlier ones are used.
    pub next_connection: nat,
    pub idle_timeout: nat,
    pub accepted: nat,
    pub expired: nat,
    pub auth_failures: nat,
}

/// Saturating counter step.
pub open spec fn bumped(x: nat, n: nat) -> nat {
    if x + n <= u64::MAX { x + n } else { u64::MAX as nat }
}

/// Binds accepted connections to sessions, handing each a fresh identity,
/// and reaps idle sessions.
pub struct Supervisor {
    next_connection: u64,
    idle_timeout: u64,
    accepted: u64,
    expired: u64,
    auth_failures: u64,
}

impl View for Supervisor {
    type V = SupervisorView;

    closed spec fn view(&self) -> SupervisorView {
        SupervisorView {
            next_connection: self.next_connection as nat,
            idle_timeout: self.idle_timeout as nat,
            accepted: self.accepted as nat,
            expired: self.expired as nat,
            auth_failures: self.auth_failures as nat,
        }
    }
}

impl Supervisor {
    pub fn new(idle_timeout: u64) -> (r: Supervisor)
        ensures
            r@ == (SupervisorView {
                next_connection: 0,
                idle_timeout: idle_timeout as nat,
                accepted: 0,
                expired: 0,
                auth_failures: 0,
            }),
    {
        Supervisor { next_connection: 0, idle_timeout, accepted: 0, expired: 0, auth_failures: 0 }
    }

    pub fn auth_failures(&self) -> (r: u64)
        ensures
            r == self@.auth_failures,
    {
        self.auth_failures
    }

    /// Reads the session that a client's greeting names (see
    /// `auth::authenticate`) and counts the greetings that name none.
    pub fn authenticate(&mut self, greeting: &str) -> (r: Result<SessionId, AuthError>)
        ensures
            match uuid_value(greeting@) {
                Some(v) => r == Ok::<SessionId, AuthError>(SessionId { value: v }) && final(self)@ == old(self)@,
                None => r == Err::<SessionId, AuthError>(AuthError::Malformed) && final(self)@ == (SupervisorView {
                    auth_failures: bumped(old(self)@.auth_failures, 1),
                    ..old(self)@
                }),
            },
    {
        let r = authenticate(greeting);
        if r.is_err() {
            self.auth_failures = self.auth_failures.saturating_add(1);
        }
        r
    }

    pub fn accepted(&self) -> (r: u64)
        ensures
            r == self@.accepted,
    {
        self.accepted
    }

    pub fn expired(&self) -> (r: u64)
        ensures
            r == self@.expired,
    {
        self.expired
    }

    /// Handles a physical connection that completed its handshake and whose
    /// peer authenticated as `id`: gives it a fresh identity, finds or creates
    /// the session and attaches the connection there. Returns the new
    /// connection's identity and the connection it replaced, closed, if any.
    pub fn accept(&mut self, reg: &mut SessionRegistry, id: SessionId, now: u64) -> (r: Result<
        (ConnectionId, Option<Connection>),
        AcceptError,
    >)
        requires
            old(reg).wf(),
        ensures
            final(reg).wf(),
            old(self)@.next_connection == u64::MAX ==> r == Err::<(ConnectionId, Option<Connection>), AcceptError>(
                AcceptError::Exhausted,
            ) && final(reg)@ == old(reg)@ && final(self)@ == old(self)@,
            old(self)@.next_connection < u64::MAX ==> ({
                let cid = ConnectionId { value: old(self)@.next_connection as u64 };
                let g = old(reg)@.get_or_create(id, now as int);
                let c = ConnectionView { id: cid, state: ConnState::Open, outgoing: Seq::empty() };
                &&& final(self)@ == (SupervisorView {
                    next_connection: old(self)@.next_connection + 1,
                    accepted: if g.attach_result(id, cid) is Ok {
                        bumped(old(self)@.accepted, 1)
                    } else {
                        old(self)@.accepted
                    },
                    ..old(self)@
                })
                &&& g.attach_result(id, cid) is Ok ==> r is Ok && r->Ok_0.0 == cid && final(reg)@ == g.with_session(
                    g.sessions[id].attached(c),
                ) && match g.sessions[id].connection {
                    Some(p) => r->Ok_0.1 is Some && r->Ok_0.1->Some_0@ == p.with_state(ConnState::Closed),
                    None => r->Ok_0.1 is None,
                }
                &&& g.attach_result(id, cid) is Err ==> r == Err::<(ConnectionId, Option<Connection>), AcceptError>(
                    AcceptError::Registry(g.attach_result(id, cid)->Err_0),
                ) && final(reg)@ == g
            }),
    {
        if self.next_connection == u64::MAX {
            return Err(AcceptError::Exhausted);
        }
        let cid = ConnectionId { value: self.next_connection };
        self.next_connection = self.next_connection + 1;
        let conn = Connection::open(cid);
        reg.get_or_create(id, now);
        match reg.attach(id, conn) {
            Ok(prev) => {
                self.accepted = self.accepted.saturating_add(1);
                Ok((cid, prev))
            },
            Err(e) => Err(AcceptError::Registry(e)),
        }
    }

    /// One round of the reaper: destroys the disconnected sessions idle for
    /// longer than the configured timeout and counts them.
    pub fn reap(&mut self, reg: &mut SessionRegistry, now: u64) -> (r: Vec<SessionId>)
        requires
            old(reg).wf(),
        ensures
            final(reg).wf(),
            final(reg)@ == old(reg)@.reaped(now as int, old(self)@.idle_timeout as int),
            r@.no_duplicates(),
            forall|k: SessionId|
                r@.contains(k) <==> old(reg)@.reapable(k, now as int, old(self)@.idle_timeout as int),
            final(self)@ == (SupervisorView { expired: bumped(old(self)@.expired, r@.len()), ..old(self)@ }),
    {
        let gone = reg.reap(now, self.idle_timeout);
        self.expired = self.expired.saturating_add(gone.len() as u64);
        gone
    }
}

} // verus!
