use vstd::prelude::*;
use crate::connection::{ConnError, ConnState, Connection, ConnectionView, Frame, frame_message};
use crate::message::{Message, MessageView, SessionId, views, lemma_views_push, lemma_views_skip};

verus! {

/// What a full outbound queue does with one more message.
#[derive(Clone, Copy, Debug, PartialEq, Eq, Structural)]
pub enum Policy {
    RejectNew,
    DropOldest,
}

#[derive(Clone, Copy, Debug, PartialEq, Eq, Structural)]
pub enum SessionError {
    /// The outbound queue is full and the message was not taken.
    Backpressure,
    /// No connection is attached.
    NotAttached,
    /// The attached connection failed.
    Transport(ConnError),
}

pub struct SessionView {
    pub id: SessionId,
    pub connection: Option<ConnectionView>,
    pub queue: Seq<MessageView>,
    pub capacity: nat,
    pub policy: Policy,
    pub last_activity: int,
}

pub open spec fn opt_view(c: Option<Connection>) -> Option<ConnectionView> {
    match c {
        Some(c) => Some(c@),
        None => None,
    }
}

impl SessionView {
    pub open spec fn fresh(id: SessionId, capacity: nat, policy: Policy, now: int) -> SessionView {
        SessionView {
            id,
            connection: None,
            queue: Seq::empty(),
            capacity,
            policy,
            last_activity: now,
        }
    }

    pub open spec fn wf(self) -> bool {
        self.queue.len() <= self.capacity
    }

    pub open spec fn is_full(self) -> bool {
        self.queue.len() >= self.capacity
    }

    /// Whether one more message is taken: always below capacity; when full,
    /// only under drop-oldest and only if there is an oldest message to drop.
    pub open spec fn accepts(self) -> bool {
        !self.is_full() || (self.policy == Policy::DropOldest && self.queue.len() > 0)
    }

    pub open spec fn enqueued(self, m: MessageView) -> SessionView {
        if !self.is_full() {
            SessionView { queue: self.queue.push(m), ..self }
        } else if self.accepts() {
            SessionView { queue: self.queue.drop_first().push(m), ..self }
        } else {
            self
        }
    }

    pub open spec fn attached(self, c: ConnectionView) -> SessionView {
        SessionView { connection: Some(c), ..self }
    }

    pub open spec fn detached(self) -> SessionView {
        SessionView { connection: None, ..self }
    }

    pub open spec fn touched(self, now: int) -> SessionView {
        SessionView { last_activity: now, ..self }
    }

    /// One round of the outbound loop: an open connection takes the whole
    /// queue in order; a connection that is no longer open is let go, which
    /// pauses delivery until the next attach; without a connection nothing moves.
    pub open spec fn pumped(self, now: int) -> SessionView {
        match self.connection {
            Some(c) => if c.state == ConnState::Open {
                SessionView {
                    connection: Some(c.with_outgoing(c.outgoing + self.queue)),
                    queue: Seq::empty(),
                    last_activity: if self.queue.len() > 0 { now } else { self.last_activity },
                    ..self
                }
            } else {
                self.detached()
            },
            None => self,
        }
    }

    pub open spec fn expired(self, now: int, timeout: int) -> bool {
        now - self.last_activity > timeout
    }
}

/// One logical participant: its identity, at most one connection, a bounded
/// outbound queue and the time of its last activity.
pub struct Session {
    id: SessionId,
    connection: Option<Connection>,
    queue: Vec<Message>,
    capacity: usize,
    policy: Policy,
    last_activity: u64,
}

impl View for Session {
    type V = SessionView;

    closed spec fn view(&self) -> SessionView {
        SessionView {
            id: self.id,
            connection: opt_view(self.connection),
            queue: views(self.queue@),
            capacity: self.capacity as nat,
            policy: self.policy,
            last_activity: self.last_activity as int,
        }
    }
}

impl Session {
    pub fn new(id: SessionId, capacity: usize, policy: Policy, now: u64) -> (r: Session)
        ensures
            r@ == SessionView::fresh(id, capacity as nat, policy, now as int),
    {
        let s = Session { id, connection: None, queue: Vec::new(), capacity, policy, last_activity: now };
        assert(s@.queue =~= Seq::<MessageView>::empty());
        s
    }

    pub fn id(&self) -> (r: SessionId)
        ensures
            r == self@.id,
    {
        self.id
    }

    pub fn queued(&self) -> (r: usize)
        ensures
            r == self@.queue.len(),
    {
        self.queue.len()
    }

    pub fn last_activity(&self) -> (r: u64)
        ensures
            r == self@.last_activity,
    {
        self.last_activity
    }

    pub fn has_connection(&self) -> (r: bool)
        ensures
            r == self@.connection is Some,
    {
        self.connection.is_some()
    }

    pub fn connection(&self) -> (r: Option<&Connection>)
        ensures
            match r {
                Some(c) => self@.connection == Some(c@),
                None => self@.connection is None,
            },
    {
        self.connection.as_ref()
    }

    /// Installs `conn` as the session's connection. The one it replaces, if
    /// any, is closed and handed back so that its stream can be released.
    pub fn attach(&mut self, conn: Connection) -> (r: Option<Connection>)
        ensures
            final(self)@ == old(self)@.attached(conn@),
            match old(self)@.connection {
                Some(c) => r is Some && r->Some_0@ == c.with_state(ConnState::Closed),
                None => r is None,
            },
    {
        let prev = self.connection.take();
        self.connection = Some(conn);
        match prev {
            Some(mut c) => {
                c.close();
                Some(c)
            },
            None => None,
        }
    }

    /// Lets go of the connection, if any, and hands it back.
    pub fn detach(&mut self) -> (r: Option<Connection>)
        ensures
            final(self)@ == old(self)@.detached(),
            opt_view(r) == old(self)@.connection,
    {
        self.connection.take()
    }

    /// Appends to the bounded outbound queue, applying the backpressure policy when it is full.
    pub fn enqueue(&mut self, msg: Message) -> (r: Result<(), SessionError>)
        requires
            old(self)@.wf(),
        ensures
            final(self)@ == old(self)@.enqueued(msg@),
            final(self)@.wf(),
            r is Ok <==> old(self)@.accepts(),
            r is Err ==> r->Err_0 == SessionError::Backpressure,
    {
        let ghost m = msg;
        if self.queue.len() < self.capacity {
            proof {
                lemma_views_push(self.queue@, msg);
            }
            self.queue.push(msg);
            Ok(())
        } else if self.policy == Policy::DropOldest && self.queue.len() > 0 {
            let ghost q0 = self.queue@;
            let _oldest = self.queue.remove(0);
            proof {
                lemma_views_skip(q0, 1);
                assert(self.queue@ =~= q0.skip(1));
                assert(views(q0).skip(1) =~= views(q0).drop_first());
                lemma_views_push(self.queue@, m);
            }
            self.queue.push(msg);
            Ok(())
        } else {
            Err(SessionError::Backpressure)
        }
    }

    pub fn touch(&mut self, now: u64)
        ensures
            final(self)@ == old(self)@.touched(now as int),
    {
        self.last_activity = now;
    }

    /// Whether more than `timeout` has passed since the last activity.
    pub fn is_expired(&self, now: u64, timeout: u64) -> (r: bool)
        ensures
            r == self@.expired(now as int, timeout as int),
    {
        now > self.last_activity && now - self.last_activity > timeout
    }

    /// Runs the outbound loop once: drains the queue, in order, into the
    /// attached connection. A connection that no longer takes frames is
    /// detached and handed back; the queue then waits for the next attach.
    pub fn pump(&mut self, now: u64) -> (r: Option<Connection>)
        ensures
            final(self)@ == old(self)@.pumped(now as int),
            match old(self)@.connection {
                Some(c) => if c.state == ConnState::Open {
                    r is None
                } else {
                    r is Some && r->Some_0@ == c
                },
                None => r is None,
            },
    {
        match self.connection.take() {
            None => None,
            Some(mut c) => {
                if !c.is_open() {
                    return Some(c);
                }
                let mut q: Vec<Message> = Vec::new();
                std::mem::swap(&mut q, &mut self.queue);
                let ghost q0 = q@;
                let ghost c0 = c@;
                let any = q.len() > 0;
                let ghost mut k: int = 0;
                while q.len() > 0
                    invariant
                        0 <= k <= q0.len(),
                        q@ == q0.skip(k),
                        c0.state == ConnState::Open,
                        c@ == c0.with_outgoing(c0.outgoing + views(q0).take(k)),
                    decreases q.len(),
                {
                    let m = q.remove(0);
                    proof {
                        lemma_views_skip(q0, k);
                        lemma_views_skip(q0, k + 1);
                        assert(q@ =~= q0.skip(k + 1));
                        assert(views(q0).take(k + 1) =~= views(q0).take(k).push(m@));
                        assert(c0.outgoing + views(q0).take(k + 1) =~= (c0.outgoing + views(q0).take(k)).push(m@));
                        k = k + 1;
                    }
                    let _ = c.send(m);
                }
                proof {
                    assert(views(q0).take(k) =~= views(q0));
                    assert(views(self.queue@) =~= Seq::empty());
                }
                self.connection = Some(c);
                if any {
                    self.last_activity = now;
                }
                None
            },
        }
    }

    /// Reads one inbound frame from the attached connection. A message that
    /// arrives counts as activity.
    pub fn receive(&mut self, frame: Frame, now: u64) -> (r: Result<Option<Message>, SessionError>)
        ensures
            old(self)@.connection is None ==> r == Err::<Option<Message>, SessionError>(SessionError::NotAttached)
                && final(self)@ == old(self)@,
            old(self)@.connection is Some ==> ({
                let c = old(self)@.connection->Some_0;
                &&& c.state == ConnState::Closed ==> r == Err::<Option<Message>, SessionError>(
                    SessionError::Transport(ConnError::Closed),
                ) && final(self)@ == old(self)@
                &&& c.state != ConnState::Closed ==> match frame {
                    Frame::Malformed => r == Err::<Option<Message>, SessionError>(
                        SessionError::Transport(ConnError::Protocol),
                    ) && final(self)@ == old(self)@.attached(c.with_state(ConnState::Closed)),
                    Frame::Close => r is Ok && r->Ok_0 is None && final(self)@ == old(self)@.attached(
                        c.with_state(ConnState::Closed),
                    ),
                    _ => r is Ok && r->Ok_0 is Some && frame_message(frame, old(self)@.id) == Some(
                        r->Ok_0->Some_0@,
                    ) && final(self)@ == old(self)@.touched(now as int),
                }
            }),
    {
        match self.connection.take() {
            None => Err(SessionError::NotAttached),
            Some(mut c) => {
                let res = c.receive(frame, self.id);
                self.connection = Some(c);
                match res {
                    Ok(Some(m)) => {
                        self.last_activity = now;
                        Ok(Some(m))
                    },
                    Ok(None) => Ok(None),
                    Err(e) => Err(SessionError::Transport(e)),
                }
            },
        }
    }

    /// Hands the frames waiting on the attached connection to the transport.
    pub fn take_outgoing(&mut self) -> (r: Vec<Message>)
        ensures
            match old(self)@.connection {
                Some(c) => views(r@) == c.outgoing && final(self)@ == old(self)@.attached(
                    c.with_outgoing(Seq::empty()),
                ),
                None => r@.len() == 0 && final(self)@ == old(self)@,
            },
    {
        match self.connection.take() {
            None => Vec::new(),
            Some(mut c) => {
                let out = c.take_outgoing();
                self.connection = Some(c);
                out
            },
        }
    }
}

/// With reject-new, a full queue refuses one more message and stays as it
/// was; with drop-oldest, a full queue that holds anything loses its oldest
/// message and gains the new one at its end.
pub proof fn lemma_backpressure(s: SessionView, m: MessageView)
    requires
        s.is_full(),
    ensures
        s.policy == Policy::RejectNew ==> !s.accepts() && s.enqueued(m) == s,
        s.policy == Policy::DropOldest && s.queue.len() > 0 ==> s.accepts() && s.enqueued(m).queue
            == s.queue.drop_first().push(m),
{
}

/// Attaching a new connection keeps every queued message, and the next round
/// of the outbound loop delivers them on the new connection in their order.
pub proof fn lemma_reconnect_keeps_queue(s: SessionView, c: ConnectionView, now: int)
    requires
        c.state == ConnState::Open,
    ensures
        s.attached(c).queue == s.queue,
        s.attached(c).pumped(now).connection == Some(c.with_outgoing(c.outgoing + s.queue)),
        s.attached(c).pumped(now).queue.len() == 0,
{
}

/// Messages `a`, `b`, `c` enqueued in that order reach the peer in that order,
/// after whatever was queued before them, even when the outbound loop pauses
/// between `b` and `c`: `a` and `b` go out on a first connection, that
/// connection closes, `c` waits in the queue while no connection is attached,
/// and goes out on the next one. Nothing is lost, duplicated or reordered.
/// (The queue must have room for `a` and `b`, or they would not be taken.)
pub proof fn lemma_order_across_reconnect(
    s: SessionView,
    a: MessageView,
    b: MessageView,
    c: MessageView,
    first: ConnectionView,
    second: ConnectionView,
    t1: int,
    t2: int,
    t3: int,
)
    requires
        s.queue.len() + 2 <= s.capacity,
        first.state == ConnState::Open,
        second.state == ConnState::Open,
    ensures
        ({
            let s1 = s.enqueued(a).enqueued(b).attached(first).pumped(t1);
            let closed = s1.connection->Some_0.with_state(ConnState::Closed);
            let s2 = s1.attached(closed).enqueued(c).pumped(t2);
            let s3 = s2.attached(second).pumped(t3);
            &&& s1.connection is Some
            &&& s2.connection is None
            &&& s2.queue == seq![c]
            &&& s3.connection is Some
            &&& closed.outgoing == first.outgoing + s.queue + seq![a, b]
            &&& s3.connection->Some_0.outgoing == second.outgoing + seq![c]
        }),
{
    let s1 = s.enqueued(a).enqueued(b).attached(first).pumped(t1);
    assert(s.enqueued(a).enqueued(b).queue =~= s.queue + seq![a, b]);
    assert(s1.connection->Some_0.outgoing =~= first.outgoing + s.queue + seq![a, b]);
    let closed = s1.connection->Some_0.with_state(ConnState::Closed);
    let s2 = s1.attached(closed).enqueued(c).pumped(t2);
    assert(s1.queue.len() == 0);
    assert(s1.attached(closed).enqueued(c).queue =~= seq![c]);
    let s3 = s2.attached(second).pumped(t3);
    assert(s3.connection->Some_0.outgoing =~= second.outgoing + seq![c]);
}

} // verus!
