use vstd::prelude::*;
use crate::connection::{ConnState, Connection, Frame, frame_message};
use crate::message::{ConnectionId, Message, MessageView, SessionId, views};
use crate::session::{Policy, Session, SessionError, SessionView};

verus! {

#[derive(Clone, Copy, Debug, PartialEq, Eq, Structural)]
pub enum RegistryError {
    /// No session has that identity.
    NotFound,
    /// The session still has a connection attached.
    StillActive,
    /// Another session already holds a connection with that identity.
    ConnectionInUse,
    /// The session's connection is not the one named: it was replaced.
    StaleConnection,
    /// The session's own operation failed.
    Session(SessionError),
}

/// Which sessions a broadcast reaches.
#[derive(Clone, Copy, Debug, PartialEq, Eq, Structural)]
pub enum Audience {
    Everyone,
    AllBut(SessionId),
    Only(SessionId),
}

impl Audience {
    pub open spec fn includes(self, id: SessionId) -> bool {
        match self {
            Audience::Everyone => true,
            Audience::AllBut(x) => x != id,
            Audience::Only(x) => x == id,
        }
    }

    pub fn contains(&self, id: SessionId) -> (r: bool)
        ensures
            r == self.includes(id),
    {
        match self {
            Audience::Everyone => true,
            Audience::AllBut(x) => *x != id,
            Audience::Only(x) => *x == id,
        }
    }
}

pub struct RegistryView {
    pub sessions: Map<SessionId, SessionView>,
    pub capacity: nat,
    pub policy: Policy,
}

impl RegistryView {
    /// Keys match the sessions' own identities, every queue respects the
    /// configured bound, and no connection is held by two sessions.
    pub open spec fn wf(self) -> bool {
        &&& self.sessions.dom().finite()
        &&& forall|k: SessionId| #[trigger]
            self.sessions.contains_key(k) ==> {
                let s = self.sessions[k];
                &&& s.id == k
                &&& s.wf()
                &&& s.capacity == self.capacity
                &&& s.policy == self.policy
            }
        &&& forall|a: SessionId, b: SessionId|
            #![trigger self.sessions[a].connection, self.sessions[b].connection]
            self.sessions.contains_key(a) && self.sessions.contains_key(b) && a != b
                && self.sessions[a].connection is Some && self.sessions[b].connection is Some
                ==> self.sessions[a].connection->Some_0.id != self.sessions[b].connection->Some_0.id
    }

    pub open spec fn with_session(self, s: SessionView) -> RegistryView {
        RegistryView { sessions: self.sessions.insert(s.id, s), ..self }
    }

    /// Whether `s` may stand in the registry in place of the session with its identity.
    pub open spec fn fits(self, s: SessionView) -> bool {
        &&& s.wf()
        &&& s.capacity == self.capacity
        &&& s.policy == self.policy
        &&& s.connection is Some ==> !self.connection_in_use(s.id, s.connection->Some_0.id)
    }

    pub proof fn lemma_with_session(self, s: SessionView)
        requires
            self.wf(),
            self.fits(s),
        ensures
            self.with_session(s).wf(),
    {
        let n = self.with_session(s);
        assert(n.sessions.dom() =~= self.sessions.dom().insert(s.id));
        assert forall|a: SessionId, b: SessionId|
            n.sessions.contains_key(a) && n.sessions.contains_key(b) && a != b
                && n.sessions[a].connection is Some && n.sessions[b].connection is Some
            implies #[trigger] n.sessions[a].connection->Some_0.id
                != #[trigger] n.sessions[b].connection->Some_0.id by {
            if a == s.id {
                assert(self.sessions[b] == n.sessions[b]);
            } else if b == s.id {
                assert(self.sessions[a] == n.sessions[a]);
            } else {
                assert(self.sessions[a] == n.sessions[a]);
                assert(self.sessions[b] == n.sessions[b]);
            }
        }
    }

    /// A session's own connection is held by no other session.
    pub proof fn lemma_own_connection(self, id: SessionId)
        requires
            self.wf(),
            self.sessions.contains_key(id),
            self.sessions[id].connection is Some,
        ensures
            !self.connection_in_use(id, self.sessions[id].connection->Some_0.id),
    {
        if self.connection_in_use(id, self.sessions[id].connection->Some_0.id) {
            let k = choose|k: SessionId|
                #![trigger self.sessions[k]]
                self.sessions.contains_key(k) && k != id && self.sessions[k].connection is Some
                    && self.sessions[k].connection->Some_0.id == self.sessions[id].connection->Some_0.id;
            assert(self.sessions[k].connection->Some_0.id != self.sessions[id].connection->Some_0.id);
        }
    }

    pub open spec fn attach_result(self, id: SessionId, cid: ConnectionId) -> Result<(), RegistryError> {
        if !self.sessions.contains_key(id) {
            Err(RegistryError::NotFound)
        } else if self.connection_in_use(id, cid) {
            Err(RegistryError::ConnectionInUse)
        } else {
            Ok(())
        }
    }

    pub open spec fn enqueue_result(self, id: SessionId) -> Result<(), RegistryError> {
        if !self.sessions.contains_key(id) {
            Err(RegistryError::NotFound)
        } else if !self.sessions[id].accepts() {
            Err(RegistryError::Session(SessionError::Backpressure))
        } else {
            Ok(())
        }
    }

    pub open spec fn enqueued(self, id: SessionId, m: MessageView) -> RegistryView {
        if self.sessions.contains_key(id) {
            self.with_session(self.sessions[id].enqueued(m))
        } else {
            self
        }
    }

    pub open spec fn pumped(self, id: SessionId, now: int) -> RegistryView {
        if self.sessions.contains_key(id) {
            self.with_session(self.sessions[id].pumped(now))
        } else {
            self
        }
    }

    pub open spec fn get_or_create(self, id: SessionId, now: int) -> RegistryView {
        if self.sessions.contains_key(id) {
            self
        } else {
            self.with_session(SessionView::fresh(id, self.capacity, self.policy, now))
        }
    }

    /// The registry after `get_or_create(id, t)` for each `t` of `nows`, in order.
    pub open spec fn get_or_create_all(self, id: SessionId, nows: Seq<int>) -> RegistryView
        decreases nows.len(),
    {
        if nows.len() == 0 {
            self
        } else {
            self.get_or_create(id, nows[0]).get_or_create_all(id, nows.drop_first())
        }
    }

    /// How many of those calls created a session.
    pub open spec fn creations(self, id: SessionId, nows: Seq<int>) -> nat
        decreases nows.len(),
    {
        if nows.len() == 0 {
            0
        } else {
            (if self.sessions.contains_key(id) { 0nat } else { 1nat }) + self.get_or_create(
                id,
                nows[0],
            ).creations(id, nows.drop_first())
        }
    }

    pub open spec fn remove_result(self, id: SessionId) -> Result<(), RegistryError> {
        if !self.sessions.contains_key(id) {
            Err(RegistryError::NotFound)
        } else if self.sessions[id].connection is Some {
            Err(RegistryError::StillActive)
        } else {
            Ok(())
        }
    }

    pub open spec fn removed(self, id: SessionId) -> RegistryView {
        if self.remove_result(id) is Ok {
            RegistryView { sessions: self.sessions.remove(id), ..self }
        } else {
            self
        }
    }

    /// Whether a session other than `id` holds a connection named `cid`.
    pub open spec fn connection_in_use(self, id: SessionId, cid: ConnectionId) -> bool {
        exists|k: SessionId|
            #![trigger self.sessions[k]]
            self.sessions.contains_key(k) && k != id && self.sessions[k].connection is Some
                && self.sessions[k].connection->Some_0.id == cid
    }

    pub open spec fn broadcast(self, m: MessageView, audience: Audience) -> RegistryView {
        self.broadcast_to(m, |k: SessionId| audience.includes(k))
    }

    /// Every session whose identity satisfies `sel` gets `m` enqueued.
    pub open spec fn broadcast_to(self, m: MessageView, sel: spec_fn(SessionId) -> bool) -> RegistryView {
        RegistryView {
            sessions: Map::new(
                |k: SessionId| self.sessions.contains_key(k),
                |k: SessionId|
                    if sel(k) {
                        self.sessions[k].enqueued(m)
                    } else {
                        self.sessions[k]
                    },
            ),
            ..self
        }
    }

    /// Every session with its connection let go.
    pub open spec fn all_detached(self) -> RegistryView {
        RegistryView {
            sessions: Map::new(
                |k: SessionId| self.sessions.contains_key(k),
                |k: SessionId| self.sessions[k].detached(),
            ),
            ..self
        }
    }

    /// Disconnected sessions whose last activity is more than `timeout` ago.
    pub open spec fn reapable(self, k: SessionId, now: int, timeout: int) -> bool {
        self.sessions.contains_key(k) && self.sessions[k].connection is None
            && self.sessions[k].expired(now, timeout)
    }

    pub open spec fn reaped(self, now: int, timeout: int) -> RegistryView {
        RegistryView {
            sessions: Map::new(
                |k: SessionId| self.sessions.contains_key(k) && !self.reapable(k, now, timeout),
                |k: SessionId| self.sessions[k],
            ),
            ..self
        }
    }
}

/// Each stored session is the model's entry for its identity, identities are
/// distinct, and every key of the model is held by a stored session.
spec fn links(s: Seq<Session>, m: Map<SessionId, SessionView>) -> bool {
    &&& forall|i: int|
        0 <= i < s.len() ==> {
            &&& #[trigger] m.contains_key(s[i]@.id)
            &&& m[s[i]@.id] == s[i]@
        }
    &&& forall|i: int, j: int| 0 <= i < j < s.len() ==> #[trigger] s[i]@.id != #[trigger] s[j]@.id
    &&& forall|k: SessionId| #[trigger]
        m.contains_key(k) ==> exists|i: int| 0 <= i < s.len() && #[trigger] s[i]@.id == k
}

proof fn lemma_links_update(s: Seq<Session>, m: Map<SessionId, SessionView>, i: int, x: Session)
    requires
        links(s, m),
        0 <= i < s.len(),
        x@.id == s[i]@.id,
    ensures
        links(s.update(i, x), m.insert(x@.id, x@)),
{
    let t = s.update(i, x);
    let n = m.insert(x@.id, x@);
    assert forall|j: int| 0 <= j < t.len() implies #[trigger] n.contains_key(t[j]@.id) && n[t[j]@.id]
        == t[j]@ by {
        if j != i {
            assert(t[j] == s[j]);
            assert(s[j]@.id != s[i]@.id);
        }
    }
    assert forall|a: int, b: int| 0 <= a < b < t.len() implies #[trigger] t[a]@.id
        != #[trigger] t[b]@.id by {
        assert(s[a]@.id != s[b]@.id);
    }
    assert forall|k: SessionId| #[trigger] n.contains_key(k) implies exists|j: int|
        0 <= j < t.len() && #[trigger] t[j]@.id == k by {
        if k == x@.id {
            assert(t[i]@.id == k);
        } else {
            let j = choose|j: int| 0 <= j < s.len() && #[trigger] s[j]@.id == k;
            assert(t[j]@.id == k);
        }
    }
}

proof fn lemma_links_remove(s: Seq<Session>, m: Map<SessionId, SessionView>, i: int)
    requires
        links(s, m),
        0 <= i < s.len(),
    ensures
        links(s.remove(i), m.remove(s[i]@.id)),
{
    let t = s.remove(i);
    let n = m.remove(s[i]@.id);
    let id = s[i]@.id;
    assert forall|j: int| 0 <= j < t.len() implies #[trigger] n.contains_key(t[j]@.id) && n[t[j]@.id]
        == t[j]@ by {
        if j < i {
            assert(t[j] == s[j]);
            assert(s[j]@.id != s[i]@.id);
            assert(m.contains_key(s[j]@.id));
        } else {
            assert(t[j] == s[j + 1]);
            assert(s[i]@.id != s[j + 1]@.id);
            assert(m.contains_key(s[j + 1]@.id));
        }
    }
    assert forall|k: SessionId| #[trigger] n.contains_key(k) implies exists|j: int|
        0 <= j < t.len() && #[trigger] t[j]@.id == k by {
        let j = choose|j: int| 0 <= j < s.len() && #[trigger] s[j]@.id == k;
        if j < i {
            assert(t[j] == s[j]);
        } else {
            assert(t[j - 1] == s[j]);
        }
    }
    assert forall|a: int, b: int| 0 <= a < b < t.len() implies #[trigger] t[a]@.id
        != #[trigger] t[b]@.id by {
        let a0 = if a < i { a } else { a + 1 };
        let b0 = if b < i { b } else { b + 1 };
        assert(s[a0] == t[a]);
        assert(s[b0] == t[b]);
    }
}

/// The mapping from session identity to session; at most one session per identity.
pub struct SessionRegistry {
    sessions: Vec<Session>,
    capacity: usize,
    policy: Policy,
    model: Ghost<Map<SessionId, SessionView>>,
}

impl View for SessionRegistry {
    type V = RegistryView;

    closed spec fn view(&self) -> RegistryView {
        RegistryView { sessions: self.model@, capacity: self.capacity as nat, policy: self.policy }
    }
}

impl SessionRegistry {
    pub closed spec fn wf(&self) -> bool {
        &&& self@.wf()
        &&& links(self.sessions@, self.model@)
    }

    /// A well-formed registry has a well-formed view: in particular every
    /// session is stored under its own identity.
    pub proof fn lemma_wf_view(&self)
        requires
            self.wf(),
        ensures
            self@.wf(),
    {
    }

    /// An empty registry whose sessions get queues of `capacity` messages under `policy`.
    pub fn new(capacity: usize, policy: Policy) -> (r: SessionRegistry)
        ensures
            r.wf(),
            r@ == (RegistryView { sessions: Map::empty(), capacity: capacity as nat, policy }),
    {
        SessionRegistry { sessions: Vec::new(), capacity, policy, model: Ghost(Map::empty()) }
    }

    pub fn len(&self) -> (r: usize)
        requires
            self.wf(),
        ensures
            r == self@.sessions.len(),
    {
        proof {
            self.lemma_len();
        }
        self.sessions.len()
    }

    proof fn lemma_len(&self)
        requires
            self.wf(),
        ensures
            self.model@.len() == self.sessions@.len(),
    {
        let ids = Seq::new(self.sessions@.len(), |i: int| self.sessions@[i]@.id);
        assert(ids.no_duplicates());
        assert forall|k: SessionId| self.model@.dom().contains(k) implies ids.to_set().contains(k) by {
            let i = choose|i: int| 0 <= i < self.sessions@.len() && #[trigger] self.sessions@[i]@.id == k;
            assert(ids[i] == k);
        }
        assert forall|k: SessionId| ids.to_set().contains(k) implies self.model@.dom().contains(k) by {
            let i = choose|i: int| 0 <= i < ids.len() && ids[i] == k;
            assert(self.model@.contains_key(self.sessions@[i]@.id));
        }
        assert(self.model@.dom() =~= ids.to_set());
        ids.unique_seq_to_set();
    }

    fn find(&self, id: SessionId) -> (r: Option<usize>)
        requires
            self.wf(),
        ensures
            r is Some <==> self@.sessions.contains_key(id),
            r is Some ==> r->Some_0 < self.sessions@.len() && self.sessions@[r->Some_0 as int]@.id == id,
    {
        let mut i: usize = 0;
        while i < self.sessions.len()
            invariant
                self.wf(),
                0 <= i <= self.sessions@.len(),
                forall|j: int| 0 <= j < i ==> self.sessions@[j]@.id != id,
            decreases self.sessions@.len() - i,
        {
            if self.sessions[i].id() == id {
                return Some(i);
            }
            i = i + 1;
        }
        None
    }

    pub fn contains(&self, id: SessionId) -> (r: bool)
        requires
            self.wf(),
        ensures
            r == self@.sessions.contains_key(id),
    {
        self.find(id).is_some()
    }

    pub fn session(&self, id: SessionId) -> (r: Option<&Session>)
        requires
            self.wf(),
        ensures
            match r {
                Some(s) => self@.sessions.contains_key(id) && s@ == self@.sessions[id],
                None => !self@.sessions.contains_key(id),
            },
    {
        match self.find(id) {
            Some(i) => Some(&self.sessions[i]),
            None => None,
        }
    }

    /// The session for `id`, created with an empty queue if there is none.
    /// Returns whether this call created it; an existing session is left as it is.
    pub fn get_or_create(&mut self, id: SessionId, now: u64) -> (r: bool)
        requires
            old(self).wf(),
        ensures
            final(self).wf(),
            final(self)@ == old(self)@.get_or_create(id, now as int),
            r == !old(self)@.sessions.contains_key(id),
    {
        if self.find(id).is_some() {
            return false;
        }
        let s = Session::new(id, self.capacity, self.policy, now);
        let ghost old_model = self.model@;
        let ghost old_s = self.sessions@;
        self.sessions.push(s);
        self.model = Ghost(self.model@.insert(id, s@));
        proof {
            let n = self.sessions@.len() - 1;
            assert(self.sessions@[n as int]@.id == id);
            assert forall|k: SessionId| #[trigger] self.model@.contains_key(k) implies exists|i: int|
                0 <= i < self.sessions@.len() && #[trigger] self.sessions@[i]@.id == k by {
                if k != id {
                    assert(old_model.contains_key(k));
                    let i = choose|i: int| 0 <= i < old_s.len() && #[trigger] old_s[i]@.id == k;
                    assert(self.sessions@[i] == old_s[i]);
                }
            }
            assert(self@.sessions.dom() =~= old_model.dom().insert(id));
        }
        true
    }

    /// Destroys the session for `id`, provided it exists and has no connection.
    pub fn remove(&mut self, id: SessionId) -> (r: Result<(), RegistryError>)
        requires
            old(self).wf(),
        ensures
            final(self).wf(),
            r == old(self)@.remove_result(id),
            final(self)@ == old(self)@.removed(id),
    {
        match self.find(id) {
            None => Err(RegistryError::NotFound),
            Some(i) => {
                if self.sessions[i].has_connection() {
                    return Err(RegistryError::StillActive);
                }
                let ghost old_s = self.sessions@;
                let ghost old_model = self.model@;
                proof {
                    lemma_links_remove(old_s, old_model, i as int);
                    assert(self@.removed(id).sessions == old_model.remove(id));
                    assert(self@.removed(id).sessions.dom() =~= old_model.dom().remove(id));
                }
                let _gone = self.sessions.remove(i);
                self.model = Ghost(self.model@.remove(id));
                Ok(())
            },
        }
    }

    /// Whether a session other than `id` holds a connection named `cid`.
    fn connection_taken(&self, id: SessionId, cid: ConnectionId) -> (r: bool)
        requires
            self.wf(),
        ensures
            r == self@.connection_in_use(id, cid),
    {
        let mut i: usize = 0;
        while i < self.sessions.len()
            invariant
                self.wf(),
                0 <= i <= self.sessions@.len(),
                forall|j: int|
                    0 <= j < i ==> !({
                        let s = #[trigger] self.sessions@[j]@;
                        s.id != id && s.connection is Some && s.connection->Some_0.id == cid
                    }),
            decreases self.sessions@.len() - i,
        {
            let s = &self.sessions[i];
            if s.id() != id {
                match s.connection() {
                    Some(c) => {
                        if c.id() == cid {
                            assert(self.model@.contains_key(self.sessions@[i as int]@.id));
                            return true;
                        }
                    },
                    None => {},
                }
            }
            i = i + 1;
        }
        proof {
            if self@.connection_in_use(id, cid) {
                let k = choose|k: SessionId|
                    #![trigger self.model@[k]]
                    self.model@.contains_key(k) && k != id && self.model@[k].connection is Some
                        && self.model@[k].connection->Some_0.id == cid;
                let j = choose|j: int| 0 <= j < self.sessions@.len() && #[trigger] self.sessions@[j]@.id == k;
                assert(self.model@.contains_key(self.sessions@[j]@.id));
            }
        }
        false
    }

    /// Binds `conn` to the session for `id`: the reconnect path. The session's
    /// queue is kept; the connection it replaces, if any, is closed and handed back.
    pub fn attach(&mut self, id: SessionId, conn: Connection) -> (r: Result<Option<Connection>, RegistryError>)
        requires
            old(self).wf(),
        ensures
            final(self).wf(),
            r is Ok <==> old(self)@.attach_result(id, conn@.id) is Ok,
            r is Err ==> r->Err_0 == old(self)@.attach_result(id, conn@.id)->Err_0,
            r is Ok ==> final(self)@ == old(self)@.with_session(old(self)@.sessions[id].attached(conn@))
                && match old(self)@.sessions[id].connection {
                    Some(c) => r->Ok_0 is Some && r->Ok_0->Some_0@ == c.with_state(ConnState::Closed),
                    None => r->Ok_0 is None,
                },
            r is Err ==> final(self)@ == old(self)@,
    {
        let i = match self.find(id) {
            None => return Err(RegistryError::NotFound),
            Some(i) => i,
        };
        if self.connection_taken(id, conn.id()) {
            return Err(RegistryError::ConnectionInUse);
        }
        let ghost old_s = self.sessions@;
        let ghost cv = conn@;
        let prev = self.sessions[i].attach(conn);
        proof {
            lemma_links_update(old_s, self.model@, i as int, self.sessions@[i as int]);
            assert(self.sessions@ == old_s.update(i as int, self.sessions@[i as int]));
            self@.lemma_with_session(self.sessions@[i as int]@);
        }
        self.model = Ghost(self.model@.insert(id, self.sessions@[i as int]@));
        Ok(prev)
    }

    /// Re-establishes the invariant after the session at `i` was changed in place,
    /// keeping its identity.
    proof fn lemma_replaced(&self, old_s: Seq<Session>, old_v: RegistryView, i: int)
        requires
            links(old_s, self.model@),
            old_v.wf(),
            old_v.sessions == self.model@,
            old_v.capacity == self@.capacity,
            old_v.policy == self@.policy,
            0 <= i < old_s.len(),
            self.sessions@ == old_s.update(i, self.sessions@[i]),
            self.sessions@[i]@.id == old_s[i]@.id,
            old_v.fits(self.sessions@[i]@),
        ensures
            links(self.sessions@, self.model@.insert(self.sessions@[i]@.id, self.sessions@[i]@)),
            old_v.with_session(self.sessions@[i]@).wf(),
    {
        lemma_links_update(old_s, self.model@, i, self.sessions@[i]);
        old_v.lemma_with_session(self.sessions@[i]@);
    }

    /// Appends `msg` to the queue of the session for `id`.
    pub fn enqueue(&mut self, id: SessionId, msg: Message) -> (r: Result<(), RegistryError>)
        requires
            old(self).wf(),
        ensures
            final(self).wf(),
            r == old(self)@.enqueue_result(id),
            final(self)@ == old(self)@.enqueued(id, msg@),
    {
        let i = match self.find(id) {
            None => return Err(RegistryError::NotFound),
            Some(i) => i,
        };
        let ghost old_s = self.sessions@;
        let ghost old_v = self@;
        proof {
            if old_v.sessions[id].connection is Some {
                old_v.lemma_own_connection(id);
            }
        }
        let r = self.sessions[i].enqueue(msg);
        proof {
            self.lemma_replaced(old_s, old_v, i as int);
        }
        self.model = Ghost(self.model@.insert(id, self.sessions@[i as int]@));
        match r {
            Ok(()) => Ok(()),
            Err(e) => Err(RegistryError::Session(e)),
        }
    }

    /// Runs the outbound loop of the session for `id` once (see `Session::pump`).
    /// Returns the connection it let go, if any; nothing happens for an unknown id.
    pub fn pump(&mut self, id: SessionId, now: u64) -> (r: Option<Connection>)
        requires
            old(self).wf(),
        ensures
            final(self).wf(),
            final(self)@ == old(self)@.pumped(id, now as int),
            r is Some ==> old(self)@.sessions.contains_key(id)
                && old(self)@.sessions[id].connection == Some(r->Some_0@)
                && r->Some_0@.state != ConnState::Open,
            r is None ==> !old(self)@.sessions.contains_key(id)
                || old(self)@.sessions[id].connection is None
                || old(self)@.sessions[id].connection->Some_0.state == ConnState::Open,
    {
        let i = match self.find(id) {
            None => return None,
            Some(i) => i,
        };
        let ghost old_s = self.sessions@;
        let ghost old_v = self@;
        proof {
            if old_v.sessions[id].connection is Some {
                old_v.lemma_own_connection(id);
            }
        }
        let r = self.sessions[i].pump(now);
        proof {
            self.lemma_replaced(old_s, old_v, i as int);
        }
        self.model = Ghost(self.model@.insert(id, self.sessions@[i as int]@));
        r
    }

    /// Reads one inbound frame that arrived on connection `cid` of the session
    /// for `id` (see `Session::receive`). A frame from a connection that the
    /// session no longer holds is refused.
    pub fn receive(&mut self, id: SessionId, cid: ConnectionId, frame: Frame, now: u64) -> (r: Result<
        Option<Message>,
        RegistryError,
    >)
        requires
            old(self).wf(),
        ensures
            final(self).wf(),
            !old(self)@.sessions.contains_key(id) ==> r == Err::<Option<Message>, RegistryError>(
                RegistryError::NotFound,
            ) && final(self)@ == old(self)@,
            old(self)@.sessions.contains_key(id) ==> ({
                let s = old(self)@.sessions[id];
                &&& s.connection is None ==> r == Err::<Option<Message>, RegistryError>(
                    RegistryError::Session(SessionError::NotAttached),
                ) && final(self)@ == old(self)@
                &&& s.connection is Some && s.connection->Some_0.id != cid ==> r
                    == Err::<Option<Message>, RegistryError>(RegistryError::StaleConnection) && final(self)@
                    == old(self)@
                &&& s.connection is Some && s.connection->Some_0.id == cid && s.connection->Some_0.state
                    == ConnState::Closed ==> r
                    == Err::<Option<Message>, RegistryError>(
                    RegistryError::Session(SessionError::Transport(crate::connection::ConnError::Closed)),
                ) && final(self)@ == old(self)@
                &&& s.connection is Some && s.connection->Some_0.id == cid && s.connection->Some_0.state
                    != ConnState::Closed ==> {
                    let c = s.connection->Some_0;
                    match frame {
                        Frame::Malformed => r == Err::<Option<Message>, RegistryError>(
                            RegistryError::Session(SessionError::Transport(crate::connection::ConnError::Protocol)),
                        ) && final(self)@ == old(self)@.with_session(s.attached(c.with_state(ConnState::Closed))),
                        Frame::Close => r is Ok && r->Ok_0 is None && final(self)@ == old(self)@.with_session(
                            s.attached(c.with_state(ConnState::Closed)),
                        ),
                        _ => r is Ok && r->Ok_0 is Some && frame_message(frame, id) == Some(r->Ok_0->Some_0@)
                            && final(self)@ == old(self)@.with_session(s.touched(now as int)),
                    }
                }
            }),
    {
        let i = match self.find(id) {
            None => return Err(RegistryError::NotFound),
            Some(i) => i,
        };
        match self.sessions[i].connection() {
            Some(c) => {
                if c.id() != cid {
                    return Err(RegistryError::StaleConnection);
                }
            },
            None => {},
        }
        let ghost old_s = self.sessions@;
        let ghost old_v = self@;
        proof {
            if old_v.sessions[id].connection is Some {
                old_v.lemma_own_connection(id);
            }
        }
        let r = self.sessions[i].receive(frame, now);
        proof {
            self.lemma_replaced(old_s, old_v, i as int);
            if r is Err && old_v.sessions[id].connection is Some
                && old_v.sessions[id].connection->Some_0.state == ConnState::Closed {
                assert(old_v.with_session(self.sessions@[i as int]@).sessions =~= old_v.sessions);
            }
            if old_v.sessions[id].connection is None {
                assert(old_v.with_session(self.sessions@[i as int]@).sessions =~= old_v.sessions);
            }
        }
        self.model = Ghost(self.model@.insert(id, self.sessions@[i as int]@));
        match r {
            Ok(m) => Ok(m),
            Err(e) => Err(RegistryError::Session(e)),
        }
    }

    /// Hands the frames waiting on the connection of the session for `id` to the transport.
    pub fn take_outgoing(&mut self, id: SessionId) -> (r: Vec<Message>)
        requires
            old(self).wf(),
        ensures
            final(self).wf(),
            !old(self)@.sessions.contains_key(id) || old(self)@.sessions[id].connection is None ==> r@.len()
                == 0 && final(self)@ == old(self)@,
            old(self)@.sessions.contains_key(id) && old(self)@.sessions[id].connection is Some ==> ({
                let s = old(self)@.sessions[id];
                let c = s.connection->Some_0;
                views(r@) == c.outgoing && final(self)@ == old(self)@.with_session(
                    s.attached(c.with_outgoing(Seq::empty())),
                )
            }),
    {
        let i = match self.find(id) {
            None => return Vec::new(),
            Some(i) => i,
        };
        let ghost old_s = self.sessions@;
        let ghost old_v = self@;
        proof {
            if old_v.sessions[id].connection is Some {
                old_v.lemma_own_connection(id);
            }
        }
        let r = self.sessions[i].take_outgoing();
        proof {
            self.lemma_replaced(old_s, old_v, i as int);
            if old_v.sessions[id].connection is None {
                assert(old_v.with_session(self.sessions@[i as int]@).sessions =~= old_v.sessions);
            }
        }
        self.model = Ghost(self.model@.insert(id, self.sessions@[i as int]@));
        r
    }

    /// Enqueues a copy of `msg` on every session that `audience` includes.
    /// A full queue fails for its own session only: the identities whose
    /// queues refused the message are returned, each once.
    pub fn broadcast(&mut self, msg: &Message, audience: Audience) -> (r: Vec<SessionId>)
        requires
            old(self).wf(),
        ensures
            final(self).wf(),
            final(self)@ == old(self)@.broadcast(msg@, audience),
            r@.no_duplicates(),
            forall|k: SessionId|
                r@.contains(k) <==> old(self)@.sessions.contains_key(k) && audience.includes(k)
                    && !old(self)@.sessions[k].accepts(),
    {
        let pick = |k: SessionId| -> (b: bool)
            ensures
                b == audience.includes(k),
            { audience.contains(k) };
        let ghost v = self@;
        let r = self.broadcast_where(msg, pick);
        proof {
            let sel = |k: SessionId| pick.ensures((k,), true);
            assert forall|k: SessionId| v.sessions.contains_key(k) implies sel(k) == audience.includes(k) by {
                if !pick.ensures((k,), true) {
                    assert(pick.ensures((k,), false));
                }
            }
            assert(v.broadcast_to(msg@, sel).sessions =~= v.broadcast(msg@, audience).sessions);
        }
        r
    }

    /// Enqueues a copy of `msg` on every session whose identity `pred`
    /// accepts. A full queue fails for its own session only: the identities
    /// whose queues refused the message are returned, each once.
    pub fn broadcast_where<F: Fn(SessionId) -> bool>(&mut self, msg: &Message, pred: F) -> (r: Vec<SessionId>)
        requires
            old(self).wf(),
            forall|k: SessionId| pred.requires((k,)),
            forall|k: SessionId, b1: bool, b2: bool|
                pred.ensures((k,), b1) && pred.ensures((k,), b2) ==> b1 == b2,
        ensures
            final(self).wf(),
            final(self)@ == old(self)@.broadcast_to(msg@, |k: SessionId| pred.ensures((k,), true)),
            forall|k: SessionId|
                old(self)@.sessions.contains_key(k) ==> pred.ensures((k,), true) || pred.ensures((k,), false),
            r@.no_duplicates(),
            forall|k: SessionId|
                r@.contains(k) <==> old(self)@.sessions.contains_key(k) && pred.ensures((k,), true)
                    && !old(self)@.sessions[k].accepts(),
    {
        let ghost sel = |k: SessionId| pred.ensures((k,), true);
        let ghost old_s = self.sessions@;
        let ghost old_v = self@;
        let ghost target = old_v.broadcast_to(msg@, sel);
        let mut rejected: Vec<SessionId> = Vec::new();
        let mut i: usize = 0;
        while i < self.sessions.len()
            invariant
                target == old_v.broadcast_to(msg@, sel),
                sel == (|k: SessionId| pred.ensures((k,), true)),
                forall|k: SessionId| pred.requires((k,)),
                forall|k: SessionId, b1: bool, b2: bool|
                    pred.ensures((k,), b1) && pred.ensures((k,), b2) ==> b1 == b2,
                forall|j: int| 0 <= j < i ==> pred.ensures((#[trigger] old_s[j]@.id,), true) || pred.ensures((old_s[j]@.id,), false),
                links(old_s, old_v.sessions),
                old_v.wf(),
                self.sessions@.len() == old_s.len(),
                0 <= i <= self.sessions@.len(),
                links(self.sessions@, self.model@),
                self@.wf(),
                self@.capacity == old_v.capacity,
                self@.policy == old_v.policy,
                self.model@.dom() == old_v.sessions.dom(),
                forall|j: int| 0 <= j < old_s.len() ==> #[trigger] self.sessions@[j]@.id == old_s[j]@.id,
                forall|j: int| i <= j < old_s.len() ==> #[trigger] self.sessions@[j] == old_s[j],
                forall|j: int| 0 <= j < i ==> #[trigger] self.sessions@[j]@ == target.sessions[old_s[j]@.id],
                rejected@.no_duplicates(),
                forall|k: SessionId|
                    rejected@.contains(k) <==> exists|j: int|
                        0 <= j < i && #[trigger] old_s[j]@.id == k && sel(k)
                            && !old_s[j]@.accepts(),
            decreases self.sessions@.len() - i,
        {
            let id = self.sessions[i].id();
            let ghost rej0 = rejected@;
            proof {
                assert(old_v.sessions.contains_key(old_s[i as int]@.id));
                assert(old_v.sessions[id] == old_s[i as int]@);
            }
            let chosen = pred(id);
            proof {
                assert(sel(id) == chosen);
            }
            if chosen {
                let ghost cur_s = self.sessions@;
                let ghost cur_v = self@;
                proof {
                    assert(self.model@.contains_key(self.sessions@[i as int]@.id));
                    if cur_v.sessions[id].connection is Some {
                        cur_v.lemma_own_connection(id);
                    }
                }
                let m = msg.duplicate();
                let res = self.sessions[i].enqueue(m);
                proof {
                    assert(self.sessions@[i as int]@ == cur_s[i as int]@.enqueued(msg@));
                    assert(cur_s[i as int] == old_s[i as int]);
                    assert(target.sessions[id] == old_v.sessions[id].enqueued(msg@));
                    self.lemma_replaced(cur_s, cur_v, i as int);
                    assert(cur_v.with_session(self.sessions@[i as int]@).sessions.dom() =~= old_v.sessions.dom());
                }
                self.model = Ghost(self.model@.insert(id, self.sessions@[i as int]@));
                if res.is_err() {
                    proof {
                        assert forall|j: int| 0 <= j < i implies old_s[j]@.id != id by {
                            assert(old_s[j]@.id != old_s[i as int]@.id);
                        }
                        assert(!rej0.contains(id));
                    }
                    rejected.push(id);
                    proof {
                        assert forall|a: int, b: int| 0 <= a < b < rejected@.len() implies rejected@[a]
                            != rejected@[b] by {
                            if b == rej0.len() {
                                assert(rej0[a] == rejected@[a]);
                                assert(rej0.contains(rej0[a]));
                            } else {
                                assert(rej0[a] != rej0[b]);
                            }
                        }
                    }
                }
            }
            proof {
                if !sel(id) {
                    assert(target.sessions[id] == old_v.sessions[id]);
                }
                assert(self.sessions@[i as int]@ == target.sessions[old_s[i as int]@.id]);
                assert forall|k: SessionId|
                    rejected@.contains(k) <==> exists|j: int|
                        0 <= j < i + 1 && #[trigger] old_s[j]@.id == k && sel(k)
                            && !old_s[j]@.accepts() by {
                    if exists|j: int|
                        0 <= j < i + 1 && #[trigger] old_s[j]@.id == k && sel(k)
                            && !old_s[j]@.accepts() {
                        let j = choose|j: int|
                            0 <= j < i + 1 && #[trigger] old_s[j]@.id == k && sel(k)
                                && !old_s[j]@.accepts();
                        if j < i {
                            assert(rej0.contains(k));
                            let t = choose|t: int| 0 <= t < rej0.len() && rej0[t] == k;
                            assert(rejected@[t] == k);
                        } else {
                            assert(rejected@.last() == k);
                        }
                    }
                    if rejected@.contains(k) {
                        let t = choose|t: int| 0 <= t < rejected@.len() && rejected@[t] == k;
                        if t < rej0.len() {
                            assert(rej0[t] == k);
                            assert(rej0.contains(k));
                        } else {
                            assert(old_s[i as int]@.id == k);
                        }
                    }
                }
            }
            i = i + 1;
        }
        proof {
            assert forall|k: SessionId| self.model@.contains_key(k) implies self.model@[k] == target.sessions[k] by {
                let j = choose|j: int| 0 <= j < old_s.len() && #[trigger] old_s[j]@.id == k;
                assert(self.sessions@[j]@.id == k);
            }
            assert(self.model@ =~= target.sessions);
            assert forall|k: SessionId|
                rejected@.contains(k) <==> old_v.sessions.contains_key(k) && sel(k)
                    && !old_v.sessions[k].accepts() by {
                if old_v.sessions.contains_key(k) {
                    let j = choose|j: int| 0 <= j < old_s.len() && #[trigger] old_s[j]@.id == k;
                    assert(old_v.sessions[k] == old_s[j]@);
                }
            }
        }
        rejected
    }

    /// Destroys every session that has no connection and whose last activity
    /// is more than `timeout` before `now`; returns their identities, each once.
    pub fn reap(&mut self, now: u64, timeout: u64) -> (r: Vec<SessionId>)
        requires
            old(self).wf(),
        ensures
            final(self).wf(),
            final(self)@ == old(self)@.reaped(now as int, timeout as int),
            r@.no_duplicates(),
            forall|k: SessionId| r@.contains(k) <==> old(self)@.reapable(k, now as int, timeout as int),
    {
        let ghost old_v = self@;
        let ghost nw = now as int;
        let ghost to = timeout as int;
        let mut removed: Vec<SessionId> = Vec::new();
        let mut i: usize = 0;
        while i < self.sessions.len()
            invariant
                old_v.wf(),
                links(self.sessions@, self.model@),
                self@.wf(),
                self@.capacity == old_v.capacity,
                self@.policy == old_v.policy,
                0 <= i <= self.sessions@.len(),
                nw == now as int,
                to == timeout as int,
                forall|k: SessionId| #[trigger]
                    self.model@.contains_key(k) ==> old_v.sessions.contains_key(k) && self.model@[k]
                        == old_v.sessions[k],
                forall|k: SessionId|
                    removed@.contains(k) <==> old_v.sessions.contains_key(k) && !self.model@.contains_key(k),
                forall|k: SessionId| removed@.contains(k) ==> old_v.reapable(k, nw, to),
                forall|j: int| 0 <= j < i ==> !old_v.reapable(#[trigger] self.sessions@[j]@.id, nw, to),
                removed@.no_duplicates(),
            decreases self.sessions@.len() - i,
        {
            let ghost cur_s = self.sessions@;
            let ghost cur_m = self.model@;
            let ghost rem0 = removed@;
            let idle = !self.sessions[i].has_connection() && self.sessions[i].is_expired(now, timeout);
            proof {
                assert(cur_m.contains_key(cur_s[i as int]@.id));
            }
            if idle {
                let id = self.sessions[i].id();
                proof {
                    lemma_links_remove(cur_s, cur_m, i as int);
                    assert forall|j: int| 0 <= j < i implies #[trigger] cur_s.remove(i as int)[j]@.id == cur_s[j]@.id by {}
                }
                let _gone = self.sessions.remove(i);
                self.model = Ghost(self.model@.remove(id));
                proof {
                    assert(!rem0.contains(id));
                    assert(self@.sessions.dom() =~= cur_m.dom().remove(id));
                    assert forall|a: SessionId, b: SessionId|
                        self.model@.contains_key(a) && self.model@.contains_key(b) && a != b
                            && self.model@[a].connection is Some && self.model@[b].connection is Some
                        implies #[trigger] self.model@[a].connection->Some_0.id
                            != #[trigger] self.model@[b].connection->Some_0.id by {
                        assert(cur_m[a].connection == self.model@[a].connection);
                        assert(cur_m[b].connection == self.model@[b].connection);
                    }
                }
                removed.push(id);
                proof {
                    assert(cur_m[id] == cur_s[i as int]@);
                    assert(old_v.sessions[id] == cur_m[id]);
                    assert(old_v.reapable(id, nw, to));
                    assert(removed@[rem0.len() as int] == id);
                    assert forall|k: SessionId| removed@.contains(k) implies old_v.reapable(k, nw, to) by {
                        if k != id {
                            let t = choose|t: int| 0 <= t < removed@.len() && removed@[t] == k;
                            assert(rem0[t] == k);
                            assert(rem0.contains(k));
                        }
                    }
                    assert forall|a: int, b: int| 0 <= a < b < removed@.len() implies removed@[a]
                        != removed@[b] by {
                        if b == rem0.len() {
                            assert(rem0[a] == removed@[a]);
                            assert(rem0.contains(rem0[a]));
                        } else {
                            assert(rem0[a] != rem0[b]);
                        }
                    }
                    assert forall|k: SessionId|
                        removed@.contains(k) <==> old_v.sessions.contains_key(k) && !self.model@.contains_key(k) by {
                        if removed@.contains(k) && k != id {
                            let t = choose|t: int| 0 <= t < removed@.len() && removed@[t] == k;
                            assert(rem0[t] == k);
                            assert(rem0.contains(k));
                        }
                        if k == id {
                            assert(removed@.contains(k));
                        }
                        if old_v.sessions.contains_key(k) && !self.model@.contains_key(k) && k != id {
                            assert(rem0.contains(k));
                            let t = choose|t: int| 0 <= t < rem0.len() && rem0[t] == k;
                            assert(removed@[t] == k);
                        }
                    }
                }
            } else {
                i = i + 1;
            }
        }
        proof {
            let target = old_v.reaped(nw, to);
            assert forall|k: SessionId| self.model@.contains_key(k) implies !old_v.reapable(k, nw, to) by {
                let j = choose|j: int| 0 <= j < self.sessions@.len() && #[trigger] self.sessions@[j]@.id == k;
            }
            assert forall|k: SessionId| #[trigger] target.sessions.contains_key(k) implies self.model@.contains_key(k) by {
                if !self.model@.contains_key(k) {
                    assert(removed@.contains(k));
                }
            }
            assert(self.model@ =~= target.sessions);
        }
        removed
    }

    /// Shutdown: lets go of every session's connection and hands them all
    /// back, closed, so that their streams can be released. The sessions and
    /// their queues stay.
    pub fn close_all(&mut self) -> (r: Vec<Connection>)
        requires
            old(self).wf(),
        ensures
            final(self).wf(),
            final(self)@ == old(self)@.all_detached(),
            forall|j: int|
                0 <= j < r@.len() ==> #[trigger] r@[j]@.state == ConnState::Closed && exists|k: SessionId|
                    old(self)@.sessions.contains_key(k) && old(self)@.sessions[k].connection == Some(
                        r@[j]@.with_state(#[trigger] old(self)@.sessions[k].connection->Some_0.state),
                    ),
            forall|k: SessionId|
                #![trigger old(self)@.sessions[k]]
                old(self)@.sessions.contains_key(k) && old(self)@.sessions[k].connection is Some ==> exists|j: int|
                    0 <= j < r@.len() && #[trigger] r@[j]@ == old(self)@.sessions[k].connection->Some_0.with_state(
                        ConnState::Closed,
                    ),
    {
        let ghost old_s = self.sessions@;
        let ghost old_v = self@;
        let ghost target = old_v.all_detached();
        let mut closed: Vec<Connection> = Vec::new();
        let mut i: usize = 0;
        while i < self.sessions.len()
            invariant
                target == old_v.all_detached(),
                links(old_s, old_v.sessions),
                old_v.wf(),
                self.sessions@.len() == old_s.len(),
                0 <= i <= self.sessions@.len(),
                links(self.sessions@, self.model@),
                self@.wf(),
                self@.capacity == old_v.capacity,
                self@.policy == old_v.policy,
                self.model@.dom() == old_v.sessions.dom(),
                forall|j: int| 0 <= j < old_s.len() ==> #[trigger] self.sessions@[j]@.id == old_s[j]@.id,
                forall|j: int| i <= j < old_s.len() ==> #[trigger] self.sessions@[j] == old_s[j],
                forall|j: int| 0 <= j < i ==> #[trigger] self.sessions@[j]@ == target.sessions[old_s[j]@.id],
                forall|j: int|
                    0 <= j < closed@.len() ==> #[trigger] closed@[j]@.state == ConnState::Closed && exists|k: SessionId|
                        old_v.sessions.contains_key(k) && old_v.sessions[k].connection == Some(
                            closed@[j]@.with_state(#[trigger] old_v.sessions[k].connection->Some_0.state),
                        ),
                forall|j: int|
                    0 <= j < i && old_s[j]@.connection is Some ==> exists|t: int|
                        0 <= t < closed@.len() && #[trigger] closed@[t]@ == (#[trigger] old_s[j]@).connection->Some_0.with_state(
                            ConnState::Closed,
                        ),
            decreases self.sessions@.len() - i,
        {
            let id = self.sessions[i].id();
            let ghost cur_s = self.sessions@;
            let ghost cur_v = self@;
            let ghost c0 = closed@;
            proof {
                assert(old_v.sessions.contains_key(old_s[i as int]@.id));
                assert(old_v.sessions[id] == old_s[i as int]@);
                assert(self.model@.contains_key(self.sessions@[i as int]@.id));
            }
            let prev = self.sessions[i].detach();
            proof {
                self.lemma_replaced(cur_s, cur_v, i as int);
                assert(cur_v.with_session(self.sessions@[i as int]@).sessions.dom() =~= old_v.sessions.dom());
                assert(target.sessions[id] == old_v.sessions[id].detached());
            }
            self.model = Ghost(self.model@.insert(id, self.sessions@[i as int]@));
            match prev {
                Some(mut c) => {
                    c.close();
                    closed.push(c);
                    proof {
                        assert(closed@[c0.len() as int]@ == old_s[i as int]@.connection->Some_0.with_state(
                            ConnState::Closed,
                        ));
                        assert forall|j: int| 0 <= j < closed@.len() implies #[trigger] closed@[j]@.state
                            == ConnState::Closed && exists|k: SessionId|
                            old_v.sessions.contains_key(k) && old_v.sessions[k].connection == Some(
                                closed@[j]@.with_state(#[trigger] old_v.sessions[k].connection->Some_0.state),
                            ) by {
                            if j < c0.len() {
                                assert(closed@[j] == c0[j]);
                            } else {
                                assert(old_v.sessions[id].connection == Some(
                                    closed@[j]@.with_state(old_v.sessions[id].connection->Some_0.state),
                                ));
                            }
                        }
                        assert forall|j: int|
                            0 <= j < i + 1 && old_s[j]@.connection is Some implies exists|t: int|
                                0 <= t < closed@.len() && #[trigger] closed@[t]@ == (#[trigger] old_s[j]@).connection->Some_0.with_state(
                                    ConnState::Closed,
                                ) by {
                            if j < i {
                                let t = choose|t: int|
                                    0 <= t < c0.len() && #[trigger] c0[t]@ == (#[trigger] old_s[j]@).connection->Some_0.with_state(
                                        ConnState::Closed,
                                    );
                                assert(closed@[t] == c0[t]);
                            } else {
                                assert(closed@[c0.len() as int]@ == old_s[j]@.connection->Some_0.with_state(
                                    ConnState::Closed,
                                ));
                            }
                        }
                    }
                },
                None => {},
            }
            i = i + 1;
        }
        proof {
            assert forall|k: SessionId| self.model@.contains_key(k) implies self.model@[k] == target.sessions[k] by {
                let j = choose|j: int| 0 <= j < old_s.len() && #[trigger] old_s[j]@.id == k;
                assert(self.sessions@[j]@.id == k);
            }
            assert(self.model@ =~= target.sessions);
            assert forall|k: SessionId|
                #![trigger old_v.sessions[k]]
                old_v.sessions.contains_key(k) && old_v.sessions[k].connection is Some implies exists|j: int|
                    0 <= j < closed@.len() && #[trigger] closed@[j]@ == old_v.sessions[k].connection->Some_0.with_state(
                        ConnState::Closed,
                    ) by {
                let j = choose|j: int| 0 <= j < old_s.len() && #[trigger] old_s[j]@.id == k;
                assert(old_v.sessions[k] == old_s[j]@);
            }
        }
        closed
    }
}

/// However many `get_or_create` calls are made for one identity, at most one
/// session is created (exactly one if none existed), and every call after the
/// first leaves the registry as the first call left it: all callers see the
/// same session.
pub proof fn lemma_single_winner(r: RegistryView, id: SessionId, nows: Seq<int>)
    requires
        nows.len() > 0,
    ensures
        r.get_or_create_all(id, nows) == r.get_or_create(id, nows[0]),
        r.get_or_create_all(id, nows).sessions.contains_key(id),
        r.creations(id, nows) == if r.sessions.contains_key(id) { 0nat } else { 1nat },
    decreases nows.len(),
{
    let g = r.get_or_create(id, nows[0]);
    assert(g.sessions.contains_key(id));
    assert(r.get_or_create_all(id, nows) == g.get_or_create_all(id, nows.drop_first()));
    if nows.len() > 1 {
        lemma_single_winner(g, id, nows.drop_first());
        assert(g.get_or_create(id, nows.drop_first()[0]) == g);
    } else {
        assert(nows.drop_first().len() == 0);
        assert(g.get_or_create_all(id, nows.drop_first()) == g);
        assert(g.creations(id, nows.drop_first()) == 0);
    }
    assert(r.creations(id, nows) == (if r.sessions.contains_key(id) { 0nat } else { 1nat }) + g.creations(
        id,
        nows.drop_first(),
    ));
}

/// Removing an identity a second time fails with `NotFound` and changes nothing.
pub proof fn lemma_remove_idempotent(r: RegistryView, id: SessionId)
    requires
        r.remove_result(id) is Ok,
    ensures
        r.removed(id).remove_result(id) == Err::<(), RegistryError>(RegistryError::NotFound),
        r.removed(id).removed(id) == r.removed(id),
{
}

/// A session destroyed by the reaper comes back, on the next
/// `get_or_create`, as a fresh session with an empty queue.
pub proof fn lemma_reaped_then_fresh(r: RegistryView, id: SessionId, now: int, timeout: int, t: int)
    requires
        r.reapable(id, now, timeout),
    ensures
        !r.reaped(now, timeout).sessions.contains_key(id),
        r.reaped(now, timeout).get_or_create(id, t).sessions[id] == SessionView::fresh(
            id,
            r.capacity,
            r.policy,
            t,
        ),
        r.reaped(now, timeout).get_or_create(id, t).sessions[id].queue.len() == 0,
{
}

} // verus!
