use vstd::prelude::*;
use crate::message::{Message, MessageKind, MessageView, SessionId};
use crate::registry::{Audience, RegistryView, SessionRegistry};

verus! {

/// The class of an inbound message, which picks its handler.
#[derive(Clone, Copy, Debug, PartialEq, Eq, Structural)]
pub enum Class {
    Text,
    Binary,
    Control,
}

/// What a registered handler does with a message.
#[derive(Clone, Copy, Debug, PartialEq, Eq, Structural)]
pub enum Handler {
    /// Sends the message back to its sender unchanged.
    Echo,
    /// Answers the text `ping` with `pong`; anything else is dropped.
    PingPong,
    /// Sends the message to every other session.
    Fanout,
}

/// The end state of one dispatched message.
#[derive(Debug)]
pub enum Outcome {
    /// Handed to its targets; the identities whose queues refused it are listed.
    Routed(Vec<SessionId>),
    /// No handler, no reply, no such target, or the only target refused it.
    Dropped,
}

pub open spec fn class_of(m: MessageView) -> Class {
    match m.kind {
        MessageKind::Control => Class::Control,
        MessageKind::Text => Class::Text,
        MessageKind::Binary => Class::Binary,
    }
}

pub open spec fn ping_bytes() -> Seq<u8> {
    seq![112u8, 105u8, 110u8, 103u8]
}

pub open spec fn pong_bytes() -> Seq<u8> {
    seq![112u8, 111u8, 110u8, 103u8]
}

/// The reply that a replying handler sends back to the sender, if any.
pub open spec fn reply_of(h: Handler, m: MessageView) -> Option<MessageView> {
    match h {
        Handler::Echo => Some(m),
        Handler::PingPong => if m.kind == MessageKind::Text && m.payload == ping_bytes() {
            Some(MessageView { kind: MessageKind::Text, payload: pong_bytes(), origin: m.origin })
        } else {
            None
        },
        Handler::Fanout => None,
    }
}

pub fn classify(m: &Message) -> (r: Class)
    ensures
        r == class_of(m@),
{
    match m.kind {
        MessageKind::Control => Class::Control,
        MessageKind::Text => Class::Text,
        MessageKind::Binary => Class::Binary,
    }
}

fn is_ping(m: &Message) -> (r: bool)
    ensures
        r == (m@.kind == MessageKind::Text && m@.payload == ping_bytes()),
{
    let p = &m.payload;
    let r = m.kind == MessageKind::Text && p.len() == 4 && p[0] == 112u8 && p[1] == 105u8 && p[2] == 110u8
        && p[3] == 103u8;
    proof {
        if m@.kind == MessageKind::Text && p.len() == 4 && p@[0] == 112u8 && p@[1] == 105u8 && p@[2] == 110u8
            && p@[3] == 103u8 {
            assert(p@ =~= ping_bytes());
        }
    }
    r
}

/// Builds the reply of a replying handler.
pub fn reply(h: Handler, m: &Message) -> (r: Option<Message>)
    ensures
        match r {
            Some(x) => reply_of(h, m@) == Some(x@),
            None => reply_of(h, m@) is None,
        },
{
    match h {
        Handler::Echo => Some(m.duplicate()),
        Handler::PingPong => if is_ping(m) {
            let pong: Vec<u8> = vec![112u8, 111u8, 110u8, 103u8];
            assert(pong@ =~= pong_bytes());
            Some(Message::new(MessageKind::Text, pong, m.origin))
        } else {
            None
        },
        Handler::Fanout => None,
    }
}

pub struct DispatcherView {
    pub text: Option<Handler>,
    pub binary: Option<Handler>,
    pub control: Option<Handler>,
    pub dropped: nat,
}

impl DispatcherView {
    pub open spec fn handler_for(self, c: Class) -> Option<Handler> {
        match c {
            Class::Text => self.text,
            Class::Binary => self.binary,
            Class::Control => self.control,
        }
    }

    /// The counter after `n` more drops, saturating at the largest `u64`.
    pub open spec fn counted(self, n: nat) -> DispatcherView {
        DispatcherView {
            dropped: if self.dropped + n <= u64::MAX { self.dropped + n } else { u64::MAX as nat },
            ..self
        }
    }
}

/// Routes inbound messages to the handler registered for their class and
/// counts what had to be dropped.
pub struct Dispatcher {
    text: Option<Handler>,
    binary: Option<Handler>,
    control: Option<Handler>,
    dropped: u64,
}

impl View for Dispatcher {
    type V = DispatcherView;

    closed spec fn view(&self) -> DispatcherView {
        DispatcherView {
            text: self.text,
            binary: self.binary,
            control: self.control,
            dropped: self.dropped as nat,
        }
    }
}

impl Dispatcher {
    /// A dispatcher with no handlers: every message is dropped.
    pub fn new() -> (r: Dispatcher)
        ensures
            r@ == (DispatcherView { text: None, binary: None, control: None, dropped: 0 }),
    {
        Dispatcher { text: None, binary: None, control: None, dropped: 0 }
    }

    /// Registers `h` for messages of `kind`, replacing any earlier handler.
    pub fn on_message(&mut self, kind: MessageKind, h: Handler)
        ensures
            final(self)@ == match kind {
                MessageKind::Text => DispatcherView { text: Some(h), ..old(self)@ },
                MessageKind::Binary => DispatcherView { binary: Some(h), ..old(self)@ },
                MessageKind::Control => DispatcherView { control: Some(h), ..old(self)@ },
            },
    {
        match kind {
            MessageKind::Text => self.text = Some(h),
            MessageKind::Binary => self.binary = Some(h),
            MessageKind::Control => self.control = Some(h),
        }
    }

    pub fn dropped(&self) -> (r: u64)
        ensures
            r == self@.dropped,
    {
        self.dropped
    }

    fn count_dropped(&mut self, n: u64)
        ensures
            final(self)@ == old(self)@.counted(n as nat),
    {
        self.dropped = self.dropped.saturating_add(n);
    }

    /// Classifies `msg`, hands it to the handler for its class and applies the
    /// handler's effect to `reg`. A target that does not exist or whose queue
    /// refuses the message is dropped for that target and counted.
    pub fn dispatch(&mut self, reg: &mut SessionRegistry, msg: Message) -> (r: Outcome)
        requires
            old(reg).wf(),
        ensures
            final(reg).wf(),
            ({
                let v = old(reg)@;
                let d = old(self)@;
                let m = msg@;
                if !v.sessions.contains_key(m.origin) {
                    r is Dropped && final(reg)@ == v && final(self)@ == d.counted(1)
                } else {
                    match d.handler_for(class_of(m)) {
                        None => r is Dropped && final(reg)@ == v && final(self)@ == d.counted(1),
                        Some(Handler::Fanout) => {
                            &&& r is Routed
                            &&& final(reg)@ == v.broadcast(m, Audience::AllBut(m.origin))
                            &&& r->Routed_0@.no_duplicates()
                            &&& forall|k: SessionId| r->Routed_0@.contains(k) <==> v.sessions.contains_key(k)
                                && k != m.origin && !v.sessions[k].accepts()
                            &&& final(self)@ == d.counted(r->Routed_0@.len())
                        },
                        Some(h) => match reply_of(h, m) {
                            None => r is Dropped && final(reg)@ == v && final(self)@ == d.counted(1),
                            Some(x) => {
                                &&& final(reg)@ == v.enqueued(m.origin, x)
                                &&& v.sessions[m.origin].accepts() ==> r is Routed && r->Routed_0@.len() == 0
                                    && final(self)@ == d
                                &&& !v.sessions[m.origin].accepts() ==> r is Dropped && final(self)@ == d.counted(1)
                            },
                        },
                    }
                }
            }),
            ({
                let v = old(reg)@;
                let m = msg@;
                old(self)@.handler_for(class_of(m)) == Some(Handler::Echo) && v.sessions.contains_key(m.origin)
                    && v.sessions[m.origin].accepts() ==> r is Routed && r->Routed_0@.len() == 0
                    && final(reg)@ == v.enqueued(m.origin, m)
            }),
    {
        if !reg.contains(msg.origin) {
            self.count_dropped(1);
            return Outcome::Dropped;
        }
        let h = match classify(&msg) {
            Class::Text => self.text,
            Class::Binary => self.binary,
            Class::Control => self.control,
        };
        match h {
            None => {
                self.count_dropped(1);
                Outcome::Dropped
            },
            Some(Handler::Fanout) => {
                let ghost v = reg@;
                let rejected = reg.broadcast(&msg, Audience::AllBut(msg.origin));
                proof {
                    assert forall|k: SessionId| rejected@.contains(k) <==> v.sessions.contains_key(k)
                        && k != msg@.origin && !v.sessions[k].accepts() by {
                        assert(Audience::AllBut(msg.origin).includes(k) == (k != msg.origin));
                    }
                }
                self.count_dropped(rejected.len() as u64);
                Outcome::Routed(rejected)
            },
            Some(h) => match reply(h, &msg) {
                None => {
                    self.count_dropped(1);
                    Outcome::Dropped
                },
                Some(x) => match reg.enqueue(msg.origin, x) {
                    Ok(()) => Outcome::Routed(Vec::new()),
                    Err(_) => {
                        self.count_dropped(1);
                        Outcome::Dropped
                    },
                },
            },
        }
    }
}

/// A text `ping` from a known session whose queue takes one more message,
/// handled by `PingPong`, is answered by one text `pong` at the end of the
/// sender's own queue; every other session, queue and connection is left
/// exactly as it was.
pub proof fn lemma_ping_answered_to_sender_only(v: RegistryView, m: MessageView)
    requires
        v.wf(),
        m.kind == MessageKind::Text,
        m.payload == ping_bytes(),
        v.sessions.contains_key(m.origin),
        v.sessions[m.origin].accepts(),
    ensures
        ({
            let pong = MessageView { kind: MessageKind::Text, payload: pong_bytes(), origin: m.origin };
            let after = v.enqueued(m.origin, pong);
            &&& reply_of(Handler::PingPong, m) == Some(pong)
            &&& after.sessions.dom() == v.sessions.dom()
            &&& forall|k: SessionId|
                v.sessions.contains_key(k) && k != m.origin ==> #[trigger] after.sessions[k] == v.sessions[k]
            &&& after.sessions[m.origin].queue.last() == pong
            &&& after.sessions[m.origin].connection == v.sessions[m.origin].connection
        }),
{
    let pong = MessageView { kind: MessageKind::Text, payload: pong_bytes(), origin: m.origin };
    let after = v.enqueued(m.origin, pong);
    assert(after.sessions.dom() =~= v.sessions.dom());
}

} // verus!
