use vstd::prelude::*;
use crate::message::{ConnectionId, Message, MessageKind, MessageView, SessionId};

verus! {

#[derive(Clone, Copy, Debug, PartialEq, Eq, Structural)]
pub enum ConnState {
    Open,
    Closing,
    Closed,
}

#[derive(Clone, Copy, Debug, PartialEq, Eq, Structural)]
pub enum ConnError {
    /// The stream is gone.
    Closed,
    /// A malformed frame arrived; the connection is closed for good.
    Protocol,
}

/// One decoded frame as the transport delivers it.
#[derive(Debug)]
pub enum Frame {
    Text(Vec<u8>),
    Binary(Vec<u8>),
    Ping(Vec<u8>),
    Pong(Vec<u8>),
    Close,
    Malformed,
}

/// The message that an inbound frame carries, if it carries one.
pub open spec fn frame_message(frame: Frame, origin: SessionId) -> Option<MessageView> {
    match frame {
        Frame::Text(p) => Some(MessageView { kind: MessageKind::Text, payload: p@, origin }),
        Frame::Binary(p) => Some(MessageView { kind: MessageKind::Binary, payload: p@, origin }),
        Frame::Ping(p) => Some(MessageView { kind: MessageKind::Control, payload: p@, origin }),
        Frame::Pong(p) => Some(MessageView { kind: MessageKind::Control, payload: p@, origin }),
        Frame::Close => None,
        Frame::Malformed => None,
    }
}

pub struct ConnectionView {
    pub id: ConnectionId,
    pub state: ConnState,
    /// Frames handed over for transmission and not yet taken by the transport.
    pub outgoing: Seq<MessageView>,
}

impl ConnectionView {
    pub open spec fn with_state(self, state: ConnState) -> ConnectionView {
        ConnectionView { state, ..self }
    }

    pub open spec fn with_outgoing(self, outgoing: Seq<MessageView>) -> ConnectionView {
        ConnectionView { outgoing, ..self }
    }
}

/// One physical duplex message stream, seen from the session layer.
#[derive(Debug)]
pub struct Connection {
    id: ConnectionId,
    state: ConnState,
    outgoing: Vec<Message>,
}

impl View for Connection {
    type V = ConnectionView;

    closed spec fn view(&self) -> ConnectionView {
        ConnectionView {
            id: self.id,
            state: self.state,
            outgoing: crate::message::views(self.outgoing@),
        }
    }
}

impl Connection {
    /// A freshly handshaken connection: open, nothing queued.
    pub fn open(id: ConnectionId) -> (r: Connection)
        ensures
            r@ == (ConnectionView { id, state: ConnState::Open, outgoing: Seq::empty() }),
    {
        let c = Connection { id, state: ConnState::Open, outgoing: Vec::new() };
        assert(c@.outgoing =~= Seq::empty());
        c
    }

    pub fn id(&self) -> (r: ConnectionId)
        ensures
            r == self@.id,
    {
        self.id
    }

    pub fn state(&self) -> (r: ConnState)
        ensures
            r == self@.state,
    {
        self.state
    }

    pub fn is_open(&self) -> (r: bool)
        ensures
            r == (self@.state == ConnState::Open),
    {
        self.state == ConnState::Open
    }

    /// Queues a frame for transmission without blocking; fails once the stream is not open.
    pub fn send(&mut self, msg: Message) -> (r: Result<(), ConnError>)
        ensures
            old(self)@.state == ConnState::Open ==> r is Ok && final(self)@ == old(self)@.with_outgoing(
                old(self)@.outgoing.push(msg@),
            ),
            old(self)@.state != ConnState::Open ==> r == Err::<(), ConnError>(ConnError::Closed)
                && final(self)@ == old(self)@,
    {
        if self.state == ConnState::Open {
            proof {
                crate::message::lemma_views_push(self.outgoing@, msg);
            }
            self.outgoing.push(msg);
            Ok(())
        } else {
            Err(ConnError::Closed)
        }
    }

    /// Starts a graceful close: no more sends are accepted.
    pub fn begin_close(&mut self)
        ensures
            old(self)@.state == ConnState::Open ==> final(self)@ == old(self)@.with_state(
                ConnState::Closing,
            ),
            old(self)@.state != ConnState::Open ==> final(self)@ == old(self)@,
    {
        if self.state == ConnState::Open {
            self.state = ConnState::Closing;
        }
    }

    /// Marks the stream as gone (closed by either side, or failed); terminal.
    pub fn close(&mut self)
        ensures
            final(self)@ == old(self)@.with_state(ConnState::Closed),
    {
        self.state = ConnState::Closed;
    }

    /// Hands the queued frames to the transport, in the order they were sent.
    pub fn take_outgoing(&mut self) -> (r: Vec<Message>)
        ensures
            crate::message::views(r@) == old(self)@.outgoing,
            final(self)@ == old(self)@.with_outgoing(Seq::empty()),
    {
        let mut taken: Vec<Message> = Vec::new();
        std::mem::swap(&mut taken, &mut self.outgoing);
        assert(crate::message::views(self.outgoing@) =~= Seq::empty());
        taken
    }

    /// Turns one inbound frame into a message from `origin`.
    /// A malformed frame closes the connection with a protocol error; a close
    /// frame ends the stream cleanly; nothing is read from a closed stream.
    pub fn receive(&mut self, frame: Frame, origin: SessionId) -> (r: Result<
        Option<Message>,
        ConnError,
    >)
        ensures
            old(self)@.state == ConnState::Closed ==> r is Err && r->Err_0 == ConnError::Closed
                && final(self)@ == old(self)@,
            old(self)@.state != ConnState::Closed ==> match frame {
                Frame::Malformed => r is Err && r->Err_0 == ConnError::Protocol && final(self)@
                    == old(self)@.with_state(ConnState::Closed),
                Frame::Close => r is Ok && r->Ok_0 is None && final(self)@ == old(self)@.with_state(
                    ConnState::Closed,
                ),
                _ => r is Ok && r->Ok_0 is Some && frame_message(frame, origin) == Some(
                    r->Ok_0->Some_0@,
                ) && final(self)@ == old(self)@,
            },
    {
        if self.state == ConnState::Closed {
            return Err(ConnError::Closed);
        }
        match frame {
            Frame::Text(p) => Ok(Some(Message::new(MessageKind::Text, p, origin))),
            Frame::Binary(p) => Ok(Some(Message::new(MessageKind::Binary, p, origin))),
            Frame::Ping(p) => Ok(Some(Message::new(MessageKind::Control, p, origin))),
            Frame::Pong(p) => Ok(Some(Message::new(MessageKind::Control, p, origin))),
            Frame::Close => {
                self.state = ConnState::Closed;
                Ok(None)
            },
            Frame::Malformed => {
                self.state = ConnState::Closed;
                Err(ConnError::Protocol)
            },
        }
    }
}

} // verus!
