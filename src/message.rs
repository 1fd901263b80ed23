use vstd::prelude::*;

verus! {

/// Identity of a logical participant, stable across reconnects.
#[derive(Clone, Copy, Debug, PartialEq, Eq, Hash, Structural)]
pub struct SessionId {
    pub value: u128,
}

impl SessionId {
    pub fn new(value: u128) -> (r: SessionId)
        ensures
            r.value == value,
    {
        SessionId { value }
    }
}

/// Identity of one physical connection; handed out once and never reused.
#[derive(Clone, Copy, Debug, PartialEq, Eq, Structural)]
pub struct ConnectionId {
    pub value: u64,
}

#[derive(Clone, Copy, Debug, PartialEq, Eq, Structural)]
pub enum MessageKind {
    Text,
    Binary,
    Control,
}

/// The mathematical content of a message.
pub struct MessageView {
    pub kind: MessageKind,
    pub payload: Seq<u8>,
    pub origin: SessionId,
}

/// An immutable message: its kind, its payload bytes and the session it came from.
#[derive(Debug, PartialEq, Eq)]
pub struct Message {
    pub kind: MessageKind,
    pub payload: Vec<u8>,
    pub origin: SessionId,
}

impl View for Message {
    type V = MessageView;

    open spec fn view(&self) -> MessageView {
        MessageView { kind: self.kind, payload: self.payload@, origin: self.origin }
    }
}

/// The views of a sequence of messages, in the same order.
pub open spec fn views(s: Seq<Message>) -> Seq<MessageView> {
    s.map_values(|m: Message| m@)
}

pub proof fn lemma_views_push(s: Seq<Message>, m: Message)
    ensures
        views(s.push(m)) == views(s).push(m@),
{
    assert(views(s.push(m)) =~= views(s).push(m@));
}

pub proof fn lemma_views_skip(s: Seq<Message>, k: int)
    requires
        0 <= k <= s.len(),
    ensures
        views(s.skip(k)) == views(s).skip(k),
        views(s.take(k)) == views(s).take(k),
{
    assert(views(s.skip(k)) =~= views(s).skip(k));
    assert(views(s.take(k)) =~= views(s).take(k));
}

impl Message {
    pub fn new(kind: MessageKind, payload: Vec<u8>, origin: SessionId) -> (r: Message)
        ensures
            r@ == (MessageView { kind, payload: payload@, origin }),
    {
        Message { kind, payload, origin }
    }

    /// A second message with the same content.
    pub fn duplicate(&self) -> (r: Message)
        ensures
            r@ == self@,
    {
        let payload = self.payload.clone();
        assert(payload@ =~= self.payload@);
        Message { kind: self.kind, payload, origin: self.origin }
    }
}

} // verus!
