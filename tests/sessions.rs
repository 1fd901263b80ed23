use session_core::auth::{authenticate, session_of, AuthError};
use session_core::connection::{ConnError, ConnState, Connection, Frame};
use session_core::dispatcher::{classify, Class, Dispatcher, Handler, Outcome};
use session_core::message::{ConnectionId, Message, MessageKind, SessionId};
use session_core::registry::{Audience, RegistryError, SessionRegistry};
use session_core::session::{Policy, Session, SessionError};
use session_core::supervisor::{AcceptError, Supervisor};

fn text(s: &str, origin: SessionId) -> Message {
    Message::new(MessageKind::Text, s.as_bytes().to_vec(), origin)
}

fn payloads(ms: &[Message]) -> Vec<Vec<u8>> {
    ms.iter().map(|m| m.payload.clone()).collect()
}

#[test]
fn get_or_create_same_id_creates_once() {
    let mut reg = SessionRegistry::new(4, Policy::RejectNew);
    let id = SessionId::new(1);
    assert!(reg.get_or_create(id, 10));
    assert!(reg.enqueue(id, text("kept", id)).is_ok());
    for t in 11..20 {
        assert!(!reg.get_or_create(id, t));
    }
    assert_eq!(reg.len(), 1);
    let s = reg.session(id).unwrap();
    assert_eq!(s.queued(), 1);
    assert_eq!(s.last_activity(), 10);
}

#[test]
fn reconnect_keeps_queued_messages() {
    let mut reg = SessionRegistry::new(8, Policy::RejectNew);
    let id = SessionId::new(7);
    reg.get_or_create(id, 0);
    assert!(reg.attach(id, Connection::open(ConnectionId { value: 1 })).unwrap().is_none());
    reg.enqueue(id, text("a", id)).unwrap();
    reg.enqueue(id, text("b", id)).unwrap();
    let old = reg.attach(id, Connection::open(ConnectionId { value: 2 })).unwrap().unwrap();
    assert_eq!(old.id(), ConnectionId { value: 1 });
    assert_eq!(old.state(), ConnState::Closed);
    assert_eq!(reg.session(id).unwrap().queued(), 2);
    assert!(reg.pump(id, 5).is_none());
    let out = reg.take_outgoing(id);
    assert_eq!(payloads(&out), vec![b"a".to_vec(), b"b".to_vec()]);
    assert_eq!(reg.session(id).unwrap().queued(), 0);
}

#[test]
fn remove_twice_fails_cleanly() {
    let mut reg = SessionRegistry::new(2, Policy::RejectNew);
    let a = SessionId::new(1);
    let b = SessionId::new(2);
    reg.get_or_create(a, 0);
    reg.get_or_create(b, 0);
    assert_eq!(reg.remove(a), Ok(()));
    assert_eq!(reg.remove(a), Err(RegistryError::NotFound));
    assert_eq!(reg.len(), 1);
    assert!(reg.contains(b));
}

#[test]
fn remove_refuses_active_session() {
    let mut reg = SessionRegistry::new(2, Policy::RejectNew);
    let a = SessionId::new(1);
    reg.get_or_create(a, 0);
    reg.attach(a, Connection::open(ConnectionId { value: 9 })).unwrap();
    assert_eq!(reg.remove(a), Err(RegistryError::StillActive));
    assert!(reg.contains(a));
}

#[test]
fn backpressure_reject_new_keeps_queue() {
    let id = SessionId::new(3);
    let mut s = Session::new(id, 2, Policy::RejectNew, 0);
    assert!(s.enqueue(text("1", id)).is_ok());
    assert!(s.enqueue(text("2", id)).is_ok());
    assert_eq!(s.enqueue(text("3", id)), Err(SessionError::Backpressure));
    assert_eq!(s.queued(), 2);
    s.attach(Connection::open(ConnectionId { value: 0 }));
    s.pump(1);
    assert_eq!(payloads(&s.take_outgoing()), vec![b"1".to_vec(), b"2".to_vec()]);
}

#[test]
fn backpressure_drop_oldest_evicts_first() {
    let id = SessionId::new(3);
    let mut s = Session::new(id, 2, Policy::DropOldest, 0);
    s.enqueue(text("1", id)).unwrap();
    s.enqueue(text("2", id)).unwrap();
    assert!(s.enqueue(text("3", id)).is_ok());
    assert_eq!(s.queued(), 2);
    s.attach(Connection::open(ConnectionId { value: 0 }));
    s.pump(1);
    assert_eq!(payloads(&s.take_outgoing()), vec![b"2".to_vec(), b"3".to_vec()]);
}

#[test]
fn zero_capacity_refuses_under_either_policy() {
    let id = SessionId::new(3);
    let mut s = Session::new(id, 0, Policy::DropOldest, 0);
    assert_eq!(s.enqueue(text("x", id)), Err(SessionError::Backpressure));
    assert_eq!(s.queued(), 0);
}

#[test]
fn ordering_survives_pause_and_resume() {
    let mut reg = SessionRegistry::new(8, Policy::RejectNew);
    let id = SessionId::new(5);
    reg.get_or_create(id, 0);
    reg.attach(id, Connection::open(ConnectionId { value: 1 })).unwrap();
    reg.enqueue(id, text("A", id)).unwrap();
    reg.enqueue(id, text("B", id)).unwrap();
    reg.pump(id, 1);
    let mut delivered = payloads(&reg.take_outgoing(id));
    // the peer goes away
    assert_eq!(reg.receive(id, ConnectionId { value: 1 }, Frame::Close, 2), Ok(None));
    reg.enqueue(id, text("C", id)).unwrap();
    let dead = reg.pump(id, 3).unwrap();
    assert_eq!(dead.state(), ConnState::Closed);
    assert!(!reg.session(id).unwrap().has_connection());
    assert_eq!(reg.session(id).unwrap().queued(), 1);
    reg.attach(id, Connection::open(ConnectionId { value: 2 })).unwrap();
    reg.pump(id, 4);
    delivered.extend(payloads(&reg.take_outgoing(id)));
    assert_eq!(delivered, vec![b"A".to_vec(), b"B".to_vec(), b"C".to_vec()]);
}

#[test]
fn end_to_end_ping_pong() {
    let mut reg = SessionRegistry::new(8, Policy::RejectNew);
    let mut sup = Supervisor::new(1000);
    let mut disp = Dispatcher::new();
    disp.on_message(MessageKind::Text, Handler::PingPong);
    let u1 = SessionId::new(1);
    let u2 = SessionId::new(2);
    let (c1, prev) = sup.accept(&mut reg, u1, 0).unwrap();
    assert!(prev.is_none());
    let (c2, _) = sup.accept(&mut reg, u2, 0).unwrap();
    assert_ne!(c1, c2);
    let msg = reg.receive(u1, c1, Frame::Text(b"ping".to_vec()), 1).unwrap().unwrap();
    assert_eq!(classify(&msg), Class::Text);
    match disp.dispatch(&mut reg, msg) {
        Outcome::Routed(rejected) => assert!(rejected.is_empty()),
        other => panic!("unexpected outcome {:?}", other),
    }
    reg.pump(u1, 2);
    reg.pump(u2, 2);
    let out = reg.take_outgoing(u1);
    assert_eq!(out.len(), 1);
    assert_eq!(out[0].kind, MessageKind::Text);
    assert_eq!(out[0].payload, b"pong".to_vec());
    assert!(reg.take_outgoing(u2).is_empty());
    assert_eq!(reg.session(u2).unwrap().queued(), 0);
    assert_eq!(sup.accepted(), 2);
}

#[test]
fn expired_session_is_reaped_and_recreated_empty() {
    let mut reg = SessionRegistry::new(4, Policy::RejectNew);
    let mut sup = Supervisor::new(100);
    let idle = SessionId::new(1);
    let busy = SessionId::new(2);
    reg.get_or_create(idle, 0);
    reg.enqueue(idle, text("stale", idle)).unwrap();
    sup.accept(&mut reg, busy, 0).unwrap();
    assert!(sup.reap(&mut reg, 100).is_empty());
    let gone = sup.reap(&mut reg, 101);
    assert_eq!(gone, vec![idle]);
    assert!(!reg.contains(idle));
    assert!(reg.contains(busy));
    assert_eq!(sup.expired(), 1);
    assert!(reg.get_or_create(idle, 200));
    assert_eq!(reg.session(idle).unwrap().queued(), 0);
    assert_eq!(reg.session(idle).unwrap().last_activity(), 200);
}

#[test]
fn is_expired_is_strictly_older_than_timeout() {
    let s = Session::new(SessionId::new(1), 1, Policy::RejectNew, 50);
    assert!(!s.is_expired(150, 100));
    assert!(s.is_expired(151, 100));
    assert!(!s.is_expired(10, 0));
}

#[test]
fn connection_send_fails_once_closed() {
    let id = SessionId::new(1);
    let mut c = Connection::open(ConnectionId { value: 4 });
    assert!(c.is_open());
    assert_eq!(c.send(text("x", id)), Ok(()));
    c.begin_close();
    assert_eq!(c.state(), ConnState::Closing);
    assert_eq!(c.send(text("y", id)), Err(ConnError::Closed));
    assert_eq!(payloads(&c.take_outgoing()), vec![b"x".to_vec()]);
    assert!(c.take_outgoing().is_empty());
}

#[test]
fn malformed_frame_is_a_protocol_error() {
    let id = SessionId::new(1);
    let mut c = Connection::open(ConnectionId { value: 4 });
    let m = c.receive(Frame::Binary(vec![1, 2]), id).unwrap().unwrap();
    assert_eq!(m.kind, MessageKind::Binary);
    assert_eq!(m.payload, vec![1, 2]);
    assert_eq!(m.origin, id);
    let p = c.receive(Frame::Ping(vec![9]), id).unwrap().unwrap();
    assert_eq!(p.kind, MessageKind::Control);
    assert_eq!(c.receive(Frame::Malformed, id).unwrap_err(), ConnError::Protocol);
    assert_eq!(c.state(), ConnState::Closed);
    assert_eq!(c.receive(Frame::Text(b"late".to_vec()), id).unwrap_err(), ConnError::Closed);
}

#[test]
fn receive_without_connection_is_refused() {
    let mut reg = SessionRegistry::new(1, Policy::RejectNew);
    let id = SessionId::new(1);
    assert_eq!(reg.receive(id, ConnectionId { value: 0 }, Frame::Close, 0), Err(RegistryError::NotFound));
    reg.get_or_create(id, 0);
    assert_eq!(
        reg.receive(id, ConnectionId { value: 0 }, Frame::Close, 0),
        Err(RegistryError::Session(SessionError::NotAttached))
    );
}

#[test]
fn received_message_touches_session() {
    let mut reg = SessionRegistry::new(1, Policy::RejectNew);
    let id = SessionId::new(1);
    reg.get_or_create(id, 0);
    reg.attach(id, Connection::open(ConnectionId { value: 1 })).unwrap();
    reg.receive(id, ConnectionId { value: 1 }, Frame::Text(b"hi".to_vec()), 42).unwrap();
    assert_eq!(reg.session(id).unwrap().last_activity(), 42);
}

#[test]
fn broadcast_reports_full_queues_per_id() {
    let mut reg = SessionRegistry::new(1, Policy::RejectNew);
    let a = SessionId::new(1);
    let b = SessionId::new(2);
    let c = SessionId::new(3);
    for id in [a, b, c] {
        reg.get_or_create(id, 0);
    }
    reg.enqueue(b, text("full", b)).unwrap();
    let rejected = reg.broadcast(&text("hello", a), Audience::Everyone);
    assert_eq!(rejected, vec![b]);
    assert_eq!(reg.session(a).unwrap().queued(), 1);
    assert_eq!(reg.session(c).unwrap().queued(), 1);
    let rejected = reg.broadcast(&text("again", a), Audience::Only(SessionId::new(99)));
    assert!(rejected.is_empty());
    assert_eq!(reg.enqueue(SessionId::new(99), text("x", a)), Err(RegistryError::NotFound));
    assert_eq!(
        reg.enqueue(a, text("x", a)),
        Err(RegistryError::Session(SessionError::Backpressure))
    );
}

#[test]
fn fanout_skips_sender_and_counts_drops() {
    let mut reg = SessionRegistry::new(1, Policy::RejectNew);
    let mut disp = Dispatcher::new();
    disp.on_message(MessageKind::Binary, Handler::Fanout);
    let a = SessionId::new(1);
    let b = SessionId::new(2);
    let c = SessionId::new(3);
    for id in [a, b, c] {
        reg.get_or_create(id, 0);
    }
    reg.enqueue(c, text("full", c)).unwrap();
    match disp.dispatch(&mut reg, Message::new(MessageKind::Binary, vec![7], a)) {
        Outcome::Routed(rejected) => assert_eq!(rejected, vec![c]),
        other => panic!("unexpected outcome {:?}", other),
    }
    assert_eq!(reg.session(a).unwrap().queued(), 0);
    assert_eq!(reg.session(b).unwrap().queued(), 1);
    assert_eq!(disp.dropped(), 1);
}

#[test]
fn echo_replies_with_same_kind_and_payload() {
    let mut reg = SessionRegistry::new(4, Policy::RejectNew);
    let mut disp = Dispatcher::new();
    disp.on_message(MessageKind::Binary, Handler::Echo);
    let a = SessionId::new(1);
    reg.get_or_create(a, 0);
    reg.attach(a, Connection::open(ConnectionId { value: 1 })).unwrap();
    assert!(matches!(
        disp.dispatch(&mut reg, Message::new(MessageKind::Binary, b"abc".to_vec(), a)),
        Outcome::Routed(_)
    ));
    reg.pump(a, 1);
    let out = reg.take_outgoing(a);
    assert_eq!(out.len(), 1);
    assert_eq!(out[0].kind, MessageKind::Binary);
    assert_eq!(out[0].payload, b"abc".to_vec());
}

#[test]
fn echo_answers_empty_messages() {
    let mut reg = SessionRegistry::new(4, Policy::RejectNew);
    let mut disp = Dispatcher::new();
    disp.on_message(MessageKind::Text, Handler::Echo);
    disp.on_message(MessageKind::Binary, Handler::Echo);
    let a = SessionId::new(1);
    reg.get_or_create(a, 0);
    reg.attach(a, Connection::open(ConnectionId { value: 1 })).unwrap();
    assert!(matches!(disp.dispatch(&mut reg, text("", a)), Outcome::Routed(_)));
    assert!(matches!(
        disp.dispatch(&mut reg, Message::new(MessageKind::Binary, vec![], a)),
        Outcome::Routed(_)
    ));
    reg.pump(a, 1);
    let out = reg.take_outgoing(a);
    assert_eq!(out.len(), 2);
    assert_eq!((out[0].kind, out[0].payload.len()), (MessageKind::Text, 0));
    assert_eq!((out[1].kind, out[1].payload.len()), (MessageKind::Binary, 0));
    assert_eq!(disp.dropped(), 0);
}

#[test]
fn stale_connection_frames_are_refused() {
    let mut reg = SessionRegistry::new(4, Policy::RejectNew);
    let a = SessionId::new(1);
    reg.get_or_create(a, 0);
    reg.attach(a, Connection::open(ConnectionId { value: 1 })).unwrap();
    reg.attach(a, Connection::open(ConnectionId { value: 2 })).unwrap();
    assert_eq!(
        reg.receive(a, ConnectionId { value: 1 }, Frame::Close, 5),
        Err(RegistryError::StaleConnection)
    );
    assert!(reg.session(a).unwrap().connection().unwrap().is_open());
}

#[test]
fn broadcast_where_uses_the_predicate() {
    let mut reg = SessionRegistry::new(1, Policy::RejectNew);
    for v in 1..=4 {
        reg.get_or_create(SessionId::new(v), 0);
    }
    reg.enqueue(SessionId::new(4), text("full", SessionId::new(4))).unwrap();
    let rejected = reg.broadcast_where(&text("even", SessionId::new(1)), |k: SessionId| k.value % 2 == 0);
    assert_eq!(rejected, vec![SessionId::new(4)]);
    assert_eq!(reg.session(SessionId::new(1)).unwrap().queued(), 0);
    assert_eq!(reg.session(SessionId::new(2)).unwrap().queued(), 1);
    assert_eq!(reg.session(SessionId::new(3)).unwrap().queued(), 0);
}

#[test]
fn supervisor_counts_failed_greetings() {
    let mut sup = Supervisor::new(10);
    assert_eq!(sup.authenticate("u1"), Err(AuthError::Malformed));
    assert_eq!(
        sup.authenticate("a1a2a3a4-b1b2-c1c2-d1d2-d3d4d5d6d7d8"),
        Ok(SessionId::new(0xa1a2a3a4b1b2c1c2d1d2d3d4d5d6d7d8))
    );
    assert_eq!(sup.auth_failures(), 1);
}

#[test]
fn dispatch_drops_what_it_cannot_route() {
    let mut reg = SessionRegistry::new(4, Policy::RejectNew);
    let mut disp = Dispatcher::new();
    disp.on_message(MessageKind::Text, Handler::PingPong);
    let a = SessionId::new(1);
    reg.get_or_create(a, 0);
    assert!(matches!(disp.dispatch(&mut reg, text("ping", SessionId::new(2))), Outcome::Dropped));
    assert!(matches!(disp.dispatch(&mut reg, text("hello", a)), Outcome::Dropped));
    assert!(matches!(
        disp.dispatch(&mut reg, Message::new(MessageKind::Control, vec![], a)),
        Outcome::Dropped
    ));
    assert!(matches!(disp.dispatch(&mut reg, text("", a)), Outcome::Dropped));
    assert_eq!(disp.dropped(), 4);
    assert_eq!(reg.session(a).unwrap().queued(), 0);
    assert_eq!(classify(&text("", a)), Class::Text);
    assert_eq!(classify(&Message::new(MessageKind::Control, vec![1], a)), Class::Control);
}

#[test]
fn accept_replaces_previous_connection() {
    let mut reg = SessionRegistry::new(4, Policy::RejectNew);
    let mut sup = Supervisor::new(10);
    let id = SessionId::new(1);
    let (first, _) = sup.accept(&mut reg, id, 0).unwrap();
    let (second, prev) = sup.accept(&mut reg, id, 1).unwrap();
    let prev = prev.unwrap();
    assert_eq!(prev.id(), first);
    assert_eq!(prev.state(), ConnState::Closed);
    assert_eq!(reg.session(id).unwrap().connection().unwrap().id(), second);
    assert_eq!(reg.len(), 1);
}

#[test]
fn attach_refuses_connection_held_elsewhere() {
    let mut reg = SessionRegistry::new(4, Policy::RejectNew);
    let a = SessionId::new(1);
    let b = SessionId::new(2);
    reg.get_or_create(a, 0);
    reg.get_or_create(b, 0);
    reg.attach(a, Connection::open(ConnectionId { value: 5 })).unwrap();
    assert_eq!(
        reg.attach(b, Connection::open(ConnectionId { value: 5 })).err(),
        Some(RegistryError::ConnectionInUse)
    );
    assert_eq!(
        reg.attach(SessionId::new(3), Connection::open(ConnectionId { value: 6 })).err(),
        Some(RegistryError::NotFound)
    );
    assert!(!reg.session(b).unwrap().has_connection());
    let _ = AcceptError::Exhausted;
}

#[test]
fn greeting_names_session_by_uuid() {
    assert_eq!(
        authenticate("a1a2a3a4-b1b2-c1c2-d1d2-d3d4d5d6d7d8"),
        Ok(SessionId::new(0xa1a2a3a4b1b2c1c2d1d2d3d4d5d6d7d8))
    );
    assert_eq!(
        authenticate("a1a2a3a4b1b2c1c2d1d2d3d4d5d6d7d8"),
        Ok(SessionId::new(0xa1a2a3a4b1b2c1c2d1d2d3d4d5d6d7d8))
    );
    assert_eq!(authenticate("u1"), Err(AuthError::Malformed));
    assert_eq!(authenticate(""), Err(AuthError::Malformed));
    assert_eq!(session_of(Some(5)), Ok(SessionId::new(5)));
    assert_eq!(session_of(None), Err(AuthError::Malformed));
}

#[test]
fn close_all_detaches_every_connection() {
    let mut reg = SessionRegistry::new(4, Policy::RejectNew);
    let a = SessionId::new(1);
    let b = SessionId::new(2);
    let c = SessionId::new(3);
    for id in [a, b, c] {
        reg.get_or_create(id, 0);
    }
    reg.attach(a, Connection::open(ConnectionId { value: 10 })).unwrap();
    reg.attach(c, Connection::open(ConnectionId { value: 30 })).unwrap();
    reg.enqueue(a, text("kept", a)).unwrap();
    let closed = reg.close_all();
    let mut ids: Vec<u64> = closed.iter().map(|x| x.id().value).collect();
    ids.sort();
    assert_eq!(ids, vec![10, 30]);
    assert!(closed.iter().all(|x| x.state() == ConnState::Closed));
    for id in [a, b, c] {
        assert!(!reg.session(id).unwrap().has_connection());
    }
    assert_eq!(reg.session(a).unwrap().queued(), 1);
    assert_eq!(reg.len(), 3);
}
