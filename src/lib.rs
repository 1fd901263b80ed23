//! Connection and session management for a real-time message server.
//!
//! A `Connection` is one physical duplex message stream, a `Session` is one
//! logical participant that outlives its connections, the `SessionRegistry`
//! maps session identities to sessions, the `Dispatcher` routes inbound
//! messages, and the `Supervisor` binds accepted connections to sessions and
//! reaps idle ones. The transport itself lives outside this crate: callers
//! feed decoded frames in and carry queued frames out.
pub mod message;
pub mod connection;
pub mod session;
pub mod registry;
pub mod dispatcher;
pub mod supervisor;
pub mod auth;
