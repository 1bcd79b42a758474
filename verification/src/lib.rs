//! A verified model of a tunnel bridge between a node-local pub/sub/event
//! bus and a remote mesh transport ("the wire").
//!
//! The tunnel observes services on the local bus, announces them on the
//! wire, discovers services announced by peer tunnels, and relays payload
//! samples and event notifications in both directions — without feedback
//! loops, consolidating redundant event notifications, and preserving the
//! exact bytes of every payload.
//!
//! The bus and the wire themselves are external collaborators: the host
//! drains their endpoints and hands the drained values to this library,
//! which decides — with a proved contract — what must be published, sent,
//! or notified next.

pub mod announce;
pub mod codec;
pub mod descriptor;
pub mod discovery;
pub mod event;
pub mod keys;
pub mod payload;
pub mod table;
pub mod tunnel;
