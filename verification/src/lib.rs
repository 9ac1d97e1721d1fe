//! Core of a framed, connection-oriented chat protocol: the wire codec for
//! length-prefixed message frames, the per-connection session state machine,
//! the shared client registry, the message dispatcher, and the error
//! reporter, together with an in-memory model of the identity store.
//!
//! Transport I/O, the real database, and the filesystem are collaborators:
//! they live outside this library and talk to it through plain values.

pub mod client_input;
pub mod codec;
pub mod corrupt;
pub mod csvtable;
pub mod decimal;
pub mod dispatch;
pub mod message;
pub mod registry;
pub mod report;
pub mod server;
pub mod session;
pub mod store;
pub mod textutil;
pub mod wire;
