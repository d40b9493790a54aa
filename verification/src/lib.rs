//! Verified core of a real-time chat fan-out service.
//!
//! The crate models the connection registry ("hub"), the per-connection
//! session state machine, the presence subsystem, and the wire protocol
//! with its encoders and its inbound parser. All state-changing operations
//! carry contracts describing exactly how the registry maps and the
//! session state evolve, and the codec is specified character by
//! character; transport, storage and token verification are collaborators
//! that feed plain values into these functions and carry their results
//! out.

pub mod assoc;
pub mod claims;
pub mod error;
pub mod idmap;
pub mod message;
pub mod models;
pub mod parse;
pub mod presence;
pub mod server;
pub mod session;
pub mod wire;
