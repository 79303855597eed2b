//! Group-messaging relay core for an anonymous mixnet transport.
//!
//! Clients are identified by ephemeral anonymous sender tags, never by
//! network address.  This crate holds the protocol state machine and
//! fan-out engine: the identity store, the per-group durable message log,
//! the router that authorizes and executes each protocol action, and the
//! signature checks that every privileged action rests on.  The transport
//! itself, reply signing, and process bootstrap live outside the library.

pub mod bus;
pub mod crypto;
pub mod ids;
pub mod laws;
pub mod router;
pub mod store;
pub mod text;
pub mod wire;

pub use ids::EntryId;
