//! Core of a real-time message relay: a registry of connected peers, a binary
//! wire codec for the envelope exchanged with clients, and the session logic
//! that decides, for each inbound frame, what is sent to whom.
//!
//! Peer identifiers, display names, method names and payload fields are byte
//! strings throughout: the wire carries bytes, and the relay's decisions never
//! depend on their text encoding.

pub mod bytestr;
pub mod codec;
pub mod envelope;
pub mod identity;
pub mod protocol;
pub mod registry;
pub mod relay;
pub mod session;
