//! Signing-side half of a remote signature service for a consensus protocol.
//!
//! The heart of the crate is a canonical, length-prefixed binary codec for
//! consensus messages (votes and the session's request/response envelopes),
//! together with the deterministic JSON form of a vote that is the actual
//! input to the signature function, and the decision logic of the signing
//! session.  Every encoder is pinned to a byte-exact specification, every
//! decoder to a specification-level parser, and the round-trip laws between
//! them are proved.

pub mod codec;
pub mod error;
pub mod json;
pub mod proposal;
pub mod rpc;
pub mod session;
pub mod vote;
