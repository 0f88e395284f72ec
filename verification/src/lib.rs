//! A bidirectional, multiplexed RPC client core.
//!
//! The crate models the protocol logic of an RPC client that multiplexes
//! request/response exchanges, fire-and-forget messages, and peer-initiated
//! requests over any number of duplex connections.  Everything that decides
//! what happens — message-id allocation, request/response correlation,
//! handler dispatch, connection lifecycle — lives here, verified.  The
//! asynchronous plumbing (sockets, task scheduling, channels) stays outside
//! and drives these functions.

pub mod client;
pub mod codec;
pub mod envelope;

pub use client::{ConnectionId, ErasedMessage, RpcClient, RpcError, TransportErrorKind};
pub use envelope::{Envelope, Payload};
