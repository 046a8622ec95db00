//! Shared-memory IPC channels: the ring-buffer bookkeeping, the layout of the
//! shared state, and the checks made while two processes set up a channel.
//!
//! The shared memory itself, the Unix sockets and the async runtime are driven
//! by the caller; this crate decides what goes where and whether what a peer
//! sent can be trusted.

pub mod layout;
pub mod send_queue;
pub mod ring;
pub mod recv_queue;
pub mod handshake;
pub mod server;
pub mod channel;
pub mod broadcast;
pub mod broadcast_channel;
