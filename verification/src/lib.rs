//! Peer-to-peer network connection manager for a Bitcoin-style gossip
//! network.
//!
//! The crate models the node-group connection manager: candidate peer
//! addresses resolved from DNS seeds, per-peer connection state machines
//! with message framing and misbehavior accounting, and the group-level
//! policy that decides when to connect, disconnect, or reject peers.
//!
//! Socket and DNS I/O live outside this crate; the library works on plain
//! values (addresses, byte buffers, timestamps) and hands back the events
//! an embedding event loop must act on.

pub mod addr;
pub mod events;
pub mod frame;
pub mod group;
pub mod node;
