//! What a connection or the group asks of the embedding event loop.
//!
//! Every callback the connection manager would fire, and every socket
//! action it needs, is handed back as an [`Event`]. The embedding
//! application drains the returned events in order and acts on each:
//! dispatch a framed message to its message hooks, report a state
//! change, open or close a socket, or send a ping.

use vstd::prelude::*;

use crate::addr::NetAddr;
use crate::frame::{checksum_spec, BtcP2PMsgHdr, SpecFrame};
use crate::node::NodeState;

verus! {

/// One thing the embedding event loop must act on, in order.
pub enum Event {
    /// A complete well-formed framed message arrived: run the
    /// message-parse hook, then the post-message hook.
    Message { nodeid: u64, hdr: BtcP2PMsgHdr, payload: Vec<u8> },
    /// The connection took a real state transition: run the
    /// state-changed hook.
    StateChanged { nodeid: u64, state: NodeState },
    /// The version handshake completed: run the handshake-done hook.
    HandshakeDone { nodeid: u64 },
    /// Keep-alive is due: send a ping to the peer.
    SendPing { nodeid: u64 },
    /// Open an outbound socket to `addr` for this connection.
    StartConnect { nodeid: u64, addr: NetAddr },
    /// Close this connection's socket.
    Disconnect { nodeid: u64 },
}

/// Whether `e` dispatches exactly the frame `f` for connection
/// `nodeid`: the right command, the right payload, and a header whose
/// declared length and checksum fit the payload.
pub open spec fn is_message_event(e: Event, nodeid: u64, f: SpecFrame) -> bool {
    &&& e matches Event::Message { nodeid: nid, hdr, payload }
    &&& nid == nodeid
    &&& hdr.command@ == f.command
    &&& payload@ == f.payload
    &&& hdr.payload_len == f.payload.len()
    &&& hdr.checksum == checksum_spec(f.payload)
}

} // verus!
