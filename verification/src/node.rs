//! One peer connection: its lifecycle state machine, receive-buffer
//! framing, keep-alive bookkeeping, and misbehavior accounting.
//!
//! A [`Node`] never touches a socket. The embedding event loop feeds it
//! plain values — received bytes, the current time, handshake results —
//! and acts on the [`Event`]s handed back.

use vstd::prelude::*;

use crate::addr::NetAddr;
use crate::events::{is_message_event, Event};
use crate::frame::{
    scan_spec, scan_step, scan_step_exec, subvec, append_bytes, ScanStep, SpecFrame, BufferEvent,
    MAGIC_LEN,
};
use crate::frame::lemma_scan_step_consumed;

verus! {

/// The primary lifecycle tag of a connection.
///
/// The dominant path is `Fresh` to `Connecting` to `Connected`; the
/// remaining states are terminal, each named for what ended the
/// connection. The header-sync and block-sync phases are orthogonal
/// flags on [`Node`], not lifecycle states.
#[derive(Clone, Copy, PartialEq, Eq, Structural, Debug)]
pub enum NodeState {
    /// Constructed; no socket opened yet.
    Fresh,
    /// An outbound socket connect and the handshake are under way.
    Connecting,
    /// The version handshake completed; traffic flows.
    Connected,
    /// A local socket error ended the connection.
    Errored,
    /// Silence past the keep-alive timeout ended the connection.
    Timeout,
    /// Protocol violations past the misbehavior threshold ended it.
    Misbehaved,
    /// A local decision ended the connection.
    Disconnected,
    /// The remote peer closed first.
    DisconnectedFromRemotePeer,
}

/// Mask bit for connections in the `Connecting` state.
pub const MASK_CONNECTING: u32 = 0x1;

/// Mask bit for connections in the `Connected` state.
pub const MASK_CONNECTED: u32 = 0x2;

/// Mask bit for connections that ended in `Errored`.
pub const MASK_ERRORED: u32 = 0x4;

/// Mask bit for connections that ended in `Timeout`.
pub const MASK_TIMEOUT: u32 = 0x8;

/// Mask bit for connections in the header-sync phase.
pub const MASK_HEADERSYNC: u32 = 0x10;

/// Mask bit for connections in the block-sync phase.
pub const MASK_BLOCKSYNC: u32 = 0x20;

/// Mask bit for connections that ended in `Misbehaved`.
pub const MASK_MISBEHAVED: u32 = 0x40;

/// Mask bit for connections that ended in `Disconnected`.
pub const MASK_DISCONNECTED: u32 = 0x80;

/// Mask bit for connections the remote peer closed first.
pub const MASK_DISCONNECTED_FROM_REMOTE_PEER: u32 = 0x100;

/// Penalty added to the misbehavior score for one protocol violation.
pub const MISBEHAVE_PENALTY: u32 = 10;

/// Misbehavior score at which a connection is cut.
pub const MISBEHAVE_THRESHOLD: u32 = 100;

/// Seconds of ping silence after which a keep-alive ping is sent.
pub const KEEPALIVE_INTERVAL_SECS: u64 = 180;

/// Seconds without any received traffic after which a connection times
/// out.
pub const KEEPALIVE_TIMEOUT_SECS: u64 = 600;

/// Seconds a socket connect plus handshake may take before the attempt
/// times out.
pub const CONNECT_TIMEOUT_SECS: u64 = 60;

/// The mask bit of a lifecycle tag; `Fresh` has none.
pub open spec fn state_bit(s: NodeState) -> u32 {
    match s {
        NodeState::Fresh => 0,
        NodeState::Connecting => MASK_CONNECTING,
        NodeState::Connected => MASK_CONNECTED,
        NodeState::Errored => MASK_ERRORED,
        NodeState::Timeout => MASK_TIMEOUT,
        NodeState::Misbehaved => MASK_MISBEHAVED,
        NodeState::Disconnected => MASK_DISCONNECTED,
        NodeState::DisconnectedFromRemotePeer => MASK_DISCONNECTED_FROM_REMOTE_PEER,
    }
}

/// Whether the state is terminal: no event will ever leave it.
pub open spec fn is_terminal(s: NodeState) -> bool {
    match s {
        NodeState::Fresh | NodeState::Connecting | NodeState::Connected => false,
        _ => true,
    }
}

/// Whether the connection owns a live socket.
pub open spec fn is_active(s: NodeState) -> bool {
    s is Connecting || s is Connected
}

/// Why a connection is being cut.
#[derive(Clone, Copy, PartialEq, Eq, Structural, Debug)]
pub enum DisconnectReason {
    /// A local decision.
    Local,
    /// The remote peer closed the socket first.
    RemoteClosed,
    /// A local socket error.
    Error,
    /// No traffic within the timeout window.
    Timeout,
    /// The misbehavior score crossed the threshold.
    Misbehavior,
}

/// The terminal state a reason leads to.
pub open spec fn terminal_state_of(reason: DisconnectReason) -> NodeState {
    match reason {
        DisconnectReason::Local => NodeState::Disconnected,
        DisconnectReason::RemoteClosed => NodeState::DisconnectedFromRemotePeer,
        DisconnectReason::Error => NodeState::Errored,
        DisconnectReason::Timeout => NodeState::Timeout,
        DisconnectReason::Misbehavior => NodeState::Misbehaved,
    }
}

/// One peer connection, owned by a connection group.
pub struct Node {
    /// Process-local identifier, assigned by the owning group.
    pub nodeid: u64,
    /// The remote socket address.
    pub addr: NetAddr,
    /// Primary lifecycle tag.
    pub state: NodeState,
    /// Whether the connection is in the header-sync phase.
    pub header_sync: bool,
    /// Whether the connection is in the block-sync phase.
    pub block_sync: bool,
    /// When the last keep-alive ping was sent.
    pub lastping: u64,
    /// When traffic last arrived or the handshake finished.
    pub last_activity: u64,
    /// When the connect attempt started.
    pub time_started_con: u64,
    /// When the last request was sent to this peer.
    pub time_last_request: u64,
    /// Received bytes not yet consumed as complete frames.
    pub recv_buffer: Vec<u8>,
    /// Service bits the peer advertised in its handshake.
    pub services: u64,
    /// Best block height the peer advertised.
    pub bestknownheight: u32,
    /// Accumulated penalty for protocol violations.
    pub missbehavescore: u32,
    /// Whether the version handshake completed.
    pub version_handshake: bool,
    /// Free-form hint bits for caller use.
    pub hints: u32,
}

/// The mask bits a connection currently shows: its lifecycle bit plus
/// the sync-phase bits.
pub open spec fn node_bits(n: Node) -> u32 {
    state_bit(n.state) | (if n.header_sync {
        MASK_HEADERSYNC
    } else {
        0
    }) | (if n.block_sync {
        MASK_BLOCKSYNC
    } else {
        0
    })
}

/// Whether the connection matches any bit of `mask`.
pub open spec fn matches_mask(n: Node, mask: u32) -> bool {
    node_bits(n) & mask != 0
}

/// Whether `b` is `a` with at most the listed bookkeeping fields
/// changed: identity, address, sync flags, handshake data and hints are
/// the same.
pub open spec fn same_identity(a: Node, b: Node) -> bool {
    &&& a.nodeid == b.nodeid
    &&& a.addr == b.addr
    &&& a.header_sync == b.header_sync
    &&& a.block_sync == b.block_sync
    &&& a.services == b.services
    &&& a.bestknownheight == b.bestknownheight
    &&& a.version_handshake == b.version_handshake
    &&& a.hints == b.hints
    &&& a.time_last_request == b.time_last_request
}

/// The connection after one timer tick at `now`: a connect attempt
/// past its timeout or a connected peer silent past the keep-alive
/// timeout is cut as timed out; a connected peer quiet past the
/// keep-alive interval gets its ping clock reset; anything else is
/// untouched.
pub open spec fn ticked_node(n: Node, now: u64) -> Node {
    if n.state is Connecting && elapsed_spec(now, n.time_started_con) > CONNECT_TIMEOUT_SECS {
        Node { state: NodeState::Timeout, ..n }
    } else if n.state is Connected && elapsed_spec(now, n.last_activity) > KEEPALIVE_TIMEOUT_SECS {
        Node { state: NodeState::Timeout, ..n }
    } else if n.state is Connected && elapsed_spec(now, n.lastping) >= KEEPALIVE_INTERVAL_SECS {
        Node { lastping: now, ..n }
    } else {
        n
    }
}

/// What one timer tick at `now` asks of the event loop: report the one
/// real transition and close the socket when the connection timed out,
/// or send a keep-alive ping when one is due.
pub open spec fn ticked_events(n: Node, now: u64) -> Seq<Event> {
    if (n.state is Connecting && elapsed_spec(now, n.time_started_con) > CONNECT_TIMEOUT_SECS) || (
    n.state is Connected && elapsed_spec(now, n.last_activity) > KEEPALIVE_TIMEOUT_SECS) {
        seq![
            Event::StateChanged { nodeid: n.nodeid, state: NodeState::Timeout },
            Event::Disconnect { nodeid: n.nodeid },
        ]
    } else if n.state is Connected && elapsed_spec(now, n.lastping) >= KEEPALIVE_INTERVAL_SECS {
        seq![Event::SendPing { nodeid: n.nodeid }]
    } else {
        Seq::empty()
    }
}

/// Add with saturation at the top of `u32`.
pub open spec fn sat_add_spec(a: u32, b: u32) -> u32 {
    if a + b > u32::MAX {
        u32::MAX
    } else {
        (a + b) as u32
    }
}

/// The misbehavior score after `v` further violations.
pub open spec fn bumped(score: u32, v: nat) -> u32
    decreases v,
{
    if v == 0 {
        score
    } else {
        sat_add_spec(bumped(score, (v - 1) as nat), MISBEHAVE_PENALTY)
    }
}

/// Seconds from `since` to `now`, zero when the clock went backwards.
pub open spec fn elapsed_spec(now: u64, since: u64) -> u64 {
    if now >= since {
        (now - since) as u64
    } else {
        0
    }
}

fn sat_add(a: u32, b: u32) -> (r: u32)
    ensures
        r == sat_add_spec(a, b),
{
    if a > u32::MAX - b {
        u32::MAX
    } else {
        a + b
    }
}

fn elapsed(now: u64, since: u64) -> (r: u64)
    ensures
        r == elapsed_spec(now, since),
{
    if now >= since {
        now - since
    } else {
        0
    }
}

impl Node {
    /// Construct a connection to `addr` in the unconnected state; no
    /// socket is opened.
    pub fn new(addr: NetAddr) -> (n: Node)
        ensures
            n.nodeid == 0,
            n.addr == addr,
            n.state is Fresh,
            !n.header_sync,
            !n.block_sync,
            n.lastping == 0,
            n.last_activity == 0,
            n.time_started_con == 0,
            n.time_last_request == 0,
            n.recv_buffer@ == Seq::<u8>::empty(),
            n.services == 0,
            n.bestknownheight == 0,
            n.missbehavescore == 0,
            !n.version_handshake,
            n.hints == 0,
    {
        Node {
            nodeid: 0,
            addr,
            state: NodeState::Fresh,
            header_sync: false,
            block_sync: false,
            lastping: 0,
            last_activity: 0,
            time_started_con: 0,
            time_last_request: 0,
            recv_buffer: Vec::new(),
            services: 0,
            bestknownheight: 0,
            missbehavescore: 0,
            version_handshake: false,
            hints: 0,
        }
    }

    /// Start the connect lifecycle: from `Fresh`, move to `Connecting`
    /// and ask the event loop to open the socket. From any other state
    /// this does nothing.
    pub fn connect(&mut self, now: u64) -> (events: Vec<Event>)
        ensures
            old(self).state is Fresh ==> {
                &&& *final(self) == (Node {
                    state: NodeState::Connecting,
                    time_started_con: now,
                    lastping: now,
                    last_activity: now,
                    ..(*old(self))
                })
                &&& events@ =~= seq![
                    Event::StartConnect { nodeid: old(self).nodeid, addr: old(self).addr },
                    Event::StateChanged {
                        nodeid: old(self).nodeid,
                        state: NodeState::Connecting,
                    },
                ]
            },
            !(old(self).state is Fresh) ==> *final(self) == *old(self) && events@ =~= Seq::<
                Event,
            >::empty(),
    {
        let mut events: Vec<Event> = Vec::new();
        if matches!(self.state, NodeState::Fresh) {
            self.state = NodeState::Connecting;
            self.time_started_con = now;
            self.lastping = now;
            self.last_activity = now;
            events.push(Event::StartConnect { nodeid: self.nodeid, addr: self.addr });
            events.push(Event::StateChanged { nodeid: self.nodeid, state: NodeState::Connecting });
        }
        events
    }

    /// Record a completed version handshake: from `Connecting`, move to
    /// `Connected`, keep what the peer advertised, and fire the
    /// handshake-done and state-changed hooks. From any other state
    /// this does nothing.
    pub fn on_handshake_done(&mut self, now: u64, services: u64, bestknownheight: u32) -> (events:
        Vec<Event>)
        ensures
            old(self).state is Connecting ==> {
                &&& *final(self) == (Node {
                    state: NodeState::Connected,
                    version_handshake: true,
                    services,
                    bestknownheight,
                    last_activity: now,
                    ..(*old(self))
                })
                &&& events@ =~= seq![
                    Event::HandshakeDone { nodeid: old(self).nodeid },
                    Event::StateChanged { nodeid: old(self).nodeid, state: NodeState::Connected },
                ]
            },
            !(old(self).state is Connecting) ==> *final(self) == *old(self) && events@ =~= Seq::<
                Event,
            >::empty(),
    {
        let mut events: Vec<Event> = Vec::new();
        if matches!(self.state, NodeState::Connecting) {
            self.state = NodeState::Connected;
            self.version_handshake = true;
            self.services = services;
            self.bestknownheight = bestknownheight;
            self.last_activity = now;
            events.push(Event::HandshakeDone { nodeid: self.nodeid });
            events.push(Event::StateChanged { nodeid: self.nodeid, state: NodeState::Connected });
        }
        events
    }

    /// Cut the connection for `reason`. Idempotent: from a terminal
    /// state nothing happens and no hook fires; otherwise the state
    /// moves to the reason's terminal state and the state-changed hook
    /// fires exactly once.
    pub fn disconnect(&mut self, reason: DisconnectReason) -> (events: Vec<Event>)
        ensures
            *final(self) == (if is_terminal(old(self).state) {
                *old(self)
            } else {
                Node { state: terminal_state_of(reason), ..(*old(self)) }
            }),
            events@ =~= (if is_terminal(old(self).state) {
                Seq::<Event>::empty()
            } else {
                seq![
                    Event::StateChanged {
                        nodeid: old(self).nodeid,
                        state: terminal_state_of(reason),
                    },
                ]
            }),
    {
        let mut events: Vec<Event> = Vec::new();
        if !matches!(
            self.state,
            NodeState::Errored
                | NodeState::Timeout
                | NodeState::Misbehaved
                | NodeState::Disconnected
                | NodeState::DisconnectedFromRemotePeer
        ) {
            let target = match reason {
                DisconnectReason::Local => NodeState::Disconnected,
                DisconnectReason::RemoteClosed => NodeState::DisconnectedFromRemotePeer,
                DisconnectReason::Error => NodeState::Errored,
                DisconnectReason::Timeout => NodeState::Timeout,
                DisconnectReason::Misbehavior => NodeState::Misbehaved,
            };
            self.state = target;
            events.push(Event::StateChanged { nodeid: self.nodeid, state: target });
        }
        events
    }

    /// Take delivery of received bytes: append them to the receive
    /// buffer, consume every complete frame in arrival order, and fire
    /// one message event per well-formed frame. Each framing violation
    /// — a checksum mismatch, a wrong magic, an oversized declared
    /// length — costs the configured penalty; a score at the threshold
    /// cuts the connection as misbehaved. Bytes that do not yet form a
    /// complete frame stay buffered. On a connection without a live
    /// socket nothing happens.
    ///
    /// The whole behavior is pinned to [`scan_spec`] over the old
    /// buffer plus the delivered bytes.
    pub fn on_bytes_received(&mut self, magic: &Vec<u8>, bytes: &Vec<u8>, now: u64) -> (events: Vec<
        Event,
    >)
        requires
            magic@.len() == MAGIC_LEN,
        ensures
            !is_active(old(self).state) ==> *final(self) == *old(self) && events@ =~= Seq::<
                Event,
            >::empty(),
            is_active(old(self).state) ==> ({
                let r = scan_spec(magic@, old(self).recv_buffer@ + bytes@);
                let new_score = bumped(old(self).missbehavescore, r.violations);
                let mis = new_score >= MISBEHAVE_THRESHOLD;
                &&& final(self).recv_buffer@ == r.leftover
                &&& final(self).missbehavescore == new_score
                &&& final(self).last_activity == now
                &&& final(self).state == (if mis {
                    NodeState::Misbehaved
                } else {
                    old(self).state
                })
                &&& same_identity(*old(self), *final(self))
                &&& final(self).lastping == old(self).lastping
                &&& final(self).time_started_con == old(self).time_started_con
                &&& events@.len() == r.frames.len() + (if mis {
                    2int
                } else {
                    0int
                })
                &&& forall|i: int|
                    0 <= i < r.frames.len() ==> is_message_event(
                        #[trigger] events@[i],
                        old(self).nodeid,
                        r.frames[i],
                    )
                &&& mis ==> events@[r.frames.len() as int] == (Event::StateChanged {
                    nodeid: old(self).nodeid,
                    state: NodeState::Misbehaved,
                })
                &&& mis ==> events@[r.frames.len() as int + 1] == (Event::Disconnect {
                    nodeid: old(self).nodeid,
                })
            }),
    {
        if !matches!(self.state, NodeState::Connecting | NodeState::Connected) {
            return Vec::new();
        }
        let mut buf = subvec(&self.recv_buffer, 0, self.recv_buffer.len());
        proof {
            assert(buf@ =~= self.recv_buffer@);
        }
        append_bytes(&mut buf, bytes);
        let ghost full: Seq<u8> = buf@;
        let nodeid = self.nodeid;
        let ghost score0 = self.missbehavescore;
        let mut score: u32 = self.missbehavescore;
        let mut events: Vec<Event> = Vec::new();
        let ghost mut v: nat = 0;
        let ghost mut done: Seq<SpecFrame> = Seq::empty();
        proof {
            assert(done + scan_spec(magic@, buf@).frames =~= scan_spec(magic@, buf@).frames);
        }
        loop
            invariant
                magic@.len() == MAGIC_LEN,
                events@.len() == done.len(),
                forall|i: int|
                    0 <= i < done.len() ==> is_message_event(
                        #[trigger] events@[i],
                        nodeid,
                        done[i],
                    ),
                score == bumped(score0, v),
                scan_spec(magic@, full).frames == done + scan_spec(magic@, buf@).frames,
                scan_spec(magic@, full).violations == v + scan_spec(magic@, buf@).violations,
                scan_spec(magic@, full).leftover == scan_spec(magic@, buf@).leftover,
            ensures
                events@.len() == done.len(),
                forall|i: int|
                    0 <= i < done.len() ==> is_message_event(
                        #[trigger] events@[i],
                        nodeid,
                        done[i],
                    ),
                score == bumped(score0, v),
                scan_spec(magic@, full).frames == done,
                scan_spec(magic@, full).violations == v,
                scan_spec(magic@, full).leftover == buf@,
            decreases buf@.len(),
        {
            let step = scan_step_exec(magic, &buf);
            match step {
                BufferEvent::Incomplete => {
                    proof {
                        assert(done + scan_spec(magic@, buf@).frames =~= done);
                    }
                    break ;
                },
                BufferEvent::Discard => {
                    score = sat_add(score, MISBEHAVE_PENALTY);
                    proof {
                        v = v + 1;
                        assert(done + scan_spec(magic@, buf@).frames =~= done);
                    }
                    buf = Vec::new();
                    break ;
                },
                BufferEvent::BadChecksum { consumed } => {
                    let ghost prev = buf@;
                    proof {
                        lemma_scan_step_consumed(magic@, prev);
                    }
                    score = sat_add(score, MISBEHAVE_PENALTY);
                    proof {
                        v = v + 1;
                    }
                    let nb = subvec(&buf, consumed, buf.len());
                    buf = nb;
                    proof {
                        assert(buf@ == prev.subrange(consumed as int, prev.len() as int));
                    }
                },
                BufferEvent::Good { hdr, payload, consumed } => {
                    let ghost prev = buf@;
                    proof {
                        lemma_scan_step_consumed(magic@, prev);
                        match scan_step(magic@, prev) {
                            ScanStep::Good { frame, .. } => {
                                done = done + seq![frame];
                            },
                            _ => {
                                assert(false);
                            },
                        }
                    }
                    events.push(Event::Message { nodeid, hdr, payload });
                    let nb = subvec(&buf, consumed, buf.len());
                    buf = nb;
                    proof {
                        let rest_frames = scan_spec(magic@, buf@).frames;
                        assert(done + rest_frames =~= done.drop_last() + (seq![done.last()]
                            + rest_frames));
                    }
                },
            }
        }
        self.recv_buffer = buf;
        self.missbehavescore = score;
        self.last_activity = now;
        if score >= MISBEHAVE_THRESHOLD {
            self.state = NodeState::Misbehaved;
            events.push(Event::StateChanged { nodeid, state: NodeState::Misbehaved });
            events.push(Event::Disconnect { nodeid });
        }
        proof {
            assert(full == old(self).recv_buffer@ + bytes@);
        }
        events
    }

    /// Drive this connection's timers: a connect attempt that has run
    /// past its timeout, or a connected peer silent past the keep-alive
    /// timeout, is cut as timed out with exactly one state-changed
    /// hook; a connected peer quiet past the keep-alive interval is
    /// sent a ping. Otherwise nothing happens.
    pub fn on_timer_tick(&mut self, now: u64) -> (events: Vec<Event>)
        ensures
            *final(self) == ticked_node(*old(self), now),
            events@ =~= ticked_events(*old(self), now),
    {
        let mut events: Vec<Event> = Vec::new();
        match self.state {
            NodeState::Connecting => {
                if elapsed(now, self.time_started_con) > CONNECT_TIMEOUT_SECS {
                    self.state = NodeState::Timeout;
                    events.push(
                        Event::StateChanged { nodeid: self.nodeid, state: NodeState::Timeout },
                    );
                    events.push(Event::Disconnect { nodeid: self.nodeid });
                }
            },
            NodeState::Connected => {
                if elapsed(now, self.last_activity) > KEEPALIVE_TIMEOUT_SECS {
                    self.state = NodeState::Timeout;
                    events.push(
                        Event::StateChanged { nodeid: self.nodeid, state: NodeState::Timeout },
                    );
                    events.push(Event::Disconnect { nodeid: self.nodeid });
                } else if elapsed(now, self.lastping) >= KEEPALIVE_INTERVAL_SECS {
                    self.lastping = now;
                    events.push(Event::SendPing { nodeid: self.nodeid });
                }
            },
            _ => {},
        }
        events
    }

    /// Flag one protocol violation reported from outside (a message
    /// hook that judged the content). The score grows by the configured
    /// penalty; crossing the threshold cuts the connection. Does
    /// nothing on a connection that no longer owns a socket.
    pub fn misbehave(&mut self) -> (events: Vec<Event>)
        ensures
            !is_active(old(self).state) ==> *final(self) == *old(self) && events@ =~= Seq::<
                Event,
            >::empty(),
            is_active(old(self).state) ==> ({
                let ns = sat_add_spec(old(self).missbehavescore, MISBEHAVE_PENALTY);
                &&& *final(self) == (if ns >= MISBEHAVE_THRESHOLD {
                    Node { missbehavescore: ns, state: NodeState::Misbehaved, ..(*old(self)) }
                } else {
                    Node { missbehavescore: ns, ..(*old(self)) }
                })
                &&& events@ =~= (if ns >= MISBEHAVE_THRESHOLD {
                    seq![
                        Event::StateChanged {
                            nodeid: old(self).nodeid,
                            state: NodeState::Misbehaved,
                        },
                        Event::Disconnect { nodeid: old(self).nodeid },
                    ]
                } else {
                    Seq::<Event>::empty()
                })
            }),
    {
        let mut events: Vec<Event> = Vec::new();
        if matches!(self.state, NodeState::Connecting | NodeState::Connected) {
            self.missbehavescore = sat_add(self.missbehavescore, MISBEHAVE_PENALTY);
            if self.missbehavescore >= MISBEHAVE_THRESHOLD {
                self.state = NodeState::Misbehaved;
                events.push(
                    Event::StateChanged { nodeid: self.nodeid, state: NodeState::Misbehaved },
                );
                events.push(Event::Disconnect { nodeid: self.nodeid });
            }
        }
        events
    }
}

} // verus!
