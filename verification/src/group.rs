//! The node group: the pool of peer connections and the group-level
//! policy that fills it, counts it, and tears it down.
//!
//! A [`NodeGroup`] owns its connections outright. It never holds two
//! connections to the same remote address, it stops opening new
//! connections once the desired number is connecting or connected, and
//! its shutdown is idempotent.

use vstd::prelude::*;

use crate::addr::NetAddr;
use crate::events::Event;
use crate::frame::MAGIC_LEN;
use crate::node::{
    is_terminal, matches_mask, node_bits, Node, NodeState, DisconnectReason, ticked_node,
    ticked_events, MASK_BLOCKSYNC, MASK_CONNECTED, MASK_CONNECTING, MASK_DISCONNECTED,
    MASK_DISCONNECTED_FROM_REMOTE_PEER, MASK_ERRORED, MASK_HEADERSYNC, MASK_MISBEHAVED,
    MASK_TIMEOUT,
};

verus! {

/// Which chain the group talks to.
#[derive(Clone, Copy, PartialEq, Eq, Structural, Debug)]
pub enum NetworkType {
    Main,
    Test,
    Regtest,
}

/// Immutable network parameters a group is bound to: the four magic
/// bytes every frame starts with, the default peer port, and the DNS
/// seed hostnames that yield candidate peers.
pub struct BtcChainParams {
    pub netmagic: Vec<u8>,
    pub default_port: u16,
    pub dnsseeds: Vec<String>,
}

/// The frame magic of a network.
pub open spec fn magic_of(net: NetworkType) -> Seq<u8> {
    match net {
        NetworkType::Main => seq![0xf9u8, 0xbeu8, 0xb4u8, 0xd9u8],
        NetworkType::Test => seq![0x0bu8, 0x11u8, 0x09u8, 0x07u8],
        NetworkType::Regtest => seq![0xfau8, 0xbfu8, 0xb5u8, 0xdau8],
    }
}

/// The default peer port of a network.
pub open spec fn port_of(net: NetworkType) -> u16 {
    match net {
        NetworkType::Main => 8333,
        NetworkType::Test => 18333,
        NetworkType::Regtest => 18444,
    }
}

/// How many DNS seeds a network ships with.
pub open spec fn seed_count_of(net: NetworkType) -> nat {
    match net {
        NetworkType::Main => 4,
        NetworkType::Test => 1,
        NetworkType::Regtest => 0,
    }
}

/// The parameters of one of the built-in networks.
pub fn chain_params(net: NetworkType) -> (p: BtcChainParams)
    ensures
        p.netmagic@ == magic_of(net),
        p.default_port == port_of(net),
        p.dnsseeds@.len() == seed_count_of(net),
        net is Main ==> {
            &&& p.dnsseeds@[0]@ == "seed.bitcoin.jonasschnelli.ch"@
            &&& p.dnsseeds@[1]@ == "seed.btc.petertodd.org"@
            &&& p.dnsseeds@[2]@ == "dnsseed.bluematt.me"@
            &&& p.dnsseeds@[3]@ == "seed.bitcoin.sipa.be"@
        },
        net is Test ==> p.dnsseeds@[0]@ == "testnet-seed.bitcoin.jonasschnelli.ch"@,
{
    let mut netmagic: Vec<u8> = Vec::new();
    let mut dnsseeds: Vec<String> = Vec::new();
    let default_port: u16;
    match net {
        NetworkType::Main => {
            netmagic.push(0xf9);
            netmagic.push(0xbe);
            netmagic.push(0xb4);
            netmagic.push(0xd9);
            default_port = 8333;
            dnsseeds.push("seed.bitcoin.jonasschnelli.ch".to_owned());
            dnsseeds.push("seed.btc.petertodd.org".to_owned());
            dnsseeds.push("dnsseed.bluematt.me".to_owned());
            dnsseeds.push("seed.bitcoin.sipa.be".to_owned());
        },
        NetworkType::Test => {
            netmagic.push(0x0b);
            netmagic.push(0x11);
            netmagic.push(0x09);
            netmagic.push(0x07);
            default_port = 18333;
            dnsseeds.push("testnet-seed.bitcoin.jonasschnelli.ch".to_owned());
        },
        NetworkType::Regtest => {
            netmagic.push(0xfa);
            netmagic.push(0xbf);
            netmagic.push(0xb5);
            netmagic.push(0xda);
            default_port = 18444;
        },
    }
    proof {
        assert(netmagic@ =~= magic_of(net));
    }
    BtcChainParams { netmagic, default_port, dnsseeds }
}

/// Connections in `Connecting` or `Connected` state: the ones a group
/// counts against its desired number.
pub const MASK_ACTIVE: u32 = 0x3;

/// Default desired number of simultaneously connected peers.
pub const DEFAULT_DESIRED_CONNECTIONS: usize = 8;

/// Whether some owned connection already points at `a`.
pub open spec fn has_addr(nodes: Seq<Node>, a: NetAddr) -> bool {
    exists|i: int| 0 <= i < nodes.len() && nodes[i].addr == a
}

/// How many of the connections match any bit of `mask`.
pub open spec fn count_matching(nodes: Seq<Node>, mask: u32) -> nat
    decreases nodes.len(),
{
    if nodes.len() == 0 {
        0
    } else {
        count_matching(nodes.drop_last(), mask) + (if matches_mask(nodes.last(), mask) {
            1nat
        } else {
            0nat
        })
    }
}

/// No more connections match a mask than there are connections.
pub proof fn lemma_count_le_len(nodes: Seq<Node>, mask: u32)
    ensures
        count_matching(nodes, mask) <= nodes.len(),
    decreases nodes.len(),
{
    if nodes.len() > 0 {
        lemma_count_le_len(nodes.drop_last(), mask);
    }
}

/// Appending one connection grows a mask's count by whether it
/// matches.
pub proof fn lemma_count_push(nodes: Seq<Node>, n: Node, mask: u32)
    ensures
        count_matching(nodes.push(n), mask) == count_matching(nodes, mask) + (if matches_mask(
            n,
            mask,
        ) {
            1nat
        } else {
            0nat
        }),
{
    assert(nodes.push(n).drop_last() =~= nodes);
    assert(nodes.push(n).last() == n);
}

/// A connection after group shutdown: cut locally unless some terminal
/// state already holds.
pub open spec fn shutdown_node(n: Node) -> Node {
    if is_terminal(n.state) {
        n
    } else {
        Node { state: NodeState::Disconnected, ..n }
    }
}

/// All connections after group shutdown.
pub open spec fn shutdown_nodes(nodes: Seq<Node>) -> Seq<Node> {
    nodes.map_values(|n: Node| shutdown_node(n))
}

/// What shutting the group down asks of the event loop: one
/// state-changed report per connection that was not terminal yet, in
/// pool order.
pub open spec fn shutdown_events(nodes: Seq<Node>) -> Seq<Event>
    decreases nodes.len(),
{
    if nodes.len() == 0 {
        Seq::empty()
    } else {
        shutdown_events(nodes.drop_last()) + (if is_terminal(nodes.last().state) {
            Seq::empty()
        } else {
            seq![
                Event::StateChanged {
                    nodeid: nodes.last().nodeid,
                    state: NodeState::Disconnected,
                },
            ]
        })
    }
}

/// Shutting down is idempotent: a second shutdown changes no
/// connection and fires no hook.
pub proof fn lemma_shutdown_idempotent(nodes: Seq<Node>)
    ensures
        shutdown_nodes(shutdown_nodes(nodes)) == shutdown_nodes(nodes),
        shutdown_events(shutdown_nodes(nodes)) == Seq::<Event>::empty(),
    decreases nodes.len(),
{
    assert(shutdown_nodes(shutdown_nodes(nodes)) =~= shutdown_nodes(nodes));
    if nodes.len() > 0 {
        lemma_shutdown_idempotent(nodes.drop_last());
        let sd = shutdown_nodes(nodes);
        assert(sd.drop_last() =~= shutdown_nodes(nodes.drop_last()));
        assert(sd.last() == shutdown_node(nodes.last()));
        assert(is_terminal(sd.last().state));
        assert(shutdown_events(sd) =~= shutdown_events(sd.drop_last()));
    }
}

/// All connections after one maintenance tick at `now`.
pub open spec fn ticked_nodes(nodes: Seq<Node>, now: u64) -> Seq<Node> {
    nodes.map_values(|n: Node| ticked_node(n, now))
}

/// What one maintenance tick at `now` asks of the event loop, in pool
/// order.
pub open spec fn group_tick_events(nodes: Seq<Node>, now: u64) -> Seq<Event>
    decreases nodes.len(),
{
    if nodes.len() == 0 {
        Seq::empty()
    } else {
        group_tick_events(nodes.drop_last(), now) + ticked_events(nodes.last(), now)
    }
}

/// What starting the given connections asks of the event loop: for
/// each, open its socket, then report its move to `Connecting`, in
/// order.
pub open spec fn connect_events(nodes: Seq<Node>) -> Seq<Event>
    decreases nodes.len(),
{
    if nodes.len() == 0 {
        Seq::empty()
    } else {
        connect_events(nodes.drop_last()) + seq![
            Event::StartConnect { nodeid: nodes.last().nodeid, addr: nodes.last().addr },
            Event::StateChanged { nodeid: nodes.last().nodeid, state: NodeState::Connecting },
        ]
    }
}

/// The group's invariant: well-formed magic, no two connections to the
/// same address, and the candidate cursor inside the pool.
pub open spec fn group_wf(g: NodeGroup) -> bool {
    &&& g.chainparams.netmagic@.len() == MAGIC_LEN
    &&& forall|i: int, j: int|
        0 <= i < j < g.nodes_@.len() ==> g.nodes_@[i].addr != g.nodes_@[j].addr
    &&& g.next_candidate <= g.candidates@.len()
}

/// The connection pool manager: every owned peer connection, the
/// network parameters, the target connection count, and the queued
/// candidate addresses.
pub struct NodeGroup {
    /// The owned connections. Never two to the same address.
    pub nodes_: Vec<Node>,
    /// The network the group talks to.
    pub chainparams: BtcChainParams,
    /// How many simultaneously connecting-or-connected peers the group
    /// aims for.
    pub desired_amount_connected_nodes: usize,
    /// Human-readable client identifier used in handshakes.
    pub clientstr: String,
    /// Queued candidate addresses, tried in order.
    pub candidates: Vec<NetAddr>,
    /// How many candidates have been tried.
    pub next_candidate: usize,
    /// Whether `shutdown` has run.
    pub shut_down: bool,
}

impl NodeGroup {
    /// Create an empty group bound to the given network, with no
    /// connections, no candidates, and the default desired count.
    pub fn new(net: NetworkType) -> (g: NodeGroup)
        ensures
            group_wf(g),
            g.nodes_@.len() == 0,
            g.chainparams.netmagic@ == magic_of(net),
            g.chainparams.default_port == port_of(net),
            g.desired_amount_connected_nodes == DEFAULT_DESIRED_CONNECTIONS,
            g.candidates@.len() == 0,
            g.next_candidate == 0,
            !g.shut_down,
    {
        NodeGroup {
            nodes_: Vec::new(),
            chainparams: chain_params(net),
            desired_amount_connected_nodes: DEFAULT_DESIRED_CONNECTIONS,
            clientstr: String::new(),
            candidates: Vec::new(),
            next_candidate: 0,
            shut_down: false,
        }
    }

    /// Change the desired number of connected peers.
    pub fn set_desired_amount_connected_nodes(&mut self, n: usize)
        ensures
            *final(self) == (NodeGroup { desired_amount_connected_nodes: n, ..(*old(self)) }),
    {
        self.desired_amount_connected_nodes = n;
    }

    /// Set the client identifier used in handshakes.
    pub fn set_clientstr(&mut self, s: String)
        ensures
            final(self).clientstr@ == s@,
            *final(self) == (NodeGroup { clientstr: final(self).clientstr, ..(*old(self)) }),
    {
        self.clientstr = s;
    }

    /// Whether some owned connection already points at `a`.
    pub fn contains_addr(&self, a: &NetAddr) -> (r: bool)
        ensures
            r == has_addr(self.nodes_@, *a),
    {
        let mut i: usize = 0;
        while i < self.nodes_.len()
            invariant
                i <= self.nodes_@.len(),
                forall|j: int| 0 <= j < i ==> self.nodes_@[j].addr != *a,
            decreases self.nodes_@.len() - i,
        {
            if self.nodes_[i].addr == *a {
                return true;
            }
            i += 1;
        }
        false
    }

    /// Register an already-constructed connection under the group's
    /// ownership, assigning its identifier. A connection to an address
    /// the group already holds, or any connection after shutdown, is
    /// rejected as a no-op.
    pub fn add_node(&mut self, node: Node)
        requires
            group_wf(*old(self)),
        ensures
            group_wf(*final(self)),
            old(self).shut_down || has_addr(old(self).nodes_@, node.addr) ==> *final(self) == *old(self),
            !old(self).shut_down && !has_addr(old(self).nodes_@, node.addr) ==> {
                &&& final(self).nodes_@ == old(self).nodes_@.push(
                    Node { nodeid: old(self).nodes_@.len() as u64, ..node },
                )
                &&& *final(self) == (NodeGroup { nodes_: final(self).nodes_, ..(*old(self)) })
            },
    {
        if self.shut_down || self.contains_addr(&node.addr) {
            return ;
        }
        let mut node = node;
        node.nodeid = self.nodes_.len() as u64;
        self.nodes_.push(node);
        proof {
            assert(forall|i: int|
                0 <= i < old(self).nodes_@.len() ==> final(self).nodes_@[i] == old(self).nodes_@[i]);
        }
    }

    /// The mask bits a connection shows right now.
    fn node_mask_bits(n: &Node) -> (b: u32)
        ensures
            b == node_bits(*n),
    {
        let sbit: u32 = match n.state {
            NodeState::Fresh => 0,
            NodeState::Connecting => MASK_CONNECTING,
            NodeState::Connected => MASK_CONNECTED,
            NodeState::Errored => MASK_ERRORED,
            NodeState::Timeout => MASK_TIMEOUT,
            NodeState::Misbehaved => MASK_MISBEHAVED,
            NodeState::Disconnected => MASK_DISCONNECTED,
            NodeState::DisconnectedFromRemotePeer => MASK_DISCONNECTED_FROM_REMOTE_PEER,
        };
        let h: u32 = if n.header_sync {
            MASK_HEADERSYNC
        } else {
            0
        };
        let b: u32 = if n.block_sync {
            MASK_BLOCKSYNC
        } else {
            0
        };
        sbit | h | b
    }

    /// Count the owned connections whose current state intersects
    /// `mask`.
    pub fn amount_of_connected_nodes(&self, mask: u32) -> (n: usize)
        ensures
            n == count_matching(self.nodes_@, mask),
    {
        let mut cnt: usize = 0;
        let mut i: usize = 0;
        proof {
            assert(self.nodes_@.subrange(0, 0) =~= Seq::<Node>::empty());
        }
        while i < self.nodes_.len()
            invariant
                i <= self.nodes_@.len(),
                cnt <= i,
                cnt == count_matching(self.nodes_@.subrange(0, i as int), mask),
            decreases self.nodes_@.len() - i,
        {
            proof {
                assert(self.nodes_@.subrange(0, i + 1).drop_last() =~= self.nodes_@.subrange(
                    0,
                    i as int,
                ));
                assert(self.nodes_@.subrange(0, i + 1).last() == self.nodes_@[i as int]);
            }
            if Self::node_mask_bits(&self.nodes_[i]) & mask != 0 {
                cnt += 1;
            }
            i += 1;
        }
        proof {
            assert(self.nodes_@.subrange(0, self.nodes_@.len() as int) =~= self.nodes_@);
        }
        cnt
    }

    /// Borrow one owned connection.
    pub fn node_ref(&self, idx: usize) -> (n: &Node)
        requires
            idx < self.nodes_@.len(),
        ensures
            *n == self.nodes_@[idx as int],
    {
        &self.nodes_[idx]
    }

    /// Borrow one owned connection mutably, to feed it bytes, ticks or
    /// handshake results.
    pub fn node_at(&mut self, idx: usize) -> (n: &mut Node)
        requires
            idx < old(self).nodes_@.len(),
        ensures
            *n == old(self).nodes_@[idx as int],
            final(self).nodes_@ == old(self).nodes_@.update(idx as int, *final(n)),
            final(self).chainparams == old(self).chainparams,
            final(self).desired_amount_connected_nodes == old(self).desired_amount_connected_nodes,
            final(self).clientstr == old(self).clientstr,
            final(self).candidates == old(self).candidates,
            final(self).next_candidate == old(self).next_candidate,
            final(self).shut_down == old(self).shut_down,
    {
        &mut self.nodes_[idx]
    }

    /// Decide the group invariant at run time, for callers outside the
    /// proof (an embedding loop that must guard a call).
    pub fn wf_check(&self) -> (r: bool)
        ensures
            r == group_wf(*self),
    {
        if self.chainparams.netmagic.len() != MAGIC_LEN {
            return false;
        }
        if self.next_candidate > self.candidates.len() {
            return false;
        }
        let mut i: usize = 0;
        while i < self.nodes_.len()
            invariant
                i <= self.nodes_@.len(),
                forall|a: int, b: int|
                    0 <= a < b < i ==> self.nodes_@[a].addr != self.nodes_@[b].addr,
            decreases self.nodes_@.len() - i,
        {
            let mut j: usize = 0;
            while j < i
                invariant
                    j <= i < self.nodes_@.len(),
                    forall|a: int| 0 <= a < j ==> self.nodes_@[a].addr != self.nodes_@[i as int].addr,
                decreases i - j,
            {
                if self.nodes_[j].addr == self.nodes_[i].addr {
                    return false;
                }
                j += 1;
            }
            i += 1;
        }
        true
    }

    /// Queue candidate addresses for later connection attempts, in
    /// order after those already queued.
    pub fn add_candidates(&mut self, addrs: &Vec<NetAddr>)
        ensures
            final(self).candidates@ == old(self).candidates@ + addrs@,
            *final(self) == (NodeGroup { candidates: final(self).candidates, ..(*old(self)) }),
            group_wf(*old(self)) ==> group_wf(*final(self)),
    {
        let mut i: usize = 0;
        while i < addrs.len()
            invariant
                i <= addrs@.len(),
                self.candidates@ == old(self).candidates@ + addrs@.subrange(0, i as int),
                *self == (NodeGroup { candidates: self.candidates, ..(*old(self)) }),
            decreases addrs@.len() - i,
        {
            self.candidates.push(addrs[i]);
            proof {
                assert(self.candidates@ =~= old(self).candidates@ + addrs@.subrange(0, i + 1));
            }
            i += 1;
        }
        proof {
            assert(old(self).candidates@ + addrs@.subrange(0, addrs@.len() as int) =~= old(self).candidates@ + addrs@);
        }
    }

    /// While fewer than the desired number of connections are
    /// connecting or connected, and the caller's should-connect
    /// predicate allowed it (`should_connect`), take the next untried
    /// candidate addresses, skip those the group already holds, and
    /// start a fresh connection to each. Returns whether any attempt
    /// was started, with the events to act on; never blocks past
    /// issuing the attempts. After shutdown, or when the predicate said
    /// no, nothing happens.
    pub fn connect_next_nodes(&mut self, should_connect: bool, now: u64) -> (r: (bool, Vec<
        Event,
    >))
        requires
            group_wf(*old(self)),
        ensures
            group_wf(*final(self)),
            !should_connect || old(self).shut_down ==> *final(self) == *old(self) && r.1@ =~= Seq::<
                Event,
            >::empty() && !r.0,
            should_connect && !old(self).shut_down ==> ({
                let oldlen = old(self).nodes_@.len() as int;
                let newlen = final(self).nodes_@.len() as int;
                &&& oldlen <= newlen
                &&& final(self).nodes_@.subrange(0, oldlen) == old(self).nodes_@
                &&& final(self).candidates == old(self).candidates
                &&& final(self).chainparams == old(self).chainparams
                &&& final(self).desired_amount_connected_nodes == old(self).desired_amount_connected_nodes
                &&& final(self).clientstr == old(self).clientstr
                &&& final(self).shut_down == old(self).shut_down
                &&& old(self).next_candidate <= final(self).next_candidate <= final(self).candidates@.len()
                &&& r.0 == (newlen > oldlen)
                &&& count_matching(final(self).nodes_@, MASK_ACTIVE) == count_matching(
                    old(self).nodes_@,
                    MASK_ACTIVE,
                ) + (newlen - oldlen)
                &&& count_matching(final(self).nodes_@, MASK_ACTIVE)
                    >= final(self).desired_amount_connected_nodes || final(self).next_candidate
                    == final(self).candidates@.len()
                &&& count_matching(final(self).nodes_@, MASK_ACTIVE) <= final(self).desired_amount_connected_nodes || newlen == oldlen
                &&& forall|j: int|
                    oldlen <= j < newlen ==> {
                        &&& (#[trigger] final(self).nodes_@[j]).state is Connecting
                        &&& final(self).nodes_@[j].nodeid == j as u64
                        &&& final(self).nodes_@[j].time_started_con == now
                        &&& final(self).nodes_@[j].recv_buffer@ =~= Seq::<u8>::empty()
                        &&& final(self).nodes_@[j].missbehavescore == 0
                        &&& !final(self).nodes_@[j].version_handshake
                        &&& final(self).candidates@.subrange(
                            old(self).next_candidate as int,
                            final(self).next_candidate as int,
                        ).contains(final(self).nodes_@[j].addr)
                    }
                &&& forall|k: int|
                    old(self).next_candidate <= k < final(self).next_candidate ==> has_addr(
                        final(self).nodes_@,
                        #[trigger] final(self).candidates@[k],
                    )
                &&& r.1@ == connect_events(final(self).nodes_@.subrange(oldlen, newlen))
            }),
    {
        let mut events: Vec<Event> = Vec::new();
        let mut started = false;
        if !should_connect || self.shut_down {
            return (started, events);
        }
        let desired = self.desired_amount_connected_nodes;
        let mut cnt = self.amount_of_connected_nodes(MASK_ACTIVE);
        let ghost oldlen = self.nodes_@.len() as int;
        let ghost count0 = count_matching(self.nodes_@, MASK_ACTIVE);
        proof {
            assert(self.nodes_@.subrange(0, oldlen) =~= self.nodes_@);
            assert(self.nodes_@.subrange(oldlen, oldlen) =~= Seq::<Node>::empty());
            lemma_count_le_len(self.nodes_@, MASK_ACTIVE);
        }
        while cnt < desired && self.next_candidate < self.candidates.len()
            invariant
                group_wf(*self),
                desired == self.desired_amount_connected_nodes,
                self.candidates == old(self).candidates,
                self.chainparams == old(self).chainparams,
                self.clientstr == old(self).clientstr,
                self.shut_down == old(self).shut_down,
                self.desired_amount_connected_nodes == old(self).desired_amount_connected_nodes,
                old(self).next_candidate <= self.next_candidate <= self.candidates@.len(),
                oldlen == old(self).nodes_@.len() as int,
                count0 == count_matching(old(self).nodes_@, MASK_ACTIVE),
                oldlen <= self.nodes_@.len(),
                self.nodes_@.subrange(0, oldlen) == old(self).nodes_@,
                cnt == count_matching(self.nodes_@, MASK_ACTIVE),
                cnt == count0 + (self.nodes_@.len() - oldlen),
                cnt <= desired || self.nodes_@.len() == oldlen,
                started == (self.nodes_@.len() > oldlen),
                forall|j: int|
                    oldlen <= j < self.nodes_@.len() ==> {
                        &&& (#[trigger] self.nodes_@[j]).state is Connecting
                        &&& self.nodes_@[j].nodeid == j as u64
                        &&& self.nodes_@[j].time_started_con == now
                        &&& self.nodes_@[j].recv_buffer@ =~= Seq::<u8>::empty()
                        &&& self.nodes_@[j].missbehavescore == 0
                        &&& !self.nodes_@[j].version_handshake
                        &&& self.candidates@.subrange(
                            old(self).next_candidate as int,
                            self.next_candidate as int,
                        ).contains(self.nodes_@[j].addr)
                    },
                forall|k: int|
                    old(self).next_candidate <= k < self.next_candidate ==> has_addr(
                        self.nodes_@,
                        #[trigger] self.candidates@[k],
                    ),
                events@ == connect_events(self.nodes_@.subrange(oldlen, self.nodes_@.len() as int)),
            decreases self.candidates@.len() - self.next_candidate,
        {
            let addr = self.candidates[self.next_candidate];
            let ghost cand_lo = old(self).next_candidate as int;
            let ghost cand_prev = self.next_candidate as int;
            self.next_candidate += 1;
            if !self.contains_addr(&addr) {
                let mut node = Node::new(addr);
                node.nodeid = self.nodes_.len() as u64;
                let mut evs = node.connect(now);
                events.append(&mut evs);
                let ghost prev_nodes = self.nodes_@;
                proof {
                    lemma_count_push(prev_nodes, node, MASK_ACTIVE);
                    assert((0x1u32 | 0u32 | 0u32) == 0x1u32 && (0x1u32 & 0x3u32) != 0u32)
                        by (bit_vector);
                    assert(node_bits(node) == MASK_CONNECTING);
                    assert(matches_mask(node, MASK_ACTIVE));
                }
                self.nodes_.push(node);
                cnt += 1;
                started = true;
                proof {
                    let n = self.nodes_@.len() as int;
                    assert(self.nodes_@.subrange(0, oldlen) =~= old(self).nodes_@);
                    assert(forall|i: int, j: int|
                        0 <= i < j < n - 1 ==> self.nodes_@[i].addr != self.nodes_@[j].addr);
                    assert(forall|i: int|
                        0 <= i < n - 1 ==> self.nodes_@[i] == prev_nodes[i]);
                    assert(forall|i: int| 0 <= i < n - 1 ==> self.nodes_@[i].addr != addr);
                    let newsub = self.candidates@.subrange(cand_lo, self.next_candidate as int);
                    assert(newsub[cand_prev - cand_lo] == addr);
                    assert(newsub.contains(addr));
                    assert(forall|j: int|
                        oldlen <= j < n - 1 ==> self.candidates@.subrange(
                            cand_lo,
                            cand_prev,
                        ).contains((#[trigger] self.nodes_@[j]).addr));
                    assert forall|j: int| oldlen <= j < n - 1 implies self.candidates@.subrange(
                        cand_lo,
                        self.next_candidate as int,
                    ).contains((#[trigger] self.nodes_@[j]).addr) by {
                        let sub_prev = self.candidates@.subrange(cand_lo, cand_prev);
                        let k = choose|k: int|
                            0 <= k < sub_prev.len() && sub_prev[k] == self.nodes_@[j].addr;
                        assert(newsub[k] == self.nodes_@[j].addr);
                    }
                    let added = self.nodes_@.subrange(oldlen, n);
                    assert(added.drop_last() =~= prev_nodes.subrange(
                        oldlen,
                        prev_nodes.len() as int,
                    ));
                    assert(added.last() == node);
                    assert(events@ =~= connect_events(added));
                    assert(self.nodes_@[n - 1].addr == addr);
                    assert(has_addr(self.nodes_@, addr));
                    assert forall|k: int| cand_lo <= k < cand_prev implies has_addr(
                        self.nodes_@,
                        #[trigger] self.candidates@[k],
                    ) by {
                        let w = choose|w: int|
                            0 <= w < prev_nodes.len() && prev_nodes[w].addr
                                == self.candidates@[k];
                        assert(self.nodes_@[w].addr == self.candidates@[k]);
                    }
                }
            }
        }
        proof {
            assert(final(self).nodes_@.subrange(0, oldlen) == old(self).nodes_@);
        }
        (started, events)
    }

    /// Disconnect every owned connection and close the group for new
    /// ones. Each connection that was not terminal yet takes exactly
    /// one state-changed hook; a repeated shutdown finds every
    /// connection terminal and fires nothing.
    pub fn shutdown(&mut self) -> (events: Vec<Event>)
        ensures
            final(self).nodes_@ == shutdown_nodes(old(self).nodes_@),
            final(self).shut_down,
            events@ == shutdown_events(old(self).nodes_@),
            final(self).chainparams == old(self).chainparams,
            final(self).desired_amount_connected_nodes == old(self).desired_amount_connected_nodes,
            final(self).clientstr == old(self).clientstr,
            final(self).candidates == old(self).candidates,
            final(self).next_candidate == old(self).next_candidate,
            group_wf(*old(self)) ==> group_wf(*final(self)),
    {
        let mut events: Vec<Event> = Vec::new();
        let mut i: usize = 0;
        proof {
            assert(events@ =~= shutdown_events(old(self).nodes_@.subrange(0, 0)));
        }
        while i < self.nodes_.len()
            invariant
                i <= self.nodes_@.len(),
                self.nodes_@.len() == old(self).nodes_@.len(),
                forall|j: int|
                    i <= j < self.nodes_@.len() ==> self.nodes_@[j] == old(self).nodes_@[j],
                forall|j: int|
                    0 <= j < i ==> self.nodes_@[j] == shutdown_node(old(self).nodes_@[j]),
                events@ == shutdown_events(old(self).nodes_@.subrange(0, i as int)),
                self.chainparams == old(self).chainparams,
                self.desired_amount_connected_nodes == old(self).desired_amount_connected_nodes,
                self.clientstr == old(self).clientstr,
                self.candidates == old(self).candidates,
                self.next_candidate == old(self).next_candidate,
                self.shut_down == old(self).shut_down,
            decreases self.nodes_@.len() - i,
        {
            let mut evs = self.nodes_[i].disconnect(DisconnectReason::Local);
            events.append(&mut evs);
            proof {
                let prefix = old(self).nodes_@.subrange(0, i + 1);
                assert(prefix.drop_last() =~= old(self).nodes_@.subrange(0, i as int));
                assert(prefix.last() == old(self).nodes_@[i as int]);
                assert(events@ =~= shutdown_events(prefix));
            }
            i += 1;
        }
        self.shut_down = true;
        proof {
            assert(old(self).nodes_@.subrange(0, old(self).nodes_@.len() as int) =~= old(self).nodes_@);
            assert(final(self).nodes_@ =~= shutdown_nodes(old(self).nodes_@));
        }
        events
    }

    /// Run one periodic maintenance tick over every owned connection.
    ///
    /// `run_maintenance` is the return value of the caller's
    /// periodic-timer hook: `false` skips the whole tick, giving the
    /// caller override control. Reconnection is the caller's
    /// composition: follow the tick with [`Self::connect_next_nodes`]
    /// while its own predicate allows.
    pub fn on_periodic_timer(&mut self, now: u64, run_maintenance: bool) -> (events: Vec<Event>)
        ensures
            !run_maintenance ==> *final(self) == *old(self) && events@ =~= Seq::<Event>::empty(),
            run_maintenance ==> {
                &&& final(self).nodes_@ == ticked_nodes(old(self).nodes_@, now)
                &&& events@ == group_tick_events(old(self).nodes_@, now)
                &&& final(self).chainparams == old(self).chainparams
                &&& final(self).desired_amount_connected_nodes == old(self).desired_amount_connected_nodes
                &&& final(self).clientstr == old(self).clientstr
                &&& final(self).candidates == old(self).candidates
                &&& final(self).next_candidate == old(self).next_candidate
                &&& final(self).shut_down == old(self).shut_down
            },
            group_wf(*old(self)) ==> group_wf(*final(self)),
    {
        let mut events: Vec<Event> = Vec::new();
        if !run_maintenance {
            return events;
        }
        let mut i: usize = 0;
        proof {
            assert(events@ =~= group_tick_events(old(self).nodes_@.subrange(0, 0), now));
        }
        while i < self.nodes_.len()
            invariant
                i <= self.nodes_@.len(),
                self.nodes_@.len() == old(self).nodes_@.len(),
                forall|j: int|
                    i <= j < self.nodes_@.len() ==> self.nodes_@[j] == old(self).nodes_@[j],
                forall|j: int|
                    0 <= j < i ==> self.nodes_@[j] == ticked_node(old(self).nodes_@[j], now),
                events@ == group_tick_events(old(self).nodes_@.subrange(0, i as int), now),
                self.chainparams == old(self).chainparams,
                self.desired_amount_connected_nodes == old(self).desired_amount_connected_nodes,
                self.clientstr == old(self).clientstr,
                self.candidates == old(self).candidates,
                self.next_candidate == old(self).next_candidate,
                self.shut_down == old(self).shut_down,
            decreases self.nodes_@.len() - i,
        {
            let mut evs = self.nodes_[i].on_timer_tick(now);
            events.append(&mut evs);
            proof {
                let prefix = old(self).nodes_@.subrange(0, i + 1);
                assert(prefix.drop_last() =~= old(self).nodes_@.subrange(0, i as int));
                assert(prefix.last() == old(self).nodes_@[i as int]);
                assert(events@ =~= group_tick_events(prefix, now));
            }
            i += 1;
        }
        proof {
            assert(old(self).nodes_@.subrange(0, old(self).nodes_@.len() as int) =~= old(self).nodes_@);
            assert(final(self).nodes_@ =~= ticked_nodes(old(self).nodes_@, now));
        }
        events
    }
}

} // verus!
