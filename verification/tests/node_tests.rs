use bitcoinrs::addr::{IpAddrBits, NetAddr};
use bitcoinrs::events::Event;
use bitcoinrs::frame::{build_frame, HEADER_LEN};
use bitcoinrs::node::{
    DisconnectReason, Node, NodeState, CONNECT_TIMEOUT_SECS, KEEPALIVE_INTERVAL_SECS,
    KEEPALIVE_TIMEOUT_SECS, MISBEHAVE_PENALTY, MISBEHAVE_THRESHOLD,
};

fn addr() -> NetAddr {
    NetAddr { ip: IpAddrBits::V4(0x7f000001), port: 8333 }
}

fn magic() -> Vec<u8> {
    vec![0xf9, 0xbe, 0xb4, 0xd9]
}

fn command(name: &[u8]) -> Vec<u8> {
    let mut c = name.to_vec();
    while c.len() < 12 {
        c.push(0);
    }
    c
}

fn connected_node() -> Node {
    let mut node = Node::new(addr());
    let evs = node.connect(0);
    assert_eq!(evs.len(), 2);
    let evs = node.on_handshake_done(0, 5, 700_000);
    assert_eq!(evs.len(), 2);
    assert!(matches!(node.state, NodeState::Connected));
    node
}

#[test]
fn btc_node_new_and_free_should_not_panic() {
    let node = Node::new(addr());
    assert!(matches!(node.state, NodeState::Fresh));
    drop(node);
}

#[test]
fn connect_reports_start_and_state_change() {
    let mut node = Node::new(addr());
    let evs = node.connect(42);
    assert!(matches!(node.state, NodeState::Connecting));
    assert_eq!(node.time_started_con, 42);
    assert_eq!(evs.len(), 2);
    assert!(matches!(evs[0], Event::StartConnect { nodeid: 0, .. }));
    assert!(
        matches!(evs[1], Event::StateChanged { nodeid: 0, state: NodeState::Connecting })
    );
    // a second connect is a no-op
    let evs = node.connect(43);
    assert!(evs.is_empty());
    assert_eq!(node.time_started_con, 42);
}

#[test]
fn handshake_done_moves_to_connected() {
    let mut node = Node::new(addr());
    node.connect(0);
    let evs = node.on_handshake_done(7, 9, 812_345);
    assert!(matches!(node.state, NodeState::Connected));
    assert!(node.version_handshake);
    assert_eq!(node.services, 9);
    assert_eq!(node.bestknownheight, 812_345);
    assert_eq!(evs.len(), 2);
    assert!(matches!(evs[0], Event::HandshakeDone { nodeid: 0 }));
    assert!(
        matches!(evs[1], Event::StateChanged { nodeid: 0, state: NodeState::Connected })
    );
}

#[test]
fn two_back_to_back_frames_dispatch_two_messages_in_order() {
    let magic = magic();
    let mut node = connected_node();
    let p1 = vec![1u8, 2, 3];
    let p2 = vec![9u8, 8];
    let c1 = command(b"inv");
    let c2 = command(b"headers");
    let mut bytes = build_frame(&magic, &c1, &p1);
    bytes.extend_from_slice(&build_frame(&magic, &c2, &p2));
    let evs = node.on_bytes_received(&magic, &bytes, 10);
    assert_eq!(evs.len(), 2);
    match &evs[0] {
        Event::Message { nodeid, hdr, payload } => {
            assert_eq!(*nodeid, 0);
            assert_eq!(hdr.command, c1);
            assert_eq!(hdr.payload_len, 3);
            assert_eq!(payload, &p1);
        },
        _ => panic!("expected a message event"),
    }
    match &evs[1] {
        Event::Message { hdr, payload, .. } => {
            assert_eq!(hdr.command, c2);
            assert_eq!(payload, &p2);
        },
        _ => panic!("expected a message event"),
    }
    assert!(node.recv_buffer.is_empty());
    assert_eq!(node.missbehavescore, 0);
}

#[test]
fn corrupted_checksum_costs_penalty_and_dispatches_nothing() {
    let magic = magic();
    let mut node = connected_node();
    let mut frame = build_frame(&magic, &command(b"tx"), &vec![4u8, 5, 6]);
    frame[20] ^= 0xff;
    let evs = node.on_bytes_received(&magic, &frame, 10);
    assert!(evs.is_empty());
    assert_eq!(node.missbehavescore, MISBEHAVE_PENALTY);
    assert!(matches!(node.state, NodeState::Connected));
    assert!(node.recv_buffer.is_empty());
}

#[test]
fn bad_frame_between_good_ones_skips_only_that_frame() {
    let magic = magic();
    let mut node = connected_node();
    let mut corrupt = build_frame(&magic, &command(b"tx"), &vec![4u8, 5, 6]);
    corrupt[21] ^= 0x01;
    let good = build_frame(&magic, &command(b"ping"), &vec![7u8]);
    let mut bytes = corrupt;
    bytes.extend_from_slice(&good);
    let evs = node.on_bytes_received(&magic, &bytes, 10);
    assert_eq!(evs.len(), 1);
    assert!(matches!(&evs[0], Event::Message { .. }));
    assert_eq!(node.missbehavescore, MISBEHAVE_PENALTY);
    assert!(node.recv_buffer.is_empty());
}

#[test]
fn wrong_magic_discards_buffer_and_costs_penalty() {
    let magic = magic();
    let mut node = connected_node();
    let mut frame = build_frame(&magic, &command(b"ping"), &vec![1u8]);
    frame[0] = 0x00;
    let evs = node.on_bytes_received(&magic, &frame, 10);
    assert!(evs.is_empty());
    assert_eq!(node.missbehavescore, MISBEHAVE_PENALTY);
    assert!(node.recv_buffer.is_empty());
}

#[test]
fn oversized_declared_length_discards_buffer_and_costs_penalty() {
    let magic = magic();
    let mut node = connected_node();
    let mut bytes = magic.clone();
    bytes.extend_from_slice(&command(b"big"));
    bytes.extend_from_slice(&[0x01, 0x00, 0x00, 0x02]); // 0x02000001, over the cap
    bytes.extend_from_slice(&[0, 0, 0, 0]);
    assert_eq!(bytes.len(), HEADER_LEN);
    let evs = node.on_bytes_received(&magic, &bytes, 10);
    assert!(evs.is_empty());
    assert_eq!(node.missbehavescore, MISBEHAVE_PENALTY);
    assert!(node.recv_buffer.is_empty());
}

#[test]
fn partial_frame_stays_buffered_until_completed() {
    let magic = magic();
    let mut node = connected_node();
    let frame = build_frame(&magic, &command(b"block"), &vec![1u8, 2, 3, 4]);
    let (head, tail) = frame.split_at(10);
    let evs = node.on_bytes_received(&magic, &head.to_vec(), 10);
    assert!(evs.is_empty());
    assert_eq!(node.recv_buffer, head.to_vec());
    let evs = node.on_bytes_received(&magic, &tail.to_vec(), 11);
    assert_eq!(evs.len(), 1);
    assert!(node.recv_buffer.is_empty());
    assert_eq!(node.missbehavescore, 0);
}

#[test]
fn repeated_violations_cross_threshold_and_cut_the_connection() {
    let magic = magic();
    let mut node = connected_node();
    let mut corrupt = build_frame(&magic, &command(b"tx"), &vec![1u8]);
    corrupt[20] ^= 0xff;
    let mut all = Vec::new();
    for _ in 0..(MISBEHAVE_THRESHOLD / MISBEHAVE_PENALTY) {
        all.extend_from_slice(&corrupt);
    }
    let evs = node.on_bytes_received(&magic, &all, 10);
    assert_eq!(node.missbehavescore, MISBEHAVE_THRESHOLD);
    assert!(matches!(node.state, NodeState::Misbehaved));
    assert_eq!(evs.len(), 2);
    assert!(
        matches!(evs[0], Event::StateChanged { nodeid: 0, state: NodeState::Misbehaved })
    );
    assert!(matches!(evs[1], Event::Disconnect { nodeid: 0 }));
}

#[test]
fn misbehave_accumulates_and_cuts_at_threshold() {
    let mut node = connected_node();
    for i in 1..(MISBEHAVE_THRESHOLD / MISBEHAVE_PENALTY) {
        let evs = node.misbehave();
        assert!(evs.is_empty());
        assert_eq!(node.missbehavescore, i * MISBEHAVE_PENALTY);
    }
    let evs = node.misbehave();
    assert_eq!(node.missbehavescore, MISBEHAVE_THRESHOLD);
    assert!(matches!(node.state, NodeState::Misbehaved));
    assert_eq!(evs.len(), 2);
}

#[test]
fn silent_connection_times_out_with_exactly_one_state_change() {
    let mut node = connected_node();
    let evs = node.on_timer_tick(KEEPALIVE_TIMEOUT_SECS + 1);
    assert!(matches!(node.state, NodeState::Timeout));
    assert_eq!(evs.len(), 2);
    assert!(
        matches!(evs[0], Event::StateChanged { nodeid: 0, state: NodeState::Timeout })
    );
    assert!(matches!(evs[1], Event::Disconnect { nodeid: 0 }));
    // a later tick finds a terminal state and fires nothing more
    let evs = node.on_timer_tick(2 * KEEPALIVE_TIMEOUT_SECS);
    assert!(evs.is_empty());
}

#[test]
fn quiet_connection_gets_a_ping_at_the_keepalive_interval() {
    let mut node = connected_node();
    let evs = node.on_timer_tick(KEEPALIVE_INTERVAL_SECS);
    assert_eq!(evs.len(), 1);
    assert!(matches!(evs[0], Event::SendPing { nodeid: 0 }));
    assert_eq!(node.lastping, KEEPALIVE_INTERVAL_SECS);
    // just after the ping nothing is due
    let evs = node.on_timer_tick(KEEPALIVE_INTERVAL_SECS + 1);
    assert!(evs.is_empty());
}

#[test]
fn stalled_connect_attempt_times_out() {
    let mut node = Node::new(addr());
    node.connect(0);
    let evs = node.on_timer_tick(CONNECT_TIMEOUT_SECS);
    assert!(evs.is_empty());
    let evs = node.on_timer_tick(CONNECT_TIMEOUT_SECS + 1);
    assert!(matches!(node.state, NodeState::Timeout));
    assert_eq!(evs.len(), 2);
}

#[test]
fn disconnect_is_idempotent_per_connection() {
    let mut node = connected_node();
    let evs = node.disconnect(DisconnectReason::RemoteClosed);
    assert!(matches!(node.state, NodeState::DisconnectedFromRemotePeer));
    assert_eq!(evs.len(), 1);
    let evs = node.disconnect(DisconnectReason::Local);
    assert!(evs.is_empty());
    assert!(matches!(node.state, NodeState::DisconnectedFromRemotePeer));
}

#[test]
fn bytes_for_a_disconnected_node_are_ignored() {
    let magic = magic();
    let mut node = Node::new(addr());
    let frame = build_frame(&magic, &command(b"ping"), &vec![1u8]);
    let evs = node.on_bytes_received(&magic, &frame, 10);
    assert!(evs.is_empty());
    assert!(node.recv_buffer.is_empty());
}
