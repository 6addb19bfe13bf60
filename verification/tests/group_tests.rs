use bitcoinrs::addr::{IpAddrBits, NetAddr};
use bitcoinrs::events::Event;
use bitcoinrs::group::{
    chain_params, NetworkType, NodeGroup, DEFAULT_DESIRED_CONNECTIONS, MASK_ACTIVE,
};
use bitcoinrs::node::{
    DisconnectReason, Node, NodeState, MASK_CONNECTED, MASK_CONNECTING, MASK_DISCONNECTED,
    MASK_HEADERSYNC, MASK_TIMEOUT, KEEPALIVE_TIMEOUT_SECS,
};

fn v4(ip: u32, port: u16) -> NetAddr {
    NetAddr { ip: IpAddrBits::V4(ip), port }
}

#[test]
fn btc_node_group_new_and_free_should_not_panic() {
    let group = NodeGroup::new(NetworkType::Main);
    assert!(group.nodes_.is_empty());
    drop(group);
}

#[test]
fn chain_params_hold_the_network_magic_and_port() {
    let main = chain_params(NetworkType::Main);
    assert_eq!(main.netmagic, vec![0xf9, 0xbe, 0xb4, 0xd9]);
    assert_eq!(main.default_port, 8333);
    assert_eq!(main.dnsseeds.len(), 4);
    assert_eq!(main.dnsseeds[0], "seed.bitcoin.jonasschnelli.ch");
    let test = chain_params(NetworkType::Test);
    assert_eq!(test.netmagic, vec![0x0b, 0x11, 0x09, 0x07]);
    assert_eq!(test.default_port, 18333);
    let regtest = chain_params(NetworkType::Regtest);
    assert_eq!(regtest.netmagic, vec![0xfa, 0xbf, 0xb5, 0xda]);
    assert_eq!(regtest.default_port, 18444);
}

#[test]
fn add_node_rejects_a_duplicate_address() {
    let mut group = NodeGroup::new(NetworkType::Regtest);
    group.add_node(Node::new(v4(1, 18444)));
    group.add_node(Node::new(v4(2, 18444)));
    group.add_node(Node::new(v4(1, 18444)));
    assert_eq!(group.nodes_.len(), 2);
    assert_eq!(group.nodes_[0].nodeid, 0);
    assert_eq!(group.nodes_[1].nodeid, 1);
}

#[test]
fn add_node_after_shutdown_is_a_no_op() {
    let mut group = NodeGroup::new(NetworkType::Regtest);
    group.shutdown();
    group.add_node(Node::new(v4(1, 18444)));
    assert!(group.nodes_.is_empty());
}

#[test]
fn amount_of_connected_nodes_counts_by_mask() {
    let mut group = NodeGroup::new(NetworkType::Regtest);
    group.add_node(Node::new(v4(1, 18444)));
    group.add_node(Node::new(v4(2, 18444)));
    group.add_node(Node::new(v4(3, 18444)));
    group.add_node(Node::new(v4(4, 18444)));
    // node 0 stays Fresh; node 1 connecting; node 2 connected; node 3 timed out
    group.node_at(1).connect(0);
    group.node_at(2).connect(0);
    group.node_at(2).on_handshake_done(0, 0, 0);
    group.node_at(3).connect(0);
    group.node_at(3).on_handshake_done(0, 0, 0);
    group.node_at(3).on_timer_tick(KEEPALIVE_TIMEOUT_SECS + 1);
    assert_eq!(group.amount_of_connected_nodes(MASK_CONNECTING), 1);
    assert_eq!(group.amount_of_connected_nodes(MASK_CONNECTED), 1);
    assert_eq!(group.amount_of_connected_nodes(MASK_TIMEOUT), 1);
    assert_eq!(group.amount_of_connected_nodes(MASK_ACTIVE), 2);
    assert_eq!(group.amount_of_connected_nodes(0), 0);
    // the sync-phase flag counts through the mask as well
    group.node_at(2).header_sync = true;
    assert_eq!(group.amount_of_connected_nodes(MASK_HEADERSYNC), 1);
    assert_eq!(group.amount_of_connected_nodes(MASK_CONNECTED | MASK_HEADERSYNC), 1);
}

#[test]
fn connect_next_nodes_converges_to_the_desired_count_and_stops() {
    let mut group = NodeGroup::new(NetworkType::Regtest);
    assert_eq!(group.desired_amount_connected_nodes, DEFAULT_DESIRED_CONNECTIONS);
    let mut candidates = Vec::new();
    for i in 0..20 {
        candidates.push(v4(100 + i, 18444));
    }
    group.add_candidates(&candidates);
    let (started, events) = group.connect_next_nodes(true, 0);
    assert!(started);
    assert_eq!(group.nodes_.len(), 8);
    assert_eq!(group.amount_of_connected_nodes(MASK_ACTIVE), 8);
    assert_eq!(events.len(), 16);
    assert!(matches!(events[0], Event::StartConnect { nodeid: 0, .. }));
    assert!(
        matches!(events[1], Event::StateChanged { nodeid: 0, state: NodeState::Connecting })
    );
    // all connects succeed
    for i in 0..8 {
        group.node_at(i).on_handshake_done(0, 0, 0);
    }
    assert_eq!(group.amount_of_connected_nodes(MASK_ACTIVE), 8);
    // repeated calls issue nothing further
    let (started, events) = group.connect_next_nodes(true, 1);
    assert!(!started);
    assert!(events.is_empty());
    assert_eq!(group.nodes_.len(), 8);
    assert_eq!(group.amount_of_connected_nodes(MASK_ACTIVE), 8);
}

#[test]
fn connect_next_nodes_skips_addresses_already_held() {
    let mut group = NodeGroup::new(NetworkType::Regtest);
    group.add_node(Node::new(v4(100, 18444)));
    group.node_at(0).connect(0);
    group.add_candidates(&vec![v4(100, 18444), v4(101, 18444)]);
    let (started, _events) = group.connect_next_nodes(true, 0);
    assert!(started);
    assert_eq!(group.nodes_.len(), 2);
    assert_eq!(group.nodes_[1].addr, v4(101, 18444));
}

#[test]
fn connect_next_nodes_respects_the_callers_predicate() {
    let mut group = NodeGroup::new(NetworkType::Regtest);
    group.add_candidates(&vec![v4(1, 18444)]);
    let (started, events) = group.connect_next_nodes(false, 0);
    assert!(!started);
    assert!(events.is_empty());
    assert!(group.nodes_.is_empty());
}

#[test]
fn connect_next_nodes_replaces_a_lost_connection() {
    let mut group = NodeGroup::new(NetworkType::Regtest);
    group.set_desired_amount_connected_nodes(1);
    group.add_candidates(&vec![v4(1, 18444), v4(2, 18444)]);
    let (started, _) = group.connect_next_nodes(true, 0);
    assert!(started);
    assert_eq!(group.nodes_.len(), 1);
    group.node_at(0).disconnect(DisconnectReason::Error);
    let (started, _) = group.connect_next_nodes(true, 1);
    assert!(started);
    assert_eq!(group.nodes_.len(), 2);
    assert_eq!(group.amount_of_connected_nodes(MASK_ACTIVE), 1);
}

#[test]
fn shutdown_twice_produces_no_additional_events() {
    let mut group = NodeGroup::new(NetworkType::Regtest);
    group.add_node(Node::new(v4(1, 18444)));
    group.add_node(Node::new(v4(2, 18444)));
    group.node_at(0).connect(0);
    let events = group.shutdown();
    assert_eq!(events.len(), 2);
    assert!(
        matches!(events[0], Event::StateChanged { nodeid: 0, state: NodeState::Disconnected })
    );
    assert!(
        matches!(events[1], Event::StateChanged { nodeid: 1, state: NodeState::Disconnected })
    );
    assert_eq!(group.amount_of_connected_nodes(MASK_DISCONNECTED), 2);
    let events = group.shutdown();
    assert!(events.is_empty());
    assert_eq!(group.amount_of_connected_nodes(MASK_DISCONNECTED), 2);
}

#[test]
fn shutdown_leaves_already_terminal_states_alone() {
    let mut group = NodeGroup::new(NetworkType::Regtest);
    group.add_node(Node::new(v4(1, 18444)));
    group.node_at(0).connect(0);
    group.node_at(0).on_handshake_done(0, 0, 0);
    group.node_at(0).on_timer_tick(KEEPALIVE_TIMEOUT_SECS + 1);
    let events = group.shutdown();
    assert!(events.is_empty());
    assert_eq!(group.amount_of_connected_nodes(MASK_TIMEOUT), 1);
}

#[test]
fn wf_check_accepts_a_group_built_through_the_api() {
    let mut group = NodeGroup::new(NetworkType::Main);
    assert!(group.wf_check());
    group.add_node(Node::new(v4(1, 8333)));
    group.add_node(Node::new(v4(2, 8333)));
    group.add_candidates(&vec![v4(3, 8333)]);
    assert!(group.wf_check());
    // forcing a duplicate address through direct field access is caught
    group.node_at(1).addr = v4(1, 8333);
    assert!(!group.wf_check());
}

#[test]
fn node_ref_and_clientstr_round_trip() {
    let mut group = NodeGroup::new(NetworkType::Main);
    group.set_clientstr(String::from("/bitcoinrs:0.1/"));
    assert_eq!(group.clientstr, "/bitcoinrs:0.1/");
    group.add_node(Node::new(v4(9, 8333)));
    assert_eq!(group.node_ref(0).addr, v4(9, 8333));
    assert!(matches!(group.node_ref(0).state, NodeState::Fresh));
}

#[test]
fn periodic_timer_ticks_every_connection_unless_overridden() {
    let mut group = NodeGroup::new(NetworkType::Regtest);
    group.add_node(Node::new(v4(1, 18444)));
    group.add_node(Node::new(v4(2, 18444)));
    group.node_at(0).connect(0);
    group.node_at(0).on_handshake_done(0, 0, 0);
    group.node_at(1).connect(0);
    group.node_at(1).on_handshake_done(0, 0, 0);
    // the caller's hook returned false: nothing moves
    let events = group.on_periodic_timer(KEEPALIVE_TIMEOUT_SECS + 1, false);
    assert!(events.is_empty());
    assert_eq!(group.amount_of_connected_nodes(MASK_CONNECTED), 2);
    // the caller's hook returned true: both silent peers time out
    let events = group.on_periodic_timer(KEEPALIVE_TIMEOUT_SECS + 1, true);
    assert_eq!(events.len(), 4);
    assert_eq!(group.amount_of_connected_nodes(MASK_TIMEOUT), 2);
}
