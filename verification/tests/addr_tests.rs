use bitcoinrs::addr::{select_peers, AddrFamily, IpAddrBits, NetAddr};

fn v4(ip: u32, port: u16) -> NetAddr {
    NetAddr { ip: IpAddrBits::V4(ip), port }
}

fn v6(hi: u64, lo: u64, port: u16) -> NetAddr {
    NetAddr { ip: IpAddrBits::V6(hi, lo), port }
}

#[test]
fn empty_seed_result_gives_empty_candidates() {
    let records: Vec<NetAddr> = Vec::new();
    let out = select_peers(&records, 8333, AddrFamily::V4);
    assert!(out.is_empty());
}

#[test]
fn select_peers_applies_port_and_family() {
    let records = vec![v4(0x0a000001, 1), v6(1, 2, 9), v4(0x0a000002, 7)];
    let out = select_peers(&records, 8333, AddrFamily::V4);
    assert_eq!(out.len(), 2);
    assert_eq!(out[0], v4(0x0a000001, 8333));
    assert_eq!(out[1], v4(0x0a000002, 8333));
}

#[test]
fn select_peers_keeps_only_requested_family_v6() {
    let records = vec![v4(0x0a000001, 1), v6(1, 2, 9)];
    let out = select_peers(&records, 18333, AddrFamily::V6);
    assert_eq!(out.len(), 1);
    assert_eq!(out[0], v6(1, 2, 18333));
}

#[test]
fn select_peers_drops_duplicates_first_wins() {
    let records = vec![v4(1, 10), v4(2, 20), v4(1, 30), v4(1, 8333)];
    let out = select_peers(&records, 8333, AddrFamily::Any);
    assert_eq!(out.len(), 2);
    assert_eq!(out[0], v4(1, 8333));
    assert_eq!(out[1], v4(2, 8333));
}
