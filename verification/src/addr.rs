//! Candidate peer addresses and the address-book result handling.
//!
//! A DNS seed query performed by the embedding application yields a raw
//! list of socket addresses. [`select_peers`] turns such a list into the
//! candidate pool the connection group works from: every address carries
//! the requested port, addresses of the wrong family are dropped, and
//! duplicates are removed (first occurrence wins).

use vstd::prelude::*;

verus! {

/// The address family a DNS seed query asks for.
#[derive(Clone, Copy, PartialEq, Eq, Structural, Debug)]
pub enum AddrFamily {
    V4,
    V6,
    Any,
}

/// An IP address held as plain values.
#[derive(Clone, Copy, PartialEq, Eq, Structural, Debug)]
pub enum IpAddrBits {
    /// An IPv4 address: the four octets packed big-endian into one word.
    V4(u32),
    /// An IPv6 address: the sixteen octets packed big-endian into two
    /// words, high half first.
    V6(u64, u64),
}

/// A remote socket address: an IP address and a port.
#[derive(Clone, Copy, PartialEq, Eq, Structural, Debug)]
pub struct NetAddr {
    pub ip: IpAddrBits,
    pub port: u16,
}

/// Whether the address belongs to the requested family.
pub open spec fn family_matches(a: NetAddr, family: AddrFamily) -> bool {
    match family {
        AddrFamily::V4 => a.ip is V4,
        AddrFamily::V6 => a.ip is V6,
        AddrFamily::Any => true,
    }
}

/// The address with its port replaced.
pub open spec fn with_port(a: NetAddr, port: u16) -> NetAddr {
    NetAddr { ip: a.ip, port }
}

/// What `select_peers` returns: the records in order, reinterpreted with
/// `port`, kept when their family matches and their IP was not seen
/// earlier in the list.
pub open spec fn select_spec(records: Seq<NetAddr>, port: u16, family: AddrFamily) -> Seq<NetAddr>
    decreases records.len(),
{
    if records.len() == 0 {
        Seq::empty()
    } else {
        let rest = select_spec(records.drop_last(), port, family);
        let a = with_port(records.last(), port);
        if family_matches(records.last(), family) && !rest.contains(a) {
            rest.push(a)
        } else {
            rest
        }
    }
}

/// Exec test for family membership.
pub fn check_family(a: &NetAddr, family: AddrFamily) -> (r: bool)
    ensures
        r == family_matches(*a, family),
{
    match family {
        AddrFamily::V4 => matches!(a.ip, IpAddrBits::V4(_)),
        AddrFamily::V6 => matches!(a.ip, IpAddrBits::V6(_, _)),
        AddrFamily::Any => true,
    }
}

/// Whether `v` already holds `a`.
fn vec_contains_addr(v: &Vec<NetAddr>, a: &NetAddr) -> (r: bool)
    ensures
        r == v@.contains(*a),
{
    let mut i: usize = 0;
    while i < v.len()
        invariant
            i <= v.len(),
            forall|j: int| 0 <= j < i ==> v@[j] != *a,
        decreases v.len() - i,
    {
        if v[i] == *a {
            assert(v@.contains(*a));
            return true;
        }
        i += 1;
    }
    assert(forall|j: int| 0 <= j < v@.len() ==> v@[j] != *a);
    false
}

/// Turn one DNS seed query result into a candidate pool: give every
/// record the requested `port`, keep only the requested family, and drop
/// addresses whose IP already appeared (first occurrence wins).
///
/// An empty result list is an ordinary outcome, not an error: an
/// unreachable seed or one with no records simply contributes no
/// candidates.
pub fn select_peers(records: &Vec<NetAddr>, port: u16, family: AddrFamily) -> (out: Vec<NetAddr>)
    ensures
        out@ == select_spec(records@, port, family),
        records@.len() == 0 ==> out@.len() == 0,
{
    let mut out: Vec<NetAddr> = Vec::new();
    let mut i: usize = 0;
    while i < records.len()
        invariant
            i <= records.len(),
            out@ == select_spec(records@.subrange(0, i as int), port, family),
        decreases records.len() - i,
    {
        let a = records[i];
        let ghost prefix = records@.subrange(0, i as int);
        assert(records@.subrange(0, i + 1).drop_last() =~= prefix);
        assert(records@.subrange(0, i + 1).last() == a);
        let candidate = NetAddr { ip: a.ip, port };
        if check_family(&a, family) && !vec_contains_addr(&out, &candidate) {
            out.push(candidate);
        }
        i += 1;
    }
    assert(records@.subrange(0, records@.len() as int) =~= records@);
    out
}

/// Whether one selected address is accounted for by the records: it
/// carries the requested port, matches the requested family, and stems
/// from some record.
pub open spec fn selected_from(
    records: Seq<NetAddr>,
    port: u16,
    family: AddrFamily,
    a: NetAddr,
) -> bool {
    &&& a.port == port
    &&& family_matches(a, family)
    &&& exists|j: int|
        0 <= j < records.len() && a == with_port(records[j], port) && family_matches(
            records[j],
            family,
        )
}

/// Every address selected came from the records, carries the requested
/// port, matches the requested family, and appears only once.
pub proof fn lemma_select_peers_sound(records: Seq<NetAddr>, port: u16, family: AddrFamily)
    ensures
        forall|i: int|
            0 <= i < select_spec(records, port, family).len() ==> selected_from(
                records,
                port,
                family,
                #[trigger] select_spec(records, port, family)[i],
            ),
        forall|i: int, j: int|
            0 <= i < j < select_spec(records, port, family).len()
                ==> #[trigger] select_spec(records, port, family)[i] != #[trigger] select_spec(
                records,
                port,
                family,
            )[j],
    decreases records.len(),
{
    if records.len() == 0 {
    } else {
        lemma_select_peers_sound(records.drop_last(), port, family);
        let prior = records.drop_last();
        let rest = select_spec(prior, port, family);
        let sel = select_spec(records, port, family);
        assert(forall|j: int| 0 <= j < prior.len() ==> prior[j] == records[j]);
        assert(forall|a: NetAddr|
            selected_from(prior, port, family, a) ==> selected_from(records, port, family, a));
        if family_matches(records.last(), family) && !rest.contains(
            with_port(records.last(), port),
        ) {
            let a = with_port(records.last(), port);
            assert(sel == rest.push(a));
            assert(forall|i: int| 0 <= i < rest.len() ==> sel[i] == rest[i]);
            assert(sel[sel.len() - 1] == a);
            assert(records.last() == records[records.len() - 1]);
            assert(selected_from(records, port, family, a));
            assert(forall|i: int| 0 <= i < rest.len() ==> #[trigger] rest[i] != a) by {
                assert(forall|i: int| 0 <= i < rest.len() ==> rest.contains(#[trigger] rest[i]));
            }
        } else {
            assert(sel == rest);
        }
    }
}

} // verus!
