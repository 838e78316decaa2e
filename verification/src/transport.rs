//! Choosing the UDP endpoint of a peer and the transport counters.

use crate::error::{command_failed, failed, BackendError};
use crate::ip::IpAddress;
use crate::net::{Endpoint, EndpointKind, TransportProtocol};
use vstd::prelude::*;

verus! {

/// Counters and flags of the UDP transport.
#[derive(Clone, Copy, Debug, Default, PartialEq, Eq)]
pub struct TransportStatus {
    pub udp_bound: bool,
    pub local_endpoints: usize,
    pub transport_peers: usize,
    pub reachable_peers: usize,
    pub tx_packets: u64,
    pub rx_packets: u64,
    pub tx_drops: u64,
    pub rx_drops: u64,
    pub bound_at_unix_millis: Option<u64>,
}

/// A LAN endpoint reached over UDP.
pub open spec fn is_lan_udp(e: Endpoint) -> bool {
    e.kind == EndpointKind::Lan && e.protocol == TransportProtocol::Udp
}

/// The first LAN UDP endpoint of a list.
pub open spec fn first_lan_udp(endpoints: Seq<Endpoint>) -> Option<Endpoint>
    decreases endpoints.len(),
{
    if endpoints.len() == 0 {
        None
    } else if is_lan_udp(endpoints[0]) {
        Some(endpoints[0])
    } else {
        first_lan_udp(endpoints.skip(1))
    }
}

/// The first LAN UDP endpoint of a list.
pub fn select_udp_endpoint(endpoints: &[Endpoint]) -> (out: Option<Endpoint>)
    ensures
        out == first_lan_udp(endpoints@),
{
    let mut i: usize = 0;
    proof {
        assert(endpoints@.skip(0) =~= endpoints@);
    }
    while i < endpoints.len()
        invariant
            i <= endpoints.len(),
            first_lan_udp(endpoints@) == first_lan_udp(endpoints@.skip(i as int)),
        decreases endpoints.len() - i,
    {
        let e = endpoints[i];
        proof {
            assert(endpoints@.skip(i as int)[0] == e);
            assert(endpoints@.skip(i as int).skip(1) =~= endpoints@.skip(i + 1));
        }
        if matches!(e.kind, EndpointKind::Lan) && matches!(e.protocol, TransportProtocol::Udp) {
            return Some(e);
        }
        i = i + 1;
    }
    None
}

/// The preference of an endpoint kind for probing: LAN, public, IPv6, relay.
pub open spec fn kind_rank(k: EndpointKind) -> int {
    match k {
        EndpointKind::Lan => 0,
        EndpointKind::Public => 1,
        EndpointKind::Ipv6 => 2,
        EndpointKind::Relay => 3,
    }
}

/// The UDP endpoints of the given rank, in order.
pub open spec fn udp_of_rank(endpoints: Seq<Endpoint>, rank: int) -> Seq<Endpoint>
    decreases endpoints.len(),
{
    if endpoints.len() == 0 {
        Seq::empty()
    } else {
        let e = endpoints.last();
        if e.protocol == TransportProtocol::Udp && kind_rank(e.kind) == rank {
            udp_of_rank(endpoints.drop_last(), rank).push(e)
        } else {
            udp_of_rank(endpoints.drop_last(), rank)
        }
    }
}

/// The UDP endpoints of a peer in probing order: LAN first, then public,
/// IPv6 and relay, each group in list order.
pub open spec fn sorted_udp(endpoints: Seq<Endpoint>) -> Seq<Endpoint> {
    udp_of_rank(endpoints, 0) + udp_of_rank(endpoints, 1) + udp_of_rank(endpoints, 2) + udp_of_rank(
        endpoints,
        3,
    )
}

fn rank_of(k: EndpointKind) -> (r: u8)
    ensures
        r == kind_rank(k),
{
    match k {
        EndpointKind::Lan => 0,
        EndpointKind::Public => 1,
        EndpointKind::Ipv6 => 2,
        EndpointKind::Relay => 3,
    }
}

fn push_udp_of_rank(out: &mut Vec<Endpoint>, endpoints: &[Endpoint], rank: u8)
    ensures
        final(out)@ == old(out)@ + udp_of_rank(endpoints@, rank as int),
{
    let ghost start = out@;
    let mut i: usize = 0;
    proof {
        assert(endpoints@.take(0) =~= Seq::<Endpoint>::empty());
        assert(start + udp_of_rank(endpoints@.take(0), rank as int) =~= start);
    }
    while i < endpoints.len()
        invariant
            i <= endpoints@.len(),
            out@ == start + udp_of_rank(endpoints@.take(i as int), rank as int),
        decreases endpoints.len() - i,
    {
        proof {
            assert(endpoints@.take(i + 1).drop_last() =~= endpoints@.take(i as int));
            assert(endpoints@.take(i + 1).last() == endpoints@[i as int]);
        }
        let e = endpoints[i];
        if matches!(e.protocol, TransportProtocol::Udp) && rank_of(e.kind) == rank {
            out.push(e);
            proof {
                assert(out@ =~= start + udp_of_rank(endpoints@.take(i + 1), rank as int));
            }
        }
        i = i + 1;
    }
    proof {
        assert(endpoints@.take(endpoints@.len() as int) =~= endpoints@);
    }
}

/// The UDP endpoints of a peer in probing order.
pub fn sorted_udp_endpoints(endpoints: &[Endpoint]) -> (out: Vec<Endpoint>)
    ensures
        out@ == sorted_udp(endpoints@),
{
    let mut out: Vec<Endpoint> = Vec::new();
    push_udp_of_rank(&mut out, endpoints, 0);
    push_udp_of_rank(&mut out, endpoints, 1);
    push_udp_of_rank(&mut out, endpoints, 2);
    push_udp_of_rank(&mut out, endpoints, 3);
    proof {
        assert(out@ =~= sorted_udp(endpoints@));
    }
    out
}

/// The socket address of a UDP endpoint; TCP endpoints are refused.
pub fn endpoint_socket_addr(endpoint: &Endpoint) -> (out: Result<(IpAddress, u16), BackendError>)
    ensures
        endpoint.protocol == TransportProtocol::Udp ==> out == Ok::<(IpAddress, u16), BackendError>(
            (endpoint.address, endpoint.port),
        ),
        endpoint.protocol != TransportProtocol::Udp ==> (out matches Err(e) && command_failed(
            e,
            "endpoint is not UDP transport"@,
        )),
{
    match endpoint.protocol {
        TransportProtocol::Udp => Ok((endpoint.address, endpoint.port)),
        TransportProtocol::Tcp => Err(failed("endpoint is not UDP transport")),
    }
}

} // verus!
