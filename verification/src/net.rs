//! The backend boundary: backend kinds, credentials, endpoints, peers and
//! status reports shared by the agent and the custom backend.

use crate::ip::{IpAddress, Ipv4Address};
use vstd::prelude::*;

verus! {

/// The network backend implementations.
#[derive(Clone, Debug, PartialEq, Eq)]
pub enum BackendType {
    Tfscale,
    WireGuard,
    EasyTier,
    Custom(String),
}

/// The name of a backend type.
pub open spec fn backend_type_name(t: BackendType) -> Seq<char> {
    match t {
        BackendType::Tfscale => "tfscale"@,
        BackendType::WireGuard => "wireguard"@,
        BackendType::EasyTier => "easytier"@,
        BackendType::Custom(value) => value@,
    }
}

impl BackendType {
    pub fn as_str(&self) -> (out: &str)
        ensures
            out@ == backend_type_name(*self),
    {
        match self {
            BackendType::Tfscale => "tfscale",
            BackendType::WireGuard => "wireguard",
            BackendType::EasyTier => "easytier",
            BackendType::Custom(value) => value.as_str(),
        }
    }
}

/// What a backend can do.
#[derive(Clone, Copy, Debug, Default, PartialEq, Eq)]
pub struct BackendCapabilities {
    pub supports_relay: bool,
    pub supports_nat_traversal: bool,
    pub supports_kernel_tun: bool,
    pub supports_userspace_tun: bool,
    pub supports_dynamic_peers: bool,
    pub supports_static_peers: bool,
}

/// The public credential a backend announces for its device.
#[derive(Clone, Debug, PartialEq, Eq)]
pub struct BackendCredential {
    pub public: String,
}

/// The local interface settings a backend is configured with.
#[derive(Clone, Debug, PartialEq, Eq)]
pub struct LocalBackendConfig {
    pub device_id: String,
    pub interface_name: String,
    pub overlay_ip: Ipv4Address,
    pub listen_port: u16,
}

/// How an endpoint was learned.
#[derive(Clone, Copy, Debug, PartialEq, Eq, Structural, Hash)]
pub enum EndpointKind {
    Lan,
    Public,
    Ipv6,
    Relay,
}

/// The transport protocol of an endpoint.
#[derive(Clone, Copy, Debug, PartialEq, Eq, Structural, Hash)]
pub enum TransportProtocol {
    Udp,
    Tcp,
}

/// An address where a peer can be reached.
#[derive(Clone, Copy, Debug, PartialEq, Eq, Hash)]
pub struct Endpoint {
    pub kind: EndpointKind,
    pub address: IpAddress,
    pub port: u16,
    pub protocol: TransportProtocol,
}

/// A peer as the backend is told about it.
#[derive(Clone, Debug, PartialEq, Eq)]
pub struct PeerConfig {
    pub device_id: String,
    pub hostname: String,
    pub overlay_ip: Ipv4Address,
    pub public_credential: BackendCredential,
    pub endpoints: Vec<Endpoint>,
    pub allowed_routes: Vec<String>,
}

/// A relay that peers can fall back to.
#[derive(Clone, Debug, PartialEq, Eq)]
pub struct RelayConfig {
    pub relay_id: String,
    pub url: String,
    pub region: String,
}

/// The path currently used to reach a peer.
#[derive(Clone, Copy, Debug, PartialEq, Eq, Structural)]
pub enum PeerPathDiagnosticKind {
    Unknown,
    Direct,
    Relay,
}

/// Per-peer path report.
#[derive(Clone, Debug, PartialEq, Eq)]
pub struct PeerPathDiagnostic {
    pub device_id: String,
    pub path: PeerPathDiagnosticKind,
    pub endpoint: Option<String>,
    pub rtt_ms: Option<u64>,
    pub failures: u32,
    pub tx_packets: u64,
    pub rx_packets: u64,
}

/// The status a backend reports.
#[derive(Clone, Debug, PartialEq, Eq)]
pub struct BackendStatus {
    pub backend_type: BackendType,
    pub interface_name: String,
    pub healthy: bool,
    pub message: Option<String>,
    pub peers: Vec<PeerPathDiagnostic>,
}

/// What a public endpoint probe observed.
#[derive(Clone, Copy, Debug, PartialEq, Eq)]
pub struct PublicEndpointProbe {
    pub observed_endpoint: Endpoint,
}

} // verus!
