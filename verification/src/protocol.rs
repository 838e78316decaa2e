//! Messages exchanged between agents, the control plane and the relay.

use vstd::prelude::*;

verus! {

#[derive(Clone, Debug, PartialEq, Eq)]
pub struct CreateAuthKeyResponse {
    pub id: String,
    pub key: String,
}

#[derive(Clone, Debug, PartialEq, Eq)]
pub struct DeviceSummary {
    pub id: String,
    pub hostname: String,
    pub ipv4: String,
    pub os: String,
    pub arch: String,
    pub backend_type: String,
    pub last_seen_at: Option<String>,
}

#[derive(Clone, Debug, PartialEq, Eq)]
pub struct RenameDeviceRequest {
    pub hostname: String,
}

#[derive(Clone, Debug, PartialEq, Eq)]
pub struct RegisterDeviceRequest {
    pub auth_key: String,
    pub hostname: String,
    pub machine_key: String,
    pub backend_type: String,
    pub backend_public_credential: String,
    pub os: String,
    pub arch: String,
    pub client_version: String,
}

#[derive(Clone, Debug, PartialEq, Eq)]
pub struct RegisterDeviceResponse {
    pub device_id: String,
    pub node_key: String,
    pub ipv4: String,
    pub network_id: String,
    pub poll_interval_seconds: u64,
}

#[derive(Clone, Debug, PartialEq, Eq)]
pub struct EndpointPayload {
    pub kind: String,
    pub address: String,
    pub port: u16,
    pub protocol: String,
    pub source: Option<String>,
    pub priority: Option<i32>,
    pub expires_at: Option<String>,
}

#[derive(Clone, Debug, PartialEq, Eq)]
pub struct BackendStatusPayload {
    pub backend_type: String,
    pub interface: String,
    pub healthy: bool,
}

#[derive(Clone, Debug, PartialEq, Eq)]
pub struct HeartbeatRequest {
    pub device_id: String,
    pub node_key: String,
    pub endpoints: Vec<EndpointPayload>,
    pub backend_status: BackendStatusPayload,
}

#[derive(Clone, Debug, PartialEq, Eq)]
pub struct HeartbeatResponse {
    pub ok: bool,
    pub network_map_version: i64,
}

#[derive(Clone, Debug, PartialEq, Eq)]
pub struct EndpointProbeRequest {
    pub device_id: String,
    pub node_key: String,
    pub protocol: String,
}

#[derive(Clone, Debug, PartialEq, Eq)]
pub struct EndpointProbeResponse {
    pub observed_address: String,
    pub observed_port: u16,
    pub protocol: String,
    pub udp_probe_address: Option<String>,
    pub udp_probe_port: Option<u16>,
}

/// A MagicDNS record distributed with the network map.
#[derive(Clone, Debug, PartialEq, Eq)]
pub struct DnsRecord {
    pub device_id: String,
    pub name: String,
    pub record_type: String,
    pub value: String,
}

#[derive(Clone, Debug, PartialEq, Eq)]
pub struct NetworkMapResponse {
    pub network_map_version: i64,
    pub self_device: NetworkMapSelf,
    pub peers: Vec<NetworkMapPeer>,
    pub relays: Vec<RelayMetadata>,
    pub dns_records: Vec<DnsRecord>,
}

#[derive(Clone, Debug, PartialEq, Eq)]
pub struct NetworkMapSelf {
    pub device_id: String,
    pub hostname: String,
    pub ipv4: String,
    pub backend_type: String,
}

#[derive(Clone, Debug, PartialEq, Eq)]
pub struct NetworkMapPeer {
    pub device_id: String,
    pub hostname: String,
    pub ipv4: String,
    pub backend_type: String,
    pub backend_public_credential: String,
    pub endpoints: Vec<EndpointPayload>,
    pub allowed_routes: Vec<String>,
}

#[derive(Clone, Debug, PartialEq, Eq)]
pub struct RelayMetadata {
    pub relay_id: String,
    pub url: String,
    pub region: String,
    pub healthy: bool,
}

/// A line of the relay protocol.
#[derive(Clone, Debug, PartialEq, Eq)]
pub enum RelayMessage {
    Register { device_id: String, node_key: String },
    Frame { source_device_id: String, destination_device_id: String, payload: String },
    Error { message: String },
}

} // verus!
