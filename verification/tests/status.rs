use tfscale::backend::{CustomBackendState, PeerPathKind, PeerPathState, StoredPeerSession};
use tfscale::ip::{IpAddress, Ipv4Address};
use tfscale::net::{BackendType, Endpoint, EndpointKind, PeerPathDiagnosticKind, TransportProtocol};
use tfscale::runtime::RuntimeState;
use tfscale::status::{backend_status, direct_path_status, fast_probe_status, format_endpoint, peer_path_diagnostics};
use tfscale::transport::TransportStatus;
use tfscale::tun::TunStatus;

fn endpoint(address: [u8; 4], port: u16) -> Endpoint {
    Endpoint {
        kind: EndpointKind::Lan,
        address: IpAddress::V4(Ipv4Address(address)),
        port,
        protocol: TransportProtocol::Udp,
    }
}

fn direct(address: [u8; 4], port: u16, rtt: Option<u64>) -> PeerPathState {
    let mut state = PeerPathState::new();
    state.current_path = PeerPathKind::Direct;
    state.active_endpoint = Some(endpoint(address, port));
    state.rtt_ms = rtt;
    state.fast_probe_attempts_remaining = 0;
    state
}

fn stored(device_id: &str) -> StoredPeerSession {
    StoredPeerSession {
        device_id: device_id.to_string(),
        hostname: "peer".to_string(),
        overlay_ip: Ipv4Address([100, 64, 0, 3]),
        public_key: "tfpk1_x".to_string(),
        endpoints: Vec::new(),
        allowed_routes: Vec::new(),
        last_updated_at_unix_seconds: 0,
    }
}

fn disk() -> RuntimeState {
    RuntimeState::from_persisted(CustomBackendState::empty())
}

#[test]
fn formats_endpoints_as_socket_addresses() {
    assert_eq!(format_endpoint(&endpoint([192, 168, 1, 30], 51820)), "192.168.1.30:51820");
    let v6 = Endpoint {
        kind: EndpointKind::Ipv6,
        address: IpAddress::V6([0, 0, 0, 0, 0, 0, 0, 1]),
        port: 443,
        protocol: TransportProtocol::Udp,
    };
    assert_eq!(format_endpoint(&v6), "::1:443");
}

#[test]
fn lists_direct_paths_sorted() {
    let paths = vec![
        ("dev_b".to_string(), direct([10, 0, 0, 2], 2, None)),
        ("dev_c".to_string(), PeerPathState::new()),
        ("dev_a".to_string(), direct([10, 0, 0, 1], 1, Some(7))),
    ];

    assert_eq!(direct_path_status(&paths), "dev_a@10.0.0.1:1/rtt=7ms,dev_b@10.0.0.2:2/rtt=-");
    assert_eq!(direct_path_status(&[]), "none");
    assert_eq!(fast_probe_status(&paths), "1");
}

#[test]
fn reports_peer_diagnostics_from_paths() {
    let peers = vec![stored("dev_a"), stored("dev_b")];
    let paths = vec![("dev_a".to_string(), direct([10, 0, 0, 1], 1, Some(7)))];

    let diagnostics = peer_path_diagnostics(&peers, &paths, 3, 4);

    assert_eq!(diagnostics.len(), 2);
    assert_eq!(diagnostics[0].path, PeerPathDiagnosticKind::Direct);
    assert_eq!(diagnostics[0].endpoint.as_deref(), Some("10.0.0.1:1"));
    assert_eq!(diagnostics[0].rtt_ms, Some(7));
    assert_eq!(diagnostics[0].tx_packets, 3);
    assert_eq!(diagnostics[1].path, PeerPathDiagnosticKind::Unknown);
    assert_eq!(diagnostics[1].endpoint, None);
}

#[test]
fn status_reports_skipped_tun_setup() {
    let transport = TransportStatus { udp_bound: true, local_endpoints: 1, ..TransportStatus::default() };
    let tun = Some(TunStatus::failed("tfscale0", "TUN setup skipped"));

    let status = backend_status("tfscale0", &disk(), &[], &tun, &Some(transport), false);

    assert_eq!(status.backend_type, BackendType::Custom("tfscale".to_string()));
    assert!(!status.healthy);
    let message = status.message.expect("status message");
    assert!(message.contains("udp_bound=true"));
    assert!(message.contains("transport_running=false"));
    assert!(message.contains("local_endpoints=1"));
    assert!(message.contains("tun_configured=false"));
    assert!(message.contains("tun_io_ready=false"));
    assert!(message.contains("TUN setup skipped"));
}

#[test]
fn status_is_healthy_when_everything_runs() {
    let transport = TransportStatus { udp_bound: true, tx_packets: 1, ..TransportStatus::default() };
    let tun = Some(TunStatus::configured("tfscale0"));
    let paths = vec![("dev_a".to_string(), direct([10, 0, 0, 1], 1, Some(7)))];

    let status = backend_status("tfscale0", &disk(), &paths, &tun, &Some(transport), true);

    assert!(status.healthy);
    let message = status.message.expect("status message");
    assert!(message.starts_with("custom backend state: credentials=false local_config=false peers=0"));
    assert!(message.contains("tx_packets=1"));
    assert!(message.contains("direct_peers=1 relay_peers=0"));
    assert!(message.contains("direct_paths=dev_a@10.0.0.1:1/rtt=7ms"));
    assert!(message.ends_with("data_plane=transport_ready"));
}
