use tfscale::agent::{
    apply_registration, choose_hostname, device_credentials, dns_listen_parts, dns_resolver_plan,
    doctor_report_lines, endpoint_from_backend_probe, endpoint_from_probe_response, endpoint_to_config,
    endpoint_to_payload, local_backend_config, needs_backend_credentials, network_map_changed,
    network_map_to_peer_configs, network_map_to_relay_configs, optional_bool_label, peer_to_config,
    public_endpoint_from_probes, record_dns_listener, sync_interval_seconds, udp_probe_server, AgentDoctorReport,
    AgentState, DoctorLevel,
};
use tfscale::ip::{IpAddress, Ipv4Address};
use tfscale::net::{
    BackendStatus, BackendType, Endpoint, EndpointKind, PeerPathDiagnostic, PeerPathDiagnosticKind,
    PublicEndpointProbe, TransportProtocol,
};
use tfscale::protocol::{
    DnsRecord, EndpointPayload, EndpointProbeResponse, NetworkMapPeer, RegisterDeviceResponse, RelayMetadata,
};
use tfscale::resolver::{self, ConfigRead, ResolverConfig, ResolverPlatform, ResolverStatus};

fn test_backend_status(peers: Vec<PeerPathDiagnostic>, healthy: bool) -> BackendStatus {
    BackendStatus {
        backend_type: BackendType::Tfscale,
        interface_name: "tfscale0".to_string(),
        healthy,
        message: Some("test backend".to_string()),
        peers,
    }
}

fn test_peer_path(device_id: &str, path: PeerPathDiagnosticKind) -> PeerPathDiagnostic {
    PeerPathDiagnostic {
        device_id: device_id.to_string(),
        path,
        endpoint: None,
        rtt_ms: None,
        failures: 0,
        tx_packets: 0,
        rx_packets: 0,
    }
}

fn test_endpoint_payload(kind: &str, address: &str, port: u16, protocol: &str) -> EndpointPayload {
    EndpointPayload {
        kind: kind.to_string(),
        address: address.to_string(),
        port,
        protocol: protocol.to_string(),
        source: None,
        priority: None,
        expires_at: None,
    }
}

fn resolver_not_installed() -> ResolverStatus {
    let plan = resolver::linux_systemd_resolved_plan(&ResolverConfig::default_config());
    resolver::status(&plan, &ConfigRead::NotFound)
}

fn registered_state() -> AgentState {
    let mut state = AgentState::new().expect("agent state");
    state.device_id = Some("dev_self".to_string());
    state.node_key = Some("node_self".to_string());
    state.network_id = Some("net_default".to_string());
    state.ipv4 = Some("100.64.0.2".to_string());
    state.dns_enabled = true;
    state.dns_healthy = true;
    state.dns_listen = "127.0.0.1:1053".to_string();
    state.dns_records = vec![DnsRecord {
        device_id: "dev_peer".to_string(),
        name: "peer.mesh".to_string(),
        record_type: "A".to_string(),
        value: "100.64.0.3".to_string(),
    }];
    state
}

#[test]
fn doctor_reports_unregistered_agent_failure() {
    let state = AgentState::new().expect("agent state");
    let status = test_backend_status(Vec::new(), true);

    let report = AgentDoctorReport::from_state_and_status(&state, &status, &resolver_not_installed());

    assert_eq!(report.overall, DoctorLevel::Fail);
    assert_eq!(
        report.checks.iter().find(|check| check.id == "state.registered").expect("registered check").level,
        DoctorLevel::Fail
    );
}

#[test]
fn doctor_reports_dns_snapshot_and_peer_summary() {
    let state = registered_state();
    let status = test_backend_status(
        vec![
            test_peer_path("dev_a", PeerPathDiagnosticKind::Direct),
            test_peer_path("dev_b", PeerPathDiagnosticKind::Relay),
        ],
        true,
    );

    let report = AgentDoctorReport::from_state_and_status(&state, &status, &resolver_not_installed());

    assert_eq!(
        report.checks.iter().find(|check| check.id == "dns.snapshot").expect("dns snapshot check").level,
        DoctorLevel::Pass
    );
    assert_eq!(
        report.checks.iter().find(|check| check.id == "backend.peers").expect("peer check").summary,
        "direct=1 relay=1 unknown=0"
    );
}

#[test]
fn doctor_overall_is_worst_check() {
    let state = registered_state();
    let status = test_backend_status(vec![test_peer_path("dev_a", PeerPathDiagnosticKind::Direct)], false);

    let report = AgentDoctorReport::from_state_and_status(&state, &status, &resolver_not_installed());

    assert_eq!(report.checks.len(), 6);
    let worst = report.checks.iter().map(|c| c.level).fold(DoctorLevel::Pass, |a, b| match (a, b) {
        (DoctorLevel::Fail, _) | (_, DoctorLevel::Fail) => DoctorLevel::Fail,
        (DoctorLevel::Warn, _) | (_, DoctorLevel::Warn) => DoctorLevel::Warn,
        _ => DoctorLevel::Pass,
    });
    assert_eq!(report.overall, worst);
    for pair in report.next_steps.windows(2) {
        assert_ne!(pair[0], pair[1]);
    }
}

#[test]
fn doctor_lines_start_with_overall_level() {
    let state = AgentState::new().expect("agent state");
    let report = AgentDoctorReport::from_state_and_status(
        &state,
        &test_backend_status(Vec::new(), true),
        &resolver_not_installed(),
    );

    let lines = doctor_report_lines(&report);

    assert_eq!(lines[0], "tf-scale doctor overall=FAIL");
    assert_eq!(lines[1], "");
    assert!(lines[2].starts_with("FAIL state.registered"));
    assert!(lines.iter().any(|line| line == "Next:"));
}

#[test]
fn converts_network_map_peer_to_backend_config() {
    let peers = vec![NetworkMapPeer {
        device_id: "dev_test".to_string(),
        hostname: "devbox".to_string(),
        ipv4: "100.64.0.3".to_string(),
        backend_type: "tfscale".to_string(),
        backend_public_credential: "peer-public-key".to_string(),
        endpoints: vec![test_endpoint_payload("lan", "192.168.1.30", 51820, "udp")],
        allowed_routes: vec!["100.64.0.3/32".to_string()],
    }];

    let configs = network_map_to_peer_configs(&peers).expect("peer config conversion");

    assert_eq!(configs.len(), 1);
    assert_eq!(configs[0].device_id.as_str(), "dev_test");
    assert_eq!(configs[0].hostname, "devbox");
    assert_eq!(configs[0].overlay_ip, Ipv4Address::new(100, 64, 0, 3));
    assert_eq!(configs[0].public_credential.public, "peer-public-key");
    assert_eq!(configs[0].endpoints[0].kind, EndpointKind::Lan);
    assert_eq!(configs[0].endpoints[0].protocol, TransportProtocol::Udp);
    assert_eq!(configs[0].allowed_routes, vec!["100.64.0.3/32"]);
}

#[test]
fn converts_backend_endpoint_to_heartbeat_payload() {
    let payload = endpoint_to_payload(Endpoint {
        kind: EndpointKind::Lan,
        address: IpAddress::V4(Ipv4Address::new(192, 168, 1, 30)),
        port: 51820,
        protocol: TransportProtocol::Udp,
    });

    assert_eq!(payload.kind, "lan");
    assert_eq!(payload.address, "192.168.1.30");
    assert_eq!(payload.port, 51820);
    assert_eq!(payload.protocol, "udp");
    assert_eq!(payload.source.as_deref(), Some("local"));
    assert_eq!(payload.priority, Some(100));
    assert_eq!(payload.expires_at, None);
}

#[test]
fn converts_ipv6_endpoint_to_payload_text() {
    let payload = endpoint_to_payload(Endpoint {
        kind: EndpointKind::Ipv6,
        address: IpAddress::V6([0x2001, 0xdb8, 0, 0, 0, 0, 0, 1]),
        port: 51820,
        protocol: TransportProtocol::Udp,
    });

    assert_eq!(payload.kind, "ipv6");
    assert_eq!(payload.address, "2001:db8::1");
}

#[test]
fn converts_probe_response_to_public_endpoint() {
    let endpoint = endpoint_from_probe_response(EndpointProbeResponse {
        observed_address: "203.0.113.10".to_string(),
        observed_port: 49201,
        protocol: "udp".to_string(),
        udp_probe_address: None,
        udp_probe_port: None,
    })
    .expect("public endpoint");

    assert_eq!(endpoint.kind, "public");
    assert_eq!(endpoint.address, "203.0.113.10");
    assert_eq!(endpoint.port, 49201);
    assert_eq!(endpoint.protocol, "udp");
    assert_eq!(endpoint.source.as_deref(), Some("stun"));
    assert_eq!(endpoint.priority, Some(50));
}

#[test]
fn skips_probe_response_without_port() {
    let endpoint = endpoint_from_probe_response(EndpointProbeResponse {
        observed_address: "203.0.113.10".to_string(),
        observed_port: 0,
        protocol: "udp".to_string(),
        udp_probe_address: None,
        udp_probe_port: None,
    });

    assert!(endpoint.is_none());
}

#[test]
fn parses_udp_probe_server_from_probe_response() {
    let server = udp_probe_server(&EndpointProbeResponse {
        observed_address: "203.0.113.10".to_string(),
        observed_port: 49201,
        protocol: "udp".to_string(),
        udp_probe_address: Some("127.0.0.1".to_string()),
        udp_probe_port: Some(3478),
    })
    .expect("probe server")
    .expect("probe server");

    assert_eq!(server, (IpAddress::V4(Ipv4Address::new(127, 0, 0, 1)), 3478));
}

#[test]
fn rejects_invalid_probe_server_address() {
    let error = udp_probe_server(&EndpointProbeResponse {
        observed_address: "203.0.113.10".to_string(),
        observed_port: 49201,
        protocol: "udp".to_string(),
        udp_probe_address: Some("not-an-ip".to_string()),
        udp_probe_port: Some(3478),
    })
    .expect_err("bad address");

    assert_eq!(error, "invalid IP address syntax");
}

#[test]
fn converts_backend_probe_to_public_endpoint_payload() {
    let endpoint = endpoint_from_backend_probe(Endpoint {
        kind: EndpointKind::Public,
        address: IpAddress::V4(Ipv4Address::new(203, 0, 113, 10)),
        port: 49201,
        protocol: TransportProtocol::Udp,
    });

    assert_eq!(endpoint.kind, "public");
    assert_eq!(endpoint.address, "203.0.113.10");
    assert_eq!(endpoint.port, 49201);
    assert_eq!(endpoint.protocol, "udp");
    assert_eq!(endpoint.source.as_deref(), Some("stun"));
    assert_eq!(endpoint.priority, Some(50));
}

#[test]
fn backend_probe_wins_over_control_observation() {
    let response = EndpointProbeResponse {
        observed_address: "198.51.100.1".to_string(),
        observed_port: 1000,
        protocol: "udp".to_string(),
        udp_probe_address: None,
        udp_probe_port: None,
    };
    let probe = PublicEndpointProbe {
        observed_endpoint: Endpoint {
            kind: EndpointKind::Public,
            address: IpAddress::V4(Ipv4Address::new(203, 0, 113, 10)),
            port: 49201,
            protocol: TransportProtocol::Udp,
        },
    };

    let endpoint = public_endpoint_from_probes(response.clone(), Some(probe)).expect("endpoint");
    assert_eq!(endpoint.address, "203.0.113.10");

    let fallback = public_endpoint_from_probes(response, None).expect("fallback");
    assert_eq!(fallback.address, "198.51.100.1");
}

#[test]
fn rejects_invalid_peer_overlay_ip() {
    let peer = NetworkMapPeer {
        device_id: "dev_test".to_string(),
        hostname: "devbox".to_string(),
        ipv4: "not-an-ip".to_string(),
        backend_type: "tfscale".to_string(),
        backend_public_credential: "peer-public-key".to_string(),
        endpoints: Vec::new(),
        allowed_routes: Vec::new(),
    };

    let error = peer_to_config(&peer).expect_err("invalid IP should fail");

    assert!(error.contains("invalid peer overlay IP"));
}

#[test]
fn rejects_unknown_endpoint_kind() {
    let endpoint = test_endpoint_payload("bluetooth", "192.168.1.30", 51820, "udp");

    let error = endpoint_to_config(&endpoint).expect_err("unknown kind should fail");

    assert!(error.contains("unsupported endpoint kind"));
}

#[test]
fn rejects_unknown_endpoint_protocol_and_address() {
    let error = endpoint_to_config(&test_endpoint_payload("lan", "192.168.1.30", 1, "sctp")).expect_err("protocol");
    assert_eq!(error, "unsupported endpoint protocol: sctp");

    let error = endpoint_to_config(&test_endpoint_payload("lan", "192.168.1", 1, "udp")).expect_err("address");
    assert_eq!(error, "invalid endpoint address: 192.168.1");
}

#[test]
fn keeps_only_healthy_relays() {
    let relays = vec![
        RelayMetadata {
            relay_id: "relay_1".to_string(),
            url: "tcp://127.0.0.1:9443".to_string(),
            region: "local".to_string(),
            healthy: true,
        },
        RelayMetadata {
            relay_id: "relay_down".to_string(),
            url: "tcp://127.0.0.1:9444".to_string(),
            region: "local".to_string(),
            healthy: false,
        },
    ];

    let configs = network_map_to_relay_configs(&relays);

    assert_eq!(configs.len(), 1);
    assert_eq!(configs[0].relay_id, "relay_1");
    assert_eq!(configs[0].url, "tcp://127.0.0.1:9443");
}

#[test]
fn decides_when_credentials_and_maps_are_needed() {
    let mut state = AgentState::new().expect("agent state");
    assert!(needs_backend_credentials(&state));
    state.backend_public_credential = "tfpk_stale".to_string();
    assert!(needs_backend_credentials(&state));
    state.device_id = Some("dev_self".to_string());
    assert!(!needs_backend_credentials(&state));

    assert!(network_map_changed(None, 1));
    assert!(!network_map_changed(Some(1), 1));
    assert!(network_map_changed(Some(1), 2));

    assert_eq!(sync_interval_seconds(&state), 5);
    state.poll_interval_seconds = 0;
    assert_eq!(sync_interval_seconds(&state), 1);
}

#[test]
fn reports_missing_registration_fields() {
    let mut state = AgentState::new().expect("agent state");
    assert_eq!(device_credentials(&state), Err("agent state is missing device ID".to_string()));
    assert_eq!(
        local_backend_config(&state).expect_err("no ip"),
        "agent state is missing assigned overlay IP"
    );

    apply_registration(
        &mut state,
        RegisterDeviceResponse {
            device_id: "dev_self".to_string(),
            node_key: "node_self".to_string(),
            network_id: "net_default".to_string(),
            ipv4: "100.64.0.2".to_string(),
            poll_interval_seconds: 5,
        },
    );

    assert_eq!(device_credentials(&state), Ok(("dev_self".to_string(), "node_self".to_string())));
    let config = local_backend_config(&state).expect("local config");
    assert_eq!(config.overlay_ip, Ipv4Address::new(100, 64, 0, 2));
    assert_eq!(config.interface_name, "tfscale0");
    assert_eq!(config.listen_port, 51820);

    state.ipv4 = Some("not-an-ip".to_string());
    assert_eq!(
        local_backend_config(&state).expect_err("bad ip"),
        "agent state contains invalid overlay IP"
    );
}

#[test]
fn records_dns_listener_outcome() {
    let mut state = AgentState::new().expect("agent state");
    record_dns_listener(&mut state, "127.0.0.1:1053".to_string(), Some("address in use".to_string()));

    assert!(state.dns_enabled);
    assert!(!state.dns_healthy);
    assert_eq!(state.dns_message.as_deref(), Some("DNS proxy failed to bind: address in use"));

    record_dns_listener(&mut state, "127.0.0.1:1053".to_string(), None);
    assert!(state.dns_healthy);
    assert_eq!(state.dns_message.as_deref(), Some("DNS proxy listening"));
}

#[test]
fn plans_resolver_from_dns_listen_address() {
    let mut state = AgentState::new().expect("agent state");
    state.dns_listen = "127.0.0.53:5353".to_string();

    assert_eq!(dns_listen_parts("127.0.0.53:5353"), ("127.0.0.53".to_string(), 5353));
    assert_eq!(dns_listen_parts("garbage"), ("127.0.0.1".to_string(), 1053));

    let plan = dns_resolver_plan("macos", &state);
    assert_eq!(plan.platform, ResolverPlatform::MacosResolver);
    assert_eq!(plan.install_content, "nameserver 127.0.0.53\nport 5353\n");

    let plan = dns_resolver_plan("linux", &state);
    assert_eq!(plan.install_content, "[Resolve]\nDNS=127.0.0.53:5353\nDomains=~mesh\n");
}

#[test]
fn chooses_hostname_from_env_then_command() {
    assert_eq!(choose_hostname(Some("envhost".to_string()), Some(b"cmdhost\n".to_vec())), "envhost");
    assert_eq!(choose_hostname(Some(String::new()), Some(b"  cmdhost\n".to_vec())), "cmdhost");
    assert_eq!(choose_hostname(None, Some(b"   \n".to_vec())), "tfscale-node");
    assert_eq!(choose_hostname(None, Some(vec![0xff, 0xfe])), "tfscale-node");
    assert_eq!(choose_hostname(None, None), "tfscale-node");
}

#[test]
fn labels_optional_flags() {
    assert_eq!(optional_bool_label(Some(true)), "true");
    assert_eq!(optional_bool_label(Some(false)), "false");
    assert_eq!(optional_bool_label(None), "unknown");
}

#[test]
fn builds_linux_systemd_resolved_plan() {
    let plan = resolver::linux_systemd_resolved_plan(&ResolverConfig::default_config());

    assert_eq!(plan.platform, ResolverPlatform::LinuxSystemdResolved);
    assert_eq!(plan.config_path, resolver::LINUX_RESOLVED_CONF);
    assert!(plan.install_content.contains("DNS=127.0.0.1:1053"));
    assert!(plan.install_content.contains("Domains=~mesh"));
    assert_eq!(
        plan.reload_commands,
        vec![vec!["systemctl".to_string(), "reload".to_string(), "systemd-resolved".to_string()]]
    );
}

#[test]
fn builds_macos_resolver_plan() {
    let plan = resolver::macos_resolver_plan(&ResolverConfig::default_config());

    assert_eq!(plan.platform, ResolverPlatform::MacosResolver);
    assert_eq!(plan.config_path, "/etc/resolver/mesh");
    assert_eq!(plan.install_content, "nameserver 127.0.0.1\nport 1053\n");
    assert!(plan.reload_commands.is_empty());
}

#[test]
fn status_reports_matching_installed_config() {
    let plan = resolver::ResolverPlan {
        platform: ResolverPlatform::LinuxSystemdResolved,
        config_path: "/tmp/tfscale-magicdns.conf".to_string(),
        install_content: "[Resolve]\nDNS=127.0.0.1:1053\nDomains=~mesh\n".to_string(),
        reload_commands: Vec::new(),
        uninstall_paths: vec!["/tmp/tfscale-magicdns.conf".to_string()],
    };

    let status = resolver::status(&plan, &ConfigRead::Content(plan.install_content.clone()));

    assert!(status.installed);
    assert!(status.content_matches);
}

#[test]
fn status_reports_mismatched_and_missing_config() {
    let plan = resolver::macos_resolver_plan(&ResolverConfig::default_config());

    let mismatched = resolver::status(&plan, &ConfigRead::Content("nameserver 1.1.1.1\n".to_string()));
    assert!(mismatched.installed);
    assert!(!mismatched.content_matches);
    assert_eq!(mismatched.platform, "macos-resolver");

    let missing = resolver::status(&plan, &ConfigRead::NotFound);
    assert!(!missing.installed);
    assert_eq!(missing.message.as_deref(), Some("resolver config is not installed"));

    let failed = resolver::status(&plan, &ConfigRead::Failed("permission denied".to_string()));
    assert_eq!(failed.message.as_deref(), Some("failed to read resolver config: permission denied"));
}

#[test]
fn builds_probe_and_registration_requests() {
    let request = tfscale::agent::endpoint_probe_request("dev_a", "node_a");
    assert_eq!(request.device_id, "dev_a");
    assert_eq!(request.node_key, "node_a");
    assert_eq!(request.protocol, "udp");

    let mut state = AgentState::new().expect("agent state");
    state.backend_public_credential = "tfpk1_x".to_string();
    let registration = tfscale::agent::registration_request(&state, "tfkey", "devbox", "linux", "x86_64", "0.1.0");
    assert_eq!(registration.auth_key, "tfkey");
    assert_eq!(registration.hostname, "devbox");
    assert_eq!(registration.machine_key, state.machine_key);
    assert_eq!(registration.backend_type, "tfscale");
    assert_eq!(registration.backend_public_credential, "tfpk1_x");
    assert!(state.machine_key.starts_with("machine_"));
}

#[test]
fn heartbeat_carries_backend_status() {
    let status = test_backend_status(Vec::new(), true);
    let request = tfscale::agent::heartbeat_request("dev_a", "node_a", Vec::new(), &status);

    assert_eq!(request.backend_status.backend_type, "tfscale");
    assert_eq!(request.backend_status.interface, "tfscale0");
    assert!(request.backend_status.healthy);
}

fn registered_without_node() -> AgentState {
    let mut state = AgentState::new().expect("agent state");
    state.device_id = Some("dev_self".to_string());
    state.ipv4 = Some("100.64.0.2".to_string());
    state
}

#[test]
fn new_agent_state_gets_backend_credentials_from_backend() {
    let state = AgentState::new().expect("agent state");

    assert!(needs_backend_credentials(&state));
}

#[test]
fn unregistered_agent_state_refreshes_stale_backend_credentials() {
    let mut state = AgentState::new().expect("agent state");
    state.backend_public_credential = "tfpk_stale".to_string();
    state.device_id = None;

    assert!(needs_backend_credentials(&state));
}

#[test]
fn applies_network_map_to_backend() {
    let state = registered_without_node();
    let peers = vec![NetworkMapPeer {
        device_id: "dev_peer".to_string(),
        hostname: "peer".to_string(),
        ipv4: "100.64.0.3".to_string(),
        backend_type: "tfscale".to_string(),
        backend_public_credential: "peer-public-key".to_string(),
        endpoints: vec![test_endpoint_payload("lan", "192.168.1.30", 51820, "udp")],
        allowed_routes: vec!["100.64.0.3/32".to_string()],
    }];

    let local_config = local_backend_config(&state).expect("apply network map");
    let relay_map = network_map_to_relay_configs(&[]);
    let peer_map = network_map_to_peer_configs(&peers).expect("apply network map");

    assert_eq!(local_config.overlay_ip, Ipv4Address::new(100, 64, 0, 2));
    assert_eq!(peer_map.len(), 1);
    assert_eq!(peer_map[0].device_id.as_str(), "dev_peer");
    assert_eq!(peer_map[0].hostname, "peer");
    assert!(relay_map.is_empty());
}

#[test]
fn applies_relay_map_to_backend() {
    let relays = vec![
        RelayMetadata {
            relay_id: "relay_1".to_string(),
            url: "tcp://127.0.0.1:9443".to_string(),
            region: "local".to_string(),
            healthy: true,
        },
        RelayMetadata {
            relay_id: "relay_down".to_string(),
            url: "tcp://127.0.0.1:9444".to_string(),
            region: "local".to_string(),
            healthy: false,
        },
    ];

    let relay_map = network_map_to_relay_configs(&relays);

    assert_eq!(relay_map.len(), 1);
    assert_eq!(relay_map[0].relay_id, "relay_1");
    assert_eq!(relay_map[0].url, "tcp://127.0.0.1:9443");
}

#[test]
fn skips_unchanged_network_map_version() {
    assert!(!network_map_changed(Some(7), 7));
}

#[test]
fn applies_changed_network_map_version() {
    assert!(network_map_changed(Some(7), 8));
}
