use tfscale::agent::DEFAULT_INTERFACE_NAME;
use tfscale::backend::{
    check_identity, custom_backend_type, encode_probe_response_payload, expire_path, generate_identity,
    identity_from_key, mark_path_direct, peer_path_probe_due, peer_to_session_at, peers_to_sessions_at,
    probe_payload, probe_response_rtt_ms, record_path_probe, relay_endpoint, relay_session_target,
    relay_tcp_addr, validate_state_version, CredentialCheck, CustomBackendState, PeerPathKind,
    PeerPathState, StoredPeerSession, DIRECT_FAST_PROBE_BURST_ATTEMPTS, DIRECT_FAST_PROBE_INTERVAL_NANOS,
    DIRECT_PROBE_FAILURE_THRESHOLD, DIRECT_PROBE_INTERVAL_NANOS, DIRECT_PROBE_STALE_AFTER_NANOS,
};
use tfscale::crypto::encode_public_credential;
use tfscale::ip::{IpAddress, Ipv4Address};
use tfscale::net::{
    BackendCredential, BackendType, Endpoint, EndpointKind, LocalBackendConfig, PeerConfig, RelayConfig,
    TransportProtocol,
};
use tfscale::protocol::RelayMessage;
use tfscale::runtime::{build_sessions_with_salts, InboundAction, OutboundFrame, RuntimeState};

const NOW: u128 = 1_700_000_000_000_000_000;

fn endpoint(address: [u8; 4], port: u16) -> Endpoint {
    Endpoint {
        kind: EndpointKind::Lan,
        address: IpAddress::V4(Ipv4Address(address)),
        port,
        protocol: TransportProtocol::Udp,
    }
}

fn relay() -> RelayConfig {
    RelayConfig {
        relay_id: "relay_1".to_string(),
        url: "tcp://127.0.0.1:9443".to_string(),
        region: "local".to_string(),
    }
}

fn empty_runtime(path: PeerPathState, relays: Vec<RelayConfig>) -> RuntimeState {
    RuntimeState {
        persisted: CustomBackendState::empty(),
        overlay_index: Vec::new(),
        crypto_keys: Vec::new(),
        udp_endpoints: Vec::new(),
        frame_ids: Vec::new(),
        sessions: Vec::new(),
        path_states: vec![("dev_peer".to_string(), path)],
        relays,
    }
}

fn stale_direct_path() -> PeerPathState {
    let mut state = PeerPathState::new();
    state.current_path = PeerPathKind::Direct;
    state.active_endpoint = Some(endpoint([127, 0, 0, 1], 51820));
    state.last_success_at = Some(NOW - DIRECT_PROBE_STALE_AFTER_NANOS);
    state.failures = DIRECT_PROBE_FAILURE_THRESHOLD - 1;
    state.rtt_ms = Some(3);
    state
}

#[test]
fn defaults_to_tfscale_interface_name() {
    assert_eq!(DEFAULT_INTERFACE_NAME, "tfscale0");
}

#[test]
fn probe_interval_limits_repeated_direct_probes() {
    let mut state = PeerPathState::new();

    assert!(peer_path_probe_due(&state, NOW));
    state.last_probe_at = Some(NOW);

    assert!(!peer_path_probe_due(&state, NOW));
}

#[test]
fn fast_probe_window_uses_short_interval_for_unknown_paths() {
    let mut state = PeerPathState::new();
    state.last_probe_at = Some(NOW - DIRECT_FAST_PROBE_INTERVAL_NANOS);

    assert!(peer_path_probe_due(&state, NOW));

    state.fast_probe_attempts_remaining = 0;
    assert!(!peer_path_probe_due(&state, NOW));
}

#[test]
fn direct_paths_do_not_use_fast_probe_window() {
    let mut state = PeerPathState::new();
    state.current_path = PeerPathKind::Direct;
    state.last_probe_at = Some(NOW - DIRECT_FAST_PROBE_INTERVAL_NANOS);
    state.fast_probe_attempts_remaining = DIRECT_FAST_PROBE_BURST_ATTEMPTS;

    assert!(!peer_path_probe_due(&state, NOW));
    assert!(peer_path_probe_due(&state, NOW + DIRECT_PROBE_INTERVAL_NANOS));
}

#[test]
fn stale_direct_path_downgrades_to_unknown() {
    let mut runtime = empty_runtime(stale_direct_path(), Vec::new());

    runtime.expire_stale_direct_paths(NOW);

    let state = runtime.path_states[0].1;
    assert_eq!(runtime.path_states[0].0, "dev_peer");
    assert_eq!(state.current_path, PeerPathKind::Unknown);
    assert_eq!(state.active_endpoint, None);
    assert_eq!(state.rtt_ms, None);
}

#[test]
fn stale_direct_path_falls_back_to_relay_when_available() {
    let mut runtime = empty_runtime(stale_direct_path(), vec![relay()]);

    runtime.expire_stale_direct_paths(NOW);

    let state = runtime.path_states[0].1;
    assert_eq!(state.current_path, PeerPathKind::Relay);
    assert_eq!(state.active_endpoint.expect("relay endpoint").kind, EndpointKind::Relay);
}

#[test]
fn fresh_direct_path_is_kept() {
    let mut state = stale_direct_path();
    state.last_success_at = Some(NOW - 1);

    expire_path(&mut state, NOW, None);

    assert_eq!(state.current_path, PeerPathKind::Direct);
    assert_eq!(state.failures, DIRECT_PROBE_FAILURE_THRESHOLD - 1);
}

#[test]
fn marking_direct_resets_failures_and_fast_probes() {
    let mut state = PeerPathState::new();
    state.failures = 5;

    mark_path_direct(&mut state, endpoint([10, 0, 0, 1], 4000), Some(12), NOW);

    assert_eq!(state.current_path, PeerPathKind::Direct);
    assert_eq!(state.failures, 0);
    assert_eq!(state.fast_probe_attempts_remaining, 0);
    assert_eq!(state.rtt_ms, Some(12));
    assert_eq!(state.last_success_at, Some(NOW));
}

#[test]
fn recording_a_probe_spends_a_fast_probe() {
    let mut state = PeerPathState::new();

    record_path_probe(&mut state, NOW, 1000);

    assert_eq!(state.last_probe_at, Some(NOW));
    assert_eq!(state.last_probe_sent_at_unix_millis, Some(1000));
    assert_eq!(state.fast_probe_attempts_remaining, DIRECT_FAST_PROBE_BURST_ATTEMPTS - 1);
    assert_eq!(state.failures, 1);
}

#[test]
fn computes_probe_response_rtt() {
    let response = encode_probe_response_payload(b"probe 1000", 5000);

    assert_eq!(response, b"probe_response 1000");
    assert_eq!(probe_response_rtt_ms(&response, 1042), Some(42));
}

#[test]
fn probe_response_falls_back_to_now_for_garbage() {
    assert_eq!(encode_probe_response_payload(b"hello", 77), b"probe_response 77");
    assert_eq!(probe_response_rtt_ms(b"probe_response x", 10), None);
    assert_eq!(probe_response_rtt_ms(b"probe_response 20", 10), None);
}

#[test]
fn probe_payload_carries_timestamp() {
    assert_eq!(probe_payload(1234), b"probe 1234");
    assert_eq!(probe_payload(0), b"probe 0");
}

#[test]
fn rejects_unsupported_state_version() {
    let mut state = CustomBackendState::empty();
    state.version = 99;

    let error = validate_state_version(&state).expect_err("unsupported version should fail");

    assert!(error.message().contains("unsupported custom backend state version"));
    assert!(validate_state_version(&CustomBackendState::empty()).is_ok());
}

#[test]
fn existing_identity_keeps_its_credential() {
    let identity = generate_identity().expect("identity");
    let mut state = CustomBackendState::empty();
    assert!(matches!(check_identity(&state), Ok(CredentialCheck::Generate)));

    state.identity = Some(identity.clone());
    match check_identity(&state) {
        Ok(CredentialCheck::Existing(public)) => assert_eq!(public, identity.public_key),
        _ => panic!("expected the stored identity"),
    }

    let mut mismatched = identity;
    mismatched.public_key = encode_public_credential([1; 32]);
    state.identity = Some(mismatched);
    let error = match check_identity(&state) {
        Err(error) => error,
        Ok(_) => panic!("mismatched key should fail"),
    };
    assert_eq!(error.message(), "backend command failed: stored public key does not match private key");
}

#[test]
fn identity_from_key_derives_credential() {
    let identity = identity_from_key([9; 32], 42).expect("identity");

    assert_eq!(identity.scheme, "x25519");
    assert!(identity.key_id.starts_with("kid_"));
    assert!(identity.public_key.starts_with("tfpk1_"));
    assert_eq!(identity.created_at_unix_seconds, 42);
    assert_eq!(identity.rotated_from, None);
}

fn peer(device_id: &str, credential: &str, ip: [u8; 4], endpoints: Vec<Endpoint>) -> PeerConfig {
    PeerConfig {
        device_id: device_id.to_string(),
        hostname: "peer".to_string(),
        overlay_ip: Ipv4Address(ip),
        public_credential: BackendCredential { public: credential.to_string() },
        endpoints,
        allowed_routes: vec![format!("{}.{}.{}.{}/32", ip[0], ip[1], ip[2], ip[3])],
    }
}

#[test]
fn rejects_unsupported_peer_credential_format() {
    let peers = vec![peer("dev_bad", "peer-public-key", [100, 64, 0, 9], Vec::new())];

    let error = peers_to_sessions_at(&peers, 5).expect_err("bad credential should fail");

    assert!(error.message().contains("unsupported peer credential prefix"));
}

#[test]
fn stores_peer_with_timestamp() {
    let credential = encode_public_credential([3; 32]);
    let stored = peer_to_session_at(&peer("dev_one", &credential, [100, 64, 0, 3], Vec::new()), 77)
        .expect("stored peer");

    assert_eq!(stored.device_id, "dev_one");
    assert_eq!(stored.public_key, credential);
    assert_eq!(stored.last_updated_at_unix_seconds, 77);
    assert_eq!(stored.allowed_routes, vec!["100.64.0.3/32".to_string()]);
}

#[test]
fn relay_target_needs_local_config_and_relay() {
    let config = LocalBackendConfig {
        device_id: "dev_self".to_string(),
        interface_name: "tfscale0".to_string(),
        overlay_ip: Ipv4Address([100, 64, 0, 2]),
        listen_port: 51820,
    };

    assert!(relay_session_target(&None, &[relay()]).is_none());
    assert!(relay_session_target(&Some(config.clone()), &[]).is_none());
    let (target, device) = relay_session_target(&Some(config), &[relay()]).expect("target");
    assert_eq!(target.relay_id, "relay_1");
    assert_eq!(device, "dev_self");
}

#[test]
fn relay_url_must_be_tcp() {
    assert_eq!(relay_tcp_addr("tcp://127.0.0.1:9443").expect("addr"), "127.0.0.1:9443");
    let error = relay_tcp_addr("udp://x").expect_err("not tcp");
    assert_eq!(error.message(), "backend command failed: unsupported relay URL: udp://x");
    assert_eq!(relay_endpoint(&relay()).kind, EndpointKind::Relay);
    assert_eq!(relay_endpoint(&relay()).protocol, TransportProtocol::Tcp);
}

#[test]
fn backend_type_is_custom() {
    assert_eq!(custom_backend_type(), BackendType::Custom("tfscale".to_string()));
}

fn device_id(n: u8) -> String {
    format!("dev_{:032x}", n as u128)
}

fn backend_state(
    local: &str,
    identity: tfscale::backend::CustomIdentity,
    local_ip: [u8; 4],
    peer_id: &str,
    peer_credential: &str,
    peer_ip: [u8; 4],
    peer_endpoint: Endpoint,
) -> CustomBackendState {
    let mut state = CustomBackendState::empty();
    state.identity = Some(identity);
    state.local_config = Some(LocalBackendConfig {
        device_id: local.to_string(),
        interface_name: "tfscale0".to_string(),
        overlay_ip: Ipv4Address(local_ip),
        listen_port: 51820,
    });
    state.peers = vec![StoredPeerSession {
        device_id: peer_id.to_string(),
        hostname: "peer".to_string(),
        overlay_ip: Ipv4Address(peer_ip),
        public_key: peer_credential.to_string(),
        endpoints: vec![peer_endpoint],
        allowed_routes: Vec::new(),
        last_updated_at_unix_seconds: 0,
    }];
    state
}

fn runtime_pair() -> (RuntimeState, RuntimeState, Endpoint, Endpoint) {
    let left_identity = generate_identity().expect("identity");
    let right_identity = generate_identity().expect("identity");
    let left_id = device_id(1);
    let right_id = device_id(2);
    let left_endpoint = endpoint([127, 0, 0, 1], 40001);
    let right_endpoint = endpoint([127, 0, 0, 1], 40002);
    let left = RuntimeState::from_persisted(backend_state(
        &left_id,
        left_identity.clone(),
        [100, 64, 0, 2],
        &right_id,
        &right_identity.public_key,
        [100, 64, 0, 3],
        right_endpoint,
    ));
    let right = RuntimeState::from_persisted(backend_state(
        &right_id,
        right_identity,
        [100, 64, 0, 3],
        &left_id,
        &left_identity.public_key,
        [100, 64, 0, 2],
        left_endpoint,
    ));
    (left, right, left_endpoint, right_endpoint)
}

fn packet_to(destination: [u8; 4]) -> Vec<u8> {
    let mut packet = vec![0u8; 24];
    packet[0] = 0x45;
    packet[16..20].copy_from_slice(&destination);
    packet[20..24].copy_from_slice(&[1, 2, 3, 4]);
    packet
}

#[test]
fn sends_overlay_packet_to_peer_udp_endpoint() {
    let (mut left, mut right, left_endpoint, right_endpoint) = runtime_pair();
    assert_eq!(left.sessions.len(), 1);
    let packet = packet_to([100, 64, 0, 3]);

    let outbound = left.send_overlay_packet(&packet).expect("send overlay packet");
    let OutboundFrame::Udp { endpoint, frame } = outbound else {
        panic!("expected a UDP frame");
    };
    assert_eq!(endpoint, right_endpoint);

    let inbound = right.open_received_frame(&frame, Some((left_endpoint.address, left_endpoint.port)), 1, NOW);
    assert!(!inbound.rx_drop);
    let Ok(InboundAction::Deliver(received)) = inbound.result else {
        panic!("expected delivery");
    };
    assert_eq!(received, packet);
}

#[test]
fn sends_overlay_packet_to_relay_when_peer_path_is_relay() {
    let (mut left, mut right, _, _) = runtime_pair();
    left.set_relays(vec![relay()]);
    left.path_states[0].1.current_path = PeerPathKind::Relay;
    let packet = packet_to([100, 64, 0, 3]);

    let outbound = left.send_overlay_packet(&packet).expect("send relay packet");
    let OutboundFrame::Relay(message) = outbound else {
        panic!("expected a relay frame");
    };
    let RelayMessage::Frame { source_device_id, destination_device_id, .. } = &message else {
        panic!("expected frame message");
    };
    assert_eq!(source_device_id, &device_id(1));
    assert_eq!(destination_device_id, &device_id(2));

    let inbound = right.open_relay_frame(message, 1, NOW);
    let Ok(InboundAction::Deliver(received)) = inbound.result else {
        panic!("expected delivery");
    };
    assert_eq!(received, packet);
}

#[test]
fn rejects_packet_without_peer() {
    let (mut left, _, _, _) = runtime_pair();

    let error = match left.send_overlay_packet(&packet_to([100, 64, 0, 9])) {
        Err(error) => error,
        Ok(_) => panic!("no peer should fail"),
    };

    assert_eq!(
        error.message(),
        "backend command failed: no peer session for overlay destination: 100.64.0.9"
    );
}

#[test]
fn direct_probe_round_trip_marks_peer_paths_direct() {
    let (mut left, mut right, left_endpoint, right_endpoint) = runtime_pair();
    assert!(left.peer_probe_due(&device_id(2), NOW));

    let probe = left.seal_probe(&device_id(2), 1000).expect("send probe");
    left.record_probe(&device_id(2), NOW, 1000);
    assert!(!left.peer_probe_due(&device_id(2), NOW));

    let inbound = right.open_received_frame(&probe, Some((left_endpoint.address, left_endpoint.port)), 1000, NOW);
    let Ok(InboundAction::ProbeReply { device_id: replied_to, endpoint, frame }) = inbound.result else {
        panic!("expected probe reply");
    };
    assert_eq!(replied_to, device_id(1));
    assert_eq!(endpoint.kind, EndpointKind::Public);
    assert_eq!((endpoint.address, endpoint.port), (left_endpoint.address, left_endpoint.port));
    right.probe_reply_sent(&replied_to, endpoint, Ok(frame.len()), NOW).expect("reply sent");
    let right_path = right.path_states.iter().find(|(id, _)| *id == device_id(1)).expect("peer path").1;
    assert_eq!(right_path.current_path, PeerPathKind::Direct);
    assert_eq!(right_path.active_endpoint, Some(endpoint));

    let response = left.open_received_frame(&frame, Some((right_endpoint.address, right_endpoint.port)), 1042, NOW);
    assert!(matches!(response.result, Ok(InboundAction::Nothing)));
    let left_path = left.path_states.iter().find(|(id, _)| *id == device_id(2)).expect("peer path").1;
    assert_eq!(left_path.current_path, PeerPathKind::Direct);
    assert_eq!(left_path.rtt_ms, Some(42));
    assert_eq!(left_path.failures, 0);
}

#[test]
fn probe_round_seals_one_probe_per_udp_endpoint() {
    let (mut left, mut right, left_endpoint, right_endpoint) = runtime_pair();
    let public = Endpoint { kind: EndpointKind::Public, ..endpoint([203, 0, 113, 10], 40003) };
    left.persisted.peers[0].endpoints.push(public);

    let frames = left.probe_peer_direct_paths(true, NOW, 1000).expect("probe round");

    assert_eq!(frames.len(), 2);
    assert_eq!(frames[0].0, right_endpoint);
    assert_eq!(frames[1].0, public);
    assert!(!left.peer_probe_due(&device_id(2), NOW));
    assert_eq!(left.sessions[0].crypto.send_nonces.counter, 2);

    let inbound = right.open_received_frame(&frames[1].1, Some((left_endpoint.address, left_endpoint.port)), 1000, NOW);
    assert!(matches!(inbound.result, Ok(InboundAction::ProbeReply { .. })));

    let again = left.probe_peer_direct_paths(true, NOW + 1, 1001).expect("second round");
    assert!(again.is_empty());
    let later = left
        .probe_peer_direct_paths(true, NOW + DIRECT_FAST_PROBE_INTERVAL_NANOS, 1250)
        .expect("third round");
    assert_eq!(later.len(), 2);
}

#[test]
fn probe_round_without_transport_only_expires_paths() {
    let mut runtime = empty_runtime(stale_direct_path(), Vec::new());

    let frames = runtime.probe_peer_direct_paths(false, NOW, 1000).expect("no transport");

    assert!(frames.is_empty());
    assert_eq!(runtime.path_states[0].1.current_path, PeerPathKind::Unknown);
}

#[test]
fn custom_backend_capabilities() {
    let capabilities = tfscale::backend::custom_capabilities();
    assert!(capabilities.supports_nat_traversal);
    assert!(capabilities.supports_userspace_tun);
    assert!(capabilities.supports_static_peers);
    assert!(!capabilities.supports_relay);
    assert!(!capabilities.supports_kernel_tun);
    assert!(!capabilities.supports_dynamic_peers);
}

#[test]
fn sessions_exist_only_for_peers_with_lan_udp_endpoints() {
    let (left, _, _, _) = runtime_pair();
    assert!(left.has_session(&device_id(2)));
    assert!(!left.has_session(&device_id(3)));
    assert!(left.has_unique_paths());
}

#[test]
fn direct_probe_consumes_fast_probe_attempt() {
    let (mut left, _, _, _) = runtime_pair();

    let frames = left.probe_peer_direct_paths(true, NOW, 1000).expect("probe");

    assert_eq!(frames.len(), 1);
    let state = left.path_states.iter().find(|(id, _)| *id == device_id(2)).expect("peer path").1;
    assert_eq!(state.fast_probe_attempts_remaining, DIRECT_FAST_PROBE_BURST_ATTEMPTS - 1);
    assert_eq!(state.failures, 1);
}

#[test]
fn peer_map_replaces_stale_peers() {
    let credential = encode_public_credential([5; 32]);
    let first = peers_to_sessions_at(
        &[peer("dev_one", &credential, [100, 64, 0, 3], Vec::new()), peer("dev_two", &credential, [100, 64, 0, 4], Vec::new())],
        1,
    )
    .expect("first peer map");
    assert_eq!(first.len(), 2);

    let second = peers_to_sessions_at(&[peer("dev_two", &credential, [100, 64, 0, 4], Vec::new())], 2)
        .expect("second peer map");

    assert_eq!(second.len(), 1);
    assert_eq!(second[0].device_id, "dev_two");
}

#[test]
fn builds_transport_session_for_peer_with_udp_endpoint() {
    let (left, _, _, _) = runtime_pair();

    let status = tfscale::status::backend_status("tfscale0", &left, &left.path_states, &None, &None, false);
    let message = status.message.expect("status message");

    assert!(message.contains("transport_peers=1"));
    assert!(message.contains("transport_sessions=1"));
    assert!(message.contains("credentials=true local_config=true peers=1"));
}

#[test]
fn opens_overlay_packet_from_relay_frame() {
    let (mut left, mut right, _, _) = runtime_pair();
    left.path_states = vec![(device_id(2), PeerPathState { current_path: PeerPathKind::Relay, ..PeerPathState::new() })];
    let packet = packet_to([100, 64, 0, 3]);

    let OutboundFrame::Relay(message) = left.send_overlay_packet(&packet).expect("sealed frame") else {
        panic!("expected a relay frame");
    };
    let outcome = right.open_relay_frame(message, 1, NOW);

    assert!(!outcome.rx_drop);
    assert!(matches!(outcome.result, Ok(InboundAction::Deliver(ref p)) if *p == packet));
}

#[test]
fn receives_overlay_packet_from_peer_udp_endpoint() {
    let (mut left, mut right, left_endpoint, _) = runtime_pair();
    let packet = packet_to([100, 64, 0, 3]);
    let OutboundFrame::Udp { frame, .. } = left.send_overlay_packet(&packet).expect("sealed packet") else {
        panic!("expected a UDP frame");
    };

    let outcome = right.open_received_frame(&frame, Some((left_endpoint.address, left_endpoint.port)), 1, NOW);
    assert!(!outcome.rx_drop);
    assert!(matches!(outcome.result, Ok(InboundAction::Deliver(ref p)) if *p == packet));

    let replay = right.open_received_frame(&frame, Some((left_endpoint.address, left_endpoint.port)), 1, NOW);
    assert!(replay.result.is_err());
    assert!(replay.rx_drop);
}

#[test]
fn builds_sessions_with_given_salts() {
    let left_identity = generate_identity().expect("identity");
    let right_identity = generate_identity().expect("identity");
    let state = backend_state(
        &device_id(1),
        left_identity,
        [100, 64, 0, 2],
        &device_id(2),
        &right_identity.public_key,
        [100, 64, 0, 3],
        endpoint([127, 0, 0, 1], 40002),
    );

    let sessions = build_sessions_with_salts(&state, &[[7u8; 8]]).expect("sessions");
    assert_eq!(sessions.len(), 1);
    assert_eq!(sessions[0].device_id, device_id(2));
    assert_eq!(sessions[0].crypto.send_nonces.session_salt, [7u8; 8]);
    assert_eq!(sessions[0].crypto.send_nonces.counter, 0);

    let mut broken = state.clone();
    broken.peers[0].public_key = "not-a-credential".to_string();
    assert!(build_sessions_with_salts(&broken, &[[7u8; 8]]).is_err());

    let mut no_identity = state;
    no_identity.identity = None;
    assert_eq!(build_sessions_with_salts(&no_identity, &[]).expect("no sessions").len(), 0);
}

#[test]
fn failed_probe_reply_leaves_the_path_as_it_was() {
    let (mut left, mut right, left_endpoint, _) = runtime_pair();
    let probe = left.seal_probe(&device_id(2), 1000).expect("send probe");
    let inbound = right.open_received_frame(&probe, Some((left_endpoint.address, left_endpoint.port)), 1000, NOW);
    let Ok(InboundAction::ProbeReply { device_id: replied_to, endpoint, .. }) = inbound.result else {
        panic!("expected probe reply");
    };
    let before = right.path_states.clone();

    let error = right
        .probe_reply_sent(&replied_to, endpoint, Err(tfscale::error::BackendError::CommandFailed("refused".to_string())), NOW)
        .expect_err("send failed");

    assert_eq!(error.message(), "backend command failed: refused");
    assert_eq!(right.path_states.len(), before.len());
    for ((id, now), (old_id, old)) in right.path_states.iter().zip(before.iter()) {
        assert_eq!(id, old_id);
        assert_eq!(now.current_path, old.current_path);
        assert_eq!(now.active_endpoint, old.active_endpoint);
        assert_eq!(now.failures, old.failures);
    }
}
