use tfscale::control::{
    check_auth_key, endpoint_from_row, endpoint_probe_response, endpoint_row_values, hash_secret,
    ipv4_for_allocation, migration_statements, migrations, network_map_version, new_auth_key, new_device_ids,
    normalize_hostname, peer_allowed_routes, registration_response, AuthKeyRow, STATUS_BAD_REQUEST,
    STATUS_INTERNAL_SERVER_ERROR, STATUS_UNAUTHORIZED,
};
use tfscale::ids::new_device_id;
use tfscale::protocol::{EndpointPayload, EndpointProbeRequest};

#[test]
fn normalizes_hostname() {
    let hostname = normalize_hostname(" Dev-Box ").expect("hostname");

    assert_eq!(hostname, "dev-box");
}

#[test]
fn rejects_empty_hostname() {
    let error = normalize_hostname("   ").expect_err("empty hostname should fail");

    assert_eq!(error.status, STATUS_BAD_REQUEST);
}

#[test]
fn rejects_hostname_with_invalid_characters() {
    let error = normalize_hostname("dev_box").expect_err("invalid hostname should fail");

    assert_eq!(error.status, STATUS_BAD_REQUEST);
}

#[test]
fn rejects_hostname_with_edge_hyphen() {
    let error = normalize_hostname("-devbox").expect_err("invalid hostname should fail");

    assert_eq!(error.status, STATUS_BAD_REQUEST);
}

#[test]
fn rejects_overlong_hostname() {
    let long = "a".repeat(64);
    assert!(normalize_hostname(&long).is_err());
    assert_eq!(normalize_hostname(&"a".repeat(63)).expect("63 chars"), "a".repeat(63));
}

#[test]
fn splits_migration_statements() {
    let statements = migration_statements("CREATE TABLE one (id TEXT); ; CREATE TABLE two (id TEXT);");

    assert_eq!(statements, vec!["CREATE TABLE one (id TEXT)", "CREATE TABLE two (id TEXT)"]);
}

#[test]
fn registers_endpoint_metadata_migration() {
    assert_eq!(migrations().last().expect("migration").version, 2);
    assert_eq!(migrations().last().expect("migration").name, "endpoint_metadata");
}

#[test]
fn hashes_secret_as_hex_sha256() {
    assert_eq!(
        hash_secret("abc"),
        "ba7816bf8f01cfea414140de5dae2223b00361a396177a9cb410ff61f20015ad"
    );
    assert_eq!(
        hash_secret(""),
        "e3b0c44298fc1c149afbf4c8996fb92427ae41e4649b934ca495991b7852b855"
    );
}

#[test]
fn allocates_addresses_from_pool() {
    assert_eq!(ipv4_for_allocation(0).expect("first"), "100.64.0.2");
    assert_eq!(ipv4_for_allocation(252).expect("last"), "100.64.0.254");
    let error = ipv4_for_allocation(253).expect_err("exhausted");
    assert_eq!(error.status, STATUS_INTERNAL_SERVER_ERROR);
    assert_eq!(error.message, "default MVP address pool is exhausted");
}

#[test]
fn network_map_version_sums_counts() {
    assert_eq!(network_map_version(2, 3, 100), 105);
}

#[test]
fn checks_auth_keys() {
    let error = check_auth_key(None).expect_err("missing");
    assert_eq!((error.status, error.message.as_str()), (STATUS_UNAUTHORIZED, "invalid auth key"));

    let revoked = AuthKeyRow { reusable: 1, used: false, revoked: true };
    assert_eq!(check_auth_key(Some(revoked)).expect_err("revoked").message, "auth key revoked");

    let used = AuthKeyRow { reusable: 0, used: true, revoked: false };
    assert_eq!(check_auth_key(Some(used)).expect_err("used").message, "auth key already used");

    let reusable = AuthKeyRow { reusable: 1, used: true, revoked: false };
    assert!(check_auth_key(Some(reusable)).is_ok());
}

#[test]
fn probes_only_udp() {
    let request = EndpointProbeRequest {
        device_id: "dev_a".to_string(),
        node_key: "node_a".to_string(),
        protocol: "tcp".to_string(),
    };
    let error = endpoint_probe_response(&request, "203.0.113.10", 4000).expect_err("tcp");
    assert_eq!(error.status, STATUS_BAD_REQUEST);

    let request = EndpointProbeRequest { protocol: "udp".to_string(), ..request };
    let response = endpoint_probe_response(&request, "203.0.113.10", 4000).expect("udp");
    assert_eq!(response.observed_address, "203.0.113.10");
    assert_eq!(response.observed_port, 4000);
    assert_eq!(response.udp_probe_address, None);
}

#[test]
fn builds_registration_and_routes() {
    let response = registration_response("dev_a", "node_a", "100.64.0.2", "net_default");
    assert_eq!(response.poll_interval_seconds, 5);
    assert_eq!(response.ipv4, "100.64.0.2");
    assert_eq!(peer_allowed_routes("100.64.0.2"), vec!["100.64.0.2/32".to_string()]);
}

#[test]
fn generated_ids_carry_prefixes() {
    let (device, node, ip) = new_device_ids().expect("ids");
    assert!(device.starts_with("dev_") && device.len() == 36);
    assert!(node.starts_with("node_"));
    assert!(ip.starts_with("ip_"));
    let (key_id, key) = new_auth_key().expect("auth key");
    assert!(key_id.starts_with("ak_"));
    assert!(key.starts_with("tfk_"));
    assert!(new_device_id().expect("device id")[4..].chars().all(|c| c.is_ascii_hexdigit() && !c.is_ascii_uppercase()));
}

#[test]
fn endpoint_rows_default_source_to_local() {
    let endpoint = EndpointPayload {
        kind: "lan".to_string(),
        address: "192.168.1.30".to_string(),
        port: 51820,
        protocol: "udp".to_string(),
        source: None,
        priority: Some(100),
        expires_at: None,
    };
    assert_eq!(endpoint_row_values(&endpoint), ("local".to_string(), Some(100)));

    let row = endpoint_from_row(
        "lan".to_string(),
        "192.168.1.30".to_string(),
        51820,
        "udp".to_string(),
        Some("local".to_string()),
        Some(100),
        None,
    );
    assert_eq!(row.port, 51820);
    assert_eq!(row.priority, Some(100));
}

#[test]
fn prefixed_id_is_the_prefix_and_the_uuid_of_its_time_and_bytes() {
    let id = tfscale::ids::prefixed_id_from("dev_", 0x0123_4567_89ab, &[0u8; 10]);
    assert_eq!(id, "dev_0123456789ab70008000000000000000");
    let other = tfscale::ids::prefixed_id_from("dev_", 0x0123_4567_89ab, &[1u8; 10]);
    assert_ne!(id, other);
}
