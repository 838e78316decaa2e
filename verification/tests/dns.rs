use tfscale::dns::{build_response, normalize_name, normalize_suffix, parse_query, resolve_a, DnsError, RCODE_NOTIMP, RCODE_NXDOMAIN, TYPE_A};
use tfscale::ip::Ipv4Address;
use tfscale::protocol::DnsRecord;

fn record(name: &str, value: &str) -> DnsRecord {
    DnsRecord {
        device_id: "dev_test".to_string(),
        name: name.to_string(),
        record_type: "A".to_string(),
        value: value.to_string(),
    }
}

fn query_packet(id: u16, name: &str, qtype: u16) -> Vec<u8> {
    let mut packet = Vec::new();
    packet.extend_from_slice(&id.to_be_bytes());
    packet.extend_from_slice(&0x0100u16.to_be_bytes());
    packet.extend_from_slice(&1u16.to_be_bytes());
    packet.extend_from_slice(&0u16.to_be_bytes());
    packet.extend_from_slice(&0u16.to_be_bytes());
    packet.extend_from_slice(&0u16.to_be_bytes());
    for label in name.split('.') {
        packet.push(label.len() as u8);
        packet.extend_from_slice(label.as_bytes());
    }
    packet.push(0);
    packet.extend_from_slice(&qtype.to_be_bytes());
    packet.extend_from_slice(&1u16.to_be_bytes());
    packet
}

#[test]
fn resolves_mesh_a_record() {
    let records = vec![record("devbox.mesh", "100.64.0.2")];

    assert_eq!(
        resolve_a(&records, "devbox.mesh", "mesh"),
        Some(Ipv4Address::new(100, 64, 0, 2))
    );
}

#[test]
fn resolves_case_insensitive_and_trailing_dot() {
    let records = vec![record("devbox.mesh", "100.64.0.2")];

    assert_eq!(
        resolve_a(&records, "DevBox.Mesh.", "mesh"),
        Some(Ipv4Address::new(100, 64, 0, 2))
    );
}

#[test]
fn ignores_non_mesh_query() {
    let records = vec![record("devbox.mesh", "100.64.0.2")];

    assert_eq!(resolve_a(&records, "example.com", "mesh"), None);
}

#[test]
fn returns_none_for_missing_record() {
    let records = vec![record("devbox.mesh", "100.64.0.2")];

    assert_eq!(resolve_a(&records, "missing.mesh", "mesh"), None);
}

#[test]
fn builds_a_response() {
    let request = query_packet(0x1234, "devbox.mesh", TYPE_A);
    let response = build_response(&request, &[record("devbox.mesh", "100.64.0.2")], "mesh")
        .expect("DNS response");

    assert_eq!(&response[0..2], &0x1234u16.to_be_bytes());
    assert_eq!(u16::from_be_bytes([response[6], response[7]]), 1);
    assert_eq!(&response[response.len() - 4..], &[100, 64, 0, 2]);
}

#[test]
fn builds_nxdomain_response() {
    let request = query_packet(0x1234, "missing.mesh", TYPE_A);
    let response = build_response(&request, &[record("devbox.mesh", "100.64.0.2")], "mesh")
        .expect("DNS response");
    let flags = u16::from_be_bytes([response[2], response[3]]);

    assert_eq!(flags & 0x000F, RCODE_NXDOMAIN);
    assert_eq!(u16::from_be_bytes([response[6], response[7]]), 0);
}

#[test]
fn builds_notimp_response_for_other_types() {
    let request = query_packet(0x0101, "devbox.mesh", 28);
    let response = build_response(&request, &[record("devbox.mesh", "100.64.0.2")], "mesh")
        .expect("DNS response");
    let flags = u16::from_be_bytes([response[2], response[3]]);

    assert_eq!(flags & 0x000F, RCODE_NOTIMP);
    assert_eq!(u16::from_be_bytes([response[6], response[7]]), 0);
    assert_eq!(response.len(), request.len());
}

#[test]
fn a_response_carries_the_question_and_one_answer() {
    let request = query_packet(0x00ff, "devbox.mesh", TYPE_A);
    let response = build_response(&request, &[record("devbox.mesh", "100.64.0.2")], "mesh")
        .expect("DNS response");

    assert_eq!(response.len(), request.len() + 16);
    assert_eq!(&response[12..request.len()], &request[12..]);
    assert_eq!(u16::from_be_bytes([response[4], response[5]]), 1);
}

#[test]
fn parses_single_question() {
    let request = query_packet(7, "DevBox.Mesh", TYPE_A);
    let query = parse_query(&request).expect("query");

    assert_eq!(query.id, 7);
    assert_eq!(query.qname, "DevBox.Mesh");
    assert_eq!(query.qtype, TYPE_A);
    assert_eq!(query.qclass, 1);
    assert_eq!(query.question_end, request.len());
}

#[test]
fn rejects_short_dns_packet() {
    assert_eq!(parse_query(&[0u8; 11]), Err(DnsError::PacketTooShort));
    assert_eq!(DnsError::PacketTooShort.message(), "DNS packet is too short");
}

#[test]
fn rejects_multiple_questions() {
    let mut request = query_packet(1, "devbox.mesh", TYPE_A);
    request[5] = 2;

    assert_eq!(parse_query(&request), Err(DnsError::UnsupportedQuestionCount));
}

#[test]
fn rejects_compressed_question_name() {
    let mut request = query_packet(1, "devbox.mesh", TYPE_A);
    request[12] = 0xc0;

    assert_eq!(parse_query(&request), Err(DnsError::CompressedName));
}

#[test]
fn rejects_truncated_question_name() {
    let request = query_packet(1, "devbox.mesh", TYPE_A);

    assert_eq!(parse_query(&request[..12]), Err(DnsError::NameTruncated));
    assert_eq!(parse_query(&request[..15]), Err(DnsError::InvalidLabelLength));
}

#[test]
fn rejects_truncated_type_and_class() {
    let request = query_packet(1, "devbox.mesh", TYPE_A);

    assert_eq!(parse_query(&request[..request.len() - 1]), Err(DnsError::TypeClassTruncated));
}

#[test]
fn normalizes_names_and_suffixes() {
    assert_eq!(normalize_name("DevBox.Mesh.."), vec!['d', 'e', 'v', 'b', 'o', 'x', '.', 'm', 'e', 's', 'h']);
    assert_eq!(normalize_suffix(".MESH."), vec!['m', 'e', 's', 'h']);
}

#[test]
fn dns_runtime_replaces_records() {
    let mut runtime = tfscale::dns::DnsRuntime::new(vec![record("a.mesh", "100.64.0.2")]);
    assert_eq!(runtime.records_len(), 1);
    runtime.set_records(Vec::new());
    assert_eq!(runtime.records_len(), 0);
}

#[test]
fn rejects_label_that_is_not_utf8_with_the_utf8_error() {
    let mut request = query_packet(1, "devbox.mesh", TYPE_A);
    request[13] = 0xff;

    let error = parse_query(&request).expect_err("invalid label");
    let expected = std::str::from_utf8(&[0xff, b'e', b'v', b'b', b'o', b'x']).expect_err("not UTF-8").to_string();
    assert_eq!(error, DnsError::InvalidLabelText(expected.clone()));
    assert_eq!(error.message(), expected);
}
