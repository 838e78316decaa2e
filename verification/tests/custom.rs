use tfscale::backend::generate_identity;
use tfscale::crypto::{decode_key, decode_public_credential, encode_public_credential, PeerCryptoSession};
use tfscale::frame::{
    EncodedFrame, FrameDeviceId, FrameHeader, DEVICE_ID_LEN, FRAME_TYPE_DATA, FRAME_TYPE_PROBE, HEADER_LEN, NONCE_LEN,
};
use tfscale::ip::Ipv4Address;
use tfscale::net::LocalBackendConfig;
use tfscale::nonce::{nonce_counter, ReplayWindow, SendNonceState, REPLAY_WINDOW_BITS};
use tfscale::packet::ipv4_destination;
use tfscale::tun::{TunConfig, TunStatus};

fn session_pair() -> (PeerCryptoSession, PeerCryptoSession) {
    let left_identity = generate_identity().expect("identity");
    let right_identity = generate_identity().expect("identity");
    let left_id = FrameDeviceId::new([1; 16]);
    let right_id = FrameDeviceId::new([2; 16]);

    let left = PeerCryptoSession::new(
        decode_key(&left_identity.private_key).expect("left private key"),
        &left_identity.public_key,
        &right_identity.public_key,
        left_id,
        right_id,
    )
    .expect("left session");
    let right = PeerCryptoSession::new(
        decode_key(&right_identity.private_key).expect("right private key"),
        &right_identity.public_key,
        &left_identity.public_key,
        right_id,
        left_id,
    )
    .expect("right session");

    (left, right)
}

#[test]
fn decodes_public_credentials() {
    let credential = encode_public_credential([7; 32]);

    let decoded = decode_public_credential(&credential).expect("decoded credential");

    assert_eq!(decoded, [7; 32]);
}

#[test]
fn rejects_invalid_public_credentials() {
    let error = decode_public_credential("peer-public-key").expect_err("invalid credential");

    assert!(error.message().contains("unsupported peer credential prefix"));
}

#[test]
fn public_credential_text_is_prefixed_base64() {
    assert_eq!(
        encode_public_credential([0; 32]),
        "tfpk1_AAAAAAAAAAAAAAAAAAAAAAAAAAAAAAAAAAAAAAAAAAA"
    );
}

#[test]
fn rejects_credential_with_short_key() {
    let error = decode_public_credential("tfpk1_AAAA").expect_err("short key");

    assert_eq!(error.message(), "backend command failed: peer credential has invalid key length: 3");
}

#[test]
fn seals_and_opens_packet_frame() {
    let (mut left, mut right) = session_pair();
    let packet = [0x45, 0x00, 0x00, 0x54];

    let frame = left.seal(&packet).expect("sealed frame");
    let opened = right.open(&frame).expect("opened frame");

    assert_eq!(opened, packet);
}

#[test]
fn sealed_frame_has_header_and_tag() {
    let (mut left, _) = session_pair();
    let frame = left.seal(&[1, 2, 3, 4, 5]).expect("sealed frame");

    assert_eq!(frame.len(), HEADER_LEN + 5 + 16);
    assert_eq!(frame[0], 1);
    assert_eq!(frame[1], FRAME_TYPE_DATA);
    assert_eq!(&frame[4..20], &[1u8; 16]);
    assert_eq!(&frame[20..36], &[2u8; 16]);
}

#[test]
fn rejects_tampered_header() {
    let (mut left, mut right) = session_pair();
    let mut frame = left.seal(&[1, 2, 3, 4]).expect("sealed frame");
    frame[4] ^= 1;

    let error = right.open(&frame).expect_err("tampered header");

    assert!(
        error.message().contains("frame source")
            || error.message().contains("packet authentication failed")
    );
}

#[test]
fn rejects_tampered_ciphertext() {
    let (mut left, mut right) = session_pair();
    let mut frame = left.seal(&[1, 2, 3, 4]).expect("sealed frame");
    let last = frame.len() - 1;
    frame[last] ^= 1;

    let error = right.open(&frame).expect_err("tampered ciphertext");

    assert!(error.message().contains("packet authentication failed"));
}

#[test]
fn rejects_replayed_frame() {
    let (mut left, mut right) = session_pair();
    let frame = left.seal(&[1, 2, 3, 4]).expect("sealed frame");

    right.open(&frame).expect("first open");
    let error = right.open(&frame).expect_err("replay");

    assert!(error.message().contains("replayed frame nonce"));
}

#[test]
fn different_peer_pairs_cannot_open_frames() {
    let (mut left, _) = session_pair();
    let (_, mut unrelated) = session_pair();
    let frame = left.seal(&[1, 2, 3, 4]).expect("sealed frame");

    let error = unrelated.open(&frame).expect_err("wrong session");

    assert!(
        error.message().contains("frame source")
            || error.message().contains("frame nonce direction")
            || error.message().contains("packet authentication failed")
    );
}

#[test]
fn nonce_has_expected_length() {
    assert_eq!(NONCE_LEN, 24);
}

#[test]
fn frame_header_round_trips() {
    let source = FrameDeviceId::new([1; DEVICE_ID_LEN]);
    let destination = FrameDeviceId::new([2; DEVICE_ID_LEN]);
    let header = FrameHeader::data(source, destination, [3; NONCE_LEN]);

    let encoded = header.encode().expect("encoded header");
    let decoded = FrameHeader::decode(&encoded).expect("decoded header");

    assert_eq!(decoded, header);
}

#[test]
fn probe_frame_header_round_trips() {
    let source = FrameDeviceId::new([1; DEVICE_ID_LEN]);
    let destination = FrameDeviceId::new([2; DEVICE_ID_LEN]);
    let header = FrameHeader::new(source, destination, [3; NONCE_LEN], FRAME_TYPE_PROBE);

    let encoded = header.encode().expect("encoded header");
    let decoded = FrameHeader::decode(&encoded).expect("decoded header");

    assert_eq!(decoded, header);
}

#[test]
fn rejects_short_frames() {
    let error = FrameHeader::decode(&[0; HEADER_LEN - 1]).expect_err("short frame");

    assert!(error.message().contains("malformed frame length"));
}

#[test]
fn rejects_unknown_frame_version() {
    let mut input = [0; HEADER_LEN];
    input[0] = 2;
    input[1] = FRAME_TYPE_DATA;

    let error = FrameHeader::decode(&input).expect_err("unknown version");

    assert!(error.message().contains("unsupported frame version"));
}

#[test]
fn rejects_unknown_message_type_when_encoding() {
    let header = FrameHeader::new(FrameDeviceId::new([1; 16]), FrameDeviceId::new([2; 16]), [0; NONCE_LEN], 9);

    let error = header.encode().expect_err("unknown type");

    assert_eq!(error.message(), "backend command failed: unsupported frame message type: 9");
}

#[test]
fn encoded_frame_round_trips() {
    let header = FrameHeader::data(FrameDeviceId::new([4; 16]), FrameDeviceId::new([5; 16]), [6; NONCE_LEN]);
    let frame = EncodedFrame { header: header.clone(), ciphertext: vec![9, 8, 7] };

    let bytes = frame.encode().expect("encoded frame");
    assert_eq!(bytes.len(), HEADER_LEN + 3);
    let decoded = EncodedFrame::decode(&bytes).expect("decoded frame");

    assert_eq!(decoded, frame);
}

#[test]
fn parses_generated_device_id() {
    let id = format!("dev_{}", uuid::Uuid::now_v7().simple());

    FrameDeviceId::from_device_id(&id).expect("frame device id");
}

#[test]
fn frame_device_id_holds_uuid_bytes() {
    let id = FrameDeviceId::from_device_id("dev_0123456789abcdef0123456789abcdef").expect("frame device id");

    assert_eq!(id.0, [0x01, 0x23, 0x45, 0x67, 0x89, 0xab, 0xcd, 0xef, 0x01, 0x23, 0x45, 0x67, 0x89, 0xab, 0xcd, 0xef]);
}

#[test]
fn rejects_device_id_without_prefix() {
    let error = FrameDeviceId::from_device_id("0123456789abcdef0123456789abcdef").expect_err("no prefix");

    assert_eq!(error.message(), "backend command failed: device ID is missing dev_ prefix");
}

#[test]
fn send_nonce_counter_increments() {
    let mut state = SendNonceState::with_salt([1; 8], [2; 8]);

    let first = state.next().expect("first nonce");
    let second = state.next().expect("second nonce");

    assert_eq!(nonce_counter(&first), 0);
    assert_eq!(nonce_counter(&second), 1);
    assert_ne!(first, second);
}

#[test]
fn nonce_layout_is_prefix_salt_counter() {
    let mut state = SendNonceState::with_salt([1; 8], [2; 8]);
    state.counter = 0x0102030405060708;

    let nonce = state.next().expect("nonce");

    assert_eq!(nonce, [1, 1, 1, 1, 1, 1, 1, 1, 2, 2, 2, 2, 2, 2, 2, 2, 1, 2, 3, 4, 5, 6, 7, 8]);
    assert_eq!(state.counter, 0x0102030405060709);
}

#[test]
fn send_nonce_counter_refuses_overflow() {
    let mut state = SendNonceState::with_salt([1; 8], [2; 8]);
    state.counter = u64::MAX;

    let error = state.next().expect_err("counter exhausted");

    assert!(error.message().contains("send nonce counter exhausted"));
}

#[test]
fn replay_window_rejects_duplicate_nonce() {
    let mut window = ReplayWindow { highest: None, seen: 0 };
    let mut state = SendNonceState::with_salt([1; 8], [2; 8]);
    let nonce = state.next().expect("nonce");

    window.accept(&nonce).expect("first accept");
    let error = window.accept(&nonce).expect_err("replay");

    assert!(error.message().contains("replayed frame nonce"));
}

#[test]
fn replay_window_rejects_stale_nonce() {
    let mut window = ReplayWindow { highest: None, seen: 0 };
    let mut state = SendNonceState::with_salt([1; 8], [2; 8]);
    let stale = state.next().expect("stale nonce");
    for _ in 0..REPLAY_WINDOW_BITS {
        let nonce = state.next().expect("newer nonce");
        window.accept(&nonce).expect("accept newer nonce");
    }

    let error = window.accept(&stale).expect_err("stale");

    assert!(error.message().contains("stale frame nonce"));
}

#[test]
fn replay_window_accepts_out_of_order_nonces_once() {
    let mut window = ReplayWindow { highest: None, seen: 0 };
    let mut state = SendNonceState::with_salt([1; 8], [2; 8]);
    let first = state.next().expect("first");
    let second = state.next().expect("second");

    window.accept(&second).expect("second first");
    window.accept(&first).expect("late first");
    assert_eq!(window, ReplayWindow { highest: Some(1), seen: 3 });
    assert!(window.accept(&first).is_err());
}

#[test]
fn parses_ipv4_destination() {
    let mut packet = [0u8; 20];
    packet[0] = 0x45;
    packet[16..20].copy_from_slice(&[100, 64, 0, 3]);

    assert_eq!(ipv4_destination(&packet).expect("destination"), Ipv4Address::new(100, 64, 0, 3));
}

#[test]
fn rejects_non_ipv4_packets() {
    let mut packet = [0u8; 20];
    packet[0] = 0x60;

    let error = ipv4_destination(&packet).expect_err("non-ipv4");

    assert!(error.message().contains("unsupported packet IP version"));
}

#[test]
fn rejects_short_packets() {
    let error = ipv4_destination(&[0u8; 19]).expect_err("short packet");

    assert!(error.message().contains("packet is too short"));
}

#[test]
fn rejects_bad_ipv4_header_length() {
    let mut packet = [0u8; 20];
    packet[0] = 0x46;

    let error = ipv4_destination(&packet).expect_err("header longer than packet");

    assert_eq!(error.message(), "backend command failed: invalid IPv4 header length");
}

#[test]
fn builds_tun_config_from_local_backend_config() {
    let config = TunConfig::from_local_config(&LocalBackendConfig {
        device_id: "dev_test".to_string(),
        interface_name: "tfscale0".to_string(),
        overlay_ip: Ipv4Address::new(100, 64, 0, 2),
        listen_port: 51820,
    });

    assert_eq!(config.interface_name, "tfscale0");
    assert_eq!(config.overlay_ip, Ipv4Address::new(100, 64, 0, 2));
    assert_eq!(config.listen_port, 51820);
    assert_eq!(config.overlay_cidr, "100.64.0.0/10");
}

#[test]
fn failed_status_is_not_io_ready() {
    let status = TunStatus::failed("tfscale0", "not ready");

    assert!(!status.configured);
    assert!(!status.io_ready);
    assert_eq!(status.interface_name, "tfscale0");
}

#[test]
fn sender_cannot_open_its_own_frame() {
    let (mut left, _) = session_pair();
    let frame = left.seal(&[9, 9]).expect("sealed frame");

    let error = left.open(&frame).expect_err("own frame");

    assert_eq!(error.message(), "backend command failed: frame source does not match peer session");
}

#[test]
fn seal_message_refuses_unknown_message_type_after_taking_a_nonce() {
    let (mut left, _) = session_pair();

    let error = left.seal_message(&[1, 2, 3], 9).expect_err("unknown type");

    assert_eq!(error.message(), "backend command failed: unsupported frame message type: 9");
    assert_eq!(left.send_nonces.counter, 1);
}

#[test]
fn session_with_salt_sends_with_that_salt() {
    let left_identity = generate_identity().expect("identity");
    let right_identity = generate_identity().expect("identity");
    let session = PeerCryptoSession::with_salt(
        decode_key(&left_identity.private_key).expect("left private key"),
        &left_identity.public_key,
        &right_identity.public_key,
        FrameDeviceId::new([1; 16]),
        FrameDeviceId::new([2; 16]),
        [9; 8],
    )
    .expect("session");

    assert_eq!(session.send_nonces.session_salt, [9; 8]);
    assert_eq!(session.send_nonces.counter, 0);
    assert_eq!(session.receive_window, ReplayWindow::default());
}

#[test]
fn nonces_of_one_state_never_repeat() {
    let mut state = SendNonceState::with_salt([1; 8], [2; 8]);
    state.counter = u64::MAX - 3;
    let mut seen = Vec::new();
    for _ in 0..3 {
        let nonce = state.next().expect("nonce");
        assert!(!seen.contains(&nonce));
        if let Some(last) = seen.last() {
            assert!(nonce_counter(last) < nonce_counter(&nonce));
        }
        seen.push(nonce);
    }
    assert!(state.next().is_err());
    assert!(state.next().is_err());
}

#[test]
fn replay_window_follows_its_history() {
    let mut window = ReplayWindow::default();
    let nonce = |counter: u64| {
        let mut nonce = [0u8; NONCE_LEN];
        nonce[16..].copy_from_slice(&counter.to_be_bytes());
        nonce
    };
    assert!(window.accept(&nonce(100)).is_ok());
    assert!(window.accept(&nonce(90)).is_ok());
    assert!(window.accept(&nonce(150)).is_ok());
    let replayed = window.accept(&nonce(90)).expect_err("replayed");
    assert_eq!(replayed.message(), "backend command failed: replayed frame nonce");
    let stale = window.accept(&nonce(86)).expect_err("stale");
    assert_eq!(stale.message(), "backend command failed: stale frame nonce");
    assert!(window.accept(&nonce(87)).is_ok());
    assert!(window.accept(&nonce(151)).is_ok());
}

#[test]
fn refused_tampered_tag_leaves_the_original_frame_openable() {
    let (mut left, mut right) = session_pair();
    let frame = left.seal(&[5, 6, 7]).expect("sealed frame");
    for index in frame.len() - 16..frame.len() {
        let mut bad = frame.clone();
        bad[index] ^= 0x80;
        let error = right.open(&bad).expect_err("changed tag");
        assert_eq!(error.message(), "backend command failed: packet authentication failed");
    }

    assert_eq!(right.open(&frame).expect("original frame"), vec![5, 6, 7]);
}
