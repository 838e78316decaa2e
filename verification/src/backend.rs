//! The custom backend's own logic: its persisted state, the identity it
//! generates, the path state of each peer and the probe payloads that
//! measure round trips.

use crate::crypto::{
    decode_key_spec, decode_public_credential_spec, derive_public_credential, encode_key,
    encode_public_credential, public_credential_text, public_key_of,
    validate_public_credential, base64url_encode, x25519_public,
};
use crate::error::{command_failed, failed, failed_with_number, BackendError};
use crate::ip::Ipv4Address;
use crate::net::{
    BackendCapabilities, BackendType, Endpoint, EndpointKind, LocalBackendConfig, PeerConfig, RelayConfig,
    TransportProtocol,
};
use crate::agent::{texts, clone_texts};
use crate::ids::{is_prefixed_id, prefixed_id};
use crate::text::{chars_of, concat2, decimal_text, format_decimal_wide, owned, strip_prefix};
use vstd::prelude::*;

verus! {

pub const STATE_VERSION: u32 = 1;

pub const IDENTITY_SCHEME: &'static str = "x25519";

/// Time between probes of a peer, in nanoseconds.
pub const DIRECT_PROBE_INTERVAL_NANOS: u128 = 5_000_000_000;

/// Time between the first probes of a peer not reached directly, in nanoseconds.
pub const DIRECT_FAST_PROBE_INTERVAL_NANOS: u128 = 250_000_000;

/// How many probes of a peer use the short interval.
pub const DIRECT_FAST_PROBE_BURST_ATTEMPTS: u8 = 8;

/// Age of the last successful probe after which a direct path is stale, in
/// nanoseconds.
pub const DIRECT_PROBE_STALE_AFTER_NANOS: u128 = 15_000_000_000;

/// Failures after which a direct path is given up.
pub const DIRECT_PROBE_FAILURE_THRESHOLD: u32 = 3;

/// The backend's X25519 identity, as persisted.
#[derive(Clone, Debug)]
pub struct CustomIdentity {
    pub key_id: String,
    pub scheme: String,
    pub private_key: String,
    pub public_key: String,
    pub created_at_unix_seconds: u64,
    pub rotated_from: Option<String>,
}

/// A peer as the backend persists it.
#[derive(Clone, Debug)]
pub struct StoredPeerSession {
    pub device_id: String,
    pub hostname: String,
    pub overlay_ip: Ipv4Address,
    pub public_key: String,
    pub endpoints: Vec<Endpoint>,
    pub allowed_routes: Vec<String>,
    pub last_updated_at_unix_seconds: u64,
}

/// What the backend persists: the format version, its identity, the local
/// configuration and the peers.
#[derive(Clone, Debug)]
pub struct CustomBackendState {
    pub version: u32,
    pub identity: Option<CustomIdentity>,
    pub local_config: Option<LocalBackendConfig>,
    pub peers: Vec<StoredPeerSession>,
}

impl CustomBackendState {
    /// The state of a backend that has persisted nothing yet.
    pub fn empty() -> (out: Self)
        ensures
            out.version == STATE_VERSION,
            out.identity is None,
            out.local_config is None,
            out.peers@.len() == 0,
    {
        CustomBackendState { version: STATE_VERSION, identity: None, local_config: None, peers: Vec::new() }
    }
}

/// Refuses persisted state of another format version.
pub fn validate_state_version(state: &CustomBackendState) -> (out: Result<(), BackendError>)
    ensures
        state.version == STATE_VERSION ==> out is Ok,
        state.version != STATE_VERSION ==> (out matches Err(e) && command_failed(
            e,
            "unsupported custom backend state version: "@ + decimal_text(state.version as nat),
        )),
{
    if state.version != STATE_VERSION {
        return Err(
            failed_with_number("unsupported custom backend state version: ", state.version as u64),
        );
    }
    Ok(())
}

/// Whole seconds since the Unix epoch by the system clock; 0 where the clock
/// reads earlier than the epoch. Nothing is stated of the value.
#[verifier::external_body]
pub(crate) fn now_unix_seconds() -> (out: u64) {
    std::time::SystemTime::now().duration_since(std::time::UNIX_EPOCH).map(|d| d.as_secs()).unwrap_or_default()
}

/// Whether an identity holds the given private key, with the credential of
/// its 32-byte public key, an X25519 scheme and no predecessor.
pub open spec fn identity_holds(id: CustomIdentity, private: Seq<u8>, created_at: u64) -> bool {
    &&& is_prefixed_id(id.key_id@, "kid_"@)
    &&& id.scheme@ == IDENTITY_SCHEME@
    &&& id.private_key@ == base64url_encode(private)
    &&& x25519_public(private).len() == 32
    &&& id.public_key@ == public_credential_text(x25519_public(private))
    &&& id.created_at_unix_seconds == created_at
    &&& id.rotated_from is None
}

/// An identity for a private key, created at the given time, under a fresh
/// key id. Fails only where a key id cannot be made (the clock or the random
/// source fails).
pub fn identity_from_key(private: [u8; 32], created_at: u64) -> (out: Result<CustomIdentity, BackendError>)
    ensures
        out matches Ok(id) ==> identity_holds(id, private@, created_at),
        out matches Err(e) ==> e is CommandFailed,
{
    let key_id = match prefixed_id("kid_") {
        Ok(id) => id,
        Err(msg) => {
            return Err(BackendError::CommandFailed(msg));
        },
    };
    let public = public_key_of(private);
    Ok(
        CustomIdentity {
            key_id,
            scheme: owned(IDENTITY_SCHEME),
            private_key: encode_key(private),
            public_key: encode_public_credential(public),
            created_at_unix_seconds: created_at,
            rotated_from: None,
        },
    )
}

/// A new identity: a private key of 32 random bytes, created now. Fails
/// only where the random source or the clock fails.
pub fn generate_identity() -> (out: Result<CustomIdentity, BackendError>)
    ensures
        out matches Ok(id) ==> exists|private: Seq<u8>, created_at: u64|
            private.len() == 32 && identity_holds(id, private, created_at),
        out matches Err(e) ==> e is CommandFailed,
{
    let private = match crate::bytes::random_bytes::<32>() {
        Ok(bytes) => bytes,
        Err(msg) => {
            return Err(BackendError::CommandFailed(msg));
        },
    };
    let now = now_unix_seconds();
    let out = identity_from_key(private, now);
    proof {
        assert(private@.len() == 32);
        if out is Ok {
            assert(identity_holds(out->Ok_0, private@, now));
        }
    }
    out
}

/// What `ensure_credentials` does with the persisted identity: its public
/// credential where it matches the private key, a new identity where there
/// is none.
pub enum CredentialCheck {
    Existing(String),
    Generate,
}

/// Checks the persisted identity: the public credential must be the one its
/// private key gives.
pub fn check_identity(state: &CustomBackendState) -> (out: Result<CredentialCheck, BackendError>)
    ensures
        state.identity is None ==> (out matches Ok(c) && c is Generate),
        state.identity matches Some(id) ==> match decode_key_spec(id.private_key@) {
            Err(msg) => out matches Err(e) && command_failed(e, msg),
            Ok(k) => if id.public_key@ == public_credential_text(x25519_public(k)) {
                out matches Ok(CredentialCheck::Existing(p)) && p@ == id.public_key@
            } else {
                out matches Err(e) && command_failed(e, "stored public key does not match private key"@)
            },
        },
{
    match &state.identity {
        None => Ok(CredentialCheck::Generate),
        Some(identity) => {
            let derived = derive_public_credential(identity.private_key.as_str())?;
            if identity.public_key != derived {
                return Err(failed("stored public key does not match private key"));
            }
            Ok(CredentialCheck::Existing(identity.public_key.clone()))
        },
    }
}

/// A peer of the network map as the backend persists it, stamped with the
/// time it was stored.
pub open spec fn stored_peer_is(peer: PeerConfig, s: StoredPeerSession, now: u64) -> bool {
    &&& s.device_id@ == peer.device_id@
    &&& s.hostname@ == peer.hostname@
    &&& s.overlay_ip == peer.overlay_ip
    &&& s.public_key@ == peer.public_credential.public@
    &&& s.endpoints@ == peer.endpoints@
    &&& texts(s.allowed_routes@) == texts(peer.allowed_routes@)
    &&& s.last_updated_at_unix_seconds == now
}

/// Stores a peer, after checking its credential.
pub fn peer_to_session_at(peer: &PeerConfig, now: u64) -> (out: Result<StoredPeerSession, BackendError>)
    ensures
        match decode_public_credential_spec(peer.public_credential.public@) {
            Err(msg) => out matches Err(e) && command_failed(e, msg),
            Ok(_) => out matches Ok(s) && stored_peer_is(*peer, s, now),
        },
{
    validate_public_credential(peer.public_credential.public.as_str())?;
    Ok(
        StoredPeerSession {
            device_id: peer.device_id.clone(),
            hostname: peer.hostname.clone(),
            overlay_ip: peer.overlay_ip,
            public_key: peer.public_credential.public.clone(),
            endpoints: peer.endpoints.clone(),
            allowed_routes: clone_texts(&peer.allowed_routes),
            last_updated_at_unix_seconds: now,
        },
    )
}

/// The message of the first peer whose credential is refused.
pub open spec fn first_credential_error(peers: Seq<PeerConfig>) -> Option<Seq<char>>
    decreases peers.len(),
{
    if peers.len() == 0 {
        None
    } else {
        match first_credential_error(peers.drop_last()) {
            Some(m) => Some(m),
            None => match decode_public_credential_spec(peers.last().public_credential.public@) {
                Err(m) => Some(m),
                Ok(_) => None,
            },
        }
    }
}

proof fn lemma_first_credential_error_prefix(peers: Seq<PeerConfig>, n: int)
    requires
        0 <= n <= peers.len(),
        first_credential_error(peers.take(n)) is Some,
    ensures
        first_credential_error(peers) == first_credential_error(peers.take(n)),
    decreases peers.len(),
{
    if n < peers.len() {
        assert(peers.drop_last().take(n) =~= peers.take(n));
        lemma_first_credential_error_prefix(peers.drop_last(), n);
    } else {
        assert(peers.take(n) =~= peers);
    }
}

/// The peers to persist for a peer map, all stamped `now`; the first refused
/// credential refuses the map.
pub fn peers_to_sessions_at(peers: &[PeerConfig], now: u64) -> (out: Result<Vec<StoredPeerSession>, BackendError>)
    ensures
        match first_credential_error(peers@) {
            Some(msg) => out matches Err(e) && command_failed(e, msg),
            None => out matches Ok(v) && v@.len() == peers@.len() && forall|i: int|
                0 <= i < v@.len() ==> stored_peer_is(#[trigger] peers@[i], v@[i], now),
        },
{
    let mut out: Vec<StoredPeerSession> = Vec::new();
    let mut i: usize = 0;
    proof {
        assert(peers@.take(0) =~= Seq::<PeerConfig>::empty());
    }
    while i < peers.len()
        invariant
            i <= peers@.len(),
            first_credential_error(peers@.take(i as int)) is None,
            out@.len() == i,
            forall|j: int| 0 <= j < i ==> stored_peer_is(#[trigger] peers@[j], out@[j], now),
        decreases peers.len() - i,
    {
        proof {
            assert(peers@.take(i + 1).drop_last() =~= peers@.take(i as int));
            assert(peers@.take(i + 1).last() == peers@[i as int]);
        }
        match peer_to_session_at(&peers[i], now) {
            Ok(s) => {
                out.push(s);
            },
            Err(e) => {
                proof {
                    let msg = decode_public_credential_spec(peers@[i as int].public_credential.public@)->Err_0;
                    assert(first_credential_error(peers@.take(i + 1)) == Some(msg));
                    lemma_first_credential_error_prefix(peers@, i + 1);
                }
                return Err(e);
            },
        }
        i = i + 1;
    }
    proof {
        assert(peers@.take(peers@.len() as int) =~= peers@);
    }
    Ok(out)
}

/// The peers to persist for a peer map, stamped with the current time.
pub fn peers_to_sessions(peers: &[PeerConfig]) -> (out: Result<Vec<StoredPeerSession>, BackendError>)
    ensures
        match first_credential_error(peers@) {
            Some(msg) => out matches Err(e) && command_failed(e, msg),
            None => out matches Ok(v) && exists|now: u64| #[trigger] all_stored_at(peers@, v@, now),
        },
{
    let now = now_unix_seconds();
    let out = peers_to_sessions_at(peers, now);
    proof {
        if out is Ok {
            assert(all_stored_at(peers@, out->Ok_0@, now));
        }
    }
    out
}

/// Each peer stored, in order, stamped `now`.
pub open spec fn all_stored_at(peers: Seq<PeerConfig>, stored: Seq<StoredPeerSession>, now: u64) -> bool {
    stored.len() == peers.len() && forall|i: int| 0 <= i < stored.len() ==> stored_peer_is(#[trigger] peers[i], stored[i], now)
}

/// The relay the backend talks through, and the device it registers as: the
/// first relay, once a local configuration exists.
pub fn relay_session_target(
    local_config: &Option<LocalBackendConfig>,
    relays: &[RelayConfig],
) -> (out: Option<(RelayConfig, String)>)
    ensures
        (local_config is None || relays@.len() == 0) ==> out is None,
        local_config is Some && relays@.len() > 0 ==> (out matches Some((r, d)) && r.relay_id@
            == relays@[0].relay_id@ && r.url@ == relays@[0].url@ && r.region@ == relays@[0].region@
            && d@ == local_config->Some_0.device_id@),
{
    match local_config {
        Some(config) => {
            if relays.len() == 0 {
                return None;
            }
            let first = &relays[0];
            Some(
                (
                    RelayConfig {
                        relay_id: first.relay_id.clone(),
                        url: first.url.clone(),
                        region: first.region.clone(),
                    },
                    config.device_id.clone(),
                ),
            )
        },
        None => None,
    }
}

/// The `host:port` of a `tcp://` relay URL.
pub fn relay_tcp_addr(url: &str) -> (out: Result<String, BackendError>)
    ensures
        match crate::text::strip_prefix_spec(url@, "tcp://"@) {
            Some(rest) => out matches Ok(a) && a@ == rest,
            None => out matches Err(e) && command_failed(e, "unsupported relay URL: "@ + url@),
        },
{
    match strip_prefix(url, "tcp://") {
        Some(rest) => Ok(rest),
        None => Err(BackendError::CommandFailed(concat2("unsupported relay URL: ", url))),
    }
}

/// The endpoint that stands for a relay path: a TCP relay endpoint at the
/// unspecified address, port 0.
pub open spec fn relay_endpoint_value() -> Endpoint {
    Endpoint {
        kind: EndpointKind::Relay,
        address: crate::ip::IpAddress::V4(Ipv4Address([0u8, 0u8, 0u8, 0u8])),
        port: 0,
        protocol: TransportProtocol::Tcp,
    }
}

pub fn relay_endpoint(relay: &RelayConfig) -> (out: Endpoint)
    ensures
        out == relay_endpoint_value(),
{
    Endpoint {
        kind: EndpointKind::Relay,
        address: crate::ip::IpAddress::V4(Ipv4Address([0u8, 0u8, 0u8, 0u8])),
        port: 0,
        protocol: TransportProtocol::Tcp,
    }
}

/// How a peer is currently reached.
#[derive(Clone, Copy, Debug, PartialEq, Eq, Structural)]
pub enum PeerPathKind {
    Unknown,
    Direct,
    Relay,
}

/// What the backend knows of the path to one peer. Times are nanoseconds
/// since the Unix epoch.
#[derive(Clone, Copy, Debug)]
pub struct PeerPathState {
    pub current_path: PeerPathKind,
    pub active_endpoint: Option<Endpoint>,
    pub last_probe_at: Option<u128>,
    pub last_success_at: Option<u128>,
    pub last_probe_sent_at_unix_millis: Option<u128>,
    pub fast_probe_attempts_remaining: u8,
    pub failures: u32,
    pub rtt_ms: Option<u64>,
}

/// The path state of a peer nothing is known of yet.
pub open spec fn is_fresh_path(s: PeerPathState) -> bool {
    &&& s.current_path == PeerPathKind::Unknown
    &&& s.active_endpoint is None
    &&& s.last_probe_at is None
    &&& s.last_success_at is None
    &&& s.last_probe_sent_at_unix_millis is None
    &&& s.fast_probe_attempts_remaining == DIRECT_FAST_PROBE_BURST_ATTEMPTS
    &&& s.failures == 0
    &&& s.rtt_ms is None
}

/// The path state of a peer nothing is known of yet, as a value.
pub open spec fn fresh_path() -> PeerPathState {
    PeerPathState {
        current_path: PeerPathKind::Unknown,
        active_endpoint: None,
        last_probe_at: None,
        last_success_at: None,
        last_probe_sent_at_unix_millis: None,
        fast_probe_attempts_remaining: DIRECT_FAST_PROBE_BURST_ATTEMPTS,
        failures: 0,
        rtt_ms: None,
    }
}

impl PeerPathState {
    /// Unknown path, full fast-probe budget, no failures.
    pub fn new() -> (out: Self)
        ensures
            is_fresh_path(out),
    {
        PeerPathState {
            current_path: PeerPathKind::Unknown,
            active_endpoint: None,
            last_probe_at: None,
            last_success_at: None,
            last_probe_sent_at_unix_millis: None,
            fast_probe_attempts_remaining: DIRECT_FAST_PROBE_BURST_ATTEMPTS,
            failures: 0,
            rtt_ms: None,
        }
    }
}

/// Whether at least `interval` has passed since `since`; also where nothing
/// happened yet, or the clock now reads earlier.
pub open spec fn elapsed_at_least(since: Option<u128>, now: u128, interval: u128) -> bool {
    match since {
        None => true,
        Some(t) => now < t || now - t >= interval,
    }
}

/// The probe interval of a path: short while a peer not reached directly
/// has fast probes left.
pub open spec fn probe_interval(s: PeerPathState) -> u128 {
    if s.current_path != PeerPathKind::Direct && s.fast_probe_attempts_remaining > 0 {
        DIRECT_FAST_PROBE_INTERVAL_NANOS
    } else {
        DIRECT_PROBE_INTERVAL_NANOS
    }
}

/// Whether a peer is due for a probe at `now`.
pub fn peer_path_probe_due(state: &PeerPathState, now: u128) -> (out: bool)
    ensures
        out == elapsed_at_least(state.last_probe_at, now, probe_interval(*state)),
{
    let interval = if state.current_path != PeerPathKind::Direct && state.fast_probe_attempts_remaining > 0 {
        DIRECT_FAST_PROBE_INTERVAL_NANOS
    } else {
        DIRECT_PROBE_INTERVAL_NANOS
    };
    match state.last_probe_at {
        None => true,
        Some(t) => now < t || now - t >= interval,
    }
}

/// A path after a successful round trip over `endpoint`.
pub open spec fn marked_direct(old: PeerPathState, new: PeerPathState, endpoint: Endpoint, rtt_ms: Option<u64>, now: u128) -> bool {
    &&& new.current_path == PeerPathKind::Direct
    &&& new.active_endpoint == Some(endpoint)
    &&& new.last_success_at == Some(now)
    &&& new.failures == 0
    &&& new.rtt_ms == rtt_ms
    &&& new.fast_probe_attempts_remaining == 0
    &&& new.last_probe_at == old.last_probe_at
    &&& new.last_probe_sent_at_unix_millis == old.last_probe_sent_at_unix_millis
}

/// Records a successful round trip to the peer over `endpoint`.
pub fn mark_path_direct(state: &mut PeerPathState, endpoint: Endpoint, rtt_ms: Option<u64>, now: u128)
    ensures
        marked_direct(*old(state), *final(state), endpoint, rtt_ms, now),
{
    state.current_path = PeerPathKind::Direct;
    state.active_endpoint = Some(endpoint);
    state.last_success_at = Some(now);
    state.failures = 0;
    state.rtt_ms = rtt_ms;
    state.fast_probe_attempts_remaining = 0;
}

/// `n + 1`, held at the maximum.
pub open spec fn saturating_inc(n: u32) -> u32 {
    if n == u32::MAX {
        n
    } else {
        (n + 1) as u32
    }
}

/// A path after the stale check at `now`: a direct path whose last success
/// is older than the stale age counts a failure; at the failure threshold it
/// falls back to the relay, where there is one, or to unknown.
pub open spec fn expired_path(s: PeerPathState, now: u128, relay: Option<Endpoint>) -> PeerPathState {
    if s.current_path != PeerPathKind::Direct {
        s
    } else {
        let failures = if elapsed_at_least(s.last_success_at, now, DIRECT_PROBE_STALE_AFTER_NANOS) {
            saturating_inc(s.failures)
        } else {
            s.failures
        };
        if failures >= DIRECT_PROBE_FAILURE_THRESHOLD {
            PeerPathState {
                current_path: if relay is Some {
                    PeerPathKind::Relay
                } else {
                    PeerPathKind::Unknown
                },
                active_endpoint: relay,
                rtt_ms: None,
                fast_probe_attempts_remaining: DIRECT_FAST_PROBE_BURST_ATTEMPTS,
                failures,
                ..s
            }
        } else {
            PeerPathState { failures, ..s }
        }
    }
}

/// Applies the stale check at `now` to one path; `relay` is the endpoint of
/// the first relay, where there is one.
pub fn expire_path(state: &mut PeerPathState, now: u128, relay: Option<Endpoint>)
    ensures
        *final(state) == expired_path(*old(state), now, relay),
{
    if state.current_path != PeerPathKind::Direct {
        return;
    }
    let stale = match state.last_success_at {
        None => true,
        Some(t) => now < t || now - t >= DIRECT_PROBE_STALE_AFTER_NANOS,
    };
    if stale {
        state.failures = if state.failures == u32::MAX {
            state.failures
        } else {
            state.failures + 1
        };
    }
    if state.failures >= DIRECT_PROBE_FAILURE_THRESHOLD {
        match relay {
            None => {
                state.current_path = PeerPathKind::Unknown;
            },
            Some(_) => {
                state.current_path = PeerPathKind::Relay;
            },
        }
        state.active_endpoint = relay;
        state.rtt_ms = None;
        state.fast_probe_attempts_remaining = DIRECT_FAST_PROBE_BURST_ATTEMPTS;
    }
}

/// A path after probes were sent to the peer at `now`, stamped `sent_at`
/// milliseconds: one fast probe fewer, and one more failure unless the path
/// is direct.
pub open spec fn probed_path(s: PeerPathState, now: u128, sent_at: u128) -> PeerPathState {
    PeerPathState {
        last_probe_at: Some(now),
        last_probe_sent_at_unix_millis: Some(sent_at),
        fast_probe_attempts_remaining: if s.fast_probe_attempts_remaining > 0 {
            (s.fast_probe_attempts_remaining - 1) as u8
        } else {
            0
        },
        failures: if s.current_path != PeerPathKind::Direct {
            saturating_inc(s.failures)
        } else {
            s.failures
        },
        ..s
    }
}

/// Records that the peer was probed.
pub fn record_path_probe(state: &mut PeerPathState, now: u128, sent_at: u128)
    ensures
        *final(state) == probed_path(*old(state), now, sent_at),
{
    state.last_probe_at = Some(now);
    state.last_probe_sent_at_unix_millis = Some(sent_at);
    if state.fast_probe_attempts_remaining > 0 {
        state.fast_probe_attempts_remaining = state.fast_probe_attempts_remaining - 1;
    }
    if state.current_path != PeerPathKind::Direct {
        state.failures = if state.failures == u32::MAX {
            state.failures
        } else {
            state.failures + 1
        };
    }
}

/// A stale direct path that reached the failure threshold is no longer
/// direct, and a path that is not direct is left as it is.
pub proof fn lemma_expired_path_leaves_direct(s: PeerPathState, now: u128, relay: Option<Endpoint>)
    ensures
        s.current_path != PeerPathKind::Direct ==> expired_path(s, now, relay) == s,
        expired_path(s, now, relay).failures >= DIRECT_PROBE_FAILURE_THRESHOLD && s.current_path
            == PeerPathKind::Direct ==> expired_path(s, now, relay).current_path != PeerPathKind::Direct
            && expired_path(s, now, relay).active_endpoint == relay,
{
}

/// After a probe is recorded at `now`, the peer is not due again until its
/// probe interval has passed, and is due once it has.
pub proof fn lemma_probed_path_waits(s: PeerPathState, now: u128, sent_at: u128, later: u128)
    requires
        now <= later,
    ensures
        ({
            let p = probed_path(s, now, sent_at);
            elapsed_at_least(p.last_probe_at, later, probe_interval(p)) <==> later - now >= probe_interval(p)
        }),
{
}

/// A direct path is probed at the long interval, whatever fast probes it
/// has left.
pub proof fn lemma_direct_path_uses_long_interval(s: PeerPathState)
    requires
        s.current_path == PeerPathKind::Direct,
    ensures
        probe_interval(s) == DIRECT_PROBE_INTERVAL_NANOS,
{
}

// ---------------------------------------------------------------------------
// Probe payloads

/// The bytes of `probe `.
pub open spec fn probe_prefix() -> Seq<u8> {
    seq![112u8, 114u8, 111u8, 98u8, 101u8, 32u8]
}

/// The bytes of `probe_response `.
pub open spec fn probe_response_prefix() -> Seq<u8> {
    seq![112u8, 114u8, 111u8, 98u8, 101u8, 95u8, 114u8, 101u8, 115u8, 112u8, 111u8, 110u8, 115u8, 101u8, 32u8]
}

/// ASCII text as bytes.
pub open spec fn ascii_bytes(s: Seq<char>) -> Seq<u8> {
    s.map_values(|c: char| c as u8)
}

/// An ASCII decimal digit byte.
pub open spec fn is_digit_byte(b: u8) -> bool {
    48 <= b <= 57
}

/// The value of decimal digit bytes.
pub open spec fn digit_bytes_value(s: Seq<u8>) -> nat
    decreases s.len(),
{
    if s.len() == 0 {
        0
    } else {
        digit_bytes_value(s.drop_last()) * 10 + (s.last() - 48) as nat
    }
}

/// The digits of a `u128` text: without the optional leading `+`.
pub open spec fn u128_digits(b: Seq<u8>) -> Seq<u8> {
    if b.len() > 0 && b[0] == 43 {
        b.skip(1)
    } else {
        b
    }
}

/// Bytes that are all decimal digits.
pub open spec fn all_digit_bytes(s: Seq<u8>) -> bool {
    forall|i: int| 0 <= i < s.len() ==> is_digit_byte(#[trigger] s[i])
}

/// What `u128::from_str` gives for bytes: an optional `+`, then one or more
/// decimal digits whose value fits.
pub open spec fn u128_text_value(b: Seq<u8>) -> Option<u128> {
    let digits = u128_digits(b);
    if digits.len() > 0 && all_digit_bytes(digits) && digit_bytes_value(digits) <= u128::MAX {
        Some(digit_bytes_value(digits) as u128)
    } else {
        None
    }
}

/// The timestamp after a prefix, where the payload starts with the prefix
/// and the rest reads as a `u128`.
pub open spec fn probe_timestamp(payload: Seq<u8>, prefix: Seq<u8>) -> Option<u128> {
    if payload.len() >= prefix.len() && payload.take(prefix.len() as int) == prefix {
        u128_text_value(payload.skip(prefix.len() as int))
    } else {
        None
    }
}

proof fn lemma_digit_bytes_value_prefix(s: Seq<u8>, n: int)
    requires
        0 <= n <= s.len(),
        forall|i: int| 0 <= i < s.len() ==> is_digit_byte(#[trigger] s[i]),
    ensures
        digit_bytes_value(s.take(n)) <= digit_bytes_value(s),
    decreases s.len(),
{
    if n < s.len() {
        assert(s.drop_last().take(n) =~= s.take(n));
        lemma_digit_bytes_value_prefix(s.drop_last(), n);
    } else {
        assert(s.take(n) =~= s);
    }
}

/// Reads decimal digit bytes with an optional leading `+` as `u128::from_str` does.
pub fn parse_u128_bytes(b: &[u8]) -> (out: Option<u128>)
    ensures
        out == u128_text_value(b@),
{
    let start: usize = if b.len() > 0 && b[0] == 43 {
        1
    } else {
        0
    };
    let ghost digits = u128_digits(b@);
    proof {
        assert(digits =~= b@.skip(start as int));
    }
    if start >= b.len() {
        return None;
    }
    let mut value: u128 = 0;
    let mut i: usize = start;
    while i < b.len()
        invariant
            start <= i <= b@.len(),
            start < b@.len(),
            digits == b@.skip(start as int),
            digits == u128_digits(b@),
            forall|j: int| 0 <= j < i - start ==> is_digit_byte(#[trigger] digits[j]),
            value == digit_bytes_value(digits.take(i - start)),
        decreases b.len() - i,
    {
        let c = b[i];
        if !(48 <= c && c <= 57) {
            proof {
                assert(!is_digit_byte(digits[i - start]));
            }
            return None;
        }
        proof {
            assert(digits.take(i - start + 1).drop_last() =~= digits.take(i - start));
            assert(digits[i - start] == c);
        }
        let d: u128 = (c - 48) as u128;
        let next = match value.checked_mul(10) {
            Some(t) => t.checked_add(d),
            None => None,
        };
        match next {
            Some(v) => {
                value = v;
            },
            None => {
                proof {
                    assert(digit_bytes_value(digits.take(i - start + 1)) > u128::MAX);
                    if all_digit_bytes(digits) {
                        lemma_digit_bytes_value_prefix(digits, i - start + 1);
                    }
                }
                return None;
            },
        }
        i = i + 1;
    }
    proof {
        assert(digits.take(digits.len() as int) =~= digits);
    }
    Some(value)
}

fn starts_with_bytes(b: &[u8], prefix: &[u8]) -> (out: bool)
    ensures
        out == (b@.len() >= prefix@.len() && b@.take(prefix@.len() as int) == prefix@),
{
    if b.len() < prefix.len() {
        return false;
    }
    let mut i: usize = 0;
    while i < prefix.len()
        invariant
            i <= prefix@.len() <= b@.len(),
            forall|j: int| 0 <= j < i ==> b@[j] == prefix@[j],
        decreases prefix.len() - i,
    {
        if b[i] != prefix[i] {
            proof {
                assert(b@.take(prefix@.len() as int)[i as int] != prefix@[i as int]);
            }
            return false;
        }
        i = i + 1;
    }
    proof {
        assert(b@.take(prefix@.len() as int) =~= prefix@);
    }
    true
}

fn bytes_after(b: &[u8], n: usize) -> (out: Vec<u8>)
    requires
        n <= b@.len(),
    ensures
        out@ == b@.skip(n as int),
{
    let mut out: Vec<u8> = Vec::new();
    let mut i: usize = n;
    while i < b.len()
        invariant
            n <= i <= b@.len(),
            out@ == b@.subrange(n as int, i as int),
        decreases b.len() - i,
    {
        out.push(b[i]);
        proof {
            assert(b@.subrange(n as int, i + 1) =~= b@.subrange(n as int, i as int).push(b@[i as int]));
        }
        i = i + 1;
    }
    proof {
        assert(b@.subrange(n as int, b@.len() as int) =~= b@.skip(n as int));
    }
    out
}

fn read_timestamp(payload: &[u8], prefix: &[u8]) -> (out: Option<u128>)
    ensures
        out == probe_timestamp(payload@, prefix@),
{
    if !starts_with_bytes(payload, prefix) {
        return None;
    }
    let rest = bytes_after(payload, prefix.len());
    parse_u128_bytes(rest.as_slice())
}

fn prefix_bytes(response: bool) -> (out: Vec<u8>)
    ensures
        out@ == if response {
            probe_response_prefix()
        } else {
            probe_prefix()
        },
{
    let out = if response {
        vec![112u8, 114u8, 111u8, 98u8, 101u8, 95u8, 114u8, 101u8, 115u8, 112u8, 111u8, 110u8, 115u8, 101u8, 32u8]
    } else {
        vec![112u8, 114u8, 111u8, 98u8, 101u8, 32u8]
    };
    proof {
        if response {
            assert(out@ =~= probe_response_prefix());
        } else {
            assert(out@ =~= probe_prefix());
        }
    }
    out
}

/// Appends the decimal text of `n` as ASCII bytes.
fn push_decimal_bytes(out: &mut Vec<u8>, n: u128)
    ensures
        final(out)@ == old(out)@ + ascii_bytes(decimal_text(n as nat)),
{
    let text = format_decimal_wide(n);
    let cs = chars_of(text.as_str());
    let ghost start = out@;
    let mut i: usize = 0;
    while i < cs.len()
        invariant
            i <= cs@.len(),
            cs@ == decimal_text(n as nat),
            out@ == start + ascii_bytes(cs@.take(i as int)),
        decreases cs.len() - i,
    {
        proof {
            assert(cs@.take(i + 1) =~= cs@.take(i as int).push(cs@[i as int]));
            assert(ascii_bytes(cs@.take(i + 1)) =~= ascii_bytes(cs@.take(i as int)).push(cs@[i as int] as u8));
        }
        out.push(cs[i] as u8);
        i = i + 1;
    }
    proof {
        assert(cs@.take(cs@.len() as int) =~= cs@);
    }
}

/// The payload of a probe sent at `sent_at` milliseconds: `probe <sent_at>`.
pub open spec fn probe_payload_spec(sent_at: u128) -> Seq<u8> {
    probe_prefix() + ascii_bytes(decimal_text(sent_at as nat))
}

/// `10` to the power `k`.
pub open spec fn pow10(k: nat) -> nat
    decreases k,
{
    if k == 0 {
        1
    } else {
        10 * pow10((k - 1) as nat)
    }
}

/// A number below `10^k` has at most `k` decimal digits.
proof fn lemma_decimal_text_len(n: nat, k: nat)
    requires
        1 <= k,
        n < pow10(k),
    ensures
        decimal_text(n).len() <= k,
    decreases k,
{
    if n >= 10 {
        if k == 1 {
            assert(pow10(1) == 10 * pow10(0));
        }
        assert(pow10(k) == 10 * pow10((k - 1) as nat));
        lemma_decimal_text_len(n / 10, (k - 1) as nat);
    }
}

/// A probe payload is short: the prefix and at most 39 digits.
pub fn probe_payload(sent_at: u128) -> (out: Vec<u8>)
    ensures
        out@ == probe_payload_spec(sent_at),
        out@.len() <= 45,
{
    proof {
        reveal_with_fuel(pow10, 40);
        assert(pow10(39) == 1000000000000000000000000000000000000000nat);
        lemma_decimal_text_len(sent_at as nat, 39);
    }
    let mut out = prefix_bytes(false);
    push_decimal_bytes(&mut out, sent_at);
    out
}

/// The answer to a probe payload: `probe_response` and the probe's
/// timestamp, or `now_unix_millis` where the payload holds none.
pub open spec fn probe_response_spec(probe: Seq<u8>, now_unix_millis: u128) -> Seq<u8> {
    probe_response_prefix() + ascii_bytes(
        decimal_text(
            match probe_timestamp(probe, probe_prefix()) {
                Some(t) => t,
                None => now_unix_millis,
            } as nat,
        ),
    )
}

pub fn encode_probe_response_payload(probe_payload: &[u8], now_unix_millis: u128) -> (out: Vec<u8>)
    ensures
        out@ == probe_response_spec(probe_payload@, now_unix_millis),
{
    let prefix = prefix_bytes(false);
    let timestamp = match read_timestamp(probe_payload, prefix.as_slice()) {
        Some(t) => t,
        None => now_unix_millis,
    };
    let mut out = prefix_bytes(true);
    push_decimal_bytes(&mut out, timestamp);
    out
}

/// The round trip of a probe response at `now_unix_millis`: now minus the
/// echoed timestamp, where that is a `u64` that is not negative.
pub open spec fn probe_rtt_spec(response: Seq<u8>, now_unix_millis: u128) -> Option<u64> {
    match probe_timestamp(response, probe_response_prefix()) {
        None => None,
        Some(t) => if now_unix_millis >= t && now_unix_millis - t <= u64::MAX {
            Some((now_unix_millis - t) as u64)
        } else {
            None
        },
    }
}

pub fn probe_response_rtt_ms(response_payload: &[u8], now_unix_millis: u128) -> (out: Option<u64>)
    ensures
        out == probe_rtt_spec(response_payload@, now_unix_millis),
{
    let prefix = prefix_bytes(true);
    let timestamp = read_timestamp(response_payload, prefix.as_slice())?;
    if now_unix_millis < timestamp {
        return None;
    }
    let elapsed = now_unix_millis - timestamp;
    if elapsed > u64::MAX as u128 {
        return None;
    }
    Some(elapsed as u64)
}

proof fn lemma_decimal_bytes_value(n: nat)
    ensures
        ascii_bytes(decimal_text(n)).len() > 0,
        all_digit_bytes(ascii_bytes(decimal_text(n))),
        ascii_bytes(decimal_text(n))[0] != 43,
        digit_bytes_value(ascii_bytes(decimal_text(n))) == n,
    decreases n,
{
    let t = decimal_text(n);
    if n < 10 {
        assert(ascii_bytes(t) =~= seq![((n + 48) as char) as u8]);
        assert((((n + 48) as char) as u8) == n + 48);
        assert(ascii_bytes(t).drop_last() =~= Seq::<u8>::empty());
        assert(digit_bytes_value(ascii_bytes(t)) == digit_bytes_value(Seq::<u8>::empty()) * 10 + n);
    } else {
        lemma_decimal_bytes_value(n / 10);
        let prev = ascii_bytes(decimal_text(n / 10));
        let d = (n % 10) as int;
        assert((((d + 48) as char) as u8) == d + 48);
        assert(ascii_bytes(t) =~= prev.push(((d + 48) as char) as u8));
        assert(ascii_bytes(t).drop_last() =~= prev);
        assert(ascii_bytes(t).last() == d + 48);
        assert(n == (n / 10) * 10 + n % 10) by (nonlinear_arith);
        assert(digit_bytes_value(ascii_bytes(t)) == digit_bytes_value(prev) * 10 + d);
        assert(ascii_bytes(t)[0] == prev[0]);
        assert forall|i: int| 0 <= i < ascii_bytes(t).len() implies is_digit_byte(#[trigger] ascii_bytes(t)[i]) by {
            if i < prev.len() {
                assert(ascii_bytes(t)[i] == prev[i]);
            }
        }
    }
}

proof fn lemma_timestamp_after_prefix(prefix: Seq<u8>, t: u128)
    ensures
        probe_timestamp(prefix + ascii_bytes(decimal_text(t as nat)), prefix) == Some(t),
{
    let b = ascii_bytes(decimal_text(t as nat));
    let payload = prefix + b;
    assert(payload.take(prefix.len() as int) =~= prefix);
    assert(payload.skip(prefix.len() as int) =~= b);
    lemma_decimal_bytes_value(t as nat);
    assert(u128_digits(b) == b);
}

/// A probe echoed by the peer gives back its round trip: the response to the
/// probe sent at `sent_at` reads, at `now`, as `now - sent_at` milliseconds.
pub proof fn lemma_probe_round_trip(sent_at: u128, peer_now: u128, now: u128)
    requires
        sent_at <= now,
        now - sent_at <= u64::MAX,
    ensures
        probe_rtt_spec(probe_response_spec(probe_payload_spec(sent_at), peer_now), now) == Some(
            (now - sent_at) as u64,
        ),
{
    lemma_timestamp_after_prefix(probe_prefix(), sent_at);
    lemma_timestamp_after_prefix(probe_response_prefix(), sent_at);
}

/// The backend's type: the custom `tfscale` backend.
pub fn custom_backend_type() -> (out: BackendType)
    ensures
        out matches BackendType::Custom(n) && n@ == "tfscale"@,
{
    BackendType::Custom(owned("tfscale"))
}

/// What the backend can do: a userspace TUN device, NAT traversal and
/// static peers.
pub fn custom_capabilities() -> (out: BackendCapabilities)
    ensures
        out == (BackendCapabilities {
            supports_relay: false,
            supports_nat_traversal: true,
            supports_kernel_tun: false,
            supports_userspace_tun: true,
            supports_dynamic_peers: false,
            supports_static_peers: true,
        }),
{
    BackendCapabilities {
        supports_relay: false,
        supports_nat_traversal: true,
        supports_kernel_tun: false,
        supports_userspace_tun: true,
        supports_dynamic_peers: false,
        supports_static_peers: true,
    }
}

} // verus!
