//! Control-plane rules: hostnames, migrations, secret hashing, address
//! allocation and the checks on registration and probing requests.

use crate::ip::{split_chars, split_on};
use crate::protocol::{
    EndpointPayload, EndpointProbeRequest, EndpointProbeResponse, NetworkMapPeer, RegisterDeviceResponse,
};
use crate::text::{
    hex_char,
    ascii_lower, ascii_lowercase, concat2, is_whitespace, trim_end, trim_start, decimal_text, format_decimal, lowercase_chars, owned, push_char,
    push_str, str_eq, string_from_chars, trim, trim_chars,
};
use sha2::Digest;
use vstd::prelude::*;

verus! {

pub const STATUS_BAD_REQUEST: u16 = 400;

pub const STATUS_UNAUTHORIZED: u16 = 401;

pub const STATUS_NOT_FOUND: u16 = 404;

pub const STATUS_CONFLICT: u16 = 409;

pub const STATUS_INTERNAL_SERVER_ERROR: u16 = 500;

/// An API error: HTTP status code and message.
#[derive(Clone, Debug, PartialEq, Eq)]
pub struct ApiError {
    pub status: u16,
    pub message: String,
}

pub open spec fn api_error_is(e: ApiError, status: u16, message: Seq<char>) -> bool {
    e.status == status && e.message@ == message
}

fn api_error(status: u16, message: &str) -> (e: ApiError)
    ensures
        api_error_is(e, status, message@),
{
    ApiError { status, message: owned(message) }
}

/// A byte a hostname may hold: lowercase ASCII letter, digit or `-`.
pub open spec fn hostname_byte(b: u8) -> bool {
    (0x61 <= b && b <= 0x7a) || (0x30 <= b && b <= 0x39) || b == 0x2d
}

/// What `normalize_hostname` yields: the trimmed lowercase hostname, or the
/// message of the rule it breaks.
pub open spec fn normalize_hostname_spec(value: Seq<char>) -> Result<Seq<char>, Seq<char>> {
    let h = ascii_lowercase(trim(value));
    let bytes = vstd::utf8::encode_utf8(h);
    if h.len() == 0 {
        Err("hostname is required"@)
    } else if bytes.len() > 63 {
        Err("hostname must be 63 characters or fewer"@)
    } else if h[0] == '-' || h.last() == '-' {
        Err("hostname cannot start or end with '-'"@)
    } else if !(forall|i: int| 0 <= i < bytes.len() ==> hostname_byte(#[trigger] bytes[i])) {
        Err("hostname can contain only lowercase letters, digits, and '-'"@)
    } else {
        Ok(h)
    }
}

/// Trims, lowercases and checks a hostname.
#[verifier::loop_isolation(false)]
pub fn normalize_hostname(value: &str) -> (out: Result<String, ApiError>)
    ensures
        match normalize_hostname_spec(value@) {
            Ok(h) => out matches Ok(s) && s@ == h,
            Err(m) => out matches Err(e) && api_error_is(e, STATUS_BAD_REQUEST, m),
        },
{
    let trimmed = trim_chars(value);
    let lowered = lowercase_chars(trimmed.as_slice());
    let hostname = string_from_chars(lowered.as_slice());
    if lowered.len() == 0 {
        return Err(api_error(STATUS_BAD_REQUEST, "hostname is required"));
    }
    let bytes = hostname.as_str().as_bytes();
    proof {
        assert(bytes@ == vstd::utf8::encode_utf8(hostname@));
    }
    if bytes.len() > 63 {
        return Err(api_error(STATUS_BAD_REQUEST, "hostname must be 63 characters or fewer"));
    }
    if lowered[0] == '-' || lowered[lowered.len() - 1] == '-' {
        return Err(api_error(STATUS_BAD_REQUEST, "hostname cannot start or end with '-'"));
    }
    let mut i: usize = 0;
    while i < bytes.len()
        invariant
            i <= bytes@.len(),
            forall|j: int| 0 <= j < i ==> hostname_byte(#[trigger] bytes@[j]),
        decreases bytes.len() - i,
    {
        let b = bytes[i];
        if !((0x61u8 <= b && b <= 0x7au8) || (0x30u8 <= b && b <= 0x39u8) || b == 0x2du8) {
            assert(!hostname_byte(bytes@[i as int]));
            return Err(
                api_error(
                    STATUS_BAD_REQUEST,
                    "hostname can contain only lowercase letters, digits, and '-'",
                ),
            );
        }
        i = i + 1;
    }
    Ok(hostname)
}

/// The non-empty trimmed statements among the parts.
pub open spec fn nonempty_trimmed(parts: Seq<Seq<char>>) -> Seq<Seq<char>>
    decreases parts.len(),
{
    if parts.len() == 0 {
        Seq::empty()
    } else if trim(parts.last()).len() == 0 {
        nonempty_trimmed(parts.drop_last())
    } else {
        nonempty_trimmed(parts.drop_last()).push(trim(parts.last()))
    }
}

/// The statements of a migration script: split at `;`, trimmed, empty ones dropped.
pub fn migration_statements(sql: &str) -> (out: Vec<String>)
    ensures
        out@.len() == nonempty_trimmed(split_on(sql@, ';')).len(),
        forall|i: int| 0 <= i < out@.len() ==> #[trigger] out@[i]@ == nonempty_trimmed(split_on(sql@, ';'))[i],
{
    let cs = crate::text::chars_of(sql);
    let parts = split_chars(cs.as_slice(), ';');
    let ghost all = split_on(sql@, ';');
    let mut out: Vec<String> = Vec::new();
    let mut i: usize = 0;
    while i < parts.len()
        invariant
            i <= parts@.len(),
            parts@.len() == all.len(),
            forall|k: int| 0 <= k < parts@.len() ==> #[trigger] parts@[k]@ == all[k],
            out@.len() == nonempty_trimmed(all.take(i as int)).len(),
            forall|k: int| 0 <= k < out@.len() ==> #[trigger] out@[k]@ == nonempty_trimmed(all.take(i as int))[k],
        decreases parts.len() - i,
    {
        let part = string_from_chars(parts[i].as_slice());
        let trimmed = trim_chars(part.as_str());
        proof {
            assert(all.take(i + 1).drop_last() =~= all.take(i as int));
            assert(all.take(i + 1).last() == all[i as int]);
        }
        if trimmed.len() > 0 {
            out.push(string_from_chars(trimmed.as_slice()));
        }
        i = i + 1;
    }
    proof {
        assert(all.take(all.len() as int) =~= all);
    }
    out
}

/// A schema migration: its version and name.
#[derive(Clone, Debug, PartialEq, Eq)]
pub struct Migration {
    pub version: i64,
    pub name: String,
}

/// The schema migrations, oldest first.
pub fn migrations() -> (out: Vec<Migration>)
    ensures
        out@.len() == 2,
        out@[0].version == 1 && out@[0].name@ == "initial"@,
        out@[1].version == 2 && out@[1].name@ == "endpoint_metadata"@,
{
    vec![
        Migration { version: 1, name: owned("initial") },
        Migration { version: 2, name: owned("endpoint_metadata") },
    ]
}

/// The SHA-256 digest of some bytes (`sha2::Sha256::digest`).
pub uninterp spec fn sha256(bytes: Seq<u8>) -> Seq<u8>;

/// Computes SHA-256 with the `sha2` crate; the output is the named digest.
#[verifier::external_body]
fn sha256_digest(bytes: &[u8]) -> (out: [u8; 32])
    ensures
        out@ == sha256(bytes@),
{
    sha2::Sha256::digest(bytes).into()
}

/// Lowercase hexadecimal text of bytes, two digits per byte.
pub open spec fn hex_bytes_text(bytes: Seq<u8>) -> Seq<char>
    decreases bytes.len(),
{
    if bytes.len() == 0 {
        Seq::empty()
    } else {
        hex_bytes_text(bytes.drop_last()) + seq![hex_char((bytes.last() / 16) as int), hex_char((bytes.last() % 16) as int)]
    }
}

/// `hex::encode`: two lowercase hexadecimal digits per byte.
#[verifier::external_body]
fn hex_encode(bytes: &[u8]) -> (out: String)
    ensures
        out@ == hex_bytes_text(bytes@),
{
    hex::encode(bytes)
}

/// The stored form of a secret: the hex SHA-256 of its UTF-8 bytes.
pub fn hash_secret(secret: &str) -> (out: String)
    ensures
        out@ == hex_bytes_text(sha256(vstd::utf8::encode_utf8(secret@))),
{
    let digest = sha256_digest(secret.as_bytes());
    hex_encode(&digest)
}

/// Decimal text of a signed value.
pub open spec fn signed_text(n: int) -> Seq<char> {
    if n < 0 {
        seq!['-'] + decimal_text((-n) as nat)
    } else {
        decimal_text(n as nat)
    }
}

fn format_signed(n: i64) -> (out: String)
    ensures
        out@ == signed_text(n as int),
{
    if n < 0 {
        let magnitude: u64 = if n == i64::MIN {
            9223372036854775808u64
        } else {
            (-n) as u64
        };
        let digits = format_decimal(magnitude);
        proof {
            reveal_strlit("-");
            assert(magnitude == -n);
        }
        concat2("-", digits.as_str())
    } else {
        format_decimal(n as u64)
    }
}

/// The overlay address of the next device, from the number of allocations so
/// far: hosts `.2` to `.254` of `100.64.0.0/24`.
pub fn ipv4_for_allocation(count: i64) -> (out: Result<String, ApiError>)
    requires
        count <= i64::MAX - 2,
    ensures
        count + 2 > 254 ==> (out matches Err(e) && api_error_is(
            e,
            STATUS_INTERNAL_SERVER_ERROR,
            "default MVP address pool is exhausted"@,
        )),
        count + 2 <= 254 ==> (out matches Ok(s) && s@ == "100.64.0."@ + signed_text(count + 2)),
{
    let host_octet = count + 2;
    if host_octet > 254 {
        return Err(api_error(STATUS_INTERNAL_SERVER_ERROR, "default MVP address pool is exhausted"));
    }
    let digits = format_signed(host_octet);
    Ok(concat2("100.64.0.", digits.as_str()))
}

/// The network map version: devices plus endpoints plus the sum of endpoint
/// timestamps.
pub fn network_map_version(device_count: i64, endpoint_count: i64, endpoint_timestamp_sum: i64) -> (out: i64)
    requires
        i64::MIN <= device_count + endpoint_count + endpoint_timestamp_sum <= i64::MAX,
        i64::MIN <= device_count + endpoint_count <= i64::MAX,
    ensures
        out == device_count + endpoint_count + endpoint_timestamp_sum,
{
    device_count + endpoint_count + endpoint_timestamp_sum
}

/// What the control plane knows of an auth key.
#[derive(Clone, Copy, Debug, PartialEq, Eq)]
pub struct AuthKeyRow {
    pub reusable: i64,
    pub used: bool,
    pub revoked: bool,
}

/// Whether an auth key may register a device: it must exist, not be revoked,
/// and, unless reusable, not be used yet.
pub fn check_auth_key(row: Option<AuthKeyRow>) -> (out: Result<(), ApiError>)
    ensures
        row is None ==> (out matches Err(e) && api_error_is(e, STATUS_UNAUTHORIZED, "invalid auth key"@)),
        row matches Some(r) && r.revoked ==> (out matches Err(e) && api_error_is(
            e,
            STATUS_UNAUTHORIZED,
            "auth key revoked"@,
        )),
        row matches Some(r) && !r.revoked && r.reusable == 0 && r.used ==> (out matches Err(e)
            && api_error_is(e, STATUS_UNAUTHORIZED, "auth key already used"@)),
        row matches Some(r) && !r.revoked && !(r.reusable == 0 && r.used) ==> out is Ok,
{
    match row {
        None => Err(api_error(STATUS_UNAUTHORIZED, "invalid auth key")),
        Some(r) => {
            if r.revoked {
                return Err(api_error(STATUS_UNAUTHORIZED, "auth key revoked"));
            }
            if r.reusable == 0 && r.used {
                return Err(api_error(STATUS_UNAUTHORIZED, "auth key already used"));
            }
            Ok(())
        },
    }
}

/// The answer to an endpoint probe: the address the request came from, for
/// UDP probes only.
pub fn endpoint_probe_response(
    request: &EndpointProbeRequest,
    observed_address: &str,
    observed_port: u16,
) -> (out: Result<EndpointProbeResponse, ApiError>)
    ensures
        request.protocol@ != "udp"@ ==> (out matches Err(e) && api_error_is(
            e,
            STATUS_BAD_REQUEST,
            "only udp endpoint probing is supported"@,
        )),
        request.protocol@ == "udp"@ ==> (out matches Ok(r) && r.observed_address@ == observed_address@
            && r.observed_port == observed_port && r.protocol@ == request.protocol@
            && r.udp_probe_address is None && r.udp_probe_port is None),
{
    if !str_eq(request.protocol.as_str(), "udp") {
        return Err(api_error(STATUS_BAD_REQUEST, "only udp endpoint probing is supported"));
    }
    Ok(EndpointProbeResponse {
        observed_address: owned(observed_address),
        observed_port,
        protocol: request.protocol.clone(),
        udp_probe_address: None,
        udp_probe_port: None,
    })
}

/// The routes a peer is reached through: its own address as a `/32`.
pub fn peer_allowed_routes(ipv4: &str) -> (out: Vec<String>)
    ensures
        out@.len() == 1,
        out@[0]@ == ipv4@ + "/32"@,
{
    vec![concat2(ipv4, "/32")]
}

/// The network every device joins.
pub const DEFAULT_NETWORK_ID: &'static str = "net_default";

/// Seconds between an agent's polls.
pub const POLL_INTERVAL_SECONDS: u64 = 5;

/// The answer to a registration.
pub fn registration_response(device_id: &str, node_key: &str, ipv4: &str, network_id: &str) -> (out: RegisterDeviceResponse)
    ensures
        out.device_id@ == device_id@,
        out.node_key@ == node_key@,
        out.ipv4@ == ipv4@,
        out.network_id@ == network_id@,
        out.poll_interval_seconds == POLL_INTERVAL_SECONDS,
{
    RegisterDeviceResponse {
        device_id: owned(device_id),
        node_key: owned(node_key),
        ipv4: owned(ipv4),
        network_id: owned(network_id),
        poll_interval_seconds: POLL_INTERVAL_SECONDS,
    }
}

/// The ids of a new device: its device id, its node key and the id of its
/// address allocation, each a prefix and a fresh UUID.
pub fn new_device_ids() -> (out: Result<(String, String, String), String>)
    ensures
        out matches Ok(ids) ==> crate::ids::is_prefixed_id(ids.0@, "dev_"@) && crate::ids::is_prefixed_id(
            ids.1@,
            "node_"@,
        ) && crate::ids::is_prefixed_id(ids.2@, "ip_"@),
{
    let device = crate::ids::new_device_id()?;
    let node = crate::ids::prefixed_id("node_")?;
    let allocation = crate::ids::prefixed_id("ip_")?;
    Ok((device, node, allocation))
}

/// A new auth key: its id and the key itself.
pub fn new_auth_key() -> (out: Result<(String, String), String>)
    ensures
        out matches Ok(ids) ==> crate::ids::is_prefixed_id(ids.0@, "ak_"@) && crate::ids::is_prefixed_id(
            ids.1@,
            "tfk_"@,
        ),
{
    let id = crate::ids::prefixed_id("ak_")?;
    let key = crate::ids::prefixed_id("tfk_")?;
    Ok((id, key))
}

/// A peer of the network map, routed through its own address.
pub fn network_map_peer(
    device_id: &str,
    hostname: &str,
    ipv4: &str,
    backend_type: &str,
    backend_public_credential: &str,
    endpoints: Vec<EndpointPayload>,
) -> (out: NetworkMapPeer)
    ensures
        out.device_id@ == device_id@,
        out.hostname@ == hostname@,
        out.ipv4@ == ipv4@,
        out.backend_type@ == backend_type@,
        out.backend_public_credential@ == backend_public_credential@,
        out.endpoints == endpoints,
        out.allowed_routes@.len() == 1,
        out.allowed_routes@[0]@ == ipv4@ + "/32"@,
{
    NetworkMapPeer {
        device_id: owned(device_id),
        hostname: owned(hostname),
        ipv4: owned(ipv4),
        backend_type: owned(backend_type),
        backend_public_credential: owned(backend_public_credential),
        endpoints,
        allowed_routes: peer_allowed_routes(ipv4),
    }
}

/// An endpoint as stored for a heartbeat: its source, `local` where it
/// names none, and its priority widened.
pub fn endpoint_row_values(endpoint: &EndpointPayload) -> (out: (String, Option<i64>))
    ensures
        out.0@ == match endpoint.source {
            Some(s) => s@,
            None => "local"@,
        },
        out.1 == match endpoint.priority {
            Some(p) => Some(p as i64),
            None => None::<i64>,
        },
{
    let source = match &endpoint.source {
        Some(s) => s.clone(),
        None => owned("local"),
    };
    let priority = match endpoint.priority {
        Some(p) => Some(p as i64),
        None => None,
    };
    (source, priority)
}

/// An endpoint read back from storage; the port and priority are narrowed
/// as `as` casts narrow them.
pub fn endpoint_from_row(
    kind: String,
    address: String,
    port: i64,
    protocol: String,
    source: Option<String>,
    priority: Option<i64>,
    expires_at: Option<String>,
) -> (out: EndpointPayload)
    ensures
        out.kind == kind,
        out.address == address,
        out.port == port as u16,
        out.protocol == protocol,
        out.source == source,
        out.priority == match priority {
            Some(p) => Some(p as i32),
            None => None::<i32>,
        },
        out.expires_at == expires_at,
{
    EndpointPayload {
        kind,
        address,
        port: port as u16,
        protocol,
        source,
        priority: match priority {
            Some(p) => Some(p as i32),
            None => None,
        },
        expires_at,
    }
}

} // verus!

verus! {

/// A character a hostname is written in: a lowercase ASCII letter, a digit
/// or a hyphen.
pub open spec fn hostname_char(c: char) -> bool {
    ('a' <= c && c <= 'z') || ('0' <= c && c <= '9') || c == '-'
}

/// Every name of 1 to 63 lowercase ASCII letters, digits and hyphens that
/// neither starts nor ends with a hyphen is accepted, and returned as it is.
pub proof fn lemma_valid_hostname_accepted(h: Seq<char>)
    requires
        1 <= h.len() <= 63,
        forall|i: int| 0 <= i < h.len() ==> hostname_char(#[trigger] h[i]),
        h[0] != '-',
        h.last() != '-',
    ensures
        normalize_hostname_spec(h) == Ok::<Seq<char>, Seq<char>>(h),
{
    assert(!is_whitespace(h[0]));
    assert(trim_start(h) == h);
    assert(!is_whitespace(h.last()));
    assert(trim_end(h) == h);
    assert(ascii_lowercase(h) =~= h) by {
        assert forall|i: int| 0 <= i < h.len() implies ascii_lower(h[i]) == h[i] by {
            assert(hostname_char(h[i]));
        }
    }
    assert(vstd::utf8::is_ascii_chars(h)) by {
        assert forall|i: int| 0 <= i < h.len() implies '\0' <= #[trigger] h[i] <= '\u{7f}' by {
            assert(hostname_char(h[i]));
        }
    }
    vstd::utf8::is_ascii_chars_encode_utf8(h);
    let bytes = vstd::utf8::encode_utf8(h);
    assert forall|i: int| 0 <= i < bytes.len() implies hostname_byte(#[trigger] bytes[i]) by {
        assert(hostname_char(h[i]));
        assert(h[i] as u8 == bytes[i]);
    }
}

} // verus!
