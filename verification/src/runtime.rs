//! The custom backend's runtime tables, built from its persisted state: how
//! a packet finds its peer, how a frame finds its session, and what each
//! peer's path is. Tables are lists in insertion order; where a key occurs
//! twice the later entry wins, as with a map that is filled in order.

use crate::backend::{
    expire_path, expired_path, is_fresh_path, mark_path_direct, marked_direct, peer_path_probe_due,
    probed_path, record_path_probe, relay_endpoint, elapsed_at_least,
    probe_interval, relay_endpoint_value, fresh_path, CustomBackendState, PeerPathKind, PeerPathState, StoredPeerSession,
};
use crate::crypto::{
    aead_message_fits, tag_changed, base64_decode, base64_encode, base64url_decode, base64url_encode, decode_key,
    decode_key_spec, paired,
    decode_public_credential, decode_public_credential_spec, sealed_frame, session_fields_match,
    x25519_shared, PeerCryptoSession,
};
use crate::error::{command_failed, failed, BackendError};
use crate::frame::FRAME_TYPE_DATA;
use crate::ip::{format_ipv4, ipv4_text};
use crate::packet::{ipv4_destination, ipv4_destination_spec};
use crate::protocol::RelayMessage;
use crate::text::{concat2, owned};
use crate::frame::{
    device_id_frame_bytes, header_bytes, EncodedFrame, FrameDeviceId, FrameHeader,
    FRAME_TYPE_PROBE, FRAME_TYPE_PROBE_RESPONSE,
};
use crate::crypto::open_outcome;
use crate::nonce::{accept_spec, counter_of};
use crate::ip::IpAddress;
use crate::net::{EndpointKind, TransportProtocol};
use crate::backend::{
    encode_probe_response_payload, probe_payload, probe_payload_spec, probe_response_spec,
    probe_response_rtt_ms, probe_rtt_spec,
};
use crate::ip::Ipv4Address;
use crate::net::{Endpoint, RelayConfig};
use crate::transport::{first_lan_udp, select_udp_endpoint};
use vstd::prelude::*;

verus! {

broadcast use vstd::array::group_array_axioms;

/// A peer's sealing session and the endpoint its frames go to.
#[derive(Clone, Debug)]
pub struct PeerTransportSession {
    pub device_id: String,
    pub overlay_ip: Ipv4Address,
    pub endpoint: Endpoint,
    pub crypto: PeerCryptoSession,
}

/// The backend's tables.
pub struct RuntimeState {
    pub persisted: CustomBackendState,
    pub overlay_index: Vec<(Ipv4Address, String)>,
    pub crypto_keys: Vec<(String, [u8; 32])>,
    pub udp_endpoints: Vec<(String, Endpoint)>,
    pub frame_ids: Vec<(FrameDeviceId, String)>,
    pub sessions: Vec<PeerTransportSession>,
    pub path_states: Vec<(String, PeerPathState)>,
    pub relays: Vec<RelayConfig>,
}

/// An overlay entry for a peer: its address and device id.
pub open spec fn overlay_entry_is(e: (Ipv4Address, String), peer: StoredPeerSession) -> bool {
    e.0 == peer.overlay_ip && e.1@ == peer.device_id@
}

/// The overlay index of the peers: each peer's address and device id, in order.
pub open spec fn overlay_table_is(t: Seq<(Ipv4Address, String)>, peers: Seq<StoredPeerSession>) -> bool {
    &&& t.len() == peers.len()
    &&& forall|i: int| 0 <= i < t.len() ==> overlay_entry_is(#[trigger] t[i], peers[i])
}

/// The peers whose credential holds a key, with that key.
pub open spec fn crypto_entries(peers: Seq<StoredPeerSession>) -> Seq<(Seq<char>, Seq<u8>)>
    decreases peers.len(),
{
    if peers.len() == 0 {
        Seq::empty()
    } else {
        let p = peers.last();
        match decode_public_credential_spec(p.public_key@) {
            Ok(k) => crypto_entries(peers.drop_last()).push((p.device_id@, k)),
            Err(_) => crypto_entries(peers.drop_last()),
        }
    }
}

pub open spec fn crypto_view(t: Seq<(String, [u8; 32])>) -> Seq<(Seq<char>, Seq<u8>)> {
    t.map_values(|e: (String, [u8; 32])| (e.0@, e.1@))
}

/// The peers with a LAN UDP endpoint, with that endpoint.
pub open spec fn udp_entries(peers: Seq<StoredPeerSession>) -> Seq<(Seq<char>, Endpoint)>
    decreases peers.len(),
{
    if peers.len() == 0 {
        Seq::empty()
    } else {
        let p = peers.last();
        match first_lan_udp(p.endpoints@) {
            Some(e) => udp_entries(peers.drop_last()).push((p.device_id@, e)),
            None => udp_entries(peers.drop_last()),
        }
    }
}

pub open spec fn udp_view(t: Seq<(String, Endpoint)>) -> Seq<(Seq<char>, Endpoint)> {
    t.map_values(|e: (String, Endpoint)| (e.0@, e.1))
}

/// The peers whose device id is a frame id, with that id.
pub open spec fn frame_entries(peers: Seq<StoredPeerSession>) -> Seq<(Seq<u8>, Seq<char>)>
    decreases peers.len(),
{
    if peers.len() == 0 {
        Seq::empty()
    } else {
        let p = peers.last();
        match device_id_frame_bytes(p.device_id@) {
            Ok(b) => frame_entries(peers.drop_last()).push((b, p.device_id@)),
            Err(_) => frame_entries(peers.drop_last()),
        }
    }
}

pub open spec fn frame_view(t: Seq<(FrameDeviceId, String)>) -> Seq<(Seq<u8>, Seq<char>)> {
    t.map_values(|e: (FrameDeviceId, String)| (e.0.0@, e.1@))
}

/// The distinct device ids of the peers, in order of first appearance.
pub open spec fn distinct_ids(peers: Seq<StoredPeerSession>) -> Seq<Seq<char>>
    decreases peers.len(),
{
    if peers.len() == 0 {
        Seq::empty()
    } else {
        let prev = distinct_ids(peers.drop_last());
        if prev.contains(peers.last().device_id@) {
            prev
        } else {
            prev.push(peers.last().device_id@)
        }
    }
}

/// The keys of the path table.
pub open spec fn path_keys(t: Seq<(String, PeerPathState)>) -> Seq<Seq<char>> {
    t.map_values(|e: (String, PeerPathState)| e.0@)
}

/// A path table with each device once.
pub open spec fn unique_keys(t: Seq<(String, PeerPathState)>) -> bool {
    forall|i: int, j: int| 0 <= i < j < t.len() ==> #[trigger] t[i].0@ != #[trigger] t[j].0@
}

/// The peers that get a transport session: those with a LAN UDP endpoint.
pub open spec fn session_peers(peers: Seq<StoredPeerSession>) -> Seq<StoredPeerSession>
    decreases peers.len(),
{
    if peers.len() == 0 {
        Seq::empty()
    } else if first_lan_udp(peers.last().endpoints@) is Some {
        session_peers(peers.drop_last()).push(peers.last())
    } else {
        session_peers(peers.drop_last())
    }
}

/// Whether every session can be set up from what is persisted: an identity
/// with a readable private key, a local device id that is a frame id, and
/// for every peer a frame id and, where it has a LAN UDP endpoint, a
/// readable credential.
pub open spec fn sessions_derivable(p: CustomBackendState) -> bool {
    &&& p.identity is Some
    &&& p.local_config is Some
    &&& device_id_frame_bytes(p.local_config->Some_0.device_id@) is Ok
    &&& decode_key_spec(p.identity->Some_0.private_key@) is Ok
    &&& forall|i: int| 0 <= i < p.peers@.len() ==> device_id_frame_bytes(#[trigger] p.peers@[i].device_id@) is Ok
        && (first_lan_udp(p.peers@[i].endpoints@) is Some ==> decode_public_credential_spec(
        p.peers@[i].public_key@,
    ) is Ok)
}

/// The session set up with a peer from the persisted identity.
pub open spec fn session_is(s: PeerTransportSession, peer: StoredPeerSession, p: CustomBackendState) -> bool {
    let local_private = decode_key_spec(p.identity->Some_0.private_key@)->Ok_0;
    let local_id = device_id_frame_bytes(p.local_config->Some_0.device_id@)->Ok_0;
    let peer_id = device_id_frame_bytes(peer.device_id@)->Ok_0;
    let peer_key = decode_public_credential_spec(peer.public_key@)->Ok_0;
    &&& s.device_id@ == peer.device_id@
    &&& s.overlay_ip == peer.overlay_ip
    &&& first_lan_udp(peer.endpoints@) == Some(s.endpoint)
    &&& s.crypto.local_id.0@ == local_id
    &&& s.crypto.peer_id.0@ == peer_id
    &&& session_fields_match(
        s.crypto,
        x25519_shared(local_private, peer_key),
        p.identity->Some_0.public_key@,
        peer.public_key@,
        s.crypto.local_id,
        s.crypto.peer_id,
    )
}

/// The sessions of all peers with a LAN UDP endpoint, in order.
pub open spec fn sessions_are(s: Seq<PeerTransportSession>, p: CustomBackendState) -> bool {
    let peers = session_peers(p.peers@);
    &&& s.len() == peers.len()
    &&& forall|i: int| 0 <= i < s.len() ==> #[trigger] session_is(s[i], peers[i], p)
}

/// The tables of a runtime freshly built from persisted state.
pub open spec fn built_from(r: RuntimeState, p: CustomBackendState) -> bool {
    &&& r.persisted == p
    &&& overlay_table_is(r.overlay_index@, p.peers@)
    &&& crypto_view(r.crypto_keys@) == crypto_entries(p.peers@)
    &&& udp_view(r.udp_endpoints@) == udp_entries(p.peers@)
    &&& frame_view(r.frame_ids@) == frame_entries(p.peers@)
    &&& path_keys(r.path_states@) == distinct_ids(p.peers@)
    &&& unique_keys(r.path_states@)
    &&& forall|i: int| 0 <= i < r.path_states@.len() ==> is_fresh_path(#[trigger] r.path_states@[i].1)
    &&& (r.sessions@.len() == 0 || sessions_are(r.sessions@, p))
    &&& !sessions_derivable(p) ==> r.sessions@.len() == 0
    &&& r.relays@.len() == 0
}

fn contains_text(keys: &Vec<(String, PeerPathState)>, key: &String) -> (out: bool)
    ensures
        out == path_keys(keys@).contains(key@),
{
    let mut i: usize = 0;
    while i < keys.len()
        invariant
            i <= keys@.len(),
            forall|j: int| 0 <= j < i ==> keys@[j].0@ != key@,
        decreases keys.len() - i,
    {
        if keys[i].0 == *key {
            proof {
                assert(path_keys(keys@)[i as int] == key@);
            }
            return true;
        }
        i = i + 1;
    }
    proof {
        if path_keys(keys@).contains(key@) {
            let j = choose|j: int| 0 <= j < path_keys(keys@).len() && path_keys(keys@)[j] == key@;
            assert(keys@[j].0@ == key@);
        }
    }
    false
}

proof fn lemma_session_peers_prefix(peers: Seq<StoredPeerSession>, i: int)
    requires
        0 <= i <= peers.len(),
    ensures
        session_peers(peers.take(i)).len() <= session_peers(peers).len(),
    decreases peers.len() - i,
{
    if i < peers.len() {
        lemma_session_peers_prefix(peers, i + 1);
        assert(peers.take(i + 1).drop_last() =~= peers.take(i));
    } else {
        assert(peers.take(i) =~= peers);
    }
}

/// The sessions of every peer with a LAN UDP endpoint, the `k`-th one
/// sending with `salts[k]`; fails as a whole where one cannot be set up.
/// Without an identity or a local configuration there are none. With both,
/// it succeeds exactly where every session is derivable.
pub fn build_sessions_with_salts(p: &CustomBackendState, salts: &[[u8; 8]]) -> (out: Result<
    Vec<PeerTransportSession>,
    (),
>)
    requires
        salts@.len() >= session_peers(p.peers@).len(),
    ensures
        p.identity is None || p.local_config is None ==> (out matches Ok(v) && v@.len() == 0),
        p.identity is Some && p.local_config is Some ==> (out is Ok <==> sessions_derivable(*p)),
        p.identity is Some && p.local_config is Some ==> (out matches Ok(v) ==> sessions_are(v@, *p)
            && forall|k: int| 0 <= k < v@.len() ==> #[trigger] v@[k].crypto.send_nonces.session_salt == salts@[k]),
{
    let identity = match &p.identity {
        Some(i) => i,
        None => {
            return Ok(Vec::new());
        },
    };
    let local_config = match &p.local_config {
        Some(c) => c,
        None => {
            return Ok(Vec::new());
        },
    };
    let local_id = match FrameDeviceId::from_device_id(local_config.device_id.as_str()) {
        Ok(id) => id,
        Err(_) => {
            return Err(());
        },
    };
    let local_private = match decode_key(identity.private_key.as_str()) {
        Ok(k) => k,
        Err(_) => {
            return Err(());
        },
    };
    let ghost peers = p.peers@;
    let mut sessions: Vec<PeerTransportSession> = Vec::new();
    let mut i: usize = 0;
    proof {
        assert(peers.take(0) =~= Seq::<StoredPeerSession>::empty());
    }
    while i < p.peers.len()
        invariant
            i <= peers.len(),
            peers == p.peers@,
            p.identity == Some(*identity),
            p.local_config == Some(*local_config),
            device_id_frame_bytes(local_config.device_id@) == Ok::<Seq<u8>, Seq<char>>(local_id.0@),
            decode_key_spec(identity.private_key@) == Ok::<Seq<u8>, Seq<char>>(local_private@),
            forall|j: int| 0 <= j < i ==> device_id_frame_bytes(#[trigger] peers[j].device_id@) is Ok && (
            first_lan_udp(peers[j].endpoints@) is Some ==> decode_public_credential_spec(peers[j].public_key@) is Ok),
            sessions@.len() == session_peers(peers.take(i as int)).len(),
            forall|j: int| 0 <= j < sessions@.len() ==> #[trigger] session_is(
                sessions@[j],
                session_peers(peers.take(i as int))[j],
                *p,
            ),
            salts@.len() >= session_peers(peers).len(),
            forall|j: int| 0 <= j < sessions@.len() ==> #[trigger] sessions@[j].crypto.send_nonces.session_salt == salts@[j],
        decreases peers.len() - i,
    {
        proof {
            assert(peers.take(i + 1).drop_last() =~= peers.take(i as int));
            assert(peers.take(i + 1).last() == peers[i as int]);
            lemma_session_peers_prefix(peers, i + 1);
        }
        let peer = &p.peers[i];
        let peer_id = match FrameDeviceId::from_device_id(peer.device_id.as_str()) {
            Ok(id) => id,
            Err(_) => {
                return Err(());
            },
        };
        match select_udp_endpoint(peer.endpoints.as_slice()) {
            None => {},
            Some(endpoint) => {
                let crypto = match PeerCryptoSession::with_salt(
                    local_private,
                    identity.public_key.as_str(),
                    peer.public_key.as_str(),
                    local_id,
                    peer_id,
                    salts[sessions.len()],
                ) {
                    Ok(c) => c,
                    Err(_) => {
                        return Err(());
                    },
                };
                let session = PeerTransportSession {
                    device_id: peer.device_id.clone(),
                    overlay_ip: peer.overlay_ip,
                    endpoint,
                    crypto,
                };
                proof {
                    assert(session_is(session, peers[i as int], *p));
                }
                sessions.push(session);
            },
        }
        i = i + 1;
    }
    proof {
        assert(peers.take(peers.len() as int) =~= peers);
    }
    Ok(sessions)
}

/// The per-peer sessions, each with a freshly drawn salt; fails as a whole
/// where one cannot be set up or a salt cannot be drawn. Without an identity
/// or a local configuration there are none. With both, a success holds the
/// session of every peer with a LAN UDP endpoint, in order, and comes only
/// where every session is derivable; where one is not, the build fails.
fn build_sessions(p: &CustomBackendState) -> (out: Result<Vec<PeerTransportSession>, ()>)
    ensures
        out matches Ok(v) ==> v@.len() == 0 || sessions_are(v@, *p),
        out is Ok && out->Ok_0@.len() > 0 ==> sessions_derivable(*p),
        p.identity is None || p.local_config is None ==> (out matches Ok(v) && v@.len() == 0),
        p.identity is Some && p.local_config is Some ==> (out matches Ok(v) ==> sessions_derivable(*p)
            && sessions_are(v@, *p)),
        p.identity is Some && p.local_config is Some && !sessions_derivable(*p) ==> out is Err,
{
    if p.identity.is_none() || p.local_config.is_none() {
        return Ok(Vec::new());
    }
    let ghost peers = p.peers@;
    let mut count: usize = 0;
    let mut i: usize = 0;
    proof {
        assert(peers.take(0) =~= Seq::<StoredPeerSession>::empty());
    }
    while i < p.peers.len()
        invariant
            i <= peers.len(),
            peers == p.peers@,
            p.identity is Some && p.local_config is Some,
            count == session_peers(peers.take(i as int)).len(),
            count <= i,
        decreases peers.len() - i,
    {
        proof {
            assert(peers.take(i + 1).drop_last() =~= peers.take(i as int));
            assert(peers.take(i + 1).last() == peers[i as int]);
        }
        if select_udp_endpoint(p.peers[i].endpoints.as_slice()).is_some() {
            count = count + 1;
        }
        i = i + 1;
    }
    proof {
        assert(peers.take(peers.len() as int) =~= peers);
    }
    let mut salts: Vec<[u8; 8]> = Vec::new();
    while salts.len() < count
        invariant
            salts@.len() <= count,
            count == session_peers(p.peers@).len(),
            p.identity is Some && p.local_config is Some,
        decreases count - salts.len(),
    {
        match crate::bytes::random_bytes::<8>() {
            Ok(salt) => salts.push(salt),
            Err(_) => {
                return Err(());
            },
        }
    }
    build_sessions_with_salts(p, salts.as_slice())
}

impl RuntimeState {
    /// The tables for persisted state; no relays yet.
    #[verifier::spinoff_prover]
    pub fn from_persisted(persisted: CustomBackendState) -> (out: Self)
        ensures
            built_from(out, persisted),
    {
        let mut overlay_index: Vec<(Ipv4Address, String)> = Vec::new();
        let mut crypto_keys: Vec<(String, [u8; 32])> = Vec::new();
        let mut udp_endpoints: Vec<(String, Endpoint)> = Vec::new();
        let mut frame_ids: Vec<(FrameDeviceId, String)> = Vec::new();
        let mut path_states: Vec<(String, PeerPathState)> = Vec::new();
        let ghost peers = persisted.peers@;
        let mut i: usize = 0;
        proof {
            assert(peers.take(0) =~= Seq::<StoredPeerSession>::empty());
            assert(crypto_view(crypto_keys@) =~= Seq::<(Seq<char>, Seq<u8>)>::empty());
            assert(udp_view(udp_endpoints@) =~= Seq::<(Seq<char>, Endpoint)>::empty());
            assert(frame_view(frame_ids@) =~= Seq::<(Seq<u8>, Seq<char>)>::empty());
            assert(path_keys(path_states@) =~= Seq::<Seq<char>>::empty());
        }
        while i < persisted.peers.len()
            invariant
                i <= peers.len(),
                peers == persisted.peers@,
                overlay_index@.len() == i,
                forall|j: int| 0 <= j < i ==> overlay_entry_is(#[trigger] overlay_index@[j], peers[j]),
                crypto_view(crypto_keys@) == crypto_entries(peers.take(i as int)),
                udp_view(udp_endpoints@) == udp_entries(peers.take(i as int)),
                frame_view(frame_ids@) == frame_entries(peers.take(i as int)),
                path_keys(path_states@) == distinct_ids(peers.take(i as int)),
                unique_keys(path_states@),
                forall|j: int| 0 <= j < path_states@.len() ==> is_fresh_path(#[trigger] path_states@[j].1),
            decreases peers.len() - i,
        {
            let peer = &persisted.peers[i];
            proof {
                assert(peers.take(i + 1).drop_last() =~= peers.take(i as int));
                assert(peers.take(i + 1).last() == peers[i as int]);
            }
            overlay_index.push((peer.overlay_ip, peer.device_id.clone()));
            match decode_public_credential(peer.public_key.as_str()) {
                Ok(key) => {
                    crypto_keys.push((peer.device_id.clone(), key));
                    proof {
                        assert(crypto_view(crypto_keys@) =~= crypto_entries(peers.take(i as int)).push(
                            (peer.device_id@, key@),
                        ));
                    }
                },
                Err(_) => {},
            }
            match select_udp_endpoint(peer.endpoints.as_slice()) {
                Some(endpoint) => {
                    udp_endpoints.push((peer.device_id.clone(), endpoint));
                    proof {
                        assert(udp_view(udp_endpoints@) =~= udp_entries(peers.take(i as int)).push(
                            (peer.device_id@, endpoint),
                        ));
                    }
                },
                None => {},
            }
            match FrameDeviceId::from_device_id(peer.device_id.as_str()) {
                Ok(id) => {
                    frame_ids.push((id, peer.device_id.clone()));
                    proof {
                        assert(frame_view(frame_ids@) =~= frame_entries(peers.take(i as int)).push(
                            (id.0@, peer.device_id@),
                        ));
                    }
                },
                Err(_) => {},
            }
            let id = peer.device_id.clone();
            if !contains_text(&path_states, &id) {
                let ghost before = path_states@;
                path_states.push((id, PeerPathState::new()));
                proof {
                    assert(path_keys(path_states@) =~= path_keys(before).push(peer.device_id@));
                    assert forall|a: int, b: int| 0 <= a < b < path_states@.len() implies #[trigger] path_states@[a].0@
                        != #[trigger] path_states@[b].0@ by {
                        if b == path_states@.len() - 1 {
                            assert(path_keys(before)[a] == path_states@[a].0@);
                        }
                    }
                }
            }
            i = i + 1;
        }
        proof {
            assert(peers.take(peers.len() as int) =~= peers);
        }
        let sessions = match build_sessions(&persisted) {
            Ok(s) => s,
            Err(_) => Vec::new(),
        };
        proof {
            assert(sessions@.len() == 0 || sessions_are(sessions@, persisted));
            assert(!sessions_derivable(persisted) ==> sessions@.len() == 0);
            assert(overlay_table_is(overlay_index@, peers));
        }
        let out = RuntimeState {
            persisted,
            overlay_index,
            crypto_keys,
            udp_endpoints,
            frame_ids,
            sessions,
            path_states,
            relays: Vec::new(),
        };
        out
    }
}

/// The index of the last overlay entry for an address.
pub open spec fn last_overlay(t: Seq<(Ipv4Address, String)>, ip: Seq<u8>) -> Option<int>
    decreases t.len(),
{
    if t.len() == 0 {
        None
    } else if t.last().0.0@ == ip {
        Some(t.len() - 1)
    } else {
        last_overlay(t.drop_last(), ip)
    }
}

/// The index of the last session of a device.
pub open spec fn last_session(s: Seq<PeerTransportSession>, device: Seq<char>) -> Option<int>
    decreases s.len(),
{
    if s.len() == 0 {
        None
    } else if s.last().device_id@ == device {
        Some(s.len() - 1)
    } else {
        last_session(s.drop_last(), device)
    }
}

/// The index of the path state of a device.
pub open spec fn path_index(t: Seq<(String, PeerPathState)>, device: Seq<char>) -> Option<int>
    decreases t.len(),
{
    if t.len() == 0 {
        None
    } else if t.last().0@ == device {
        Some(t.len() - 1)
    } else {
        path_index(t.drop_last(), device)
    }
}

proof fn lemma_last_overlay_bound(t: Seq<(Ipv4Address, String)>, ip: Seq<u8>)
    ensures
        last_overlay(t, ip) matches Some(k) ==> 0 <= k < t.len() && t[k].0.0@ == ip,
    decreases t.len(),
{
    if t.len() > 0 && t.last().0.0@ != ip {
        lemma_last_overlay_bound(t.drop_last(), ip);
    }
}

pub(crate) proof fn lemma_last_session_bound(s: Seq<PeerTransportSession>, device: Seq<char>)
    ensures
        last_session(s, device) matches Some(k) ==> 0 <= k < s.len() && s[k].device_id@ == device,
    decreases s.len(),
{
    if s.len() > 0 && s.last().device_id@ != device {
        lemma_last_session_bound(s.drop_last(), device);
    }
}

pub(crate) proof fn lemma_last_session_same_ids(a: Seq<PeerTransportSession>, b: Seq<PeerTransportSession>, device: Seq<char>)
    requires
        a.len() == b.len(),
        forall|j: int| 0 <= j < a.len() ==> #[trigger] a[j].device_id == b[j].device_id,
    ensures
        last_session(a, device) == last_session(b, device),
    decreases a.len(),
{
    if a.len() > 0 {
        assert(a.last().device_id == b.last().device_id);
        lemma_last_session_same_ids(a.drop_last(), b.drop_last(), device);
    }
}

/// The index of a device in the path table is in range and holds the
/// device; without one, the device is not among the keys.
pub proof fn lemma_path_index_bound(t: Seq<(String, PeerPathState)>, device: Seq<char>)
    ensures
        path_index(t, device) matches Some(k) ==> 0 <= k < t.len() && t[k].0@ == device,
        path_index(t, device) is None ==> !path_keys(t).contains(device),
    decreases t.len(),
{
    if t.len() > 0 && t.last().0@ != device {
        lemma_path_index_bound(t.drop_last(), device);
        if path_index(t, device) is None && path_keys(t).contains(device) {
            let j = choose|j: int| 0 <= j < path_keys(t).len() && path_keys(t)[j] == device;
            assert(path_keys(t.drop_last())[j] == device);
        }
    }
}

fn find_overlay(t: &Vec<(Ipv4Address, String)>, ip: Ipv4Address) -> (out: Option<usize>)
    ensures
        out matches Some(j) ==> last_overlay(t@, ip.0@) == Some(j as int),
        out is None ==> last_overlay(t@, ip.0@) is None,
{
    let mut i: usize = t.len();
    proof {
        assert(t@.take(t@.len() as int) =~= t@);
    }
    while i > 0
        invariant
            i <= t@.len(),
            last_overlay(t@, ip.0@) == last_overlay(t@.take(i as int), ip.0@),
        decreases i,
    {
        let a = t[i - 1].0;
        proof {
            assert(t@.take(i as int).drop_last() =~= t@.take(i - 1));
            assert(t@.take(i as int).last() == t@[i - 1]);
        }
        if a.0[0] == ip.0[0] && a.0[1] == ip.0[1] && a.0[2] == ip.0[2] && a.0[3] == ip.0[3] {
            proof {
                assert(a.0@ =~= ip.0@);
            }
            return Some(i - 1);
        }
        proof {
            if a.0@ == ip.0@ {
                assert(a.0@[0] == ip.0@[0]);
            }
        }
        i = i - 1;
    }
    proof {
        assert(t@.take(0) =~= Seq::<(Ipv4Address, String)>::empty());
    }
    None
}

pub(crate) fn find_session(s: &Vec<PeerTransportSession>, device: &str) -> (out: Option<usize>)
    ensures
        out matches Some(j) ==> last_session(s@, device@) == Some(j as int),
        out is None ==> last_session(s@, device@) is None,
{
    let mut i: usize = s.len();
    proof {
        assert(s@.take(s@.len() as int) =~= s@);
    }
    while i > 0
        invariant
            i <= s@.len(),
            last_session(s@, device@) == last_session(s@.take(i as int), device@),
        decreases i,
    {
        proof {
            assert(s@.take(i as int).drop_last() =~= s@.take(i - 1));
            assert(s@.take(i as int).last() == s@[i - 1]);
        }
        if crate::text::str_eq(s[i - 1].device_id.as_str(), device) {
            return Some(i - 1);
        }
        i = i - 1;
    }
    proof {
        assert(s@.take(0) =~= Seq::<PeerTransportSession>::empty());
    }
    None
}

fn find_path(t: &Vec<(String, PeerPathState)>, device: &str) -> (out: Option<usize>)
    ensures
        out matches Some(j) ==> path_index(t@, device@) == Some(j as int),
        out is None ==> path_index(t@, device@) is None,
{
    let mut i: usize = t.len();
    proof {
        assert(t@.take(t@.len() as int) =~= t@);
    }
    while i > 0
        invariant
            i <= t@.len(),
            path_index(t@, device@) == path_index(t@.take(i as int), device@),
        decreases i,
    {
        proof {
            assert(t@.take(i as int).drop_last() =~= t@.take(i - 1));
            assert(t@.take(i as int).last() == t@[i - 1]);
        }
        if crate::text::str_eq(t[i - 1].0.as_str(), device) {
            return Some(i - 1);
        }
        i = i - 1;
    }
    proof {
        assert(t@.take(0) =~= Seq::<(String, PeerPathState)>::empty());
    }
    None
}

/// Where a sealed packet goes: to the relay, or to a UDP endpoint.
pub enum OutboundFrame {
    Relay(RelayMessage),
    Udp { endpoint: Endpoint, frame: Vec<u8> },
}

/// A session after sealing one frame: the next send counter.
pub open spec fn advanced(c: PeerCryptoSession) -> PeerCryptoSession {
    PeerCryptoSession {
        send_nonces: crate::nonce::SendNonceState {
            counter: (c.send_nonces.counter + 1) as u64,
            ..c.send_nonces
        },
        ..c
    }
}

/// The local device id, or nothing where no local configuration exists.
pub open spec fn local_device(p: CustomBackendState) -> Seq<char> {
    match p.local_config {
        Some(c) => c.device_id@,
        None => Seq::empty(),
    }
}

/// Whether a device's path is currently the relay.
pub open spec fn path_is_relay(t: Seq<(String, PeerPathState)>, device: Seq<char>) -> bool {
    match path_index(t, device) {
        Some(k) => t[k].1.current_path == PeerPathKind::Relay,
        None => false,
    }
}

/// The same tables.
pub open spec fn same_tables(old: RuntimeState, new: RuntimeState) -> bool {
    &&& new.persisted == old.persisted
    &&& new.overlay_index == old.overlay_index
    &&& new.crypto_keys == old.crypto_keys
    &&& new.udp_endpoints == old.udp_endpoints
    &&& new.frame_ids == old.frame_ids
    &&& new.path_states == old.path_states
    &&& new.relays == old.relays
    &&& new.sessions@ == old.sessions@
}

/// Everything but the sessions is unchanged, and the sessions only at `k`.
pub open spec fn only_session_changed(old: RuntimeState, new: RuntimeState, k: int) -> bool {
    &&& new.persisted == old.persisted
    &&& new.overlay_index == old.overlay_index
    &&& new.crypto_keys == old.crypto_keys
    &&& new.udp_endpoints == old.udp_endpoints
    &&& new.frame_ids == old.frame_ids
    &&& new.path_states == old.path_states
    &&& new.relays == old.relays
    &&& new.sessions@.len() == old.sessions@.len()
    &&& forall|j: int| 0 <= j < new.sessions@.len() && j != k ==> new.sessions@[j] == old.sessions@[j]
    &&& new.sessions@[k].device_id == old.sessions@[k].device_id
    &&& new.sessions@[k].overlay_ip == old.sessions@[k].overlay_ip
    &&& new.sessions@[k].endpoint == old.sessions@[k].endpoint
}

/// What sending a packet does: the peer is found by the packet's IPv4
/// destination, its session seals the packet as a data frame, and the frame
/// goes to the relay where the peer's path is the relay, else to the
/// session's UDP endpoint.
pub open spec fn send_outcome(old: RuntimeState, new: RuntimeState, packet: Seq<u8>, out: Result<OutboundFrame, BackendError>) -> bool {
    match ipv4_destination_spec(packet) {
        Err(m) => out matches Err(e) && command_failed(e, m) && same_tables(old, new),
        Ok(ip) => match last_overlay(old.overlay_index@, ip) {
            None => out matches Err(e) && command_failed(e, "no peer session for overlay destination: "@ + ipv4_text(ip))
                && same_tables(old, new),
            Some(k) => {
                let device = old.overlay_index@[k].1@;
                match last_session(old.sessions@, device) {
                    None => out matches Err(e) && command_failed(e, "peer transport session is not ready: "@ + device)
                        && same_tables(old, new),
                    Some(si) => {
                        let s = old.sessions@[si];
                        let c = s.crypto;
                        if c.send_nonces.counter == u64::MAX {
                            out matches Err(e) && command_failed(e, "send nonce counter exhausted"@) && same_tables(old, new)
                        } else {
                            &&& only_session_changed(old, new, si)
                            &&& new.sessions@[si].crypto == advanced(c)
                            &&& if !aead_message_fits(packet.len()) {
                                out matches Err(e) && command_failed(e, "packet encryption failed"@)
                            } else {
                                let frame = sealed_frame(c, FRAME_TYPE_DATA, packet);
                                &&& forall|receiver: PeerCryptoSession|
                                    paired(c, receiver) && accept_spec(receiver.receive_window, c.send_nonces.counter) is Ok
                                        ==> #[trigger] open_outcome(receiver, frame) == Ok::<(u8, Seq<u8>), Seq<char>>((FRAME_TYPE_DATA, packet))
                                &&& forall|receiver: PeerCryptoSession, bad: Seq<u8>|
                                    paired(c, receiver) && tag_changed(frame, bad) ==> #[trigger] open_outcome(receiver, bad) is Err
                                &&& if path_is_relay(old.path_states@, device) {
                                    out matches Ok(OutboundFrame::Relay(RelayMessage::Frame { source_device_id, destination_device_id, payload }))
                                        && source_device_id@ == local_device(old.persisted)
                                        && destination_device_id@ == device
                                        && payload@ == base64url_encode(frame)
                                } else {
                                    out matches Ok(OutboundFrame::Udp { endpoint, frame: f })
                                        && endpoint == s.endpoint && f@ == frame
                                }
                            }
                        }
                    },
                }
            },
        },
    }
}

impl RuntimeState {
    /// Seals an overlay packet for its peer and says where the frame goes.
    pub fn send_overlay_packet(&mut self, packet: &[u8]) -> (out: Result<OutboundFrame, BackendError>)
        requires
            packet@.len() + 76 <= usize::MAX / 2,
        ensures
            send_outcome(*old(self), *final(self), packet@, out),
    {
        let destination = ipv4_destination(packet)?;
        let k = match find_overlay(&self.overlay_index, destination) {
            Some(k) => k,
            None => {
                let text = format_ipv4(destination);
                return Err(
                    BackendError::CommandFailed(concat2("no peer session for overlay destination: ", text.as_str())),
                );
            },
        };
        proof {
            lemma_last_overlay_bound(self.overlay_index@, destination.0@);
        }
        let device_id = self.overlay_index[k].1.clone();
        let relay_path = match find_path(&self.path_states, device_id.as_str()) {
            Some(p) => {
                proof {
                    lemma_path_index_bound(self.path_states@, device_id@);
                }
                match self.path_states[p].1.current_path {
                    PeerPathKind::Relay => true,
                    _ => false,
                }
            },
            None => false,
        };
        let si = match find_session(&self.sessions, device_id.as_str()) {
            Some(si) => si,
            None => {
                return Err(
                    BackendError::CommandFailed(concat2("peer transport session is not ready: ", device_id.as_str())),
                );
            },
        };
        proof {
            lemma_last_session_bound(self.sessions@, device_id@);
        }
        let ghost before = *self;
        let sealed = self.sessions[si].crypto.seal(packet);
        proof {
            assert(self.sessions@.len() == before.sessions@.len());
            if before.sessions@[si as int].crypto.send_nonces.counter == u64::MAX {
                assert(self.sessions@ =~= before.sessions@);
            }
        }
        let frame = match sealed {
            Ok(f) => f,
            Err(e) => {
                proof {
                    if before.sessions@[si as int].crypto.send_nonces.counter < u64::MAX {
                        assert(self.sessions@[si as int].crypto == advanced(before.sessions@[si as int].crypto));
                        assert(only_session_changed(before, *self, si as int));
                    }
                }
                return Err(e);
            },
        };
        if relay_path {
            let source = match &self.persisted.local_config {
                Some(config) => config.device_id.clone(),
                None => String::new(),
            };
            let payload = base64_encode(frame.as_slice());
            return Ok(
                OutboundFrame::Relay(
                    RelayMessage::Frame { source_device_id: source, destination_device_id: device_id, payload },
                ),
            );
        }
        Ok(OutboundFrame::Udp { endpoint: self.sessions[si].endpoint, frame })
    }
}

/// The other tables, apart from sessions and paths, are unchanged.
pub open spec fn others_same(old: RuntimeState, new: RuntimeState) -> bool {
    &&& new.persisted == old.persisted
    &&& new.overlay_index == old.overlay_index
    &&& new.crypto_keys == old.crypto_keys
    &&& new.udp_endpoints == old.udp_endpoints
    &&& new.frame_ids == old.frame_ids
    &&& new.relays == old.relays
}

/// The path table after making sure the device has an entry: the entry it
/// had, or a fresh one added at the end.
pub open spec fn with_entry(old: Seq<(String, PeerPathState)>, new: Seq<(String, PeerPathState)>, device: Seq<char>) -> bool {
    match path_index(old, device) {
        Some(k) => new == old,
        None => new.len() == old.len() + 1 && new.drop_last() == old && new.last().0@ == device && is_fresh_path(
            new.last().1,
        ),
    }
}

/// The path table with the device's entry changed by `f`, all others kept.
pub open spec fn entry_changed(
    old: Seq<(String, PeerPathState)>,
    new: Seq<(String, PeerPathState)>,
    k: int,
    state: PeerPathState,
) -> bool {
    &&& new.len() == old.len()
    &&& 0 <= k < old.len()
    &&& forall|j: int| 0 <= j < new.len() && j != k ==> new[j] == old[j]
    &&& new[k].0 == old[k].0
    &&& new[k].1 == state
}

pub(crate) proof fn lemma_push_keeps_unique(t: Seq<(String, PeerPathState)>, e: (String, PeerPathState))
    requires
        unique_keys(t),
        !path_keys(t).contains(e.0@),
    ensures
        unique_keys(t.push(e)),
{
    let n = t.push(e);
    assert forall|a: int, b: int| 0 <= a < b < n.len() implies #[trigger] n[a].0@ != #[trigger] n[b].0@ by {
        if b == t.len() {
            assert(path_keys(t)[a] == t[a].0@);
        } else {
            assert(n[a] == t[a] && n[b] == t[b]);
        }
    }
}

/// A successful round trip to the device was recorded: its path is direct
/// over `endpoint` (its entry changed in place, or a fresh one added at the
/// end), its session sends there, and the other tables are unchanged.
pub open spec fn peer_marked_direct(
    old: RuntimeState,
    new: RuntimeState,
    device_id: Seq<char>,
    endpoint: Endpoint,
    rtt_ms: Option<u64>,
    now: u128,
) -> bool {
    &&& others_same(old, new)
    &&& match path_index(old.path_states@, device_id) {
        Some(k) => entry_changed(old.path_states@, new.path_states@, k, new.path_states@[k].1) && marked_direct(
            old.path_states@[k].1,
            new.path_states@[k].1,
            endpoint,
            rtt_ms,
            now,
        ),
        None => new.path_states@.len() == old.path_states@.len() + 1 && new.path_states@.drop_last()
            == old.path_states@ && new.path_states@.last().0@ == device_id && marked_direct(
            fresh_path(),
            new.path_states@.last().1,
            endpoint,
            rtt_ms,
            now,
        ),
    }
    &&& match last_session(old.sessions@, device_id) {
        Some(si) => new.sessions@ == old.sessions@.update(si, PeerTransportSession { endpoint, ..old.sessions@[si] }),
        None => new.sessions@ == old.sessions@,
    }
}

impl RuntimeState {
    /// The index of the device's path entry, adding a fresh entry where it
    /// has none.
    pub fn path_entry(&mut self, device_id: &str) -> (k: usize)
        requires
            unique_keys(old(self).path_states@),
        ensures
            others_same(*old(self), *final(self)),
            final(self).sessions == old(self).sessions,
            with_entry(old(self).path_states@, final(self).path_states@, device_id@),
            path_index(final(self).path_states@, device_id@) == Some(k as int),
            k < final(self).path_states@.len(),
            final(self).path_states@[k as int].0@ == device_id@,
            unique_keys(final(self).path_states@),
    {
        match find_path(&self.path_states, device_id) {
            Some(k) => {
                proof {
                    lemma_path_index_bound(self.path_states@, device_id@);
                }
                k
            },
            None => {
                proof {
                    lemma_path_index_bound(self.path_states@, device_id@);
                }
                let ghost before = self.path_states@;
                self.path_states.push((owned(device_id), PeerPathState::new()));
                proof {
                    lemma_push_keeps_unique(before, self.path_states@.last());
                    assert(self.path_states@.drop_last() =~= before);
                }
                self.path_states.len() - 1
            },
        }
    }

    /// Records a successful round trip to a peer: its path becomes direct
    /// over `endpoint`, and its session sends there.
    pub fn mark_peer_direct(&mut self, device_id: &str, endpoint: Endpoint, rtt_ms: Option<u64>, now: u128)
        requires
            unique_keys(old(self).path_states@),
        ensures
            unique_keys(final(self).path_states@),
            peer_marked_direct(*old(self), *final(self), device_id@, endpoint, rtt_ms, now),
    {
        let k = self.path_entry(device_id);
        let ghost mid = self.path_states@;
        mark_path_direct(&mut self.path_states[k].1, endpoint, rtt_ms, now);
        proof {
            assert(entry_changed(mid, self.path_states@, k as int, self.path_states@[k as int].1));
            if path_index(old(self).path_states@, device_id@) is None {
                assert(mid[k as int].1 == fresh_path());
                assert(self.path_states@.drop_last() =~= old(self).path_states@);
            }
            assert forall|a: int, b: int| 0 <= a < b < self.path_states@.len() implies #[trigger] self.path_states@[a].0@
                != #[trigger] self.path_states@[b].0@ by {
                assert(self.path_states@[a].0 == mid[a].0);
                assert(self.path_states@[b].0 == mid[b].0);
            }
        }
        match find_session(&self.sessions, device_id) {
            Some(si) => {
                proof {
                    lemma_last_session_bound(self.sessions@, device_id@);
                }
                let ghost before = self.sessions@;
                self.sessions[si].endpoint = endpoint;
                proof {
                    assert(self.sessions@ =~= before.update(si as int, PeerTransportSession { endpoint, ..before[si as int] }));
                }
            },
            None => {},
        }
    }

    /// Finishes answering a probe, given how sending the reply went: where
    /// it went out, the peer's path becomes direct over the endpoint it was
    /// sent to, with no round trip time; where sending failed, that error is
    /// handed back and the tables are left as they were.
    pub fn probe_reply_sent(
        &mut self,
        device_id: &str,
        endpoint: Endpoint,
        sent: Result<usize, BackendError>,
        now: u128,
    ) -> (out: Result<(), BackendError>)
        requires
            unique_keys(old(self).path_states@),
        ensures
            unique_keys(final(self).path_states@),
            match sent {
                Ok(_) => out is Ok && peer_marked_direct(*old(self), *final(self), device_id@, endpoint, None, now),
                Err(e) => out == Err::<(), BackendError>(e) && *final(self) == *old(self),
            },
    {
        match sent {
            Ok(_) => {
                self.mark_peer_direct(device_id, endpoint, None, now);
                Ok(())
            },
            Err(e) => Err(e),
        }
    }

    /// The endpoint of the first relay, where there is one.
    fn first_relay_endpoint(&self) -> (out: Option<Endpoint>)
        ensures
            out == relay_path_endpoint(self.relays@),
    {
        if self.relays.len() == 0 {
            None
        } else {
            Some(relay_endpoint(&self.relays[0]))
        }
    }

    /// Runs the stale check at `now` on every path.
    pub fn expire_stale_direct_paths(&mut self, now: u128)
        ensures
            others_same(*old(self), *final(self)),
            final(self).sessions == old(self).sessions,
            final(self).path_states@.len() == old(self).path_states@.len(),
            forall|i: int| 0 <= i < final(self).path_states@.len() ==> #[trigger] final(self).path_states@[i].0
                == old(self).path_states@[i].0 && final(self).path_states@[i].1 == expired_path(
                old(self).path_states@[i].1,
                now,
                relay_path_endpoint(old(self).relays@),
            ),
    {
        let relay = self.first_relay_endpoint();
        let ghost start = self.path_states@;
        let mut i: usize = 0;
        while i < self.path_states.len()
            invariant
                i <= self.path_states@.len(),
                self.path_states@.len() == start.len(),
                start == old(self).path_states@,
                others_same(*old(self), *self),
                self.sessions == old(self).sessions,
                relay == relay_path_endpoint(self.relays@),
                forall|j: int| i <= j < start.len() ==> #[trigger] self.path_states@[j] == start[j],
                forall|j: int| 0 <= j < i ==> #[trigger] self.path_states@[j].0 == start[j].0
                    && self.path_states@[j].1 == expired_path(start[j].1, now, relay),
            decreases start.len() - i,
        {
            let ghost before = self.path_states@;
            expire_path(&mut self.path_states[i].1, now, relay);
            proof {
                assert(self.path_states@.len() == before.len());
                assert(self.path_states@[i as int].0 == before[i as int].0);
                assert forall|j: int| 0 <= j < self.path_states@.len() && j != i implies #[trigger] self.path_states@[j] == before[j] by {
                }
            }
            i = i + 1;
        }
    }
}

/// The endpoint a path falls back to: the relay's, where there is a relay.
pub open spec fn relay_path_endpoint(relays: Seq<RelayConfig>) -> Option<Endpoint> {
    if relays.len() == 0 {
        None
    } else {
        Some(relay_endpoint_value())
    }
}

impl RuntimeState {
    /// Whether a peer is due for a probe at `now`; the peer gets a path
    /// entry first, as the probe round does.
    pub fn peer_probe_due(&mut self, device_id: &str, now: u128) -> (out: bool)
        requires
            unique_keys(old(self).path_states@),
        ensures
            others_same(*old(self), *final(self)),
            final(self).sessions == old(self).sessions,
            with_entry(old(self).path_states@, final(self).path_states@, device_id@),
            unique_keys(final(self).path_states@),
            match path_index(final(self).path_states@, device_id@) {
                Some(k) => out == elapsed_at_least(
                    final(self).path_states@[k].1.last_probe_at,
                    now,
                    probe_interval(final(self).path_states@[k].1),
                ),
                None => false,
            },
    {
        let k = self.path_entry(device_id);
        peer_path_probe_due(&self.path_states[k].1, now)
    }

    /// Whether the peer has a transport session.
    pub fn has_session(&self, device_id: &str) -> (out: bool)
        ensures
            out == last_session(self.sessions@, device_id@) is Some,
    {
        find_session(&self.sessions, device_id).is_some()
    }

    /// Seals a probe sent at `sent_at` milliseconds for the peer.
    pub fn seal_probe(&mut self, device_id: &str, sent_at: u128) -> (out: Result<Vec<u8>, BackendError>)
        requires
            last_session(old(self).sessions@, device_id@) is Some,
        ensures
            ({
                let si = last_session(old(self).sessions@, device_id@)->Some_0;
                let c = old(self).sessions@[si].crypto;
                &&& others_same(*old(self), *final(self))
                &&& final(self).path_states == old(self).path_states
                &&& c.send_nonces.counter == u64::MAX ==> (out matches Err(e) && command_failed(
                    e,
                    "send nonce counter exhausted"@,
                ) && final(self).sessions@ == old(self).sessions@)
                &&& c.send_nonces.counter < u64::MAX ==> only_session_changed(*old(self), *final(self), si)
                    && final(self).sessions@[si].crypto == advanced(c) && (out matches Ok(f) ==> f@
                    == sealed_frame(c, FRAME_TYPE_PROBE, probe_payload_spec(sent_at)))
            }),
    {
        let si = match find_session(&self.sessions, device_id) {
            Some(si) => si,
            None => {
                return Err(failed("peer transport session is not ready"));
            },
        };
        proof {
            lemma_last_session_bound(self.sessions@, device_id@);
        }
        let payload = probe_payload(sent_at);
        let ghost before = *self;
        let out = self.sessions[si].crypto.seal_message(payload.as_slice(), FRAME_TYPE_PROBE);
        proof {
            assert(self.sessions@.len() == before.sessions@.len());
            if before.sessions@[si as int].crypto.send_nonces.counter == u64::MAX {
                assert(self.sessions@ =~= before.sessions@);
            } else {
                assert(self.sessions@[si as int].crypto == advanced(before.sessions@[si as int].crypto));
            }
        }
        out
    }

    /// Records that the peer was probed at `now`, the probes stamped
    /// `sent_at` milliseconds.
    pub fn record_probe(&mut self, device_id: &str, now: u128, sent_at: u128)
        requires
            unique_keys(old(self).path_states@),
        ensures
            others_same(*old(self), *final(self)),
            final(self).sessions == old(self).sessions,
            unique_keys(final(self).path_states@),
            match path_index(old(self).path_states@, device_id@) {
                Some(k) => entry_changed(
                    old(self).path_states@,
                    final(self).path_states@,
                    k,
                    probed_path(old(self).path_states@[k].1, now, sent_at),
                ),
                None => final(self).path_states@.drop_last() == old(self).path_states@
                    && final(self).path_states@.len() == old(self).path_states@.len() + 1
                    && final(self).path_states@.last().0@ == device_id@
                    && final(self).path_states@.last().1 == probed_path(fresh_path(), now, sent_at),
            },
    {
        let k = self.path_entry(device_id);
        let ghost mid = self.path_states@;
        record_path_probe(&mut self.path_states[k].1, now, sent_at);
        proof {
            assert forall|a: int, b: int| 0 <= a < b < self.path_states@.len() implies #[trigger] self.path_states@[a].0@
                != #[trigger] self.path_states@[b].0@ by {
                assert(self.path_states@[a].0 == mid[a].0);
                assert(self.path_states@[b].0 == mid[b].0);
            }
            if path_index(old(self).path_states@, device_id@) is None {
                assert(mid[k as int].1 == fresh_path());
                assert(self.path_states@.drop_last() =~= old(self).path_states@);
            }
        }
    }

    /// Whether each device has at most one path entry.
    pub fn has_unique_paths(&self) -> (out: bool)
        ensures
            out == unique_keys(self.path_states@),
    {
        let mut a: usize = 0;
        while a < self.path_states.len()
            invariant
                a <= self.path_states@.len(),
                forall|i: int, j: int| 0 <= i < a && i < j < self.path_states@.len() ==> #[trigger] self.path_states@[i].0@
                    != #[trigger] self.path_states@[j].0@,
            decreases self.path_states.len() - a,
        {
            let mut b: usize = a + 1;
            while b < self.path_states.len()
                invariant
                    a < self.path_states@.len(),
                    a + 1 <= b <= self.path_states@.len(),
                    forall|i: int, j: int| 0 <= i < a && i < j < self.path_states@.len() ==> #[trigger] self.path_states@[i].0@
                        != #[trigger] self.path_states@[j].0@,
                    forall|j: int| a < j < b ==> self.path_states@[a as int].0@ != #[trigger] self.path_states@[j].0@,
                decreases self.path_states.len() - b,
            {
                if crate::text::str_eq(self.path_states[a].0.as_str(), self.path_states[b].0.as_str()) {
                    return false;
                }
                b = b + 1;
            }
            a = a + 1;
        }
        true
    }

    /// Uses the relays of the latest relay map.
    pub fn set_relays(&mut self, relays: Vec<RelayConfig>)
        ensures
            final(self).relays == relays,
            final(self).persisted == old(self).persisted,
            final(self).overlay_index == old(self).overlay_index,
            final(self).crypto_keys == old(self).crypto_keys,
            final(self).udp_endpoints == old(self).udp_endpoints,
            final(self).frame_ids == old(self).frame_ids,
            final(self).sessions == old(self).sessions,
            final(self).path_states == old(self).path_states,
    {
        self.relays = relays;
    }
}

/// What receiving a frame asks of the caller.
pub enum InboundAction {
    /// An overlay packet for the TUN device.
    Deliver(Vec<u8>),
    /// A probe answer to send back; once sent, the peer's path is direct
    /// over the endpoint.
    ProbeReply { device_id: String, endpoint: Endpoint, frame: Vec<u8> },
    /// Nothing to do.
    Nothing,
}

/// The result of receiving a frame, and whether it counts as a dropped
/// frame.
pub struct InboundOutcome {
    pub result: Result<InboundAction, BackendError>,
    pub rx_drop: bool,
}

/// The index of the last frame id entry for an id.
pub open spec fn last_frame_device(t: Seq<(FrameDeviceId, String)>, id: Seq<u8>) -> Option<int>
    decreases t.len(),
{
    if t.len() == 0 {
        None
    } else if t.last().0.0@ == id {
        Some(t.len() - 1)
    } else {
        last_frame_device(t.drop_last(), id)
    }
}

proof fn lemma_last_frame_device_bound(t: Seq<(FrameDeviceId, String)>, id: Seq<u8>)
    ensures
        last_frame_device(t, id) matches Some(k) ==> 0 <= k < t.len() && t[k].0.0@ == id,
    decreases t.len(),
{
    if t.len() > 0 && t.last().0.0@ != id {
        lemma_last_frame_device_bound(t.drop_last(), id);
    }
}

fn same_frame_id(a: &FrameDeviceId, b: &FrameDeviceId) -> (out: bool)
    ensures
        out == (a.0@ == b.0@),
{
    let mut i: usize = 0;
    while i < 16
        invariant
            i <= 16,
            forall|j: int| 0 <= j < i ==> a.0@[j] == b.0@[j],
        decreases 16 - i,
    {
        if a.0[i] != b.0[i] {
            return false;
        }
        i = i + 1;
    }
    proof {
        assert(a.0@ =~= b.0@);
    }
    true
}

fn find_frame_device(t: &Vec<(FrameDeviceId, String)>, id: &FrameDeviceId) -> (out: Option<usize>)
    ensures
        out matches Some(j) ==> last_frame_device(t@, id.0@) == Some(j as int),
        out is None ==> last_frame_device(t@, id.0@) is None,
{
    let mut i: usize = t.len();
    proof {
        assert(t@.take(t@.len() as int) =~= t@);
    }
    while i > 0
        invariant
            i <= t@.len(),
            last_frame_device(t@, id.0@) == last_frame_device(t@.take(i as int), id.0@),
        decreases i,
    {
        proof {
            assert(t@.take(i as int).drop_last() =~= t@.take(i - 1));
            assert(t@.take(i as int).last() == t@[i - 1]);
        }
        if same_frame_id(&t[i - 1].0, id) {
            return Some(i - 1);
        }
        i = i - 1;
    }
    proof {
        assert(t@.take(0) =~= Seq::<(FrameDeviceId, String)>::empty());
    }
    None
}

/// The endpoint a frame came from, as a public UDP endpoint.
pub open spec fn source_endpoint(source: (IpAddress, u16)) -> Endpoint {
    Endpoint { kind: EndpointKind::Public, address: source.0, port: source.1, protocol: TransportProtocol::Udp }
}

/// A session after opening a frame: its receive window has taken the nonce.
pub open spec fn opened(c: PeerCryptoSession, frame: Seq<u8>) -> PeerCryptoSession {
    PeerCryptoSession {
        receive_window: accept_spec(c.receive_window, counter_of(frame.subrange(36, 60)))->Ok_0,
        ..c
    }
}

/// An error outcome with the given detail; the tables are unchanged.
pub open spec fn refused(old: RuntimeState, new: RuntimeState, out: InboundOutcome, msg: Seq<char>, drop: bool) -> bool {
    &&& out.result matches Err(e) && command_failed(e, msg)
    &&& out.rx_drop == drop
    &&& same_tables(old, new)
}

/// What receiving a frame does. The frame's source id finds the peer, and
/// the peer's session opens it. A data frame is delivered. A probe from a
/// known address is answered with a probe response that echoes its
/// timestamp. A probe response from a known address makes the peer's path
/// direct over that address, with the measured round trip. Frames that do
/// not decode, come from unknown peers or do not open count as drops.
pub open spec fn receive_outcome(
    old: RuntimeState,
    new: RuntimeState,
    frame: Seq<u8>,
    source: Option<(IpAddress, u16)>,
    now_unix_millis: u128,
    now: u128,
    out: InboundOutcome,
) -> bool {
    match FrameHeader::decode_error(frame) {
        Some(m) => refused(old, new, out, m, true),
        None => match last_frame_device(old.frame_ids@, frame.subrange(4, 20)) {
            None => refused(old, new, out, "missing peer session for frame source"@, true),
            Some(fi) => {
                let device = old.frame_ids@[fi].1@;
                match last_session(old.sessions@, device) {
                    None => refused(old, new, out, "peer transport session is not ready: "@ + device, true),
                    Some(si) => {
                        let c = old.sessions@[si].crypto;
                        match open_outcome(c, frame) {
                            Err(m) => refused(old, new, out, m, true),
                            Ok((t, plaintext)) => {
                                let c1 = opened(c, frame);
                                &&& others_same(old, new)
                                &&& !out.rx_drop
                                &&& new.sessions@.len() == old.sessions@.len()
                                &&& forall|j: int| 0 <= j < new.sessions@.len() && j != si ==> new.sessions@[j] == old.sessions@[j]
                                &&& new.sessions@[si].device_id == old.sessions@[si].device_id
                                &&& new.sessions@[si].overlay_ip == old.sessions@[si].overlay_ip
                                &&& if t == FRAME_TYPE_DATA {
                                    &&& out.result matches Ok(InboundAction::Deliver(p)) && p@ == plaintext
                                    &&& new.sessions@[si].crypto == c1
                                    &&& new.sessions@[si].endpoint == old.sessions@[si].endpoint
                                    &&& new.path_states == old.path_states
                                } else if t == FRAME_TYPE_PROBE {
                                    &&& new.sessions@[si].endpoint == old.sessions@[si].endpoint
                                    &&& new.path_states == old.path_states
                                    &&& match source {
                                        None => out.result matches Ok(InboundAction::Nothing) && new.sessions@[si].crypto == c1,
                                        Some(src) => {
                                            let response = probe_response_spec(plaintext, now_unix_millis);
                                            if c1.send_nonces.counter == u64::MAX {
                                                out.result matches Err(e) && command_failed(e, "send nonce counter exhausted"@)
                                                    && new.sessions@[si].crypto == c1
                                            } else {
                                                &&& new.sessions@[si].crypto == advanced(c1)
                                                &&& !aead_message_fits(response.len()) ==> (out.result matches Err(e)
                                                    && command_failed(e, "packet encryption failed"@))
                                                &&& aead_message_fits(response.len()) ==> (out.result matches Ok(
                                                    InboundAction::ProbeReply { device_id, endpoint, frame: f },
                                                ) && device_id@ == device && endpoint == source_endpoint(src) && f@
                                                    == sealed_frame(c1, FRAME_TYPE_PROBE_RESPONSE, response))
                                            }
                                        },
                                    }
                                } else {
                                    &&& t == FRAME_TYPE_PROBE_RESPONSE
                                    &&& new.sessions@[si].crypto == c1
                                    &&& out.result matches Ok(InboundAction::Nothing)
                                    &&& match source {
                                        None => new.sessions@[si].endpoint == old.sessions@[si].endpoint
                                            && new.path_states == old.path_states,
                                        Some(src) => {
                                            let endpoint = source_endpoint(src);
                                            &&& new.sessions@[si].endpoint == endpoint
                                            &&& match path_index(old.path_states@, device) {
                                                Some(k) => entry_changed(old.path_states@, new.path_states@, k, new.path_states@[k].1)
                                                    && marked_direct(old.path_states@[k].1, new.path_states@[k].1, endpoint,
                                                    probe_rtt_spec(plaintext, now_unix_millis), now),
                                                None => new.path_states@.len() == old.path_states@.len() + 1
                                                    && new.path_states@.drop_last() == old.path_states@
                                                    && new.path_states@.last().0@ == device
                                                    && marked_direct(fresh_path(), new.path_states@.last().1, endpoint,
                                                    probe_rtt_spec(plaintext, now_unix_millis), now),
                                            }
                                        },
                                    }
                                }
                            },
                        }
                    },
                }
            },
        },
    }
}

fn refusal(e: BackendError, drop: bool) -> (out: InboundOutcome)
    ensures
        out.result == Err::<InboundAction, BackendError>(e),
        out.rx_drop == drop,
{
    InboundOutcome { result: Err(e), rx_drop: drop }
}

impl RuntimeState {
    /// Opens a frame received from `source` (UDP) or from the relay (none).
    #[verifier::rlimit(30)]
    pub fn open_received_frame(
        &mut self,
        frame: &[u8],
        source: Option<(IpAddress, u16)>,
        now_unix_millis: u128,
        now: u128,
    ) -> (out: InboundOutcome)
        requires
            unique_keys(old(self).path_states@),
        ensures
            receive_outcome(*old(self), *final(self), frame@, source, now_unix_millis, now, out),
            unique_keys(final(self).path_states@),
    {
        let decoded = match EncodedFrame::decode(frame) {
            Ok(d) => d,
            Err(e) => {
                return refusal(e, true);
            },
        };
        proof {
            let hb = header_bytes(decoded.header);
            assert(hb.subrange(4, 20) =~= decoded.header.source.0@);
            assert(frame@.subrange(4, 20) =~= hb.subrange(4, 20));
        }
        let fi = match find_frame_device(&self.frame_ids, &decoded.header.source) {
            Some(fi) => fi,
            None => {
                return refusal(failed("missing peer session for frame source"), true);
            },
        };
        proof {
            lemma_last_frame_device_bound(self.frame_ids@, decoded.header.source.0@);
        }
        let device_id = self.frame_ids[fi].1.clone();
        let si = match find_session(&self.sessions, device_id.as_str()) {
            Some(si) => si,
            None => {
                return refusal(
                    BackendError::CommandFailed(concat2("peer transport session is not ready: ", device_id.as_str())),
                    true,
                );
            },
        };
        proof {
            lemma_last_session_bound(self.sessions@, device_id@);
        }
        let ghost before = *self;
        let opened_result = self.sessions[si].crypto.open_message(frame);
        let message = match opened_result {
            Ok(m) => m,
            Err(e) => {
                proof {
                    assert(self.sessions@ =~= before.sessions@);
                }
                return refusal(e, true);
            },
        };
        proof {
            assert(self.sessions@[si as int].crypto == opened(before.sessions@[si as int].crypto, frame@));
        }
        if message.message_type == FRAME_TYPE_DATA {
            return InboundOutcome { result: Ok(InboundAction::Deliver(message.plaintext)), rx_drop: false };
        }
        if message.message_type == FRAME_TYPE_PROBE {
            let src = match source {
                Some(src) => src,
                None => {
                    return InboundOutcome { result: Ok(InboundAction::Nothing), rx_drop: false };
                },
            };
            let response_payload = encode_probe_response_payload(message.plaintext.as_slice(), now_unix_millis);
            let ghost mid = *self;
            let sealed = self.sessions[si].crypto.seal_message(response_payload.as_slice(), FRAME_TYPE_PROBE_RESPONSE);
            proof {
                if mid.sessions@[si as int].crypto.send_nonces.counter == u64::MAX {
                    assert(self.sessions@ =~= mid.sessions@);
                } else {
                    assert(self.sessions@[si as int].crypto == advanced(mid.sessions@[si as int].crypto));
                }
            }
            return match sealed {
                Ok(f) => InboundOutcome {
                    result: Ok(
                        InboundAction::ProbeReply {
                            device_id,
                            endpoint: Endpoint {
                                kind: EndpointKind::Public,
                                address: src.0,
                                port: src.1,
                                protocol: TransportProtocol::Udp,
                            },
                            frame: f,
                        },
                    ),
                    rx_drop: false,
                },
                Err(e) => refusal(e, false),
            };
        }
        if message.message_type == FRAME_TYPE_PROBE_RESPONSE {
            match source {
                None => {},
                Some(src) => {
                    let endpoint = Endpoint {
                        kind: EndpointKind::Public,
                        address: src.0,
                        port: src.1,
                        protocol: TransportProtocol::Udp,
                    };
                    let rtt_ms = probe_response_rtt_ms(message.plaintext.as_slice(), now_unix_millis);
                    let ghost mid = *self;
                    proof {
                        assert forall|j: int| 0 <= j < mid.sessions@.len() implies #[trigger] mid.sessions@[j].device_id
                            == before.sessions@[j].device_id by {
                        }
                        lemma_last_session_same_ids(mid.sessions@, before.sessions@, device_id@);
                    }
                    self.mark_peer_direct(device_id.as_str(), endpoint, rtt_ms, now);
                    proof {
                        assert(self.sessions@[si as int].crypto == mid.sessions@[si as int].crypto);
                        assert(self.sessions@[si as int].endpoint == endpoint);
                    }
                },
            }
            return InboundOutcome { result: Ok(InboundAction::Nothing), rx_drop: false };
        }
        let digits = crate::text::format_decimal(message.message_type as u64);
        refusal(
            BackendError::CommandFailed(concat2("unsupported opened frame message type: ", digits.as_str())),
            false,
        )
    }
}

/// What receiving a relay message does: a frame's payload is decoded from
/// base64 and received as a frame without a UDP source; other messages are
/// ignored.
pub open spec fn relay_receive_outcome(
    old: RuntimeState,
    new: RuntimeState,
    message: RelayMessage,
    now_unix_millis: u128,
    now: u128,
    out: InboundOutcome,
) -> bool {
    match message {
        RelayMessage::Frame { payload, .. } => match base64url_decode(payload@) {
            Err(m) => refused(old, new, out, m, false),
            Ok(bytes) => receive_outcome(old, new, bytes, None, now_unix_millis, now, out),
        },
        _ => out.result matches Ok(InboundAction::Nothing) && !out.rx_drop && same_tables(old, new),
    }
}

impl RuntimeState {
    /// Receives a message from the relay.
    pub fn open_relay_frame(&mut self, message: RelayMessage, now_unix_millis: u128, now: u128) -> (out: InboundOutcome)
        requires
            unique_keys(old(self).path_states@),
        ensures
            relay_receive_outcome(*old(self), *final(self), message, now_unix_millis, now, out),
            unique_keys(final(self).path_states@),
            message matches RelayMessage::Frame { payload, .. } ==> forall|bytes: Seq<u8>|
                #[trigger] base64url_encode(bytes) == payload@ ==> base64url_decode(payload@) == Ok::<Seq<u8>, Seq<char>>(bytes),
    {
        match message {
            RelayMessage::Frame { payload, .. } => {
                let frame = match base64_decode(payload.as_str()) {
                    Ok(bytes) => bytes,
                    Err(msg) => {
                        return refusal(BackendError::CommandFailed(msg), false);
                    },
                };
                self.open_received_frame(frame.as_slice(), None, now_unix_millis, now)
            },
            _ => InboundOutcome { result: Ok(InboundAction::Nothing), rx_drop: false },
        }
    }
}

/// The index of the session a packet is sealed with: the session of the
/// peer that the packet's destination address belongs to.
pub open spec fn chosen_session(r: RuntimeState, packet: Seq<u8>) -> Option<int> {
    match ipv4_destination_spec(packet) {
        Err(_) => None,
        Ok(ip) => match last_overlay(r.overlay_index@, ip) {
            None => None,
            Some(k) => last_session(r.sessions@, r.overlay_index@[k].1@),
        },
    }
}

/// Whether `receiver` holds, for the sender of session `c`, a session that
/// opens what `c` seals next: it knows the sender's frame id, and its
/// session for that peer is paired with `c` and has not seen `c`'s next
/// nonce.
pub open spec fn ready_to_receive_from(receiver: RuntimeState, c: PeerCryptoSession) -> bool {
    match last_frame_device(receiver.frame_ids@, c.local_id.0@) {
        None => false,
        Some(fi) => match last_session(receiver.sessions@, receiver.frame_ids@[fi].1@) {
            None => false,
            Some(ri) => paired(c, receiver.sessions@[ri].crypto) && accept_spec(
                receiver.sessions@[ri].crypto.receive_window,
                c.send_nonces.counter,
            ) is Ok,
        },
    }
}

proof fn lemma_sealed_frame_header(c: PeerCryptoSession, t: u8, plaintext: Seq<u8>)
    requires
        t == FRAME_TYPE_DATA || t == FRAME_TYPE_PROBE || t == FRAME_TYPE_PROBE_RESPONSE,
    ensures
        FrameHeader::decode_error(sealed_frame(c, t, plaintext)) is None,
        sealed_frame(c, t, plaintext).subrange(4, 20) == c.local_id.0@,
{
    let f = sealed_frame(c, t, plaintext);
    let nonce = crate::nonce::nonce_bytes(c.send_nonces.direction_prefix@, c.send_nonces.session_salt@, c.send_nonces.counter);
    crate::nonce::lemma_counter_of_nonce(c.send_nonces.direction_prefix@, c.send_nonces.session_salt@, c.send_nonces.counter);
    let header = seq![crate::frame::FRAME_VERSION, t, 0u8, 0u8] + c.local_id.0@ + c.peer_id.0@ + nonce;
    assert(header.len() == 60);
    assert(f.subrange(4, 20) =~= c.local_id.0@);
    assert(f[0] == crate::frame::FRAME_VERSION && f[1] == t && f[2] == 0 && f[3] == 0);
}

/// A packet that one backend sends straight to a peer's UDP endpoint is
/// delivered unchanged by the peer's backend, whose session with the
/// sender is paired with the sender's and has not seen the nonce.
pub proof fn lemma_sent_packet_is_delivered(
    sender: RuntimeState,
    sender_after: RuntimeState,
    packet: Seq<u8>,
    sent: Result<OutboundFrame, BackendError>,
    frame: Seq<u8>,
    receiver: RuntimeState,
    receiver_after: RuntimeState,
    source: Option<(IpAddress, u16)>,
    now_unix_millis: u128,
    now: u128,
    received: InboundOutcome,
)
    requires
        send_outcome(sender, sender_after, packet, sent),
        sent is Ok && sent->Ok_0 is Udp && sent->Ok_0->Udp_frame@ == frame,
        chosen_session(sender, packet) is Some,
        ready_to_receive_from(receiver, sender.sessions@[chosen_session(sender, packet)->Some_0].crypto),
        receive_outcome(receiver, receiver_after, frame, source, now_unix_millis, now, received),
    ensures
        received.result is Ok && received.result->Ok_0 is Deliver && received.result->Ok_0->Deliver_0@ == packet,
{
    let si = chosen_session(sender, packet)->Some_0;
    let c = sender.sessions@[si].crypto;
    lemma_sealed_frame_header(c, FRAME_TYPE_DATA, packet);
    let fi = last_frame_device(receiver.frame_ids@, c.local_id.0@)->Some_0;
    let ri = last_session(receiver.sessions@, receiver.frame_ids@[fi].1@)->Some_0;
    assert(open_outcome(receiver.sessions@[ri].crypto, frame) == Ok::<(u8, Seq<u8>), Seq<char>>((FRAME_TYPE_DATA, packet)));
}

/// A packet that one backend sends through the relay is delivered unchanged
/// by the peer's backend when the relay hands it the frame message.
pub proof fn lemma_relayed_packet_is_delivered(
    sender: RuntimeState,
    sender_after: RuntimeState,
    packet: Seq<u8>,
    sent: Result<OutboundFrame, BackendError>,
    receiver: RuntimeState,
    receiver_after: RuntimeState,
    now_unix_millis: u128,
    now: u128,
    received: InboundOutcome,
)
    requires
        send_outcome(sender, sender_after, packet, sent),
        sent is Ok && sent->Ok_0 is Relay,
        chosen_session(sender, packet) is Some,
        ready_to_receive_from(receiver, sender.sessions@[chosen_session(sender, packet)->Some_0].crypto),
        relay_receive_outcome(receiver, receiver_after, sent->Ok_0->Relay_0, now_unix_millis, now, received),
        forall|bytes: Seq<u8>|
            #[trigger] base64url_encode(bytes) == sent->Ok_0->Relay_0->Frame_payload@ ==> base64url_decode(
                sent->Ok_0->Relay_0->Frame_payload@,
            ) == Ok::<Seq<u8>, Seq<char>>(bytes),
    ensures
        received.result is Ok && received.result->Ok_0 is Deliver && received.result->Ok_0->Deliver_0@ == packet,
{
    let si = chosen_session(sender, packet)->Some_0;
    let c = sender.sessions@[si].crypto;
    let frame = sealed_frame(c, FRAME_TYPE_DATA, packet);
    lemma_sealed_frame_header(c, FRAME_TYPE_DATA, packet);
    assert(base64url_encode(frame) == sent->Ok_0->Relay_0->Frame_payload@);
    let fi = last_frame_device(receiver.frame_ids@, c.local_id.0@)->Some_0;
    let ri = last_session(receiver.sessions@, receiver.frame_ids@[fi].1@)->Some_0;
    assert(open_outcome(receiver.sessions@[ri].crypto, frame) == Ok::<(u8, Seq<u8>), Seq<char>>((FRAME_TYPE_DATA, packet)));
}

} // verus!
