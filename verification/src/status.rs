//! The custom backend's status report: per-peer path diagnostics and the
//! one-line summary of its tables, transport and TUN device.

use crate::backend::{PeerPathKind, PeerPathState, StoredPeerSession, CustomBackendState};
use crate::ip::{format_ip, ip_model, ip_text, Ipv4Address};
use crate::net::{BackendStatus, BackendType, Endpoint, PeerPathDiagnostic, PeerPathDiagnosticKind};
use crate::runtime::{path_index, distinct_ids, RuntimeState, PeerTransportSession};
use crate::text::{
    char_texts, chars_of, concat2, decimal_text, format_decimal, join_with, opt_text, owned, push_char,
    push_str, sort_texts, string_from_chars, text_order,
};
use crate::transport::TransportStatus;
use crate::tun::TunStatus;
use vstd::prelude::*;

verus! {

broadcast use vstd::array::group_array_axioms;

/// The diagnostic name of a path.
pub open spec fn diagnostic_kind_of(k: PeerPathKind) -> PeerPathDiagnosticKind {
    match k {
        PeerPathKind::Unknown => PeerPathDiagnosticKind::Unknown,
        PeerPathKind::Direct => PeerPathDiagnosticKind::Direct,
        PeerPathKind::Relay => PeerPathDiagnosticKind::Relay,
    }
}

pub fn diagnostic_kind(value: PeerPathKind) -> (out: PeerPathDiagnosticKind)
    ensures
        out == diagnostic_kind_of(value),
{
    match value {
        PeerPathKind::Unknown => PeerPathDiagnosticKind::Unknown,
        PeerPathKind::Direct => PeerPathDiagnosticKind::Direct,
        PeerPathKind::Relay => PeerPathDiagnosticKind::Relay,
    }
}

/// `address:port` of an endpoint, as `format!("{}:{}")` writes it.
pub open spec fn endpoint_text(e: Endpoint) -> Seq<char> {
    ip_text(ip_model(e.address)) + seq![':'] + decimal_text(e.port as nat)
}

pub fn format_endpoint(e: &Endpoint) -> (out: String)
    ensures
        out@ == endpoint_text(*e),
{
    let mut out = format_ip(&e.address);
    push_char(&mut out, ':');
    let port = format_decimal(e.port as u64);
    push_str(&mut out, port.as_str());
    out
}

/// The diagnostic of a peer from its path state, where it has one.
pub open spec fn diagnostic_is(
    peer: StoredPeerSession,
    paths: Seq<(String, PeerPathState)>,
    tx_packets: u64,
    rx_packets: u64,
    d: PeerPathDiagnostic,
) -> bool {
    &&& d.device_id@ == peer.device_id@
    &&& d.tx_packets == tx_packets
    &&& d.rx_packets == rx_packets
    &&& match path_index(paths, peer.device_id@) {
        None => d.path == PeerPathDiagnosticKind::Unknown && d.endpoint is None && d.rtt_ms is None
            && d.failures == 0,
        Some(k) => {
            let st = paths[k].1;
            &&& d.path == diagnostic_kind_of(st.current_path)
            &&& opt_text(d.endpoint) == match st.active_endpoint {
                Some(e) => Some(endpoint_text(e)),
                None => None::<Seq<char>>,
            }
            &&& d.rtt_ms == st.rtt_ms
            &&& d.failures == st.failures
        },
    }
}

fn find_path_state(paths: &[(String, PeerPathState)], device: &str) -> (out: Option<PeerPathState>)
    ensures
        match path_index(paths@, device@) {
            Some(k) => out == Some(paths@[k].1),
            None => out is None,
        },
{
    let mut i: usize = paths.len();
    proof {
        assert(paths@.take(paths@.len() as int) =~= paths@);
        crate::runtime::lemma_path_index_bound(paths@, device@);
    }
    while i > 0
        invariant
            i <= paths@.len(),
            path_index(paths@, device@) == path_index(paths@.take(i as int), device@),
            path_index(paths@.take(i as int), device@) matches Some(k) ==> 0 <= k < i,
        decreases i,
    {
        proof {
            assert(paths@.take(i as int).drop_last() =~= paths@.take(i - 1));
            assert(paths@.take(i as int).last() == paths@[i - 1]);
            crate::runtime::lemma_path_index_bound(paths@.take(i - 1), device@);
        }
        if crate::text::str_eq(paths[i - 1].0.as_str(), device) {
            return Some(paths[i - 1].1);
        }
        i = i - 1;
    }
    proof {
        assert(paths@.take(0) =~= Seq::<(String, PeerPathState)>::empty());
    }
    None
}

/// The diagnostics of the persisted peers, in order.
pub fn peer_path_diagnostics(
    peers: &[StoredPeerSession],
    paths: &[(String, PeerPathState)],
    tx_packets: u64,
    rx_packets: u64,
) -> (out: Vec<PeerPathDiagnostic>)
    ensures
        out@.len() == peers@.len(),
        forall|i: int| 0 <= i < out@.len() ==> diagnostic_is(#[trigger] peers@[i], paths@, tx_packets, rx_packets, out@[i]),
{
    let mut out: Vec<PeerPathDiagnostic> = Vec::new();
    let mut i: usize = 0;
    while i < peers.len()
        invariant
            i <= peers@.len(),
            out@.len() == i,
            forall|j: int| 0 <= j < i ==> diagnostic_is(#[trigger] peers@[j], paths@, tx_packets, rx_packets, out@[j]),
        decreases peers.len() - i,
    {
        let peer = &peers[i];
        let d = match find_path_state(paths, peer.device_id.as_str()) {
            None => PeerPathDiagnostic {
                device_id: peer.device_id.clone(),
                path: PeerPathDiagnosticKind::Unknown,
                endpoint: None,
                rtt_ms: None,
                failures: 0,
                tx_packets,
                rx_packets,
            },
            Some(st) => PeerPathDiagnostic {
                device_id: peer.device_id.clone(),
                path: diagnostic_kind(st.current_path),
                endpoint: match st.active_endpoint {
                    Some(e) => Some(format_endpoint(&e)),
                    None => None,
                },
                rtt_ms: st.rtt_ms,
                failures: st.failures,
                tx_packets,
                rx_packets,
            },
        };
        out.push(d);
        i = i + 1;
    }
    out
}

/// The text of a direct path: `device@address:port/rtt=<n>ms`, or `-` for
/// an unmeasured round trip.
pub open spec fn direct_entry_text(device: Seq<char>, e: Endpoint, rtt: Option<u64>) -> Seq<char> {
    device + seq!['@'] + endpoint_text(e) + "/rtt="@ + match rtt {
        Some(v) => decimal_text(v as nat) + "ms"@,
        None => "-"@,
    }
}

/// The direct paths with an endpoint, in table order.
pub open spec fn direct_entries(paths: Seq<(String, PeerPathState)>) -> Seq<Seq<char>>
    decreases paths.len(),
{
    if paths.len() == 0 {
        Seq::empty()
    } else {
        let (device, st) = paths.last();
        if st.current_path == PeerPathKind::Direct && st.active_endpoint is Some {
            direct_entries(paths.drop_last()).push(
                direct_entry_text(device@, st.active_endpoint->Some_0, st.rtt_ms),
            )
        } else {
            direct_entries(paths.drop_last())
        }
    }
}

/// The direct paths, sorted and joined with `,`; `none` where there is none.
pub open spec fn direct_path_text(paths: Seq<(String, PeerPathState)>) -> Seq<char> {
    let entries = direct_entries(paths);
    if entries.len() == 0 {
        "none"@
    } else {
        join_with(entries.sort_by(text_order()), ","@)
    }
}

/// The parts joined with `,`.
fn join_commas(parts: &Vec<Vec<char>>) -> (out: String)
    ensures
        out@ == join_with(char_texts(parts@), ","@),
{
    let mut out = String::new();
    let mut i: usize = 0;
    proof {
        assert(char_texts(parts@).take(0) =~= Seq::<Seq<char>>::empty());
    }
    while i < parts.len()
        invariant
            i <= parts@.len(),
            out@ == join_with(char_texts(parts@).take(i as int), ","@),
        decreases parts.len() - i,
    {
        proof {
            assert(char_texts(parts@).take(i + 1).drop_last() =~= char_texts(parts@).take(i as int));
            assert(char_texts(parts@).take(i + 1).last() == parts@[i as int]@);
        }
        if i > 0 {
            push_str(&mut out, ",");
        }
        let part = string_from_chars(parts[i].as_slice());
        push_str(&mut out, part.as_str());
        proof {
            if i == 0 {
                assert(char_texts(parts@).take(1).len() == 1);
            }
        }
        i = i + 1;
    }
    proof {
        assert(char_texts(parts@).take(parts@.len() as int) =~= char_texts(parts@));
    }
    out
}

/// The direct paths, sorted and joined with `,`; `none` where there is none.
pub fn direct_path_status(paths: &[(String, PeerPathState)]) -> (out: String)
    ensures
        out@ == direct_path_text(paths@),
{
    let mut entries: Vec<Vec<char>> = Vec::new();
    let mut i: usize = 0;
    proof {
        assert(paths@.take(0) =~= Seq::<(String, PeerPathState)>::empty());
        assert(char_texts(entries@) =~= Seq::<Seq<char>>::empty());
    }
    while i < paths.len()
        invariant
            i <= paths@.len(),
            char_texts(entries@) == direct_entries(paths@.take(i as int)),
        decreases paths.len() - i,
    {
        proof {
            assert(paths@.take(i + 1).drop_last() =~= paths@.take(i as int));
            assert(paths@.take(i + 1).last() == paths@[i as int]);
        }
        let st = paths[i].1;
        match (st.current_path, st.active_endpoint) {
            (PeerPathKind::Direct, Some(e)) => {
                let mut text = paths[i].0.clone();
                push_char(&mut text, '@');
                let ep = format_endpoint(&e);
                push_str(&mut text, ep.as_str());
                push_str(&mut text, "/rtt=");
                match st.rtt_ms {
                    Some(v) => {
                        let digits = format_decimal(v);
                        push_str(&mut text, digits.as_str());
                        push_str(&mut text, "ms");
                    },
                    None => {
                        push_str(&mut text, "-");
                    },
                }
                let cs = chars_of(text.as_str());
                let ghost before = char_texts(entries@);
                entries.push(cs);
                proof {
                    assert(cs@ =~= direct_entry_text(paths@[i as int].0@, e, st.rtt_ms));
                    assert(char_texts(entries@) =~= before.push(cs@));
                }
            },
            _ => {},
        }
        i = i + 1;
    }
    proof {
        assert(paths@.take(paths@.len() as int) =~= paths@);
    }
    if entries.len() == 0 {
        return owned("none");
    }
    let sorted = sort_texts(entries);
    join_commas(&sorted)
}

/// How many paths are not direct and still have fast probes left.
pub open spec fn fast_probe_count(paths: Seq<(String, PeerPathState)>) -> nat
    decreases paths.len(),
{
    if paths.len() == 0 {
        0
    } else {
        let st = paths.last().1;
        fast_probe_count(paths.drop_last()) + if st.current_path != PeerPathKind::Direct
            && st.fast_probe_attempts_remaining > 0 {
            1nat
        } else {
            0nat
        }
    }
}

/// How many paths are of the given kind.
pub open spec fn path_count(paths: Seq<(String, PeerPathState)>, kind: PeerPathKind) -> nat
    decreases paths.len(),
{
    if paths.len() == 0 {
        0
    } else {
        path_count(paths.drop_last(), kind) + if paths.last().1.current_path == kind {
            1nat
        } else {
            0nat
        }
    }
}

proof fn lemma_path_count_bound(paths: Seq<(String, PeerPathState)>, kind: PeerPathKind)
    ensures
        path_count(paths, kind) <= paths.len(),
        path_count(paths, PeerPathKind::Direct) + path_count(paths, PeerPathKind::Relay) <= paths.len(),
    decreases paths.len(),
{
    if paths.len() > 0 {
        lemma_path_count_bound(paths.drop_last(), kind);
    }
}

fn count_paths(paths: &[(String, PeerPathState)], fast: bool, kind: PeerPathKind) -> (n: u64)
    ensures
        fast ==> n == fast_probe_count(paths@),
        !fast ==> n == path_count(paths@, kind),
{
    let mut n: u64 = 0;
    let mut i: usize = 0;
    while i < paths.len()
        invariant
            i <= paths@.len(),
            n <= i,
            fast ==> n == fast_probe_count(paths@.take(i as int)),
            !fast ==> n == path_count(paths@.take(i as int), kind),
        decreases paths.len() - i,
    {
        proof {
            assert(paths@.take(i + 1).drop_last() =~= paths@.take(i as int));
            assert(paths@.take(i + 1).last() == paths@[i as int]);
        }
        let st = paths[i].1;
        let hit = if fast {
            st.current_path != PeerPathKind::Direct && st.fast_probe_attempts_remaining > 0
        } else {
            st.current_path == kind
        };
        if hit {
            n = n + 1;
        }
        i = i + 1;
    }
    proof {
        assert(paths@.take(paths@.len() as int) =~= paths@);
    }
    n
}

/// How many paths are not direct and still have fast probes left, in decimal.
pub fn fast_probe_status(paths: &[(String, PeerPathState)]) -> (out: String)
    ensures
        out@ == decimal_text(fast_probe_count(paths@)),
{
    let n = count_paths(paths, true, PeerPathKind::Direct);
    format_decimal(n)
}

/// The number of distinct values.
pub open spec fn distinct_count<K>(s: Seq<K>) -> nat
    decreases s.len(),
{
    if s.len() == 0 {
        0
    } else {
        distinct_count(s.drop_last()) + if s.drop_last().contains(s.last()) {
            0nat
        } else {
            1nat
        }
    }
}

proof fn lemma_distinct_count_bound<K>(s: Seq<K>)
    ensures
        distinct_count(s) <= s.len(),
    decreases s.len(),
{
    if s.len() > 0 {
        lemma_distinct_count_bound(s.drop_last());
    }
}

/// The number of distinct texts.
fn count_distinct_texts(s: &Vec<Vec<char>>) -> (n: u64)
    ensures
        n == distinct_count(char_texts(s@)),
{
    let ghost v = char_texts(s@);
    let mut n: u64 = 0;
    let mut i: usize = 0;
    while i < s.len()
        invariant
            i <= s@.len(),
            v == char_texts(s@),
            n == distinct_count(v.take(i as int)),
            n <= i,
        decreases s.len() - i,
    {
        proof {
            assert(v.take(i + 1).drop_last() =~= v.take(i as int));
            assert(v.take(i + 1).last() == s@[i as int]@);
            lemma_distinct_count_bound(v.take(i as int));
        }
        let mut seen = false;
        let mut j: usize = 0;
        while j < i
            invariant
                j <= i < s@.len(),
                v == char_texts(s@),
                seen == exists|k: int| 0 <= k < j && #[trigger] v[k] == v[i as int],
            decreases i - j,
        {
            proof {
                assert(v[j as int] == s@[j as int]@ && v[i as int] == s@[i as int]@);
            }
            if crate::text::chars_eq(s[j].as_slice(), s[i].as_slice()) {
                seen = true;
            }
            j = j + 1;
        }
        proof {
            if seen {
                let k = choose|k: int| 0 <= k < i && #[trigger] v[k] == v[i as int];
                assert(v.take(i as int)[k] == v[i as int]);
            } else {
                if v.take(i as int).contains(v[i as int]) {
                    let k = choose|k: int| 0 <= k < i && v.take(i as int)[k] == v[i as int];
                    assert(v[k] == v[i as int]);
                }
            }
        }
        if !seen {
            n = n + 1;
        }
        i = i + 1;
    }
    proof {
        assert(v.take(v.len() as int) =~= v);
    }
    n
}

fn count_distinct_octets(s: &Vec<[u8; 4]>) -> (n: u64)
    ensures
        n == distinct_count(s@.map_values(|a: [u8; 4]| a@)),
{
    let ghost v = s@.map_values(|a: [u8; 4]| a@);
    let mut n: u64 = 0;
    let mut i: usize = 0;
    while i < s.len()
        invariant
            i <= s@.len(),
            v == s@.map_values(|a: [u8; 4]| a@),
            n == distinct_count(v.take(i as int)),
            n <= i,
        decreases s.len() - i,
    {
        proof {
            assert(v.take(i + 1).drop_last() =~= v.take(i as int));
            assert(v.take(i + 1).last() == s@[i as int]@);
            lemma_distinct_count_bound(v.take(i as int));
        }
        let mut seen = false;
        let mut j: usize = 0;
        while j < i
            invariant
                j <= i < s@.len(),
                v == s@.map_values(|a: [u8; 4]| a@),
                seen == exists|k: int| 0 <= k < j && #[trigger] v[k] == v[i as int],
            decreases i - j,
        {
            let a = s[j];
            let b = s[i];
            proof {
                assert(v[j as int] == a@ && v[i as int] == b@);
            }
            if a[0] == b[0] && a[1] == b[1] && a[2] == b[2] && a[3] == b[3] {
                proof {
                    assert(a@ =~= b@);
                }
                seen = true;
            } else {
                proof {
                    if a@ == b@ {
                        assert(a@[0] == b@[0] && a@[1] == b@[1] && a@[2] == b@[2] && a@[3] == b@[3]);
                    }
                }
            }
            j = j + 1;
        }
        proof {
            if seen {
                let k = choose|k: int| 0 <= k < i && #[trigger] v[k] == v[i as int];
                assert(v.take(i as int)[k] == v[i as int]);
            } else {
                if v.take(i as int).contains(v[i as int]) {
                    let k = choose|k: int| 0 <= k < i && v.take(i as int)[k] == v[i as int];
                    assert(v[k] == v[i as int]);
                }
            }
        }
        if !seen {
            n = n + 1;
        }
        i = i + 1;
    }
    proof {
        assert(v.take(v.len() as int) =~= v);
    }
    n
}

/// The device ids of the persisted peers.
pub open spec fn peer_ids(peers: Seq<StoredPeerSession>) -> Seq<Seq<char>> {
    peers.map_values(|p: StoredPeerSession| p.device_id@)
}

/// The overlay addresses of the overlay index.
pub open spec fn overlay_addresses(t: Seq<(Ipv4Address, String)>) -> Seq<Seq<u8>> {
    t.map_values(|e: (Ipv4Address, String)| e.0.0@)
}

/// The device ids of the crypto keys.
pub open spec fn crypto_ids(t: Seq<(String, [u8; 32])>) -> Seq<Seq<char>> {
    t.map_values(|e: (String, [u8; 32])| e.0@)
}

/// The device ids of the UDP endpoints.
pub open spec fn udp_ids(t: Seq<(String, Endpoint)>) -> Seq<Seq<char>> {
    t.map_values(|e: (String, Endpoint)| e.0@)
}

/// The device ids of the sessions.
pub open spec fn session_ids(t: Seq<PeerTransportSession>) -> Seq<Seq<char>> {
    t.map_values(|e: PeerTransportSession| e.device_id@)
}

/// The transport counters, all zero where no transport is bound.
pub open spec fn transport_or_default(t: Option<TransportStatus>) -> TransportStatus {
    match t {
        Some(s) => s,
        None => TransportStatus {
            udp_bound: false,
            local_endpoints: 0,
            transport_peers: 0,
            reachable_peers: 0,
            tx_packets: 0,
            rx_packets: 0,
            tx_drops: 0,
            rx_drops: 0,
            bound_at_unix_millis: None,
        },
    }
}

pub open spec fn bool_text(b: bool) -> Seq<char> {
    if b {
        "true"@
    } else {
        "false"@
    }
}

/// The TUN interface is configured.
pub open spec fn tun_configured(t: Option<TunStatus>) -> bool {
    match t {
        Some(s) => s.configured,
        None => false,
    }
}

/// The TUN interface is ready for packet I/O.
pub open spec fn tun_io_ready(t: Option<TunStatus>) -> bool {
    match t {
        Some(s) => s.io_ready,
        None => false,
    }
}

/// The TUN message, or `not_configured`.
pub open spec fn tun_message(t: Option<TunStatus>) -> Seq<char> {
    match t {
        Some(s) => match s.message {
            Some(m) => m@,
            None => "not_configured"@,
        },
        None => "not_configured"@,
    }
}

/// The status summary line.
pub open spec fn status_message(
    disk: RuntimeState,
    paths: Seq<(String, PeerPathState)>,
    tun: Option<TunStatus>,
    ts: TransportStatus,
    running: bool,
) -> Seq<char> {
    let direct = path_count(paths, PeerPathKind::Direct);
    let relay = path_count(paths, PeerPathKind::Relay);
    "custom backend state: credentials="@ + bool_text(disk.persisted.identity is Some) + " local_config="@
        + bool_text(disk.persisted.local_config is Some) + " peers="@ + decimal_text(disk.persisted.peers@.len())
        + " peer_indexes=device:"@ + decimal_text(distinct_count(peer_ids(disk.persisted.peers@))) + " overlay:"@
        + decimal_text(distinct_count(overlay_addresses(disk.overlay_index@))) + " crypto_peers="@ + decimal_text(
        distinct_count(crypto_ids(disk.crypto_keys@)),
    ) + " udp_bound="@ + bool_text(ts.udp_bound) + " transport_running="@ + bool_text(running)
        + " local_endpoints="@ + decimal_text(ts.local_endpoints as nat) + " transport_peers="@ + decimal_text(
        distinct_count(udp_ids(disk.udp_endpoints@)),
    ) + " transport_sessions="@ + decimal_text(distinct_count(session_ids(disk.sessions@))) + " direct_peers="@
        + decimal_text(direct) + " relay_peers="@ + decimal_text(relay) + " fast_probe_peers="@ + decimal_text(
        fast_probe_count(paths),
    ) + " direct_paths="@ + direct_path_text(paths) + " reachable_peers="@ + decimal_text(direct + relay)
        + " tx_packets="@ + decimal_text(ts.tx_packets as nat) + " rx_packets="@ + decimal_text(ts.rx_packets as nat)
        + " tx_drops="@ + decimal_text(ts.tx_drops as nat) + " rx_drops="@ + decimal_text(ts.rx_drops as nat)
        + " tun_configured="@ + bool_text(tun_configured(tun)) + " tun_io_ready="@ + bool_text(tun_io_ready(tun))
        + " tun_message="@ + tun_message(tun) + " data_plane=transport_ready"@
}

fn bool_str(b: bool) -> (out: &'static str)
    ensures
        out@ == bool_text(b),
{
    if b {
        "true"
    } else {
        "false"
    }
}

fn push_number(s: &mut String, label: &str, n: u64)
    ensures
        final(s)@ == old(s)@ + label@ + decimal_text(n as nat),
{
    push_str(s, label);
    let digits = format_decimal(n);
    push_str(s, digits.as_str());
}

fn push_flag(s: &mut String, label: &str, b: bool)
    ensures
        final(s)@ == old(s)@ + label@ + bool_text(b),
{
    push_str(s, label);
    push_str(s, bool_str(b));
}

fn text_keys_of_peers(peers: &Vec<StoredPeerSession>) -> (out: Vec<Vec<char>>)
    ensures
        char_texts(out@) == peer_ids(peers@),
{
    let mut out: Vec<Vec<char>> = Vec::new();
    let mut i: usize = 0;
    while i < peers.len()
        invariant
            i <= peers@.len(),
            out@.len() == i,
            forall|j: int| 0 <= j < i ==> #[trigger] out@[j]@ == peers@[j].device_id@,
        decreases peers.len() - i,
    {
        out.push(chars_of(peers[i].device_id.as_str()));
        i = i + 1;
    }
    proof {
        assert(char_texts(out@) =~= peer_ids(peers@));
    }
    out
}

fn text_keys_of_crypto(t: &Vec<(String, [u8; 32])>) -> (out: Vec<Vec<char>>)
    ensures
        char_texts(out@) == crypto_ids(t@),
{
    let mut out: Vec<Vec<char>> = Vec::new();
    let mut i: usize = 0;
    while i < t.len()
        invariant
            i <= t@.len(),
            out@.len() == i,
            forall|j: int| 0 <= j < i ==> #[trigger] out@[j]@ == t@[j].0@,
        decreases t.len() - i,
    {
        out.push(chars_of(t[i].0.as_str()));
        i = i + 1;
    }
    proof {
        assert(char_texts(out@) =~= crypto_ids(t@));
    }
    out
}

fn text_keys_of_udp(t: &Vec<(String, Endpoint)>) -> (out: Vec<Vec<char>>)
    ensures
        char_texts(out@) == udp_ids(t@),
{
    let mut out: Vec<Vec<char>> = Vec::new();
    let mut i: usize = 0;
    while i < t.len()
        invariant
            i <= t@.len(),
            out@.len() == i,
            forall|j: int| 0 <= j < i ==> #[trigger] out@[j]@ == t@[j].0@,
        decreases t.len() - i,
    {
        out.push(chars_of(t[i].0.as_str()));
        i = i + 1;
    }
    proof {
        assert(char_texts(out@) =~= udp_ids(t@));
    }
    out
}

fn text_keys_of_sessions(t: &Vec<PeerTransportSession>) -> (out: Vec<Vec<char>>)
    ensures
        char_texts(out@) == session_ids(t@),
{
    let mut out: Vec<Vec<char>> = Vec::new();
    let mut i: usize = 0;
    while i < t.len()
        invariant
            i <= t@.len(),
            out@.len() == i,
            forall|j: int| 0 <= j < i ==> #[trigger] out@[j]@ == t@[j].device_id@,
        decreases t.len() - i,
    {
        out.push(chars_of(t[i].device_id.as_str()));
        i = i + 1;
    }
    proof {
        assert(char_texts(out@) =~= session_ids(t@));
    }
    out
}

fn overlay_keys(t: &Vec<(Ipv4Address, String)>) -> (out: Vec<[u8; 4]>)
    ensures
        out@.map_values(|a: [u8; 4]| a@) == overlay_addresses(t@),
{
    let mut out: Vec<[u8; 4]> = Vec::new();
    let mut i: usize = 0;
    while i < t.len()
        invariant
            i <= t@.len(),
            out@.len() == i,
            forall|j: int| 0 <= j < i ==> #[trigger] out@[j]@ == t@[j].0.0@,
        decreases t.len() - i,
    {
        out.push(t[i].0.0);
        i = i + 1;
    }
    proof {
        assert(out@.map_values(|a: [u8; 4]| a@) =~= overlay_addresses(t@));
    }
    out
}

/// The backend's status: healthy when the TUN device is configured and
/// ready, the UDP socket is bound and the transport tasks run; the summary
/// line; and the diagnostics of the persisted peers. `disk` holds the
/// tables built from what is persisted, `paths` the live path states.
pub fn backend_status(
    interface_name: &str,
    disk: &RuntimeState,
    paths: &[(String, PeerPathState)],
    tun: &Option<TunStatus>,
    transport: &Option<TransportStatus>,
    transport_running: bool,
) -> (out: BackendStatus)
    ensures
        out.backend_type matches BackendType::Custom(n) && n@ == "tfscale"@,
        out.interface_name@ == interface_name@,
        out.healthy == (tun_configured(*tun) && tun_io_ready(*tun) && transport_or_default(*transport).udp_bound
            && transport_running),
        opt_text(out.message) == Some(
            status_message(*disk, paths@, *tun, transport_or_default(*transport), transport_running),
        ),
        out.peers@.len() == disk.persisted.peers@.len(),
        forall|i: int| 0 <= i < out.peers@.len() ==> diagnostic_is(
            #[trigger] disk.persisted.peers@[i],
            paths@,
            transport_or_default(*transport).tx_packets,
            transport_or_default(*transport).rx_packets,
            out.peers@[i],
        ),
{
    let ts = match transport {
        Some(t) => *t,
        None => TransportStatus {
            udp_bound: false,
            local_endpoints: 0,
            transport_peers: 0,
            reachable_peers: 0,
            tx_packets: 0,
            rx_packets: 0,
            tx_drops: 0,
            rx_drops: 0,
            bound_at_unix_millis: None,
        },
    };
    let (configured, io_ready, message) = match tun {
        Some(t) => (
            t.configured,
            t.io_ready,
            match &t.message {
                Some(m) => m.clone(),
                None => owned("not_configured"),
            },
        ),
        None => (false, false, owned("not_configured")),
    };
    let direct = count_paths(paths, false, PeerPathKind::Direct);
    let relay = count_paths(paths, false, PeerPathKind::Relay);
    let fast = count_paths(paths, true, PeerPathKind::Direct);
    let direct_text = direct_path_status(paths);
    let device_count = count_distinct_texts(&text_keys_of_peers(&disk.persisted.peers));
    let overlay_count = count_distinct_octets(&overlay_keys(&disk.overlay_index));
    let crypto_count = count_distinct_texts(&text_keys_of_crypto(&disk.crypto_keys));
    let udp_count = count_distinct_texts(&text_keys_of_udp(&disk.udp_endpoints));
    let session_count = count_distinct_texts(&text_keys_of_sessions(&disk.sessions));
    let path_len = paths.len();
    proof {
        lemma_path_count_bound(paths@, PeerPathKind::Direct);
        lemma_path_count_bound(paths@, PeerPathKind::Relay);
        assert(direct + relay <= path_len);
    }
    let mut m = owned("custom backend state:");
    push_flag(&mut m, " credentials=", disk.persisted.identity.is_some());
    push_flag(&mut m, " local_config=", disk.persisted.local_config.is_some());
    push_number(&mut m, " peers=", disk.persisted.peers.len() as u64);
    push_number(&mut m, " peer_indexes=device:", device_count);
    push_number(&mut m, " overlay:", overlay_count);
    push_number(&mut m, " crypto_peers=", crypto_count);
    push_flag(&mut m, " udp_bound=", ts.udp_bound);
    push_flag(&mut m, " transport_running=", transport_running);
    push_number(&mut m, " local_endpoints=", ts.local_endpoints as u64);
    push_number(&mut m, " transport_peers=", udp_count);
    push_number(&mut m, " transport_sessions=", session_count);
    push_number(&mut m, " direct_peers=", direct);
    push_number(&mut m, " relay_peers=", relay);
    push_number(&mut m, " fast_probe_peers=", fast);
    push_str(&mut m, " direct_paths=");
    push_str(&mut m, direct_text.as_str());
    push_number(&mut m, " reachable_peers=", direct + relay);
    push_number(&mut m, " tx_packets=", ts.tx_packets);
    push_number(&mut m, " rx_packets=", ts.rx_packets);
    push_number(&mut m, " tx_drops=", ts.tx_drops);
    push_number(&mut m, " rx_drops=", ts.rx_drops);
    push_flag(&mut m, " tun_configured=", configured);
    push_flag(&mut m, " tun_io_ready=", io_ready);
    push_str(&mut m, " tun_message=");
    push_str(&mut m, message.as_str());
    push_str(&mut m, " data_plane=transport_ready");
    proof {
        reveal_strlit("custom backend state:");
        reveal_strlit(" credentials=");
        reveal_strlit("custom backend state: credentials=");
        assert("custom backend state:"@ + " credentials="@ =~= "custom backend state: credentials="@);
        assert(m@ =~= status_message(*disk, paths@, *tun, ts, transport_running));
    }
    let peers = peer_path_diagnostics(disk.persisted.peers.as_slice(), paths, ts.tx_packets, ts.rx_packets);
    BackendStatus {
        backend_type: BackendType::Custom(owned("tfscale")),
        interface_name: owned(interface_name),
        healthy: configured && io_ready && ts.udp_bound && transport_running,
        message: Some(m),
        peers,
    }
}

} // verus!

verus! {

/// A peer's diagnostic names its path: a relay path is reported as relay, a
/// direct path as direct, and a path not yet known as unknown, and no two
/// paths are reported alike.
pub proof fn lemma_diagnostic_names_path(k: PeerPathKind, other: PeerPathKind)
    ensures
        diagnostic_kind_of(k) == PeerPathDiagnosticKind::Relay <==> k == PeerPathKind::Relay,
        diagnostic_kind_of(k) == PeerPathDiagnosticKind::Direct <==> k == PeerPathKind::Direct,
        diagnostic_kind_of(k) == PeerPathDiagnosticKind::Unknown <==> k == PeerPathKind::Unknown,
        diagnostic_kind_of(k) == diagnostic_kind_of(other) ==> k == other,
{
}

} // verus!
