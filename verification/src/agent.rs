//! The node agent's decisions: its saved state, the doctor report, and the
//! conversions between control-plane payloads and backend values.

use crate::ip::{
    IpModel, format_ip, ip_model, ip_parse, ip_text, ipv4_parse, parse_ip, parse_ipv4, parse_socket_addr,
    socket_addr_parse, IpAddress, Ipv4Address,
};
use crate::net::{
    backend_type_name, BackendCredential, BackendStatus, Endpoint, EndpointKind, LocalBackendConfig,
    PeerConfig, PeerPathDiagnostic, PeerPathDiagnosticKind, PublicEndpointProbe, RelayConfig,
    TransportProtocol,
};
use crate::protocol::{
    BackendStatusPayload, DnsRecord, EndpointPayload, EndpointProbeRequest, EndpointProbeResponse,
    HeartbeatRequest, NetworkMapPeer, RegisterDeviceRequest, RegisterDeviceResponse, RelayMetadata,
};
use crate::resolver::{current_platform_plan, platform_plan_is, ResolverConfig, ResolverPlan, ResolverStatus};
use crate::text::{
    clone_opt, concat2, concat3, decimal_text, format_decimal, opt_text, owned, push_str, str_eq,
};
use vstd::prelude::*;

verus! {

pub const DEFAULT_INTERFACE_NAME: &'static str = "tfscale0";

pub const DEFAULT_LISTEN_PORT: u16 = 51820;

pub const DEFAULT_DNS_LISTEN: &'static str = "127.0.0.1:1053";

pub const DEFAULT_DNS_SUFFIX: &'static str = "mesh";

/// What the agent keeps between runs.
#[derive(Clone, Debug)]
pub struct AgentState {
    pub machine_key: String,
    pub backend_public_credential: String,
    pub device_id: Option<String>,
    pub node_key: Option<String>,
    pub network_id: Option<String>,
    pub ipv4: Option<String>,
    pub poll_interval_seconds: u64,
    pub dns_records: Vec<DnsRecord>,
    pub dns_enabled: bool,
    pub dns_listen: String,
    pub dns_healthy: bool,
    pub dns_message: Option<String>,
}

/// The state of an agent that has not registered yet: no identity, no DNS.
pub open spec fn is_blank_state(s: AgentState) -> bool {
    &&& s.backend_public_credential@ == Seq::<char>::empty()
    &&& s.device_id is None
    &&& s.node_key is None
    &&& s.network_id is None
    &&& s.ipv4 is None
    &&& s.dns_records@.len() == 0
    &&& !s.dns_enabled
    &&& !s.dns_healthy
    &&& s.dns_message is None
}

impl AgentState {
    /// A fresh state: a new machine key, a five-second poll interval and the
    /// default DNS listen address. Fails only where a machine key cannot be
    /// made (the clock or the random source fails), with the reason.
    pub fn new() -> (out: Result<Self, String>)
        ensures
            out matches Ok(s) ==> is_blank_state(s) && crate::ids::is_prefixed_id(s.machine_key@, "machine_"@)
                && s.poll_interval_seconds == 5 && s.dns_listen@ == DEFAULT_DNS_LISTEN@,
    {
        let machine_key = crate::ids::prefixed_id("machine_")?;
        Ok(AgentState {
            machine_key,
            backend_public_credential: String::new(),
            device_id: None,
            node_key: None,
            network_id: None,
            ipv4: None,
            poll_interval_seconds: 5,
            dns_records: Vec::new(),
            dns_enabled: false,
            dns_listen: owned(DEFAULT_DNS_LISTEN),
            dns_healthy: false,
            dns_message: None,
        })
    }
}

impl Default for AgentState {
    /// The state used when none was saved: every field empty.
    fn default() -> (out: Self)
        ensures
            is_blank_state(out),
            out.machine_key@ == Seq::<char>::empty(),
            out.poll_interval_seconds == 0,
            out.dns_listen@ == Seq::<char>::empty(),
    {
        AgentState {
            machine_key: String::new(),
            backend_public_credential: String::new(),
            device_id: None,
            node_key: None,
            network_id: None,
            ipv4: None,
            poll_interval_seconds: 0,
            dns_records: Vec::new(),
            dns_enabled: false,
            dns_listen: String::new(),
            dns_healthy: false,
            dns_message: None,
        }
    }
}

/// The outcome of one doctor check.
#[derive(Clone, Copy, Debug, PartialEq, Eq, Structural)]
pub enum DoctorLevel {
    Pass,
    Warn,
    Fail,
}

pub open spec fn doctor_level_label(l: DoctorLevel) -> Seq<char> {
    match l {
        DoctorLevel::Pass => "OK"@,
        DoctorLevel::Warn => "WARN"@,
        DoctorLevel::Fail => "FAIL"@,
    }
}

/// How bad a level is: `Ok` < `Warn` < `Fail`.
pub open spec fn severity(l: DoctorLevel) -> int {
    match l {
        DoctorLevel::Pass => 0,
        DoctorLevel::Warn => 1,
        DoctorLevel::Fail => 2,
    }
}

impl DoctorLevel {
    pub fn label(&self) -> (out: &'static str)
        ensures
            out@ == doctor_level_label(*self),
    {
        match self {
            DoctorLevel::Pass => "OK",
            DoctorLevel::Warn => "WARN",
            DoctorLevel::Fail => "FAIL",
        }
    }
}

/// One check of the doctor report.
#[derive(Clone, Debug)]
pub struct DoctorCheck {
    pub id: String,
    pub level: DoctorLevel,
    pub summary: String,
    pub detail: Option<String>,
    pub suggestion: Option<String>,
}

/// The doctor report: the worst level, the checks, and what to do next.
#[derive(Clone, Debug)]
pub struct AgentDoctorReport {
    pub overall: DoctorLevel,
    pub checks: Vec<DoctorCheck>,
    pub next_steps: Vec<String>,
}

/// A check with the given fields.
pub open spec fn check_is(
    c: DoctorCheck,
    id: Seq<char>,
    level: DoctorLevel,
    summary: Seq<char>,
    detail: Option<Seq<char>>,
    suggestion: Option<Seq<char>>,
) -> bool {
    &&& c.id@ == id
    &&& c.level == level
    &&& c.summary@ == summary
    &&& opt_text(c.detail) == detail
    &&& opt_text(c.suggestion) == suggestion
}

/// Whether the state holds a complete registration.
pub open spec fn is_registered(state: AgentState) -> bool {
    state.device_id is Some && state.node_key is Some && state.network_id is Some && state.ipv4 is Some
}

/// The registration check for a state.
pub open spec fn registered_check(state: AgentState, c: DoctorCheck) -> bool {
    if is_registered(state) {
        check_is(
            c,
            "state.registered"@,
            DoctorLevel::Pass,
            state.device_id->Some_0@ + " "@ + state.ipv4->Some_0@,
            opt_text(state.network_id),
            None,
        )
    } else {
        check_is(
            c,
            "state.registered"@,
            DoctorLevel::Fail,
            "agent is not registered"@,
            None,
            Some("run tfscale-agent up --login-key <key>"@),
        )
    }
}

fn make_check(
    id: &str,
    level: DoctorLevel,
    summary: String,
    detail: Option<String>,
    suggestion: Option<String>,
) -> (out: DoctorCheck)
    ensures
        check_is(out, id@, level, summary@, opt_text(detail), opt_text(suggestion)),
{
    DoctorCheck { id: owned(id), level, summary, detail, suggestion }
}

/// Whether the agent has registered with the control plane.
pub fn check_registered(state: &AgentState) -> (out: DoctorCheck)
    ensures
        registered_check(*state, out),
{
    match (&state.device_id, &state.node_key, &state.network_id, &state.ipv4) {
        (Some(device_id), Some(_), Some(_), Some(ipv4)) => make_check(
            "state.registered",
            DoctorLevel::Pass,
            concat3(device_id.as_str(), " ", ipv4.as_str()),
            clone_opt(&state.network_id),
            None,
        ),
        _ => make_check(
            "state.registered",
            DoctorLevel::Fail,
            owned("agent is not registered"),
            None,
            Some(owned("run tfscale-agent up --login-key <key>")),
        ),
    }
}

/// The backend health check for a status.
pub open spec fn backend_check(status: BackendStatus, c: DoctorCheck) -> bool {
    check_is(
        c,
        "backend.healthy"@,
        if status.healthy {
            DoctorLevel::Pass
        } else {
            DoctorLevel::Fail
        },
        backend_type_name(status.backend_type) + " "@ + status.interface_name@,
        opt_text(status.message),
        if status.healthy {
            None
        } else {
            Some("check TUN permissions and backend status message"@)
        },
    )
}

/// Whether the backend reports itself healthy.
pub fn check_backend(status: &BackendStatus) -> (out: DoctorCheck)
    ensures
        backend_check(*status, out),
{
    let summary = concat3(status.backend_type.as_str(), " ", status.interface_name.as_str());
    if status.healthy {
        make_check("backend.healthy", DoctorLevel::Pass, summary, clone_opt(&status.message), None)
    } else {
        make_check(
            "backend.healthy",
            DoctorLevel::Fail,
            summary,
            clone_opt(&status.message),
            Some(owned("check TUN permissions and backend status message")),
        )
    }
}

/// How many peers are reached over the given path.
pub open spec fn count_path(peers: Seq<PeerPathDiagnostic>, path: PeerPathDiagnosticKind) -> nat
    decreases peers.len(),
{
    if peers.len() == 0 {
        0
    } else {
        count_path(peers.drop_last(), path) + if peers.last().path == path {
            1nat
        } else {
            0nat
        }
    }
}

proof fn lemma_count_path_bound(peers: Seq<PeerPathDiagnostic>, path: PeerPathDiagnosticKind)
    ensures
        count_path(peers, path) <= peers.len(),
    decreases peers.len(),
{
    if peers.len() > 0 {
        lemma_count_path_bound(peers.drop_last(), path);
    }
}

fn count_peers(peers: &[PeerPathDiagnostic], path: PeerPathDiagnosticKind) -> (n: u64)
    ensures
        n == count_path(peers@, path),
{
    let mut n: u64 = 0;
    let mut i: usize = 0;
    while i < peers.len()
        invariant
            i <= peers@.len(),
            n == count_path(peers@.take(i as int), path),
        decreases peers.len() - i,
    {
        proof {
            assert(peers@.take(i + 1).drop_last() =~= peers@.take(i as int));
            lemma_count_path_bound(peers@.take(i as int), path);
        }
        if peers[i].path == path {
            n = n + 1;
        }
        i = i + 1;
    }
    proof {
        assert(peers@.take(peers@.len() as int) =~= peers@);
    }
    n
}

/// The peer path check for a status.
pub open spec fn peers_check(status: BackendStatus, c: DoctorCheck) -> bool {
    let peers = status.peers@;
    let unknown = count_path(peers, PeerPathDiagnosticKind::Unknown);
    check_is(
        c,
        "backend.peers"@,
        if unknown > 0 {
            DoctorLevel::Warn
        } else {
            DoctorLevel::Pass
        },
        "direct="@ + decimal_text(count_path(peers, PeerPathDiagnosticKind::Direct)) + " relay="@
            + decimal_text(count_path(peers, PeerPathDiagnosticKind::Relay)) + " unknown="@
            + decimal_text(unknown),
        Some("total="@ + decimal_text(peers.len())),
        if unknown > 0 {
            Some("wait for endpoint probing or check relay availability"@)
        } else {
            None
        },
    )
}

/// How many peers are reached directly, over a relay, or not yet at all.
pub fn check_backend_peers(status: &BackendStatus) -> (out: DoctorCheck)
    ensures
        peers_check(*status, out),
{
    let direct = count_peers(status.peers.as_slice(), PeerPathDiagnosticKind::Direct);
    let relay = count_peers(status.peers.as_slice(), PeerPathDiagnosticKind::Relay);
    let unknown = count_peers(status.peers.as_slice(), PeerPathDiagnosticKind::Unknown);
    let mut summary = owned("direct=");
    let d = format_decimal(direct);
    push_str(&mut summary, d.as_str());
    push_str(&mut summary, " relay=");
    let r = format_decimal(relay);
    push_str(&mut summary, r.as_str());
    push_str(&mut summary, " unknown=");
    let u = format_decimal(unknown);
    push_str(&mut summary, u.as_str());
    let total = format_decimal(status.peers.len() as u64);
    let detail = concat2("total=", total.as_str());
    if unknown > 0 {
        make_check(
            "backend.peers",
            DoctorLevel::Warn,
            summary,
            Some(detail),
            Some(owned("wait for endpoint probing or check relay availability")),
        )
    } else {
        make_check("backend.peers", DoctorLevel::Pass, summary, Some(detail), None)
    }
}

/// The DNS listener check for a state.
pub open spec fn dns_listener_check(state: AgentState, c: DoctorCheck) -> bool {
    if !state.dns_enabled {
        check_is(
            c,
            "dns.listener"@,
            DoctorLevel::Warn,
            "DNS listener has not been started"@,
            Some("listen="@ + state.dns_listen@),
            Some("run tfscale-agent up to start MagicDNS"@),
        )
    } else {
        check_is(
            c,
            "dns.listener"@,
            if state.dns_healthy {
                DoctorLevel::Pass
            } else {
                DoctorLevel::Fail
            },
            state.dns_listen@ + " records="@ + decimal_text(state.dns_records@.len()),
            opt_text(state.dns_message),
            if state.dns_healthy {
                Some("test with: dig @"@ + state.dns_listen@ + " <hostname>.mesh A"@)
            } else {
                Some("check whether the DNS port is already in use"@)
            },
        )
    }
}

/// Whether the MagicDNS listener was started and is healthy.
pub fn check_dns_listener(state: &AgentState) -> (out: DoctorCheck)
    ensures
        dns_listener_check(*state, out),
{
    if !state.dns_enabled {
        return make_check(
            "dns.listener",
            DoctorLevel::Warn,
            owned("DNS listener has not been started"),
            Some(concat2("listen=", state.dns_listen.as_str())),
            Some(owned("run tfscale-agent up to start MagicDNS")),
        );
    }
    let count = format_decimal(state.dns_records.len() as u64);
    let summary = concat3(state.dns_listen.as_str(), " records=", count.as_str());
    if state.dns_healthy {
        make_check(
            "dns.listener",
            DoctorLevel::Pass,
            summary,
            clone_opt(&state.dns_message),
            Some(concat3("test with: dig @", state.dns_listen.as_str(), " <hostname>.mesh A")),
        )
    } else {
        make_check(
            "dns.listener",
            DoctorLevel::Fail,
            summary,
            clone_opt(&state.dns_message),
            Some(owned("check whether the DNS port is already in use")),
        )
    }
}

/// The DNS snapshot check for a state.
pub open spec fn dns_snapshot_check(state: AgentState, c: DoctorCheck) -> bool {
    let records = state.dns_records@;
    if records.len() == 0 {
        check_is(
            c,
            "dns.snapshot"@,
            DoctorLevel::Warn,
            "no DNS records in local snapshot"@,
            None,
            Some("check tfscalectl dns records and wait for agent sync"@),
        )
    } else {
        check_is(
            c,
            "dns.snapshot"@,
            DoctorLevel::Pass,
            "records="@ + decimal_text(records.len()),
            Some("example="@ + records[0].name@ + " -> "@ + records[0].value@),
            None,
        )
    }
}

/// Whether the saved state holds MagicDNS records.
pub fn check_dns_snapshot(state: &AgentState) -> (out: DoctorCheck)
    ensures
        dns_snapshot_check(*state, out),
{
    if state.dns_records.len() == 0 {
        make_check(
            "dns.snapshot",
            DoctorLevel::Warn,
            owned("no DNS records in local snapshot"),
            None,
            Some(owned("check tfscalectl dns records and wait for agent sync")),
        )
    } else {
        let count = format_decimal(state.dns_records.len() as u64);
        let first = &state.dns_records[0];
        let mut detail = concat2("example=", first.name.as_str());
        push_str(&mut detail, " -> ");
        push_str(&mut detail, first.value.as_str());
        make_check(
            "dns.snapshot",
            DoctorLevel::Pass,
            concat2("records=", count.as_str()),
            Some(detail),
            None,
        )
    }
}

/// The system resolver check for a resolver status.
pub open spec fn system_resolver_check(status: ResolverStatus, c: DoctorCheck) -> bool {
    if status.installed && status.content_matches {
        check_is(
            c,
            "dns.system_resolver"@,
            DoctorLevel::Pass,
            "installed path="@ + status.config_path@,
            Some("platform="@ + status.platform@),
            None,
        )
    } else if status.installed {
        check_is(
            c,
            "dns.system_resolver"@,
            DoctorLevel::Warn,
            "installed but content differs path="@ + status.config_path@,
            opt_text(status.message),
            Some("run tfscale-agent dns install to refresh resolver config"@),
        )
    } else {
        check_is(
            c,
            "dns.system_resolver"@,
            DoctorLevel::Warn,
            "not installed; planned path="@ + status.config_path@,
            Some("platform="@ + status.platform@),
            Some("run tfscale-agent dns install to enable system hostname resolution"@),
        )
    }
}

/// Whether the system resolver routes the mesh suffix to the agent.
pub fn check_dns_system_resolver(status: &ResolverStatus) -> (out: DoctorCheck)
    ensures
        system_resolver_check(*status, out),
{
    if status.installed && status.content_matches {
        make_check(
            "dns.system_resolver",
            DoctorLevel::Pass,
            concat2("installed path=", status.config_path.as_str()),
            Some(concat2("platform=", status.platform.as_str())),
            None,
        )
    } else if status.installed {
        make_check(
            "dns.system_resolver",
            DoctorLevel::Warn,
            concat2("installed but content differs path=", status.config_path.as_str()),
            clone_opt(&status.message),
            Some(owned("run tfscale-agent dns install to refresh resolver config")),
        )
    } else {
        make_check(
            "dns.system_resolver",
            DoctorLevel::Warn,
            concat2("not installed; planned path=", status.config_path.as_str()),
            Some(concat2("platform=", status.platform.as_str())),
            Some(owned("run tfscale-agent dns install to enable system hostname resolution")),
        )
    }
}

/// Whether some check has the level.
pub open spec fn has_level(checks: Seq<DoctorCheck>, level: DoctorLevel) -> bool {
    exists|i: int| 0 <= i < checks.len() && #[trigger] checks[i].level == level
}

/// The worst level among the checks; `Ok` for none.
pub open spec fn worst_level(checks: Seq<DoctorCheck>) -> DoctorLevel {
    if has_level(checks, DoctorLevel::Fail) {
        DoctorLevel::Fail
    } else if has_level(checks, DoctorLevel::Warn) {
        DoctorLevel::Warn
    } else {
        DoctorLevel::Pass
    }
}

/// The worst level among the checks.
pub fn overall_level(checks: &[DoctorCheck]) -> (out: DoctorLevel)
    ensures
        out == worst_level(checks@),
{
    let mut any_fail = false;
    let mut any_warn = false;
    let mut i: usize = 0;
    while i < checks.len()
        invariant
            i <= checks@.len(),
            any_fail == exists|j: int| 0 <= j < i && #[trigger] checks@[j].level == DoctorLevel::Fail,
            any_warn == exists|j: int| 0 <= j < i && #[trigger] checks@[j].level == DoctorLevel::Warn,
        decreases checks.len() - i,
    {
        match checks[i].level {
            DoctorLevel::Fail => {
                any_fail = true;
            },
            DoctorLevel::Warn => {
                any_warn = true;
            },
            DoctorLevel::Pass => {},
        }
        i = i + 1;
    }
    if any_fail {
        DoctorLevel::Fail
    } else if any_warn {
        DoctorLevel::Warn
    } else {
        DoctorLevel::Pass
    }
}

/// The suggestions of the checks, in order.
pub open spec fn suggestions(checks: Seq<DoctorCheck>) -> Seq<Seq<char>>
    decreases checks.len(),
{
    if checks.len() == 0 {
        Seq::empty()
    } else {
        match checks.last().suggestion {
            Some(s) => suggestions(checks.drop_last()).push(s@),
            None => suggestions(checks.drop_last()),
        }
    }
}

/// The sequence with each run of equal neighbours kept once (`Vec::dedup`).
pub open spec fn dedup_adjacent(s: Seq<Seq<char>>) -> Seq<Seq<char>>
    decreases s.len(),
{
    if s.len() == 0 {
        Seq::empty()
    } else {
        let prev = dedup_adjacent(s.drop_last());
        if prev.len() > 0 && prev.last() == s.last() {
            prev
        } else {
            prev.push(s.last())
        }
    }
}

/// The texts of strings.
pub open spec fn texts(v: Seq<String>) -> Seq<Seq<char>> {
    v.map_values(|s: String| s@)
}

/// The checks' suggestions, each run of repeats kept once.
pub fn next_steps(checks: &[DoctorCheck]) -> (out: Vec<String>)
    ensures
        texts(out@) == dedup_adjacent(suggestions(checks@)),
{
    let mut all: Vec<String> = Vec::new();
    let mut i: usize = 0;
    while i < checks.len()
        invariant
            i <= checks@.len(),
            texts(all@) == suggestions(checks@.take(i as int)),
        decreases checks.len() - i,
    {
        proof {
            assert(checks@.take(i + 1).drop_last() =~= checks@.take(i as int));
            assert(checks@.take(i + 1).last() == checks@[i as int]);
        }
        match &checks[i].suggestion {
            Some(s) => {
                all.push(s.clone());
                proof {
                    assert(texts(all@) =~= suggestions(checks@.take(i as int)).push(s@));
                }
            },
            None => {},
        }
        i = i + 1;
    }
    proof {
        assert(checks@.take(checks@.len() as int) =~= checks@);
    }
    let ghost all_texts = texts(all@);
    let mut out: Vec<String> = Vec::new();
    let mut k: usize = 0;
    while k < all.len()
        invariant
            k <= all@.len(),
            all_texts == texts(all@),
            texts(out@) == dedup_adjacent(all_texts.take(k as int)),
        decreases all.len() - k,
    {
        proof {
            assert(all_texts.take(k + 1).drop_last() =~= all_texts.take(k as int));
            assert(all_texts.take(k + 1).last() == all@[k as int]@);
        }
        let keep = if out.len() == 0 {
            true
        } else {
            let last = out.len() - 1;
            proof {
                assert(texts(out@).last() == out@[last as int]@);
            }
            !crate::text::str_eq(out[last].as_str(), all[k].as_str())
        };
        if keep {
            out.push(all[k].clone());
            proof {
                assert(texts(out@) =~= dedup_adjacent(all_texts.take(k as int)).push(all@[k as int]@));
            }
        }
        k = k + 1;
    }
    proof {
        assert(all_texts.take(all_texts.len() as int) =~= all_texts);
    }
    out
}

impl AgentDoctorReport {
    /// The six checks over the saved state, the backend status and the
    /// system resolver status, their worst level and the next steps.
    pub fn from_state_and_status(
        state: &AgentState,
        status: &BackendStatus,
        resolver_status: &ResolverStatus,
    ) -> (out: Self)
        ensures
            out.checks@.len() == 6,
            registered_check(*state, out.checks@[0]),
            backend_check(*status, out.checks@[1]),
            peers_check(*status, out.checks@[2]),
            dns_listener_check(*state, out.checks@[3]),
            dns_snapshot_check(*state, out.checks@[4]),
            system_resolver_check(*resolver_status, out.checks@[5]),
            out.overall == worst_level(out.checks@),
            texts(out.next_steps@) == dedup_adjacent(suggestions(out.checks@)),
    {
        let mut checks: Vec<DoctorCheck> = Vec::new();
        checks.push(check_registered(state));
        checks.push(check_backend(status));
        checks.push(check_backend_peers(status));
        checks.push(check_dns_listener(state));
        checks.push(check_dns_snapshot(state));
        checks.push(check_dns_system_resolver(resolver_status));
        let overall = overall_level(checks.as_slice());
        let next_steps = next_steps(checks.as_slice());
        AgentDoctorReport { overall, checks, next_steps }
    }
}

/// The overall level is at least as bad as every check, and is the level of
/// one of them when there is any.
pub proof fn lemma_overall_is_worst(checks: Seq<DoctorCheck>)
    ensures
        forall|i: int| 0 <= i < checks.len() ==> severity(#[trigger] checks[i].level) <= severity(
            worst_level(checks),
        ),
        checks.len() > 0 ==> exists|i: int| 0 <= i < checks.len() && #[trigger] checks[i].level
            == worst_level(checks),
{
    if checks.len() > 0 && !has_level(checks, DoctorLevel::Fail) && !has_level(checks, DoctorLevel::Warn) {
        assert(checks[0].level == DoctorLevel::Pass);
    }
}

/// An agent that has not registered gets a failing doctor report.
pub proof fn lemma_unregistered_report_fails(state: AgentState, report: AgentDoctorReport)
    requires
        !is_registered(state),
        report.checks@.len() > 0,
        registered_check(state, report.checks@[0]),
        report.overall == worst_level(report.checks@),
    ensures
        report.overall == DoctorLevel::Fail,
{
    assert(report.checks@[0].level == DoctorLevel::Fail);
}

proof fn lemma_dedup_adjacent_last(s: Seq<Seq<char>>)
    ensures
        s.len() > 0 ==> dedup_adjacent(s).len() > 0 && dedup_adjacent(s).last() == s.last(),
        dedup_adjacent(s).len() <= s.len(),
    decreases s.len(),
{
    if s.len() > 0 {
        lemma_dedup_adjacent_last(s.drop_last());
    }
}

/// No step is repeated right after itself, and every step is one of the
/// suggestions.
pub proof fn lemma_next_steps_distinct_neighbours(s: Seq<Seq<char>>)
    ensures
        forall|i: int| 0 <= i < dedup_adjacent(s).len() - 1 ==> #[trigger] dedup_adjacent(s)[i]
            != dedup_adjacent(s)[i + 1],
        forall|i: int| 0 <= i < dedup_adjacent(s).len() ==> s.contains(#[trigger] dedup_adjacent(s)[i]),
    decreases s.len(),
{
    if s.len() > 0 {
        let prev = dedup_adjacent(s.drop_last());
        lemma_next_steps_distinct_neighbours(s.drop_last());
        lemma_dedup_adjacent_last(s.drop_last());
        assert forall|i: int| 0 <= i < dedup_adjacent(s).len() implies s.contains(
            #[trigger] dedup_adjacent(s)[i],
        ) by {
            if i < prev.len() {
                assert(s.drop_last().contains(prev[i]));
                let j = choose|j: int| 0 <= j < s.drop_last().len() && s.drop_last()[j] == prev[i];
                assert(s[j] == prev[i]);
            } else {
                assert(s[s.len() - 1] == s.last());
            }
        }
    }
}

/// A label for an optional flag: `true`, `false` or `unknown`.
pub fn optional_bool_label(value: Option<bool>) -> (out: &'static str)
    ensures
        out@ == match value {
            Some(true) => "true"@,
            Some(false) => "false"@,
            None => "unknown"@,
        },
{
    match value {
        Some(true) => "true",
        Some(false) => "false",
        None => "unknown",
    }
}

/// Whether the agent must ask its backend for credentials: it has none yet,
/// or it is not registered.
pub fn needs_backend_credentials(state: &AgentState) -> (out: bool)
    ensures
        out == (state.backend_public_credential@.len() == 0 || state.device_id is None),
{
    state.backend_public_credential.as_str().is_empty() || state.device_id.is_none()
}

/// Seconds between two syncs with the control plane: the poll interval, at
/// least one.
pub fn sync_interval_seconds(state: &AgentState) -> (out: u64)
    ensures
        out == if state.poll_interval_seconds < 1 {
            1
        } else {
            state.poll_interval_seconds
        },
{
    if state.poll_interval_seconds < 1 {
        1
    } else {
        state.poll_interval_seconds
    }
}

/// Whether a network map of this version still has to be applied.
pub fn network_map_changed(last_applied: Option<i64>, version: i64) -> (out: bool)
    ensures
        out == (last_applied != Some(version)),
{
    match last_applied {
        Some(v) => v != version,
        None => true,
    }
}

/// The payload name of an endpoint kind.
pub open spec fn endpoint_kind_text(k: EndpointKind) -> Seq<char> {
    match k {
        EndpointKind::Lan => "lan"@,
        EndpointKind::Public => "public"@,
        EndpointKind::Ipv6 => "ipv6"@,
        EndpointKind::Relay => "relay"@,
    }
}

/// The payload name of a transport protocol.
pub open spec fn protocol_text(p: TransportProtocol) -> Seq<char> {
    match p {
        TransportProtocol::Udp => "udp"@,
        TransportProtocol::Tcp => "tcp"@,
    }
}

/// The endpoint kind a payload name stands for.
pub open spec fn endpoint_kind_of(t: Seq<char>) -> Option<EndpointKind> {
    if t == "lan"@ {
        Some(EndpointKind::Lan)
    } else if t == "public"@ {
        Some(EndpointKind::Public)
    } else if t == "ipv6"@ {
        Some(EndpointKind::Ipv6)
    } else if t == "relay"@ {
        Some(EndpointKind::Relay)
    } else {
        None
    }
}

/// The transport protocol a payload name stands for.
pub open spec fn protocol_of(t: Seq<char>) -> Option<TransportProtocol> {
    if t == "udp"@ {
        Some(TransportProtocol::Udp)
    } else if t == "tcp"@ {
        Some(TransportProtocol::Tcp)
    } else {
        None
    }
}

pub fn endpoint_kind_to_payload(value: EndpointKind) -> (out: &'static str)
    ensures
        out@ == endpoint_kind_text(value),
{
    match value {
        EndpointKind::Lan => "lan",
        EndpointKind::Public => "public",
        EndpointKind::Ipv6 => "ipv6",
        EndpointKind::Relay => "relay",
    }
}

pub fn transport_protocol_to_payload(value: TransportProtocol) -> (out: &'static str)
    ensures
        out@ == protocol_text(value),
{
    match value {
        TransportProtocol::Udp => "udp",
        TransportProtocol::Tcp => "tcp",
    }
}

/// Reads an endpoint kind; any other name is refused.
pub fn parse_endpoint_kind(value: &str) -> (out: Result<EndpointKind, String>)
    ensures
        match endpoint_kind_of(value@) {
            Some(k) => out matches Ok(x) && x == k,
            None => out matches Err(e) && e@ == "unsupported endpoint kind: "@ + value@,
        },
{
    if str_eq(value, "lan") {
        Ok(EndpointKind::Lan)
    } else if str_eq(value, "public") {
        Ok(EndpointKind::Public)
    } else if str_eq(value, "ipv6") {
        Ok(EndpointKind::Ipv6)
    } else if str_eq(value, "relay") {
        Ok(EndpointKind::Relay)
    } else {
        Err(concat2("unsupported endpoint kind: ", value))
    }
}

/// Reads a transport protocol; any other name is refused.
pub fn parse_transport_protocol(value: &str) -> (out: Result<TransportProtocol, String>)
    ensures
        match protocol_of(value@) {
            Some(p) => out matches Ok(x) && x == p,
            None => out matches Err(e) && e@ == "unsupported endpoint protocol: "@ + value@,
        },
{
    if str_eq(value, "udp") {
        Ok(TransportProtocol::Udp)
    } else if str_eq(value, "tcp") {
        Ok(TransportProtocol::Tcp)
    } else {
        Err(concat2("unsupported endpoint protocol: ", value))
    }
}

/// A payload describing the endpoint, with its source and priority.
pub open spec fn payload_of(e: Endpoint, source: Seq<char>, priority: i32, p: EndpointPayload) -> bool {
    &&& p.kind@ == endpoint_kind_text(e.kind)
    &&& p.address@ == ip_text(ip_model(e.address))
    &&& p.port == e.port
    &&& p.protocol@ == protocol_text(e.protocol)
    &&& opt_text(p.source) == Some(source)
    &&& p.priority == Some(priority)
    &&& p.expires_at is None
}

fn payload(endpoint: Endpoint, source: &str, priority: i32) -> (out: EndpointPayload)
    ensures
        payload_of(endpoint, source@, priority, out),
{
    EndpointPayload {
        kind: owned(endpoint_kind_to_payload(endpoint.kind)),
        address: format_ip(&endpoint.address),
        port: endpoint.port,
        protocol: owned(transport_protocol_to_payload(endpoint.protocol)),
        source: Some(owned(source)),
        priority: Some(priority),
        expires_at: None,
    }
}

/// A local endpoint as the heartbeat announces it: source `local`, priority 100.
pub fn endpoint_to_payload(endpoint: Endpoint) -> (out: EndpointPayload)
    ensures
        payload_of(endpoint, "local"@, 100, out),
{
    payload(endpoint, "local", 100)
}

/// An endpoint the backend observed by probing: source `stun`, priority 50.
pub fn endpoint_from_backend_probe(endpoint: Endpoint) -> (out: EndpointPayload)
    ensures
        payload_of(endpoint, "stun"@, 50, out),
{
    payload(endpoint, "stun", 50)
}

/// The public endpoint the control plane observed, unless it saw no port.
pub fn endpoint_from_probe_response(response: EndpointProbeResponse) -> (out: Option<EndpointPayload>)
    ensures
        out is None <==> response.observed_port == 0,
        out matches Some(p) ==> p.kind@ == "public"@ && p.address@ == response.observed_address@
            && p.port == response.observed_port && p.protocol@ == response.protocol@ && opt_text(
            p.source,
        ) == Some("stun"@) && p.priority == Some(50i32) && p.expires_at is None,
{
    if response.observed_port == 0 {
        return None;
    }
    Some(
        EndpointPayload {
            kind: owned("public"),
            address: response.observed_address,
            port: response.observed_port,
            protocol: response.protocol,
            source: Some(owned("stun")),
            priority: Some(50),
            expires_at: None,
        },
    )
}

/// The UDP probe server a probe response names, if it names one.
pub fn udp_probe_server(response: &EndpointProbeResponse) -> (out: Result<Option<(IpAddress, u16)>, String>)
    ensures
        (response.udp_probe_address is None || response.udp_probe_port is None) ==> (out matches Ok(
            x,
        ) && x is None),
        (response.udp_probe_address is Some && response.udp_probe_port is Some) ==> match ip_parse(
            response.udp_probe_address->Some_0@,
        ) {
            Some(m) => out matches Ok(Some((ip, p))) && ip_model(ip) == m && p
                == response.udp_probe_port->Some_0,
            None => out matches Err(e) && e@ == "invalid IP address syntax"@,
        },
{
    let address = match &response.udp_probe_address {
        Some(a) => a,
        None => {
            return Ok(None);
        },
    };
    let port = match response.udp_probe_port {
        Some(p) => p,
        None => {
            return Ok(None);
        },
    };
    match parse_ip(address.as_str()) {
        Some(ip) => Ok(Some((ip, port))),
        None => Err(owned("invalid IP address syntax")),
    }
}

/// What a payload endpoint converts to, or the message of why it does not.
pub open spec fn endpoint_config_of(p: EndpointPayload) -> Result<(EndpointKind, IpModel, u16, TransportProtocol), Seq<char>> {
    match endpoint_kind_of(p.kind@) {
        None => Err("unsupported endpoint kind: "@ + p.kind@),
        Some(k) => match ip_parse(p.address@) {
            None => Err("invalid endpoint address: "@ + p.address@),
            Some(m) => match protocol_of(p.protocol@) {
                None => Err("unsupported endpoint protocol: "@ + p.protocol@),
                Some(pr) => Ok((k, m, p.port, pr)),
            },
        },
    }
}

/// Whether an endpoint holds the given values.
pub open spec fn endpoint_is(e: Endpoint, v: (EndpointKind, IpModel, u16, TransportProtocol)) -> bool {
    e.kind == v.0 && ip_model(e.address) == v.1 && e.port == v.2 && e.protocol == v.3
}

/// Converts a payload endpoint for the backend.
pub fn endpoint_to_config(endpoint: &EndpointPayload) -> (out: Result<Endpoint, String>)
    ensures
        match endpoint_config_of(*endpoint) {
            Ok(v) => out matches Ok(e) && endpoint_is(e, v),
            Err(m) => out matches Err(e) && e@ == m,
        },
{
    let kind = match parse_endpoint_kind(endpoint.kind.as_str()) {
        Ok(k) => k,
        Err(e) => {
            return Err(e);
        },
    };
    let address = match parse_ip(endpoint.address.as_str()) {
        Some(a) => a,
        None => {
            return Err(concat2("invalid endpoint address: ", endpoint.address.as_str()));
        },
    };
    let protocol = match parse_transport_protocol(endpoint.protocol.as_str()) {
        Ok(p) => p,
        Err(e) => {
            return Err(e);
        },
    };
    Ok(Endpoint { kind, address, port: endpoint.port, protocol })
}

/// The message of the first endpoint that does not convert.
pub open spec fn first_endpoint_error(eps: Seq<EndpointPayload>) -> Option<Seq<char>>
    decreases eps.len(),
{
    if eps.len() == 0 {
        None
    } else {
        match first_endpoint_error(eps.drop_last()) {
            Some(m) => Some(m),
            None => match endpoint_config_of(eps.last()) {
                Err(m) => Some(m),
                Ok(_) => None,
            },
        }
    }
}

/// Why a peer does not convert: its overlay address, else its first bad endpoint.
pub open spec fn peer_error(peer: NetworkMapPeer) -> Option<Seq<char>> {
    if ipv4_parse(peer.ipv4@) is None {
        Some("invalid peer overlay IP: "@ + peer.ipv4@)
    } else {
        first_endpoint_error(peer.endpoints@)
    }
}

/// Whether a backend peer is the conversion of a network map peer.
pub open spec fn peer_config_is(peer: NetworkMapPeer, c: PeerConfig) -> bool {
    &&& c.device_id@ == peer.device_id@
    &&& c.hostname@ == peer.hostname@
    &&& ipv4_parse(peer.ipv4@) == Some(c.overlay_ip.0@)
    &&& c.public_credential.public@ == peer.backend_public_credential@
    &&& c.endpoints@.len() == peer.endpoints@.len()
    &&& forall|i: int| 0 <= i < c.endpoints@.len() ==> endpoint_config_of(#[trigger] peer.endpoints@[i]) is Ok
        && endpoint_is(c.endpoints@[i], endpoint_config_of(peer.endpoints@[i])->Ok_0)
    &&& texts(c.allowed_routes@) == texts(peer.allowed_routes@)
}

/// A copy of a list of strings.
pub fn clone_texts(v: &Vec<String>) -> (out: Vec<String>)
    ensures
        texts(out@) == texts(v@),
{
    let mut out: Vec<String> = Vec::new();
    let mut i: usize = 0;
    while i < v.len()
        invariant
            i <= v@.len(),
            out@.len() == i,
            forall|j: int| 0 <= j < i ==> #[trigger] out@[j]@ == v@[j]@,
        decreases v.len() - i,
    {
        out.push(v[i].clone());
        i = i + 1;
    }
    proof {
        assert(texts(out@) =~= texts(v@));
    }
    out
}

/// Converts a network map peer for the backend.
pub fn peer_to_config(peer: &NetworkMapPeer) -> (out: Result<PeerConfig, String>)
    ensures
        match peer_error(*peer) {
            Some(m) => out matches Err(e) && e@ == m,
            None => out matches Ok(c) && peer_config_is(*peer, c),
        },
{
    let overlay_ip = match parse_ipv4(peer.ipv4.as_str()) {
        Some(a) => a,
        None => {
            return Err(concat2("invalid peer overlay IP: ", peer.ipv4.as_str()));
        },
    };
    let mut endpoints: Vec<Endpoint> = Vec::new();
    let mut i: usize = 0;
    proof {
        assert(peer.endpoints@.take(0) =~= Seq::<EndpointPayload>::empty());
    }
    while i < peer.endpoints.len()
        invariant
            i <= peer.endpoints@.len(),
            ipv4_parse(peer.ipv4@) == Some(overlay_ip.0@),
            first_endpoint_error(peer.endpoints@.take(i as int)) is None,
            endpoints@.len() == i,
            forall|j: int| 0 <= j < i ==> endpoint_config_of(#[trigger] peer.endpoints@[j]) is Ok
                && endpoint_is(endpoints@[j], endpoint_config_of(peer.endpoints@[j])->Ok_0),
        decreases peer.endpoints.len() - i,
    {
        proof {
            assert(peer.endpoints@.take(i + 1).drop_last() =~= peer.endpoints@.take(i as int));
            assert(peer.endpoints@.take(i + 1).last() == peer.endpoints@[i as int]);
        }
        match endpoint_to_config(&peer.endpoints[i]) {
            Ok(e) => {
                endpoints.push(e);
            },
            Err(e) => {
                proof {
                    assert(first_endpoint_error(peer.endpoints@.take(i + 1)) == Some(e@));
                    lemma_first_endpoint_error_prefix(peer.endpoints@, i + 1);
                }
                return Err(e);
            },
        }
        i = i + 1;
    }
    proof {
        assert(peer.endpoints@.take(peer.endpoints@.len() as int) =~= peer.endpoints@);
    }
    Ok(
        PeerConfig {
            device_id: peer.device_id.clone(),
            hostname: peer.hostname.clone(),
            overlay_ip,
            public_credential: BackendCredential { public: peer.backend_public_credential.clone() },
            endpoints,
            allowed_routes: clone_texts(&peer.allowed_routes),
        },
    )
}

/// An error in a prefix is the first error of the whole.
proof fn lemma_first_endpoint_error_prefix(eps: Seq<EndpointPayload>, n: int)
    requires
        0 <= n <= eps.len(),
        first_endpoint_error(eps.take(n)) is Some,
    ensures
        first_endpoint_error(eps) == first_endpoint_error(eps.take(n)),
    decreases eps.len(),
{
    if n < eps.len() {
        assert(eps.drop_last().take(n) =~= eps.take(n));
        lemma_first_endpoint_error_prefix(eps.drop_last(), n);
    } else {
        assert(eps.take(n) =~= eps);
    }
}

/// Why a list of peers does not convert: the first peer that does not.
pub open spec fn first_peer_error(peers: Seq<NetworkMapPeer>) -> Option<Seq<char>>
    decreases peers.len(),
{
    if peers.len() == 0 {
        None
    } else {
        match first_peer_error(peers.drop_last()) {
            Some(m) => Some(m),
            None => peer_error(peers.last()),
        }
    }
}

proof fn lemma_first_peer_error_prefix(peers: Seq<NetworkMapPeer>, n: int)
    requires
        0 <= n <= peers.len(),
        first_peer_error(peers.take(n)) is Some,
    ensures
        first_peer_error(peers) == first_peer_error(peers.take(n)),
    decreases peers.len(),
{
    if n < peers.len() {
        assert(peers.drop_last().take(n) =~= peers.take(n));
        lemma_first_peer_error_prefix(peers.drop_last(), n);
    } else {
        assert(peers.take(n) =~= peers);
    }
}

/// Converts all network map peers, or reports the first that does not convert.
pub fn network_map_to_peer_configs(peers: &[NetworkMapPeer]) -> (out: Result<Vec<PeerConfig>, String>)
    ensures
        match first_peer_error(peers@) {
            Some(m) => out matches Err(e) && e@ == m,
            None => out matches Ok(v) && v@.len() == peers@.len() && forall|i: int|
                0 <= i < v@.len() ==> peer_config_is(#[trigger] peers@[i], v@[i]),
        },
{
    let mut configs: Vec<PeerConfig> = Vec::new();
    let mut i: usize = 0;
    proof {
        assert(peers@.take(0) =~= Seq::<NetworkMapPeer>::empty());
    }
    while i < peers.len()
        invariant
            i <= peers@.len(),
            first_peer_error(peers@.take(i as int)) is None,
            configs@.len() == i,
            forall|j: int| 0 <= j < i ==> peer_config_is(#[trigger] peers@[j], configs@[j]),
        decreases peers.len() - i,
    {
        proof {
            assert(peers@.take(i + 1).drop_last() =~= peers@.take(i as int));
            assert(peers@.take(i + 1).last() == peers@[i as int]);
        }
        match peer_to_config(&peers[i]) {
            Ok(c) => {
                configs.push(c);
            },
            Err(e) => {
                proof {
                    assert(first_peer_error(peers@.take(i + 1)) == Some(e@));
                    lemma_first_peer_error_prefix(peers@, i + 1);
                }
                return Err(e);
            },
        }
        i = i + 1;
    }
    proof {
        assert(peers@.take(peers@.len() as int) =~= peers@);
    }
    Ok(configs)
}

/// The healthy relays, in order.
pub open spec fn healthy_relays(relays: Seq<RelayMetadata>) -> Seq<RelayMetadata>
    decreases relays.len(),
{
    if relays.len() == 0 {
        Seq::empty()
    } else if relays.last().healthy {
        healthy_relays(relays.drop_last()).push(relays.last())
    } else {
        healthy_relays(relays.drop_last())
    }
}

/// Whether a backend relay carries the relay metadata's fields.
pub open spec fn relay_config_is(r: RelayMetadata, c: RelayConfig) -> bool {
    c.relay_id@ == r.relay_id@ && c.url@ == r.url@ && c.region@ == r.region@
}

/// The relays the backend may use: the healthy ones, in order.
pub fn network_map_to_relay_configs(relays: &[RelayMetadata]) -> (out: Vec<RelayConfig>)
    ensures
        out@.len() == healthy_relays(relays@).len(),
        forall|i: int| 0 <= i < out@.len() ==> relay_config_is(
            #[trigger] healthy_relays(relays@)[i],
            out@[i],
        ),
{
    let mut out: Vec<RelayConfig> = Vec::new();
    let mut i: usize = 0;
    proof {
        assert(relays@.take(0) =~= Seq::<RelayMetadata>::empty());
    }
    while i < relays.len()
        invariant
            i <= relays@.len(),
            out@.len() == healthy_relays(relays@.take(i as int)).len(),
            forall|j: int| 0 <= j < out@.len() ==> relay_config_is(
                #[trigger] healthy_relays(relays@.take(i as int))[j],
                out@[j],
            ),
        decreases relays.len() - i,
    {
        proof {
            assert(relays@.take(i + 1).drop_last() =~= relays@.take(i as int));
            assert(relays@.take(i + 1).last() == relays@[i as int]);
        }
        let r = &relays[i];
        if r.healthy {
            out.push(
                RelayConfig { relay_id: r.relay_id.clone(), url: r.url.clone(), region: r.region.clone() },
            );
        }
        i = i + 1;
    }
    proof {
        assert(relays@.take(relays@.len() as int) =~= relays@);
    }
    out
}

/// The device ID and node key the control plane expects, or what is missing.
pub fn device_credentials(state: &AgentState) -> (out: Result<(String, String), String>)
    ensures
        state.device_id is None ==> (out matches Err(e) && e@ == "agent state is missing device ID"@),
        state.device_id is Some && state.node_key is None ==> (out matches Err(e) && e@
            == "agent state is missing node key"@),
        state.device_id is Some && state.node_key is Some ==> (out matches Ok((d, n)) && d@
            == state.device_id->Some_0@ && n@ == state.node_key->Some_0@),
{
    let device_id = match &state.device_id {
        Some(d) => d.clone(),
        None => {
            return Err(owned("agent state is missing device ID"));
        },
    };
    let node_key = match &state.node_key {
        Some(n) => n.clone(),
        None => {
            return Err(owned("agent state is missing node key"));
        },
    };
    Ok((device_id, node_key))
}

/// The local interface settings for the agent's registration: the default
/// interface and port, its overlay address and device ID.
pub fn local_backend_config(state: &AgentState) -> (out: Result<LocalBackendConfig, String>)
    ensures
        state.ipv4 is None ==> (out matches Err(e) && e@ == "agent state is missing assigned overlay IP"@),
        state.ipv4 is Some && ipv4_parse(state.ipv4->Some_0@) is None ==> (out matches Err(e) && e@
            == "agent state contains invalid overlay IP"@),
        state.ipv4 is Some && ipv4_parse(state.ipv4->Some_0@) is Some && state.device_id is None ==> (
        out matches Err(e) && e@ == "agent state is missing device ID"@),
        state.ipv4 is Some && ipv4_parse(state.ipv4->Some_0@) is Some && state.device_id is Some ==> (
        out matches Ok(c) && c.device_id@ == state.device_id->Some_0@ && c.interface_name@
            == DEFAULT_INTERFACE_NAME@ && Some(c.overlay_ip.0@) == ipv4_parse(state.ipv4->Some_0@)
            && c.listen_port == DEFAULT_LISTEN_PORT),
{
    let text = match &state.ipv4 {
        Some(t) => t,
        None => {
            return Err(owned("agent state is missing assigned overlay IP"));
        },
    };
    let overlay_ip = match parse_ipv4(text.as_str()) {
        Some(a) => a,
        None => {
            return Err(owned("agent state contains invalid overlay IP"));
        },
    };
    let device_id = match &state.device_id {
        Some(d) => d.clone(),
        None => {
            return Err(owned("agent state is missing device ID"));
        },
    };
    Ok(
        LocalBackendConfig {
            device_id,
            interface_name: owned(DEFAULT_INTERFACE_NAME),
            overlay_ip,
            listen_port: DEFAULT_LISTEN_PORT,
        },
    )
}

/// Records a registration the control plane granted.
pub fn apply_registration(state: &mut AgentState, response: RegisterDeviceResponse)
    ensures
        opt_text(final(state).device_id) == Some(response.device_id@),
        opt_text(final(state).node_key) == Some(response.node_key@),
        opt_text(final(state).network_id) == Some(response.network_id@),
        opt_text(final(state).ipv4) == Some(response.ipv4@),
        final(state).poll_interval_seconds == response.poll_interval_seconds,
        final(state).machine_key == old(state).machine_key,
        final(state).backend_public_credential == old(state).backend_public_credential,
        final(state).dns_records == old(state).dns_records,
        final(state).dns_enabled == old(state).dns_enabled,
        final(state).dns_listen == old(state).dns_listen,
        final(state).dns_healthy == old(state).dns_healthy,
        final(state).dns_message == old(state).dns_message,
{
    state.device_id = Some(response.device_id);
    state.node_key = Some(response.node_key);
    state.network_id = Some(response.network_id);
    state.ipv4 = Some(response.ipv4);
    state.poll_interval_seconds = response.poll_interval_seconds;
}

/// Records how starting the MagicDNS listener went: listening, or the bind
/// error.
pub fn record_dns_listener(state: &mut AgentState, listen: String, bind_error: Option<String>)
    ensures
        final(state).dns_enabled,
        final(state).dns_listen@ == listen@,
        final(state).dns_healthy == bind_error is None,
        opt_text(final(state).dns_message) == Some(
            match bind_error {
                None => "DNS proxy listening"@,
                Some(e) => "DNS proxy failed to bind: "@ + e@,
            },
        ),
        final(state).machine_key == old(state).machine_key,
        final(state).backend_public_credential == old(state).backend_public_credential,
        final(state).device_id == old(state).device_id,
        final(state).node_key == old(state).node_key,
        final(state).network_id == old(state).network_id,
        final(state).ipv4 == old(state).ipv4,
        final(state).poll_interval_seconds == old(state).poll_interval_seconds,
        final(state).dns_records == old(state).dns_records,
{
    state.dns_enabled = true;
    state.dns_listen = listen;
    match bind_error {
        None => {
            state.dns_healthy = true;
            state.dns_message = Some(owned("DNS proxy listening"));
        },
        Some(e) => {
            state.dns_healthy = false;
            state.dns_message = Some(concat2("DNS proxy failed to bind: ", e.as_str()));
        },
    }
}

/// The nameserver and port of a DNS listen address; `127.0.0.1:1053` where
/// it does not parse.
pub fn dns_listen_parts(value: &str) -> (out: (String, u16))
    ensures
        match socket_addr_parse(value@) {
            Some((m, port)) => out.0@ == ip_text(m) && out.1 == port,
            None => out.0@ == "127.0.0.1"@ && out.1 == 1053,
        },
{
    match parse_socket_addr(value) {
        Some((ip, port)) => (format_ip(&ip), port),
        None => (owned("127.0.0.1"), 1053),
    }
}

/// The system resolver plan routing the mesh suffix to the agent's DNS
/// listener, for the operating system named `os`.
pub fn dns_resolver_plan(os: &str, state: &AgentState) -> (out: ResolverPlan)
    ensures
        platform_plan_is(
            os@,
            DEFAULT_DNS_SUFFIX@,
            match socket_addr_parse(state.dns_listen@) {
                Some((m, _)) => ip_text(m),
                None => "127.0.0.1"@,
            },
            match socket_addr_parse(state.dns_listen@) {
                Some((_, port)) => port,
                None => 1053u16,
            },
            out,
        ),
{
    let (nameserver, port) = dns_listen_parts(state.dns_listen.as_str());
    let config = ResolverConfig { suffix: owned(DEFAULT_DNS_SUFFIX), nameserver, port };
    current_platform_plan(os, &config)
}

/// Non-empty text, if there is any.
pub open spec fn nonempty(t: Option<Seq<char>>) -> Option<Seq<char>> {
    match t {
        Some(s) => if s.len() > 0 {
            Some(s)
        } else {
            None
        },
        None => None,
    }
}

/// The hostname the agent registers with: the `HOSTNAME` variable where set
/// and non-empty, else the trimmed output of the `hostname` command where it
/// is UTF-8 and not blank, else `tfscale-node`.
pub open spec fn chosen_hostname(env_value: Option<Seq<char>>, command_output: Option<Seq<u8>>) -> Seq<char> {
    if nonempty(env_value) is Some {
        env_value->Some_0
    } else if command_output is Some && vstd::utf8::valid_utf8(command_output->Some_0)
        && crate::text::trim(vstd::utf8::decode_utf8(command_output->Some_0)).len() > 0 {
        crate::text::trim(vstd::utf8::decode_utf8(command_output->Some_0))
    } else {
        "tfscale-node"@
    }
}

/// Chooses the hostname from the environment and the `hostname` command's output.
pub fn choose_hostname(env_value: Option<String>, command_output: Option<Vec<u8>>) -> (out: String)
    ensures
        out@ == chosen_hostname(
            opt_text(env_value),
            match command_output {
                Some(b) => Some(b@),
                None => None,
            },
        ),
{
    if let Some(v) = &env_value {
        if !v.as_str().is_empty() {
            return v.clone();
        }
    }
    if let Some(bytes) = &command_output {
        if let Ok(text) = crate::text::utf8_text(bytes.as_slice()) {
            let trimmed = crate::text::trim_chars(text.as_str());
            if trimmed.len() > 0 {
                return crate::text::string_from_chars(trimmed.as_slice());
            }
        }
    }
    owned("tfscale-node")
}

/// The public endpoint to announce after a probe: what the backend observed
/// through the probe server, where it observed one, else what the control
/// plane observed.
pub fn public_endpoint_from_probes(
    response: EndpointProbeResponse,
    backend_probe: Option<PublicEndpointProbe>,
) -> (out: Option<EndpointPayload>)
    ensures
        backend_probe matches Some(p) ==> (out matches Some(e) && payload_of(
            p.observed_endpoint,
            "stun"@,
            50,
            e,
        )),
        backend_probe is None ==> (out is None <==> response.observed_port == 0),
        backend_probe is None ==> (out matches Some(e) ==> e.kind@ == "public"@ && e.address@
            == response.observed_address@ && e.port == response.observed_port && e.protocol@
            == response.protocol@ && opt_text(e.source) == Some("stun"@) && e.priority == Some(50i32)
            && e.expires_at is None),
{
    match backend_probe {
        Some(p) => Some(endpoint_from_backend_probe(p.observed_endpoint)),
        None => endpoint_from_probe_response(response),
    }
}

/// The registration request for this agent.
pub fn registration_request(
    state: &AgentState,
    login_key: &str,
    hostname: &str,
    os: &str,
    arch: &str,
    client_version: &str,
) -> (out: RegisterDeviceRequest)
    ensures
        out.auth_key@ == login_key@,
        out.hostname@ == hostname@,
        out.machine_key@ == state.machine_key@,
        out.backend_type@ == "tfscale"@,
        out.backend_public_credential@ == state.backend_public_credential@,
        out.os@ == os@,
        out.arch@ == arch@,
        out.client_version@ == client_version@,
{
    RegisterDeviceRequest {
        auth_key: owned(login_key),
        hostname: owned(hostname),
        machine_key: state.machine_key.clone(),
        backend_type: owned("tfscale"),
        backend_public_credential: state.backend_public_credential.clone(),
        os: owned(os),
        arch: owned(arch),
        client_version: owned(client_version),
    }
}

/// The endpoint probe request: UDP, for this device.
pub fn endpoint_probe_request(device_id: &str, node_key: &str) -> (out: EndpointProbeRequest)
    ensures
        out.device_id@ == device_id@,
        out.node_key@ == node_key@,
        out.protocol@ == "udp"@,
{
    EndpointProbeRequest { device_id: owned(device_id), node_key: owned(node_key), protocol: owned("udp") }
}

/// The heartbeat: the device's credentials, its endpoints and the backend's health.
pub fn heartbeat_request(
    device_id: &str,
    node_key: &str,
    endpoints: Vec<EndpointPayload>,
    status: &BackendStatus,
) -> (out: HeartbeatRequest)
    ensures
        out.device_id@ == device_id@,
        out.node_key@ == node_key@,
        out.endpoints == endpoints,
        out.backend_status.backend_type@ == backend_type_name(status.backend_type),
        out.backend_status.interface@ == status.interface_name@,
        out.backend_status.healthy == status.healthy,
{
    HeartbeatRequest {
        device_id: owned(device_id),
        node_key: owned(node_key),
        endpoints,
        backend_status: BackendStatusPayload {
            backend_type: owned(status.backend_type.as_str()),
            interface: status.interface_name.clone(),
            healthy: status.healthy,
        },
    }
}

/// The DNS part of the status output.
#[derive(Clone, Debug)]
pub struct DnsStatusOutput {
    pub enabled: bool,
    pub listen: String,
    pub healthy: bool,
    pub records: usize,
    pub message: Option<String>,
    pub resolver: ResolverStatus,
}

/// The backend part of the status output.
#[derive(Clone, Debug)]
pub struct BackendStatusOutput {
    pub backend_type: String,
    pub interface_name: String,
    pub healthy: bool,
    pub message: Option<String>,
    pub peers: Vec<PeerPathDiagnostic>,
}

/// What `status --json` prints.
#[derive(Clone, Debug)]
pub struct AgentStatusOutput {
    pub device_id: Option<String>,
    pub network_id: Option<String>,
    pub ipv4: Option<String>,
    pub dns_records: Vec<DnsRecord>,
    pub dns: DnsStatusOutput,
    pub backend_public_credential_present: bool,
    pub backend: BackendStatusOutput,
}

impl AgentStatusOutput {
    /// The status output of a state, a backend status and a resolver status.
    pub fn from_state_and_status(
        state: AgentState,
        status: BackendStatus,
        resolver_status: ResolverStatus,
    ) -> (out: Self)
        ensures
            out.device_id == state.device_id,
            out.network_id == state.network_id,
            out.ipv4 == state.ipv4,
            out.dns_records == state.dns_records,
            out.dns.enabled == state.dns_enabled,
            out.dns.listen == state.dns_listen,
            out.dns.healthy == state.dns_healthy,
            out.dns.records == state.dns_records@.len(),
            out.dns.message == state.dns_message,
            out.dns.resolver == resolver_status,
            out.backend_public_credential_present == (state.backend_public_credential@.len() > 0),
            out.backend.backend_type@ == backend_type_name(status.backend_type),
            out.backend.interface_name == status.interface_name,
            out.backend.healthy == status.healthy,
            out.backend.message == status.message,
            out.backend.peers == status.peers,
    {
        let record_count = state.dns_records.len();
        let present = !state.backend_public_credential.as_str().is_empty();
        AgentStatusOutput {
            device_id: state.device_id,
            network_id: state.network_id,
            ipv4: state.ipv4,
            dns_records: state.dns_records,
            dns: DnsStatusOutput {
                enabled: state.dns_enabled,
                listen: state.dns_listen,
                healthy: state.dns_healthy,
                records: record_count,
                message: state.dns_message,
                resolver: resolver_status,
            },
            backend_public_credential_present: present,
            backend: BackendStatusOutput {
                backend_type: owned(status.backend_type.as_str()),
                interface_name: status.interface_name,
                healthy: status.healthy,
                message: status.message,
                peers: status.peers,
            },
        }
    }
}

/// The lines of one check in the doctor report: level, id and summary, then
/// the detail where there is one.
pub open spec fn check_lines(c: DoctorCheck) -> Seq<Seq<char>> {
    let first = crate::text::pad_right(doctor_level_label(c.level), 4) + " "@ + crate::text::pad_right(c.id@, 22) + " "@
        + c.summary@;
    match c.detail {
        Some(d) => seq![first, "     "@ + crate::text::pad_right(Seq::empty(), 22) + " "@ + d@],
        None => seq![first],
    }
}

/// The lines of the checks, in order.
pub open spec fn checks_lines(checks: Seq<DoctorCheck>) -> Seq<Seq<char>>
    decreases checks.len(),
{
    if checks.len() == 0 {
        Seq::empty()
    } else {
        checks_lines(checks.drop_last()) + check_lines(checks.last())
    }
}

/// The printed doctor report: the overall level, the checks, and the next
/// steps where there are any.
pub open spec fn report_lines(r: AgentDoctorReport) -> Seq<Seq<char>> {
    let steps = texts(r.next_steps@);
    seq!["tf-scale doctor overall="@ + doctor_level_label(r.overall), Seq::empty()] + checks_lines(r.checks@)
        + if steps.len() == 0 {
        Seq::empty()
    } else {
        seq![Seq::empty(), "Next:"@] + steps.map_values(|s: Seq<char>| "  "@ + s)
    }
}

/// The lines `doctor` prints for a report.
pub fn doctor_report_lines(report: &AgentDoctorReport) -> (out: Vec<String>)
    ensures
        texts(out@) == report_lines(*report),
{
    let mut out: Vec<String> = Vec::new();
    out.push(concat2("tf-scale doctor overall=", report.overall.label()));
    out.push(String::new());
    let ghost head = texts(out@);
    proof {
        assert(report.checks@.take(0) =~= Seq::<DoctorCheck>::empty());
        assert(texts(out@) =~= head + checks_lines(report.checks@.take(0)));
    }
    let mut i: usize = 0;
    while i < report.checks.len()
        invariant
            i <= report.checks@.len(),
            texts(out@) == head + checks_lines(report.checks@.take(i as int)),
        decreases report.checks.len() - i,
    {
        let c = &report.checks[i];
        let ghost before = texts(out@);
        let mut line = String::new();
        crate::text::push_padded(&mut line, c.level.label(), 4);
        push_str(&mut line, " ");
        crate::text::push_padded(&mut line, c.id.as_str(), 22);
        push_str(&mut line, " ");
        push_str(&mut line, c.summary.as_str());
        out.push(line);
        match &c.detail {
            Some(d) => {
                let mut second = owned("     ");
                crate::text::push_padded(&mut second, "", 22);
                push_str(&mut second, " ");
                push_str(&mut second, d.as_str());
                out.push(second);
            },
            None => {},
        }
        proof {
            reveal_strlit("");
            assert(report.checks@.take(i + 1).drop_last() =~= report.checks@.take(i as int));
            assert(report.checks@.take(i + 1).last() == *c);
            assert(texts(out@) =~= before + check_lines(*c));
        }
        i = i + 1;
    }
    proof {
        assert(report.checks@.take(report.checks@.len() as int) =~= report.checks@);
    }
    let ghost middle = texts(out@);
    if report.next_steps.len() > 0 {
        out.push(String::new());
        out.push(owned("Next:"));
        let ghost mark = texts(out@);
        proof {
            assert(mark =~= middle + seq![Seq::<char>::empty(), "Next:"@]);
        }
        let ghost steps = texts(report.next_steps@);
        proof {
            assert forall|j: int| 0 <= j < mark.len() implies #[trigger] out@[j]@ == mark[j] by {
                assert(texts(out@)[j] == out@[j]@);
            }
        }
        let mut k: usize = 0;
        while k < report.next_steps.len()
            invariant
                k <= report.next_steps@.len(),
                steps == texts(report.next_steps@),
                out@.len() == mark.len() + k,
                forall|j: int| 0 <= j < mark.len() ==> #[trigger] out@[j]@ == mark[j],
                forall|j: int| 0 <= j < k ==> #[trigger] out@[mark.len() + j]@ == "  "@ + steps[j],
            decreases report.next_steps.len() - k,
        {
            let line = concat2("  ", report.next_steps[k].as_str());
            proof {
                assert(steps[k as int] == report.next_steps@[k as int]@);
            }
            out.push(line);
            k = k + 1;
        }
        proof {
            let expected = mark + steps.map_values(|s: Seq<char>| "  "@ + s);
            assert forall|i: int| 0 <= i < texts(out@).len() implies #[trigger] texts(out@)[i] == expected[i] by {
                assert(texts(out@)[i] == out@[i]@);
                if i >= mark.len() {
                    let j = i - mark.len();
                    assert(out@[mark.len() + j]@ == "  "@ + steps[j]);
                }
            }
            assert(texts(out@) =~= expected);
            assert(texts(out@) =~= report_lines(*report));
        }
    } else {
        proof {
            assert(texts(out@) =~= report_lines(*report));
        }
    }
    out
}

} // verus!

verus! {

/// The backend check says how the backend is: it is the `backend.healthy`
/// check, it fails exactly when the backend reports itself unhealthy and
/// passes exactly when it reports itself healthy, and it suggests something
/// to do only when it fails.
pub proof fn lemma_backend_check_follows_health(status: BackendStatus, c: DoctorCheck)
    requires
        backend_check(status, c),
    ensures
        c.id@ == "backend.healthy"@,
        c.level == DoctorLevel::Fail <==> !status.healthy,
        c.level == DoctorLevel::Pass <==> status.healthy,
        c.suggestion is Some <==> !status.healthy,
{
}

} // verus!
