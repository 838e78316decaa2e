//! The direct-path probe round: which peers are due, the probe frames their
//! sessions seal for each of their UDP endpoints, and the path bookkeeping.
//! The frames are handed back for the transport to send.

use crate::backend::{
    StoredPeerSession, elapsed_at_least, expired_path, fresh_path, peer_path_probe_due, probe_interval, probe_payload,
    probe_payload_spec, probed_path, record_path_probe, PeerPathState,
};
use crate::crypto::{sealed_frame, PeerCryptoSession};
use crate::error::{command_failed, BackendError};
use crate::frame::FRAME_TYPE_PROBE;
use crate::net::Endpoint;
use crate::nonce::SendNonceState;
use crate::runtime::{
    entry_changed, find_session, last_session, lemma_last_session_bound, lemma_last_session_same_ids,
    lemma_path_index_bound, others_same, path_index, relay_path_endpoint, unique_keys,
    PeerTransportSession, RuntimeState,
};
use crate::transport::{sorted_udp, sorted_udp_endpoints};
use vstd::prelude::*;

verus! {

/// A session whose next send counter is `k`.
pub open spec fn with_counter(c: PeerCryptoSession, k: u64) -> PeerCryptoSession {
    PeerCryptoSession { send_nonces: SendNonceState { counter: k, ..c.send_nonces }, ..c }
}

/// The probes a session seals for a peer's endpoints, in order: probe `j`
/// carries the timestamp and the session's counter plus `j`.
pub open spec fn probe_frames(c: PeerCryptoSession, endpoints: Seq<Endpoint>, sent_at: u128) -> Seq<(Endpoint, Seq<u8>)> {
    Seq::new(
        endpoints.len(),
        |j: int|
            (
                endpoints[j],
                sealed_frame(
                    with_counter(c, (c.send_nonces.counter + j) as u64),
                    FRAME_TYPE_PROBE,
                    probe_payload_spec(sent_at),
                ),
            ),
    )
}

/// Frames to send, by value.
pub open spec fn frames_view(v: Seq<(Endpoint, Vec<u8>)>) -> Seq<(Endpoint, Seq<u8>)> {
    v.map_values(|f: (Endpoint, Vec<u8>)| (f.0, f.1@))
}

/// A device's path state, or a fresh one where it has none yet.
pub open spec fn current_path(t: Seq<(String, PeerPathState)>, device: Seq<char>) -> PeerPathState {
    match path_index(t, device) {
        Some(k) => t[k].1,
        None => fresh_path(),
    }
}

/// The path table with the device's entry set to `state`: in place where it
/// has one, else appended.
pub open spec fn entry_set(
    old: Seq<(String, PeerPathState)>,
    new: Seq<(String, PeerPathState)>,
    device: Seq<char>,
    state: PeerPathState,
) -> bool {
    match path_index(old, device) {
        Some(k) => entry_changed(old, new, k, state),
        None => new.len() == old.len() + 1 && new.drop_last() == old && new.last().0@ == device
            && new.last().1 == state,
    }
}

/// What probing one peer does. A peer that is due and has a session gets a
/// probe per endpoint, its session's counter advances by their number and
/// its path records the probe; where the counter would run out, the round
/// fails. Otherwise only the peer's path entry is made sure of.
pub open spec fn probe_peer_outcome(
    old: RuntimeState,
    new: RuntimeState,
    old_frames: Seq<(Endpoint, Seq<u8>)>,
    new_frames: Seq<(Endpoint, Seq<u8>)>,
    device: Seq<char>,
    endpoints: Seq<Endpoint>,
    now: u128,
    sent_at: u128,
    out: Result<(), BackendError>,
) -> bool {
    let st = current_path(old.path_states@, device);
    let due = elapsed_at_least(st.last_probe_at, now, probe_interval(st));
    match last_session(old.sessions@, device) {
        Some(si) if due => {
            let c = old.sessions@[si].crypto;
            if c.send_nonces.counter + endpoints.len() > u64::MAX {
                out matches Err(e) && command_failed(e, "send nonce counter exhausted"@)
            } else {
                &&& out is Ok
                &&& new_frames == old_frames + probe_frames(c, endpoints, sent_at)
                &&& new.sessions@ == old.sessions@.update(
                    si,
                    PeerTransportSession {
                        crypto: with_counter(c, (c.send_nonces.counter + endpoints.len()) as u64),
                        ..old.sessions@[si]
                    },
                )
                &&& entry_set(old.path_states@, new.path_states@, device, probed_path(st, now, sent_at))
            }
        },
        _ => {
            &&& out is Ok
            &&& new_frames == old_frames
            &&& new.sessions == old.sessions
            &&& entry_set(old.path_states@, new.path_states@, device, st)
        },
    }
}

/// The sessions with the same peers, ids, keys and windows; only the send
/// counters may differ.
pub open spec fn same_but_counters(old: Seq<PeerTransportSession>, new: Seq<PeerTransportSession>) -> bool {
    &&& new.len() == old.len()
    &&& forall|j: int|
        0 <= j < new.len() ==> #[trigger] new[j] == PeerTransportSession {
            crypto: with_counter(old[j].crypto, new[j].crypto.send_nonces.counter),
            ..old[j]
        }
}

/// Frame `f` is a probe stamped `sent_at` to a UDP endpoint of peer `i`,
/// sealed by that peer's session at send counter `k`.
pub open spec fn peer_probe_at(
    f: (Endpoint, Seq<u8>),
    peers: Seq<StoredPeerSession>,
    sessions: Seq<PeerTransportSession>,
    sent_at: u128,
    i: int,
    k: u64,
) -> bool {
    &&& 0 <= i < peers.len()
    &&& sorted_udp(peers[i].endpoints@).contains(f.0)
    &&& last_session(sessions, peers[i].device_id@) is Some
    &&& f.1 == sealed_frame(
        with_counter(sessions[last_session(sessions, peers[i].device_id@)->Some_0].crypto, k),
        FRAME_TYPE_PROBE,
        probe_payload_spec(sent_at),
    )
}

/// Frame `f` is a probe of one of the peers.
pub open spec fn is_peer_probe(
    f: (Endpoint, Seq<u8>),
    peers: Seq<StoredPeerSession>,
    sessions: Seq<PeerTransportSession>,
    sent_at: u128,
) -> bool {
    exists|i: int, k: u64| #[trigger] peer_probe_at(f, peers, sessions, sent_at, i, k)
}

/// The tables after the stale check that opens a probe round at `now`: every
/// path expired in place, the rest unchanged.
pub open spec fn expired_tables(old: RuntimeState, new: RuntimeState, now: u128) -> bool {
    &&& others_same(old, new)
    &&& new.sessions == old.sessions
    &&& new.path_states@.len() == old.path_states@.len()
    &&& forall|i: int|
        0 <= i < new.path_states@.len() ==> #[trigger] new.path_states@[i].0 == old.path_states@[i].0
            && new.path_states@[i].1 == expired_path(old.path_states@[i].1, now, relay_path_endpoint(old.relays@))
}

/// Step `p` of a probe round: peer `p` probed over its UDP endpoints in
/// probing order, taking the tables and frames at `p` to those at `p + 1`.
pub open spec fn round_step(
    chain: Seq<(RuntimeState, Seq<(Endpoint, Seq<u8>)>)>,
    peers: Seq<StoredPeerSession>,
    p: int,
    now: u128,
    sent_at: u128,
) -> bool {
    probe_peer_outcome(
        chain[p].0,
        chain[p + 1].0,
        chain[p].1,
        chain[p + 1].1,
        peers[p].device_id@,
        sorted_udp(peers[p].endpoints@),
        now,
        sent_at,
        Ok(()),
    )
}

/// Probing the device would run its session's send counter out: it is due and
/// has a session whose counter cannot advance by one per endpoint.
pub open spec fn probe_exhausts(s: RuntimeState, device: Seq<char>, endpoints: Seq<Endpoint>, now: u128) -> bool {
    let st = current_path(s.path_states@, device);
    &&& elapsed_at_least(st.last_probe_at, now, probe_interval(st))
    &&& last_session(s.sessions@, device) matches Some(si)
        && s.sessions@[si].crypto.send_nonces.counter + endpoints.len() > u64::MAX
}

/// The frames of a round's result, by value.
pub open spec fn round_result(out: Result<Vec<(Endpoint, Vec<u8>)>, BackendError>) -> Result<
    Seq<(Endpoint, Seq<u8>)>,
    BackendError,
> {
    match out {
        Ok(v) => Ok(frames_view(v@)),
        Err(e) => Err(e),
    }
}

/// A probe round from `start`, traced by `chain`: the stale check, then the
/// persisted peers in order, each step as probing one peer does. A round that
/// succeeds probed every peer and ends at `end` with `out`'s frames; one that
/// fails stopped at the first peer whose probes would run its session's send
/// counter out.
pub open spec fn probe_round(
    chain: Seq<(RuntimeState, Seq<(Endpoint, Seq<u8>)>)>,
    start: RuntimeState,
    end: RuntimeState,
    now: u128,
    sent_at: u128,
    out: Result<Seq<(Endpoint, Seq<u8>)>, BackendError>,
) -> bool {
    let peers = start.persisted.peers@;
    &&& 1 <= chain.len() <= peers.len() + 1
    &&& expired_tables(start, chain[0].0, now)
    &&& chain[0].1 == Seq::<(Endpoint, Seq<u8>)>::empty()
    &&& forall|p: int| 0 <= p < chain.len() - 1 ==> #[trigger] round_step(chain, peers, p, now, sent_at)
    &&& match out {
        Ok(frames) => chain.len() == peers.len() + 1 && chain.last().0 == end && chain.last().1 == frames,
        Err(e) => {
            &&& chain.len() <= peers.len()
            &&& probe_exhausts(
                chain.last().0,
                peers[chain.len() - 1].device_id@,
                sorted_udp(peers[chain.len() - 1].endpoints@),
                now,
            )
            &&& command_failed(e, "send nonce counter exhausted"@)
        },
    }
}

proof fn lemma_path_index_same_keys(a: Seq<(String, PeerPathState)>, b: Seq<(String, PeerPathState)>, d: Seq<char>)
    requires
        a.len() == b.len(),
        forall|j: int| 0 <= j < a.len() ==> #[trigger] a[j].0 == b[j].0,
    ensures
        path_index(a, d) == path_index(b, d),
    decreases a.len(),
{
    if a.len() > 0 {
        assert(a.last().0 == b.last().0);
        lemma_path_index_same_keys(a.drop_last(), b.drop_last(), d);
    }
}

proof fn lemma_entry_set_keeps_entries(
    old: Seq<(String, PeerPathState)>,
    new: Seq<(String, PeerPathState)>,
    device: Seq<char>,
    state: PeerPathState,
    other: Seq<char>,
)
    requires
        entry_set(old, new, device, state),
    ensures
        path_index(new, device) is Some,
        path_index(old, other) is Some ==> path_index(new, other) is Some,
{
    lemma_path_index_bound(old, device);
    match path_index(old, device) {
        Some(k) => {
            assert forall|j: int| 0 <= j < old.len() implies #[trigger] old[j].0 == new[j].0 by {
                if j != k {
                    assert(new[j] == old[j]);
                }
            }
            lemma_path_index_same_keys(old, new, device);
            lemma_path_index_same_keys(old, new, other);
        },
        None => {
            assert(new.drop_last() == old);
        },
    }
}

impl RuntimeState {
    /// Probes one peer over the given endpoints, appending the frames to send.
    pub fn probe_peer(
        &mut self,
        device_id: &str,
        endpoints: &Vec<Endpoint>,
        now: u128,
        sent_at: u128,
        frames: &mut Vec<(Endpoint, Vec<u8>)>,
    ) -> (out: Result<(), BackendError>)
        requires
            unique_keys(old(self).path_states@),
        ensures
            others_same(*old(self), *final(self)),
            unique_keys(final(self).path_states@),
            same_but_counters(old(self).sessions@, final(self).sessions@),
            probe_peer_outcome(
                *old(self),
                *final(self),
                frames_view(old(frames)@),
                frames_view(final(frames)@),
                device_id@,
                endpoints@,
                now,
                sent_at,
                out,
            ),
    {
        proof {
            lemma_path_index_bound(self.path_states@, device_id@);
        }
        let k = self.path_entry(device_id);
        let st = self.path_states[k].1;
        proof {
            assert(st == current_path(old(self).path_states@, device_id@));
        }
        if !peer_path_probe_due(&st, now) {
            return Ok(());
        }
        let si = match find_session(&self.sessions, device_id) {
            Some(si) => si,
            None => {
                return Ok(());
            },
        };
        proof {
            lemma_last_session_bound(self.sessions@, device_id@);
        }
        let payload = probe_payload(sent_at);
        let ghost c = self.sessions@[si as int].crypto;
        let ghost start = frames_view(frames@);
        let ghost sessions0 = self.sessions@;
        let ghost mid = *self;
        let mut j: usize = 0;
        proof {
            assert(with_counter(c, c.send_nonces.counter) == c);
            assert(frames_view(frames@) =~= start + probe_frames(c, endpoints@.take(0), sent_at));
        }
        while j < endpoints.len()
            invariant
                j <= endpoints@.len(),
                si < self.sessions@.len(),
                si < sessions0.len(),
                sessions0 == old(self).sessions@,
                c == sessions0[si as int].crypto,
                c.send_nonces.counter + j <= u64::MAX,
                others_same(*old(self), mid),
                others_same(mid, *self),
                self.path_states == mid.path_states,
                unique_keys(self.path_states@),
                st == current_path(old(self).path_states@, device_id@),
                elapsed_at_least(st.last_probe_at, now, probe_interval(st)),
                last_session(old(self).sessions@, device_id@) == Some(si as int),
                payload@ == probe_payload_spec(sent_at),
                payload@.len() <= 45,
                self.sessions@ == sessions0.update(
                    si as int,
                    PeerTransportSession { crypto: with_counter(c, (c.send_nonces.counter + j) as u64), ..sessions0[si as int] },
                ),
                frames_view(frames@) == start + probe_frames(c, endpoints@.take(j as int), sent_at),
            decreases endpoints.len() - j,
        {
            let ghost before = frames_view(frames@);
            let ghost cj = with_counter(c, (c.send_nonces.counter + j) as u64);
            assert(self.sessions@[si as int].crypto == cj);
            let frame = self.sessions[si].crypto.seal_message(payload.as_slice(), FRAME_TYPE_PROBE)?;
            assert(frame@ == sealed_frame(cj, FRAME_TYPE_PROBE, payload@));
            frames.push((endpoints[j], frame));
            proof {
                let cn = self.sessions@[si as int].crypto;
                assert(cn.send_nonces == SendNonceState { counter: (c.send_nonces.counter + j + 1) as u64, ..c.send_nonces });
                assert(cn == with_counter(c, (c.send_nonces.counter + j + 1) as u64));
                assert(frames_view(frames@) =~= before.push((endpoints@[j as int], sealed_frame(cj, FRAME_TYPE_PROBE, payload@))));
                assert(probe_frames(c, endpoints@.take(j + 1), sent_at) =~= probe_frames(c, endpoints@.take(j as int), sent_at).push(
                    (endpoints@[j as int], sealed_frame(cj, FRAME_TYPE_PROBE, probe_payload_spec(sent_at))),
                ));
                assert(self.sessions@ =~= sessions0.update(
                    si as int,
                    PeerTransportSession { crypto: with_counter(c, (c.send_nonces.counter + j + 1) as u64), ..sessions0[si as int] },
                ));
            }
            j = j + 1;
        }
        proof {
            assert(endpoints@.take(endpoints@.len() as int) =~= endpoints@);
        }
        let ghost before_record = self.path_states@;
        record_path_probe(&mut self.path_states[k].1, now, sent_at);
        proof {
            assert forall|a: int, b: int| 0 <= a < b < self.path_states@.len() implies #[trigger] self.path_states@[a].0@
                != #[trigger] self.path_states@[b].0@ by {
                assert(self.path_states@[a].0 == before_record[a].0);
                assert(self.path_states@[b].0 == before_record[b].0);
            }
            if path_index(old(self).path_states@, device_id@) is None {
                assert(self.path_states@.drop_last() =~= old(self).path_states@);
            }
        }
        Ok(())
    }
}

impl RuntimeState {
    /// A probe round: stale direct paths are expired first; then, where the
    /// UDP transport is bound, each persisted peer that is due and has a
    /// session is probed over its UDP endpoints in probing order. The frames
    /// to send are returned, in order.
    pub fn probe_peer_direct_paths(&mut self, transport_bound: bool, now: u128, sent_at: u128) -> (out: Result<
        Vec<(Endpoint, Vec<u8>)>,
        BackendError,
    >)
        requires
            unique_keys(old(self).path_states@),
        ensures
            others_same(*old(self), *final(self)),
            unique_keys(final(self).path_states@),
            same_but_counters(old(self).sessions@, final(self).sessions@),
            !transport_bound ==> (out matches Ok(v) && v@.len() == 0) && final(self).sessions == old(self).sessions
                && final(self).path_states@.len() == old(self).path_states@.len() && forall|i: int|
                0 <= i < final(self).path_states@.len() ==> #[trigger] final(self).path_states@[i].0
                == old(self).path_states@[i].0 && final(self).path_states@[i].1 == expired_path(
                old(self).path_states@[i].1,
                now,
                relay_path_endpoint(old(self).relays@),
            ),
            transport_bound && out is Ok ==> forall|i: int|
                0 <= i < old(self).persisted.peers@.len() ==> #[trigger] path_index(
                    final(self).path_states@,
                    old(self).persisted.peers@[i].device_id@,
                ) is Some,
            out matches Ok(v) ==> forall|j: int|
                0 <= j < v@.len() ==> is_peer_probe(
                    #[trigger] frames_view(v@)[j],
                    old(self).persisted.peers@,
                    old(self).sessions@,
                    sent_at,
                ),
            transport_bound ==> exists|chain: Seq<(RuntimeState, Seq<(Endpoint, Seq<u8>)>)>|
                #[trigger] probe_round(chain, *old(self), *final(self), now, sent_at, round_result(out)),
    {
        let ghost start = *self;
        self.expire_stale_direct_paths(now);
        proof {
            assert forall|a: int, b: int| 0 <= a < b < self.path_states@.len() implies #[trigger] self.path_states@[a].0@
                != #[trigger] self.path_states@[b].0@ by {
                assert(self.path_states@[a].0 == start.path_states@[a].0);
                assert(self.path_states@[b].0 == start.path_states@[b].0);
            }
            assert forall|j: int| 0 <= j < self.sessions@.len() implies #[trigger] self.sessions@[j] == PeerTransportSession {
                crypto: with_counter(start.sessions@[j].crypto, self.sessions@[j].crypto.send_nonces.counter),
                ..start.sessions@[j]
            } by {
                assert(with_counter(start.sessions@[j].crypto, start.sessions@[j].crypto.send_nonces.counter) == start.sessions@[j].crypto);
            }
        }
        let mut frames: Vec<(Endpoint, Vec<u8>)> = Vec::new();
        if !transport_bound {
            return Ok(frames);
        }
        let ghost peers = self.persisted.peers@;
        let ghost mut chain: Seq<(RuntimeState, Seq<(Endpoint, Seq<u8>)>)> = seq![(*self, frames_view(frames@))];
        proof {
            assert(frames_view(frames@) =~= Seq::<(Endpoint, Seq<u8>)>::empty());
        }
        let mut i: usize = 0;
        while i < self.persisted.peers.len()
            invariant
                i <= peers.len(),
                transport_bound,
                start == *old(self),
                peers == start.persisted.peers@,
                others_same(start, *self),
                unique_keys(self.path_states@),
                same_but_counters(start.sessions@, self.sessions@),
                forall|p: int| 0 <= p < i ==> #[trigger] path_index(self.path_states@, peers[p].device_id@) is Some,
                forall|j: int|
                    0 <= j < frames@.len() ==> is_peer_probe(#[trigger] frames_view(frames@)[j], peers, start.sessions@, sent_at),
                chain.len() == i + 1,
                chain.last().0 == *self,
                chain.last().1 == frames_view(frames@),
                expired_tables(start, chain[0].0, now),
                chain[0].1 == Seq::<(Endpoint, Seq<u8>)>::empty(),
                forall|p: int| 0 <= p < i ==> #[trigger] round_step(chain, peers, p, now, sent_at),
            decreases peers.len() - i,
        {
            let device_id = self.persisted.peers[i].device_id.clone();
            let endpoints = sorted_udp_endpoints(self.persisted.peers[i].endpoints.as_slice());
            let ghost before = *self;
            let ghost before_frames = frames_view(frames@);
            let probed = self.probe_peer(device_id.as_str(), &endpoints, now, sent_at, &mut frames);
            if let Err(e) = probed {
                proof {
                    assert(probe_round(chain, start, *self, now, sent_at, Err(e)));
                }
                return Err(e);
            }
            proof {
                let next = chain.push((*self, frames_view(frames@)));
                assert forall|p: int| 0 <= p < i + 1 implies #[trigger] round_step(next, peers, p, now, sent_at) by {
                    assert(next[p] == chain[p]);
                    if p < i {
                        assert(next[p + 1] == chain[p + 1]);
                        assert(round_step(chain, peers, p, now, sent_at));
                    }
                }
                chain = next;
            }
            proof {
                let d = peers[i as int].device_id@;
                assert(device_id@ == d);
                assert forall|p: int| 0 <= p < i + 1 implies #[trigger] path_index(self.path_states@, peers[p].device_id@) is Some by {
                    lemma_entry_set_keeps_entries(
                        before.path_states@,
                        self.path_states@,
                        d,
                        if last_session(before.sessions@, d) is Some && elapsed_at_least(
                            current_path(before.path_states@, d).last_probe_at,
                            now,
                            probe_interval(current_path(before.path_states@, d)),
                        ) {
                            probed_path(current_path(before.path_states@, d), now, sent_at)
                        } else {
                            current_path(before.path_states@, d)
                        },
                        peers[p].device_id@,
                    );
                }
                assert forall|a: int| 0 <= a < before.sessions@.len() implies #[trigger] before.sessions@[a].device_id
                    == start.sessions@[a].device_id by {
                    assert(before.sessions@[a] == PeerTransportSession {
                        crypto: with_counter(start.sessions@[a].crypto, before.sessions@[a].crypto.send_nonces.counter),
                        ..start.sessions@[a]
                    });
                }
                lemma_last_session_same_ids(before.sessions@, start.sessions@, d);
                lemma_last_session_bound(before.sessions@, d);
                match last_session(before.sessions@, d) {
                    Some(si) => {
                        let c = before.sessions@[si].crypto;
                        let c0 = start.sessions@[si].crypto;
                        assert(before.sessions@[si] == PeerTransportSession {
                            crypto: with_counter(c0, c.send_nonces.counter),
                            ..start.sessions@[si]
                        });
                        assert forall|j: int| 0 <= j < self.sessions@.len() implies #[trigger] self.sessions@[j]
                            == PeerTransportSession {
                            crypto: with_counter(start.sessions@[j].crypto, self.sessions@[j].crypto.send_nonces.counter),
                            ..start.sessions@[j]
                        } by {
                            assert(before.sessions@[j] == PeerTransportSession {
                                crypto: with_counter(start.sessions@[j].crypto, before.sessions@[j].crypto.send_nonces.counter),
                                ..start.sessions@[j]
                            });
                        }
                        let st = current_path(before.path_states@, d);
                        if elapsed_at_least(st.last_probe_at, now, probe_interval(st)) {
                            assert(frames_view(frames@) == before_frames + probe_frames(c, endpoints@, sent_at));
                        } else {
                            assert(frames_view(frames@) == before_frames);
                        }
                        assert forall|j: int| 0 <= j < frames@.len() implies is_peer_probe(
                            #[trigger] frames_view(frames@)[j],
                            peers,
                            start.sessions@,
                            sent_at,
                        ) by {
                            if j >= before_frames.len() {
                                let q = j - before_frames.len();
                                let k = (c.send_nonces.counter + q) as u64;
                                let f = frames_view(frames@)[j];
                                assert(f == probe_frames(c, endpoints@, sent_at)[q]);
                                assert(with_counter(c, k) == with_counter(c0, k));
                                assert(endpoints@[q] == f.0);
                                assert(sorted_udp(peers[i as int].endpoints@).contains(f.0));
                                assert(peer_probe_at(f, peers, start.sessions@, sent_at, i as int, k));
                            } else {
                                assert(frames_view(frames@)[j] == before_frames[j]);
                            }
                        }
                    },
                    None => {
                        assert forall|j: int| 0 <= j < frames@.len() implies is_peer_probe(
                            #[trigger] frames_view(frames@)[j],
                            peers,
                            start.sessions@,
                            sent_at,
                        ) by {
                            assert(frames_view(frames@)[j] == before_frames[j]);
                        }
                    },
                }
            }
            i = i + 1;
        }
        proof {
            assert(probe_round(chain, start, *self, now, sent_at, round_result(Ok::<Vec<(Endpoint, Vec<u8>)>, BackendError>(frames))));
        }
        Ok(frames)
    }
}

} // verus!
