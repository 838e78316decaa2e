//! Send-side nonce generation and the receive-side replay window.
//!
//! A 24-byte nonce is an 8-byte direction prefix, an 8-byte session salt and
//! a big-endian 64-bit counter.

use crate::error::{command_failed, failed, BackendError};
use crate::frame::NONCE_LEN;
use vstd::prelude::*;

verus! {

broadcast use vstd::array::group_array_axioms;

pub const DIRECTION_PREFIX_LEN: usize = 8;

pub const SESSION_SALT_LEN: usize = 8;

pub const COUNTER_LEN: usize = 8;

pub const REPLAY_WINDOW_BITS: u64 = 64;

/// The eight big-endian bytes of a counter.
pub open spec fn counter_bytes(c: u64) -> Seq<u8> {
    seq![
        (c >> 56u64) as u8,
        (c >> 48u64) as u8,
        (c >> 40u64) as u8,
        (c >> 32u64) as u8,
        (c >> 24u64) as u8,
        (c >> 16u64) as u8,
        (c >> 8u64) as u8,
        c as u8,
    ]
}

/// The counter that eight big-endian bytes hold.
pub open spec fn counter_value(b0: u8, b1: u8, b2: u8, b3: u8, b4: u8, b5: u8, b6: u8, b7: u8) -> u64 {
    (b0 as u64) << 56u64 | (b1 as u64) << 48u64 | (b2 as u64) << 40u64 | (b3 as u64) << 32u64 | (
    b4 as u64) << 24u64 | (b5 as u64) << 16u64 | (b6 as u64) << 8u64 | (b7 as u64)
}

/// The counter carried in the last eight bytes of a nonce.
pub open spec fn counter_of(nonce: Seq<u8>) -> u64 {
    counter_value(
        nonce[16],
        nonce[17],
        nonce[18],
        nonce[19],
        nonce[20],
        nonce[21],
        nonce[22],
        nonce[23],
    )
}

/// The nonce built from a prefix, a salt and a counter.
pub open spec fn nonce_bytes(prefix: Seq<u8>, salt: Seq<u8>, c: u64) -> Seq<u8> {
    prefix + salt + counter_bytes(c)
}

/// Reading the counter back from its bytes gives the counter.
pub proof fn lemma_counter_roundtrip(c: u64)
    ensures
        counter_value(
            (c >> 56u64) as u8,
            (c >> 48u64) as u8,
            (c >> 40u64) as u8,
            (c >> 32u64) as u8,
            (c >> 24u64) as u8,
            (c >> 16u64) as u8,
            (c >> 8u64) as u8,
            c as u8,
        ) == c,
{
    assert(((((c >> 56u64) as u8) as u64) << 56u64 | (((c >> 48u64) as u8) as u64) << 48u64 | (((c
        >> 40u64) as u8) as u64) << 40u64 | (((c >> 32u64) as u8) as u64) << 32u64 | (((c
        >> 24u64) as u8) as u64) << 24u64 | (((c >> 16u64) as u8) as u64) << 16u64 | (((c
        >> 8u64) as u8) as u64) << 8u64 | ((c as u8) as u64)) == c) by (bit_vector);
}

/// The counter of the nonce built from `c` is `c`.
pub proof fn lemma_counter_of_nonce(prefix: Seq<u8>, salt: Seq<u8>, c: u64)
    requires
        prefix.len() == DIRECTION_PREFIX_LEN,
        salt.len() == SESSION_SALT_LEN,
    ensures
        nonce_bytes(prefix, salt, c).len() == NONCE_LEN,
        counter_of(nonce_bytes(prefix, salt, c)) == c,
{
    let n = nonce_bytes(prefix, salt, c);
    let b = counter_bytes(c);
    assert(n[16] == b[0] && n[17] == b[1] && n[18] == b[2] && n[19] == b[3]);
    assert(n[20] == b[4] && n[21] == b[5] && n[22] == b[6] && n[23] == b[7]);
    lemma_counter_roundtrip(c);
}

/// The sending half of a session: each nonce carries the next counter.
#[derive(Clone, Debug, PartialEq, Eq)]
pub struct SendNonceState {
    pub direction_prefix: [u8; DIRECTION_PREFIX_LEN],
    pub session_salt: [u8; SESSION_SALT_LEN],
    pub counter: u64,
}

impl SendNonceState {
    /// A fresh sender with a random session salt.
    pub fn new(direction_prefix: [u8; DIRECTION_PREFIX_LEN]) -> (out: Result<Self, BackendError>)
        ensures
            out matches Ok(s) ==> s.direction_prefix == direction_prefix && s.counter == 0,
            out matches Err(e) ==> e is CommandFailed,
    {
        match crate::bytes::random_bytes::<SESSION_SALT_LEN>() {
            Ok(session_salt) => Ok(SendNonceState { direction_prefix, session_salt, counter: 0 }),
            Err(msg) => Err(BackendError::CommandFailed(msg)),
        }
    }

    pub fn with_salt(
        direction_prefix: [u8; DIRECTION_PREFIX_LEN],
        session_salt: [u8; SESSION_SALT_LEN],
    ) -> (s: Self)
        ensures
            s.direction_prefix == direction_prefix,
            s.session_salt == session_salt,
            s.counter == 0,
    {
        SendNonceState { direction_prefix, session_salt, counter: 0 }
    }

    /// The next nonce; refuses once the counter has reached `u64::MAX`.
    pub fn next(&mut self) -> (out: Result<[u8; NONCE_LEN], BackendError>)
        ensures
            final(self).direction_prefix == old(self).direction_prefix,
            final(self).session_salt == old(self).session_salt,
            old(self).counter == u64::MAX ==> (out matches Err(e) && command_failed(e, "send nonce counter exhausted"@)
                && *final(self) == *old(self)),
            old(self).counter < u64::MAX ==> (out matches Ok(nonce) && nonce@ == nonce_bytes(
                old(self).direction_prefix@,
                old(self).session_salt@,
                old(self).counter,
            ) && final(self).counter == old(self).counter + 1),
            next_step(
                *old(self),
                *final(self),
                match out {
                    Ok(nonce) => Some(nonce@),
                    Err(_) => None,
                },
            ),
    {
        if self.counter == u64::MAX {
            return Err(failed("send nonce counter exhausted"));
        }
        let c = self.counter;
        let mut nonce = [0u8; NONCE_LEN];
        let mut i: usize = 0;
        while i < DIRECTION_PREFIX_LEN
            invariant
                i <= DIRECTION_PREFIX_LEN,
                nonce@.len() == NONCE_LEN,
                forall|j: int| 0 <= j < i ==> nonce@[j] == self.direction_prefix@[j],
                forall|j: int| 0 <= j < i ==> nonce@[8 + j] == self.session_salt@[j],
            decreases DIRECTION_PREFIX_LEN - i,
        {
            nonce.set(i, self.direction_prefix[i]);
            nonce.set(8 + i, self.session_salt[i]);
            i = i + 1;
        }
        nonce.set(16, (c >> 56u64) as u8);
        nonce.set(17, (c >> 48u64) as u8);
        nonce.set(18, (c >> 40u64) as u8);
        nonce.set(19, (c >> 32u64) as u8);
        nonce.set(20, (c >> 24u64) as u8);
        nonce.set(21, (c >> 16u64) as u8);
        nonce.set(22, (c >> 8u64) as u8);
        nonce.set(23, c as u8);
        proof {
            assert(nonce@ =~= nonce_bytes(self.direction_prefix@, self.session_salt@, c));
        }
        self.counter = c + 1;
        Ok(nonce)
    }
}

/// One call of `next`: from state `s` to state `t`, handing out the nonce
/// `out`, or nothing once the counter is exhausted.
pub open spec fn next_step(s: SendNonceState, t: SendNonceState, out: Option<Seq<u8>>) -> bool {
    if s.counter == u64::MAX {
        out is None && t == s
    } else {
        &&& out == Some(nonce_bytes(s.direction_prefix@, s.session_salt@, s.counter))
        &&& t == SendNonceState { counter: (s.counter + 1) as u64, ..s }
    }
}

/// Call `k` of a run of `next` calls: `states[k]` to `states[k + 1]`, handing
/// out `outs[k]`.
pub open spec fn run_step(states: Seq<SendNonceState>, outs: Seq<Option<Seq<u8>>>, k: int) -> bool {
    next_step(states[k], states[k + 1], outs[k])
}

proof fn lemma_run_keeps_key(states: Seq<SendNonceState>, outs: Seq<Option<Seq<u8>>>, i: int, j: int)
    requires
        states.len() == outs.len() + 1,
        forall|k: int| 0 <= k < outs.len() ==> #[trigger] run_step(states, outs, k),
        0 <= i <= j < states.len(),
    ensures
        states[j].counter >= states[i].counter,
        states[j].direction_prefix == states[i].direction_prefix,
        states[j].session_salt == states[i].session_salt,
        states[i].counter == u64::MAX ==> states[j] == states[i],
    decreases j - i,
{
    if i < j {
        lemma_run_keeps_key(states, outs, i, j - 1);
        assert(run_step(states, outs, j - 1));
    }
}

/// One sending state never hands out the same nonce twice: over a run of
/// `next` calls, every nonce handed out carries a higher counter than each
/// one before it, and once a call is refused every later call is refused.
pub proof fn lemma_nonces_never_repeat(
    states: Seq<SendNonceState>,
    outs: Seq<Option<Seq<u8>>>,
    i: int,
    j: int,
)
    requires
        states.len() == outs.len() + 1,
        forall|k: int| 0 <= k < outs.len() ==> #[trigger] run_step(states, outs, k),
        0 <= i < j < outs.len(),
    ensures
        outs[i] is Some && outs[j] is Some ==> outs[i]->Some_0 != outs[j]->Some_0 && counter_of(outs[i]->Some_0)
            < counter_of(outs[j]->Some_0),
        outs[i] is None ==> outs[j] is None,
{
    assert(run_step(states, outs, i));
    assert(run_step(states, outs, j));
    lemma_run_keeps_key(states, outs, i + 1, j);
    lemma_run_keeps_key(states, outs, i, j);
    let si = states[i];
    let sj = states[j];
    if outs[i] is Some && outs[j] is Some {
        lemma_counter_of_nonce(si.direction_prefix@, si.session_salt@, si.counter);
        lemma_counter_of_nonce(sj.direction_prefix@, sj.session_salt@, sj.counter);
    }
}

/// The counter of a nonce (its last eight bytes, big-endian).
pub fn nonce_counter(nonce: &[u8; NONCE_LEN]) -> (c: u64)
    ensures
        c == counter_of(nonce@),
{
    (nonce[16] as u64) << 56u64 | (nonce[17] as u64) << 48u64 | (nonce[18] as u64) << 40u64 | (
    nonce[19] as u64) << 32u64 | (nonce[20] as u64) << 24u64 | (nonce[21] as u64) << 16u64 | (
    nonce[22] as u64) << 8u64 | (nonce[23] as u64)
}

/// The receiving half of a session: the highest counter seen and a bitmap of
/// the 64 counters at and below it (bit `k` stands for `highest - k`).
#[derive(Clone, Debug, Default, PartialEq, Eq)]
pub struct ReplayWindow {
    pub highest: Option<u64>,
    pub seen: u64,
}

/// The outcome of offering `counter` to window `w`: the next window, or the
/// error detail.
pub open spec fn accept_spec(w: ReplayWindow, counter: u64) -> Result<ReplayWindow, Seq<char>> {
    match w.highest {
        None => Ok(ReplayWindow { highest: Some(counter), seen: 1 }),
        Some(highest) => if counter > highest {
            let shift = (counter - highest) as u64;
            Ok(
                ReplayWindow {
                    highest: Some(counter),
                    seen: if shift >= REPLAY_WINDOW_BITS {
                        1
                    } else {
                        (w.seen << shift) | 1
                    },
                },
            )
        } else {
            let behind = (highest - counter) as u64;
            if behind >= REPLAY_WINDOW_BITS {
                Err("stale frame nonce"@)
            } else if w.seen & (1u64 << behind) != 0 {
                Err("replayed frame nonce"@)
            } else {
                Ok(ReplayWindow { highest: w.highest, seen: w.seen | (1u64 << behind) })
            }
        },
    }
}

/// Window `w` refuses counter `c`: it is at or below the highest counter and
/// either too old or already marked.
pub open spec fn window_refuses(w: ReplayWindow, c: u64) -> bool {
    match w.highest {
        None => false,
        Some(h) => c <= h && ((h - c) >= REPLAY_WINDOW_BITS || (w.seen >> ((h - c) as u64)) & 1u64
            == 1u64),
    }
}

impl ReplayWindow {
    /// Accepts a nonce whose counter was not seen before and is not too old.
    pub fn accept(&mut self, nonce: &[u8; NONCE_LEN]) -> (out: Result<(), BackendError>)
        ensures
            match accept_spec(*old(self), counter_of(nonce@)) {
                Ok(next) => out is Ok && *final(self) == next,
                Err(msg) => out matches Err(e) && command_failed(e, msg) && *final(self) == *old(
                    self,
                ),
            },
    {
        let counter = nonce_counter(nonce);
        match self.highest {
            None => {
                self.highest = Some(counter);
                self.seen = 1;
                Ok(())
            },
            Some(highest) => {
                if counter > highest {
                    let shift = counter - highest;
                    if shift >= REPLAY_WINDOW_BITS {
                        self.seen = 1;
                    } else {
                        self.seen = (self.seen << shift) | 1;
                    }
                    self.highest = Some(counter);
                    Ok(())
                } else {
                    let behind = highest - counter;
                    if behind >= REPLAY_WINDOW_BITS {
                        return Err(failed("stale frame nonce"));
                    }
                    let bit = 1u64 << behind;
                    if self.seen & bit != 0 {
                        return Err(failed("replayed frame nonce"));
                    }
                    self.seen = self.seen | bit;
                    Ok(())
                }
            },
        }
    }
}

proof fn lemma_bit_set_or(x: u64, k: u64)
    requires
        k < 64,
    ensures
        ((x | (1u64 << k)) >> k) & 1u64 == 1u64,
        x & (1u64 << k) != 0 <==> (x >> k) & 1u64 == 1u64,
        forall|j: u64| j < 64 && j != k ==> #[trigger] (((x | (1u64 << k)) >> j) & 1u64) == (x >> j)
            & 1u64,
{
    assert(((x | (1u64 << k)) >> k) & 1u64 == 1u64) by (bit_vector)
        requires
            k < 64,
    ;
    assert(x & (1u64 << k) != 0 <==> (x >> k) & 1u64 == 1u64) by (bit_vector)
        requires
            k < 64,
    ;
    assert forall|j: u64| j < 64 && j != k implies #[trigger] (((x | (1u64 << k)) >> j) & 1u64) == (x
        >> j) & 1u64 by {
        assert((((x | (1u64 << k)) >> j) & 1u64) == (x >> j) & 1u64) by (bit_vector)
            requires
                j < 64,
                k < 64,
                j != k,
        ;
    }
}

proof fn lemma_bit_shift(x: u64, s: u64)
    requires
        0 < s < 64,
    ensures
        (((x << s) | 1u64) >> 0u64) & 1u64 == 1u64,
        forall|j: u64|
            s <= j < 64 ==> #[trigger] ((((x << s) | 1u64) >> j) & 1u64) == (x >> ((j - s) as u64))
                & 1u64,
{
    assert((((x << s) | 1u64) >> 0u64) & 1u64 == 1u64) by (bit_vector);
    assert forall|j: u64| s <= j < 64 implies #[trigger] ((((x << s) | 1u64) >> j) & 1u64) == (x >> ((
    j - s) as u64)) & 1u64 by {
        assert(((((x << s) | 1u64) >> j) & 1u64) == (x >> ((j - s) as u64)) & 1u64) by (bit_vector)
            requires
                0 < s,
                s <= j,
                j < 64,
        ;
    }
}

/// The window every session starts with: nothing seen.
pub open spec fn empty_window() -> ReplayWindow {
    ReplayWindow { highest: None, seen: 0 }
}

/// The window after the counters `offers` were offered in turn to an empty
/// window; a refused offer leaves it as it was.
pub open spec fn window_after(offers: Seq<u64>) -> ReplayWindow
    decreases offers.len(),
{
    if offers.len() == 0 {
        empty_window()
    } else {
        let w = window_after(offers.drop_last());
        match accept_spec(w, offers.last()) {
            Ok(next) => next,
            Err(_) => w,
        }
    }
}

/// The counters accepted along `offers`, in order.
pub open spec fn accepted(offers: Seq<u64>) -> Seq<u64>
    decreases offers.len(),
{
    if offers.len() == 0 {
        Seq::empty()
    } else {
        let before = accepted(offers.drop_last());
        if accept_spec(window_after(offers.drop_last()), offers.last()) is Ok {
            before.push(offers.last())
        } else {
            before
        }
    }
}

/// The largest of some counters; 0 where there are none.
pub open spec fn max_counter(cs: Seq<u64>) -> u64
    decreases cs.len(),
{
    if cs.len() == 0 {
        0
    } else {
        let m = max_counter(cs.drop_last());
        if cs.last() > m {
            cs.last()
        } else {
            m
        }
    }
}

/// Window `w` records exactly the accepted counters `h`: its highest counter
/// is their largest, and bit `k` is set just where `highest - k` was accepted.
spec fn window_tracks(w: ReplayWindow, h: Seq<u64>) -> bool {
    &&& (w.highest is None <==> h.len() == 0)
    &&& h.len() > 0 ==> w.highest == Some(max_counter(h))
    &&& forall|a: u64| h.contains(a) ==> a <= max_counter(h)
    &&& h.len() > 0 ==> forall|k: u64|
        k < 64 ==> (#[trigger] ((w.seen >> k) & 1u64) == 1u64 <==> (k <= max_counter(h) && h.contains(
            (max_counter(h) - k) as u64,
        )))
}

proof fn lemma_one_bit(k: u64)
    requires
        k < 64,
    ensures
        ((1u64 >> k) & 1u64) == 1u64 <==> k == 0,
{
    assert(((1u64 >> k) & 1u64) == 1u64 <==> k == 0) by (bit_vector)
        requires
            k < 64,
    ;
}

proof fn lemma_shift_clears_low_bits(x: u64, s: u64, k: u64)
    requires
        0 < k < s,
        s < 64,
    ensures
        ((((x << s) | 1u64) >> k) & 1u64) == 0u64,
{
    assert(((((x << s) | 1u64) >> k) & 1u64) == 0u64) by (bit_vector)
        requires
            0 < k < s,
            s < 64,
    ;
}

proof fn lemma_max_counter_push(cs: Seq<u64>, c: u64)
    ensures
        max_counter(cs.push(c)) == if c > max_counter(cs) { c } else { max_counter(cs) },
        cs.push(c).drop_last() == cs,
{
    assert(cs.push(c).drop_last() =~= cs);
}

proof fn lemma_max_counter_bounds(cs: Seq<u64>)
    ensures
        forall|a: u64| cs.contains(a) ==> a <= max_counter(cs),
        cs.len() > 0 ==> cs.contains(max_counter(cs)),
    decreases cs.len(),
{
    if cs.len() > 0 {
        let init = cs.drop_last();
        lemma_max_counter_bounds(init);
        let m0 = max_counter(init);
        assert(max_counter(cs) == if cs.last() > m0 { cs.last() } else { m0 });
        assert forall|a: u64| cs.contains(a) implies a <= max_counter(cs) by {
            let i = choose|i: int| 0 <= i < cs.len() && cs[i] == a;
            if i < cs.len() - 1 {
                assert(init[i] == a);
                assert(init.contains(a));
            } else {
                assert(a == cs.last());
            }
        }
        if cs.last() > m0 || init.len() == 0 {
            assert(cs[cs.len() - 1] == cs.last());
        } else {
            let j = choose|j: int| 0 <= j < init.len() && init[j] == m0;
            assert(cs[j] == m0);
        }
    }
}

proof fn lemma_window_tracks(offers: Seq<u64>)
    ensures
        window_tracks(window_after(offers), accepted(offers)),
    decreases offers.len(),
{
    if offers.len() > 0 {
        let prev = offers.drop_last();
        let c = offers.last();
        lemma_window_tracks(prev);
        let w = window_after(prev);
        let h = accepted(prev);
        lemma_max_counter_bounds(h);
        match accept_spec(w, c) {
            Err(_) => {},
            Ok(next) => {
                let h2 = h.push(c);
                lemma_max_counter_push(h, c);
                lemma_max_counter_bounds(h2);
                assert(accepted(offers) == h2);
                assert(window_after(offers) == next);
                assert forall|a: u64| h2.contains(a) implies a == c || h.contains(a) by {
                    let i = choose|i: int| 0 <= i < h2.len() && h2[i] == a;
                    if i < h.len() {
                        assert(h[i] == a);
                    }
                }
                assert(h2.contains(c)) by {
                    assert(h2[h.len() as int] == c);
                }
                assert forall|a: u64| h.contains(a) implies h2.contains(a) by {
                    let i = choose|i: int| 0 <= i < h.len() && h[i] == a;
                    assert(h2[i] == a);
                }
                let m2 = max_counter(h2);
                match w.highest {
                    None => {
                        assert(h.len() == 0);
                        assert forall|k: u64| k < 64 implies (#[trigger] ((next.seen >> k) & 1u64) == 1u64 <==> (k
                            <= m2 && h2.contains((m2 - k) as u64))) by {
                            lemma_one_bit(k);
                        }
                    },
                    Some(hi) => {
                        let m = max_counter(h);
                        assert(hi == m);
                        if c > hi {
                            let sh = (c - hi) as u64;
                            assert(m2 == c);
                            if sh >= REPLAY_WINDOW_BITS {
                                assert forall|k: u64| k < 64 implies (#[trigger] ((next.seen >> k) & 1u64) == 1u64
                                    <==> (k <= m2 && h2.contains((m2 - k) as u64))) by {
                                    lemma_one_bit(k);
                                    if k > 0 && k <= m2 && h2.contains((m2 - k) as u64) {
                                        assert(h.contains((m2 - k) as u64));
                                    }
                                }
                            } else {
                                lemma_bit_shift(w.seen, sh);
                                assert forall|k: u64| k < 64 implies (#[trigger] ((next.seen >> k) & 1u64) == 1u64
                                    <==> (k <= m2 && h2.contains((m2 - k) as u64))) by {
                                    if k == 0 {
                                    } else if k < sh {
                                        lemma_shift_clears_low_bits(w.seen, sh, k);
                                        if k <= m2 && h2.contains((m2 - k) as u64) {
                                            assert(h.contains((m2 - k) as u64));
                                        }
                                    } else {
                                        let k0 = (k - sh) as u64;
                                        assert(((next.seen >> k) & 1u64) == (w.seen >> k0) & 1u64);
                                        assert(((w.seen >> k0) & 1u64) == 1u64 <==> (k0 <= m && h.contains(
                                            (m - k0) as u64,
                                        )));
                                        assert((m - k0) as u64 == (m2 - k) as u64);
                                    }
                                }
                            }
                        } else {
                            let b = (hi - c) as u64;
                            assert(m2 == m);
                            lemma_bit_set_or(w.seen, b);
                            assert forall|k: u64| k < 64 implies (#[trigger] ((next.seen >> k) & 1u64) == 1u64
                                <==> (k <= m2 && h2.contains((m2 - k) as u64))) by {
                                if k != b {
                                    assert((((w.seen | (1u64 << b)) >> k) & 1u64) == (w.seen >> k) & 1u64);
                                    assert(((w.seen >> k) & 1u64) == 1u64 <==> (k <= m && h.contains((m - k) as u64)));
                                }
                            }
                        }
                    },
                }
            },
        }
    }
}

/// The replay window over a whole history: after any counters were offered
/// to a session's empty window, a counter is accepted exactly when nothing
/// was accepted yet, or it is above the largest accepted counter, or it is
/// within 64 below it and was not accepted before. A refusal reads "stale
/// frame nonce" when the counter is 64 or more below the largest, else
/// "replayed frame nonce".
pub proof fn lemma_replay_history(offers: Seq<u64>, c: u64)
    ensures
        ({
            let h = accepted(offers);
            let m = max_counter(h);
            &&& accept_spec(window_after(offers), c) is Ok <==> (h.len() == 0 || c > m || (m - c < 64
                && !h.contains(c)))
            &&& accept_spec(window_after(offers), c) matches Err(msg) ==> msg == if m - c >= 64 {
                "stale frame nonce"@
            } else {
                "replayed frame nonce"@
            }
        }),
{
    lemma_window_tracks(offers);
    let w = window_after(offers);
    let h = accepted(offers);
    let m = max_counter(h);
    if h.len() > 0 && c <= m && m - c < 64 {
        let b = (m - c) as u64;
        lemma_bit_set_or(w.seen, b);
        assert(((w.seen >> b) & 1u64) == 1u64 <==> (b <= m && h.contains((m - b) as u64)));
        assert((m - b) as u64 == c);
    }
}

/// Once a window refuses a counter, every later accepted nonce keeps it
/// refused; and a counter that was just accepted is refused from then on.
pub proof fn lemma_accept_keeps_refusals(w: ReplayWindow, c: u64, d: u64)
    requires
        accept_spec(w, c) is Ok,
    ensures
        window_refuses(accept_spec(w, c)->Ok_0, c),
        window_refuses(w, d) ==> window_refuses(accept_spec(w, c)->Ok_0, d),
{
    let next = accept_spec(w, c)->Ok_0;
    match w.highest {
        None => {
            assert((1u64 >> 0u64) & 1u64 == 1u64) by (bit_vector);
        },
        Some(h) => {
            if c > h {
                let s = (c - h) as u64;
                if s >= REPLAY_WINDOW_BITS {
                    assert((1u64 >> 0u64) & 1u64 == 1u64) by (bit_vector);
                } else {
                    lemma_bit_shift(w.seen, s);
                    if window_refuses(w, d) {
                        if (h - d) < REPLAY_WINDOW_BITS {
                            let j = (c - d) as u64;
                            if j < 64 {
                                assert(((((w.seen << s) | 1u64) >> j) & 1u64) == (w.seen >> ((j
                                    - s) as u64)) & 1u64);
                                assert((j - s) as u64 == (h - d) as u64);
                            }
                        }
                    }
                }
            } else {
                let b = (h - c) as u64;
                lemma_bit_set_or(w.seen, b);
                if window_refuses(w, d) && (h - d) < REPLAY_WINDOW_BITS {
                    let j = (h - d) as u64;
                    if j != b {
                        assert((((w.seen | (1u64 << b)) >> j) & 1u64) == (w.seen >> j) & 1u64);
                    }
                }
            }
        },
    }
}

/// A refused counter makes `accept` fail and leaves the window unchanged.
pub proof fn lemma_refused_is_rejected(w: ReplayWindow, c: u64)
    requires
        window_refuses(w, c),
    ensures
        accept_spec(w, c) is Err,
{
    let h = w.highest->Some_0;
    if h - c < REPLAY_WINDOW_BITS {
        lemma_bit_set_or(w.seen, (h - c) as u64);
    }
}

/// A counter above the highest one seen is always accepted.
pub proof fn lemma_newer_counter_accepted(w: ReplayWindow, c: u64)
    requires
        w.highest matches Some(h) ==> c > h,
    ensures
        accept_spec(w, c) is Ok,
{
}

} // verus!
