//! The relay's routing rules: which devices are registered, where a frame
//! goes, what a session answers, and the routed and dropped counters.

use crate::protocol::RelayMessage;
use crate::text::{concat2, owned, str_eq};
use vstd::prelude::*;

verus! {

/// The relay's sessions and counters.
pub struct RelayState {
    pub sessions: Vec<String>,
    pub routed_frames: u64,
    pub dropped_frames: u64,
}

/// The registered device ids.
pub open spec fn session_texts(s: Seq<String>) -> Seq<Seq<char>> {
    s.map_values(|d: String| d@)
}

/// Each device registered once.
pub open spec fn sessions_unique(s: Seq<String>) -> bool {
    forall|i: int, j: int| 0 <= i < j < s.len() ==> #[trigger] s[i]@ != #[trigger] s[j]@
}

/// What the relay does with a frame: deliver it to its registered
/// destination, or drop it.
pub enum RouteDecision {
    NotAFrame,
    Deliver(String),
    Drop,
}

/// What a registered session does with a message from its device.
pub enum SessionAction {
    /// Route the frame.
    Route(RelayMessage),
    /// Answer the device.
    Reply(RelayMessage),
    /// Nothing.
    Ignore,
}

impl RelayState {
    pub open spec fn well_formed(&self) -> bool {
        sessions_unique(self.sessions@)
    }

    /// No sessions, no frames routed or dropped.
    pub fn new() -> (out: Self)
        ensures
            out.well_formed(),
            out.sessions@.len() == 0,
            out.routed_frames == 0,
            out.dropped_frames == 0,
    {
        RelayState { sessions: Vec::new(), routed_frames: 0, dropped_frames: 0 }
    }

    fn position(&self, device_id: &str) -> (out: Option<usize>)
        ensures
            out matches Some(k) ==> k < self.sessions@.len() && self.sessions@[k as int]@ == device_id@,
            out is None ==> !session_texts(self.sessions@).contains(device_id@),
    {
        let mut i: usize = 0;
        while i < self.sessions.len()
            invariant
                i <= self.sessions@.len(),
                forall|j: int| 0 <= j < i ==> self.sessions@[j]@ != device_id@,
            decreases self.sessions.len() - i,
        {
            if str_eq(self.sessions[i].as_str(), device_id) {
                return Some(i);
            }
            i = i + 1;
        }
        proof {
            if session_texts(self.sessions@).contains(device_id@) {
                let j = choose|j: int| 0 <= j < session_texts(self.sessions@).len() && session_texts(self.sessions@)[j] == device_id@;
                assert(self.sessions@[j]@ == device_id@);
            }
        }
        None
    }

    /// Whether a device has a session.
    pub fn is_registered(&self, device_id: &str) -> (out: bool)
        ensures
            out == session_texts(self.sessions@).contains(device_id@),
    {
        match self.position(device_id) {
            Some(k) => {
                proof {
                    assert(session_texts(self.sessions@)[k as int] == device_id@);
                }
                true
            },
            None => false,
        }
    }

    /// Whether each device is registered once.
    pub fn is_well_formed(&self) -> (out: bool)
        ensures
            out == self.well_formed(),
    {
        let mut i: usize = 0;
        while i < self.sessions.len()
            invariant
                i <= self.sessions@.len(),
                forall|a: int, b: int| 0 <= a < i && a < b < self.sessions@.len() ==> #[trigger] self.sessions@[a]@
                    != #[trigger] self.sessions@[b]@,
            decreases self.sessions.len() - i,
        {
            let mut j: usize = i + 1;
            while j < self.sessions.len()
                invariant
                    i < self.sessions@.len(),
                    i + 1 <= j <= self.sessions@.len(),
                    forall|a: int, b: int| 0 <= a < i && a < b < self.sessions@.len() ==> #[trigger] self.sessions@[a]@
                        != #[trigger] self.sessions@[b]@,
                    forall|b: int| i < b < j ==> self.sessions@[i as int]@ != #[trigger] self.sessions@[b]@,
                decreases self.sessions.len() - j,
            {
                if str_eq(self.sessions[i].as_str(), self.sessions[j].as_str()) {
                    return false;
                }
                j = j + 1;
            }
            i = i + 1;
        }
        true
    }

    /// Registers a device's session; says whether it replaced one.
    pub fn register(&mut self, device_id: String) -> (replaced: bool)
        requires
            old(self).well_formed(),
        ensures
            final(self).well_formed(),
            replaced == session_texts(old(self).sessions@).contains(device_id@),
            session_texts(final(self).sessions@).to_set() == session_texts(old(self).sessions@).to_set().insert(
                device_id@,
            ),
            final(self).routed_frames == old(self).routed_frames,
            final(self).dropped_frames == old(self).dropped_frames,
    {
        match self.position(device_id.as_str()) {
            Some(k) => {
                proof {
                    assert(session_texts(self.sessions@)[k as int] == device_id@);
                    assert(session_texts(self.sessions@).to_set() =~= session_texts(self.sessions@).to_set().insert(
                        device_id@,
                    ));
                }
                true
            },
            None => {
                let ghost before = self.sessions@;
                self.sessions.push(device_id);
                proof {
                    assert(session_texts(self.sessions@) =~= session_texts(before).push(self.sessions@.last()@));
                    session_texts(before).lemma_push_to_set_commute(self.sessions@.last()@);
                    assert(session_texts(self.sessions@).to_set() =~= session_texts(before).to_set().insert(
                        self.sessions@.last()@,
                    ));
                    assert forall|i: int, j: int| 0 <= i < j < self.sessions@.len() implies #[trigger] self.sessions@[i]@
                        != #[trigger] self.sessions@[j]@ by {
                        if j == before.len() {
                            assert(session_texts(before)[i] == before[i]@);
                        }
                    }
                }
                false
            },
        }
    }

    /// Ends a device's session.
    pub fn unregister(&mut self, device_id: &str)
        requires
            old(self).well_formed(),
        ensures
            final(self).well_formed(),
            session_texts(final(self).sessions@).to_set() == session_texts(old(self).sessions@).to_set().remove(
                device_id@,
            ),
            final(self).routed_frames == old(self).routed_frames,
            final(self).dropped_frames == old(self).dropped_frames,
    {
        match self.position(device_id) {
            Some(k) => {
                let ghost before = self.sessions@;
                self.sessions.remove(k);
                proof {
                    assert(self.sessions@ =~= before.remove(k as int));
                    assert forall|i: int, j: int| 0 <= i < j < self.sessions@.len() implies #[trigger] self.sessions@[i]@
                        != #[trigger] self.sessions@[j]@ by {
                        let a = if i < k { i } else { i + 1 };
                        let b = if j < k { j } else { j + 1 };
                        assert(self.sessions@[i] == before[a] && self.sessions@[j] == before[b]);
                    }
                    assert forall|x: Seq<char>| session_texts(self.sessions@).to_set().contains(x) == session_texts(
                        before,
                    ).to_set().remove(device_id@).contains(x) by {
                        if session_texts(self.sessions@).contains(x) {
                            let i = choose|i: int| 0 <= i < session_texts(self.sessions@).len() && session_texts(self.sessions@)[i] == x;
                            let a = if i < k { i } else { i + 1 };
                            assert(session_texts(before)[a] == x);
                            assert(a != k);
                        }
                        if session_texts(before).contains(x) && x != device_id@ {
                            let a = choose|a: int| 0 <= a < session_texts(before).len() && session_texts(before)[a] == x;
                            assert(a != k);
                            let i = if a < k { a } else { a - 1 };
                            assert(session_texts(self.sessions@)[i] == x);
                        }
                    }
                    assert(session_texts(self.sessions@).to_set() =~= session_texts(before).to_set().remove(device_id@));
                }
            },
            None => {
                proof {
                    assert(session_texts(self.sessions@).to_set() =~= session_texts(self.sessions@).to_set().remove(
                        device_id@,
                    ));
                }
            },
        }
    }

    /// Where a message goes: frames to their registered destination, else
    /// dropped; other messages are not routed.
    pub fn route_decision(&self, message: &RelayMessage) -> (out: RouteDecision)
        ensures
            match message {
                RelayMessage::Frame { destination_device_id, .. } => if session_texts(self.sessions@).contains(
                    destination_device_id@,
                ) {
                    out matches RouteDecision::Deliver(d) && d@ == destination_device_id@
                } else {
                    out is Drop
                },
                _ => out is NotAFrame,
            },
    {
        match message {
            RelayMessage::Frame { destination_device_id, .. } => {
                if self.is_registered(destination_device_id.as_str()) {
                    RouteDecision::Deliver(destination_device_id.clone())
                } else {
                    RouteDecision::Drop
                }
            },
            _ => RouteDecision::NotAFrame,
        }
    }

    /// Counts a frame as routed or dropped.
    pub fn record_route(&mut self, delivered: bool)
        ensures
            final(self).sessions == old(self).sessions,
            delivered ==> final(self).routed_frames == old(self).routed_frames.wrapping_add(1)
                && final(self).dropped_frames == old(self).dropped_frames,
            !delivered ==> final(self).dropped_frames == old(self).dropped_frames.wrapping_add(1)
                && final(self).routed_frames == old(self).routed_frames,
    {
        if delivered {
            self.routed_frames = self.routed_frames.wrapping_add(1);
        } else {
            self.dropped_frames = self.dropped_frames.wrapping_add(1);
        }
    }
}

/// The error the relay answers with.
pub open spec fn is_error(m: RelayMessage, text: Seq<char>) -> bool {
    m matches RelayMessage::Error { message } && message@ == text
}

/// A session's first message: the device it registers, or the error to
/// answer before closing.
pub fn first_message(message: RelayMessage) -> (out: Result<String, RelayMessage>)
    ensures
        match message {
            RelayMessage::Register { device_id, .. } => out matches Ok(d) && d@ == device_id@,
            _ => out matches Err(m) && is_error(m, "first relay message must be register"@),
        },
{
    match message {
        RelayMessage::Register { device_id, .. } => Ok(device_id),
        _ => Err(RelayMessage::Error { message: owned("first relay message must be register") }),
    }
}

/// What a registered session does with a later message: frames are routed,
/// a second registration is refused, errors are ignored.
pub fn session_message(message: RelayMessage) -> (out: SessionAction)
    ensures
        match message {
            RelayMessage::Frame { source_device_id, destination_device_id, payload } => out matches SessionAction::Route(
                RelayMessage::Frame { source_device_id: s, destination_device_id: d, payload: p },
            ) && s@ == source_device_id@ && d@ == destination_device_id@ && p@ == payload@,
            RelayMessage::Register { .. } => out matches SessionAction::Reply(m) && is_error(
                m,
                "session is already registered"@,
            ),
            RelayMessage::Error { .. } => out is Ignore,
        },
{
    match message {
        RelayMessage::Frame { source_device_id, destination_device_id, payload } => SessionAction::Route(
            RelayMessage::Frame { source_device_id, destination_device_id, payload },
        ),
        RelayMessage::Register { .. } => SessionAction::Reply(
            RelayMessage::Error { message: owned("session is already registered") },
        ),
        RelayMessage::Error { .. } => SessionAction::Ignore,
    }
}

/// The answer to a frame that could not be delivered.
pub fn undelivered_reply(destination_device_id: &str) -> (out: RelayMessage)
    ensures
        is_error(out, "unknown destination device: "@ + destination_device_id@),
{
    RelayMessage::Error { message: concat2("unknown destination device: ", destination_device_id) }
}

/// Once a device's session is ended it is no longer registered, so
/// `route_decision` drops the frames addressed to it.
pub proof fn lemma_unregistered_destination_drops(before: RelayState, after: RelayState, device: Seq<char>)
    requires
        session_texts(after.sessions@).to_set() == session_texts(before.sessions@).to_set().remove(device),
    ensures
        !session_texts(after.sessions@).contains(device),
{
    if session_texts(after.sessions@).contains(device) {
        assert(session_texts(after.sessions@).to_set().contains(device));
    }
}

} // verus!
