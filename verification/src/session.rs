//! One run of the engine, as the polling loop drives it: on every tick the
//! last known state goes to the dispatch manager again, and whatever the
//! device delivered since is decoded and normalized.

use vstd::prelude::*;
use crate::dispatch::inverted;
use crate::dispatch::normalized;
use crate::dispatch::Event;
use crate::dispatch::Manager;
use crate::dispatch::ManagerState;
use crate::dispatch::State;
use crate::dispatch::Z_CENTER;
use crate::raw_input::button_flags;
use crate::raw_input::report_bytes;
use crate::raw_input::report_count;
use crate::raw_input::Packet;
use crate::raw_input::PACKET_LENGTH;

verus! {

impl State {
    /// Whether the state is what the bytes of one report read as against the
    /// zero point `zero` of X and Y.
    pub open spec fn reads(&self, zero: (u8, u8), bytes: Seq<u8>) -> bool {
        &&& self.buttons@ == button_flags(bytes[3], bytes[4])
        &&& self.x_axis == normalized(bytes[0], zero.0)
        &&& self.y_axis == inverted(bytes[1], zero.1)
        &&& self.z_axis == inverted(bytes[2], Z_CENTER)
    }
}

/// What a session is at one moment.
pub struct SessionState {
    pub manager: ManagerState,
    /// The zero point of X and Y: the readings of the first report of the
    /// run.
    pub zero: Option<(u8, u8)>,
    /// The state that the latest report gave.
    pub latest: Option<State>,
}

impl SessionState {
    /// The events of a tick: those of a step to the last known state.
    pub open spec fn tick_events(self) -> Seq<Event> {
        match self.latest {
            Some(s) => self.manager.events(s),
            None => Seq::empty(),
        }
    }

    /// The session after a tick.
    pub open spec fn ticked(self) -> SessionState {
        match self.latest {
            Some(s) => SessionState { manager: self.manager.stepped(s), ..self },
            None => self,
        }
    }

    /// The zero point after the device delivered `data`: an earlier one
    /// stays; otherwise the first report in `data` sets it.
    pub open spec fn zero_after(self, data: Seq<u8>) -> Option<(u8, u8)> {
        if self.zero is Some || report_count(data.len() as int) == 0 {
            self.zero
        } else {
            Some((data[0], data[1]))
        }
    }

    /// Whether `next` is the session after the device delivered `data`: only
    /// whole reports count, the last of them gives the state, and none of
    /// them reaches the manager before the next tick.
    pub open spec fn receives(self, data: Seq<u8>, next: SessionState) -> bool {
        &&& next.manager == self.manager
        &&& next.zero == self.zero_after(data)
        &&& if report_count(data.len() as int) == 0 {
            next.latest == self.latest
        } else {
            &&& next.zero is Some
            &&& next.latest is Some
            &&& next.latest->0.reads(
                next.zero->0,
                report_bytes(data, report_count(data.len() as int) - 1),
            )
        }
    }
}

/// The pause between two ticks, in milliseconds. It is short on purpose:
/// the device queues its reports, and a poll that comes late finds them
/// piled up.
pub const POLL_DELAY_MS: u64 = 3;

/// A run of the engine.
pub struct Session {
    manager: Manager,
    zero: Option<[u8; 2]>,
    latest: Option<State>,
}

impl View for Session {
    type V = SessionState;

    closed spec fn view(&self) -> SessionState {
        SessionState {
            manager: self.manager@,
            zero: match self.zero {
                Some(z) => Some((z[0], z[1])),
                None => None,
            },
            latest: self.latest,
        }
    }
}

impl Session {
    /// A run that has seen no report yet.
    pub fn new(manager: Manager) -> (r: Self)
        ensures
            r@ == (SessionState { manager: manager@, zero: None, latest: None }),
    {
        Session { manager, zero: None, latest: None }
    }

    /// The zero point of X and Y, once the first report has set it.
    pub fn zero(&self) -> (r: Option<[u8; 2]>)
        ensures
            r is Some <==> self@.zero is Some,
            r matches Some(z) ==> self@.zero == Some((z[0], z[1])),
    {
        self.zero
    }

    /// The state that the latest report gave.
    pub fn latest(&self) -> (r: Option<State>)
        ensures
            r == self@.latest,
    {
        self.latest
    }

    /// One tick of the polling loop: the last known state goes to the
    /// manager, whether or not a report arrived since the tick before.
    /// Before the first report there is nothing to submit.
    pub fn tick(&mut self) -> (events: Vec<Event>)
        ensures
            events@ == old(self)@.tick_events(),
            final(self)@ == old(self)@.ticked(),
    {
        match self.latest {
            Some(s) => self.manager.step(s),
            None => Vec::new(),
        }
    }

    /// Takes what one read of the device delivered: no report, one, or many
    /// back to back. The first report of the run sets the zero point for
    /// good. Bytes after the last whole report are dropped.
    pub fn receive(&mut self, data: &[u8])
        ensures
            old(self)@.receives(data@, final(self)@),
    {
        let len: usize = data.len();
        let count: usize = len / PACKET_LENGTH;
        let mut i: usize = 0;
        let mut start: usize = 0;
        while i < count
            invariant
                i <= count,
                count == report_count(data@.len() as int),
                start == 5 * i,
                5 * count <= len == data@.len(),
                self.manager == old(self).manager,
                i == 0 ==> *self == *old(self),
                i > 0 ==> {
                    &&& self@.zero == old(self)@.zero_after(data@)
                    &&& self@.zero is Some
                    &&& self.latest is Some
                    &&& self.latest->0.reads(self@.zero->0, report_bytes(data@, i as int - 1))
                },
            decreases count - i,
        {
            let end: usize = start + PACKET_LENGTH;
            let report = &data[start..end];
            if let Ok(p) = Packet::parse(report) {
                let zero: [u8; 2] = match self.zero {
                    Some(z) => z,
                    None => [p.x_axis, p.y_axis],
                };
                self.zero = Some(zero);
                self.latest = Some(State::from_packet(zero, p));
            }
            i += 1;
            start += PACKET_LENGTH;
        }
    }
}

/// The zero point is set once: whatever the device delivers after the first
/// report, the zero point stays what that report made it.
pub proof fn lemma_zero_point_is_permanent(s: SessionState, data: Seq<u8>, next: SessionState)
    requires
        s.zero is Some,
        s.receives(data, next),
    ensures
        next.zero == s.zero,
{
}

/// Until the first report there is nothing to act on: a tick brings no
/// event and changes nothing. And the tick after the first report brings
/// none either, since the manager has nothing to compare it with.
pub proof fn lemma_session_starts_silent(s: SessionState)
    requires
        s.manager.previous is None,
    ensures
        s.tick_events() == Seq::<Event>::empty(),
        s.latest is None ==> s.ticked() == s,
{
}

} // verus!
