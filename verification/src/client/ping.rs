//! Measuring the round trip to the server.

use crate::binary32::Binary32;
use crate::client::timer::{Timer, TimerMode};
use crate::world::ClientToServer;
use std::collections::HashMap;
use vstd::prelude::*;

verus! {

broadcast use vstd::std_specs::hash::group_hash_axioms;

/// How long the client waits between two pings: one second.
pub const PING_PERIOD: u64 = 1_000_000_000;

/// The clock that pings are numbered by, in milliseconds.
#[derive(Debug, Clone, Copy, PartialEq, Eq, Structural)]
pub enum PingClock {
    /// The system's clock, if it stands after the epoch.
    System(Option<u64>),
    /// The clock of a browser.
    Browser(u64),
}

/// The pings that have not been answered, each with the instant at which it
/// was sent.
pub struct PingTracker<I> {
    pub last_id: u64,
    pub in_flight: HashMap<u64, I>,
    pub rtt_ms: Binary32,
    pub timer: Option<Timer>,
}

/// What a tracker is, with its table as a map.
#[verifier::reject_recursive_types(I)]
#[verifier::ext_equal]
pub ghost struct PingView<I> {
    pub last_id: u64,
    pub in_flight: Map<u64, I>,
    pub rtt_ms: Binary32,
    pub timer: Option<Timer>,
}

impl<I> View for PingTracker<I> {
    type V = PingView<I>;

    open spec fn view(&self) -> PingView<I> {
        PingView {
            last_id: self.last_id,
            in_flight: self.in_flight@,
            rtt_ms: self.rtt_ms,
            timer: self.timer,
        }
    }
}

impl PingClock {
    /// The number of the next ping: the time, or the number after the last one
    /// where there is no time, or in a browser where time has not moved on.
    pub open spec fn id_after(self, last_id: u64) -> u64 {
        let following = if last_id == u64::MAX {
            0
        } else {
            (last_id + 1) as u64
        };
        match self {
            PingClock::System(Some(time)) => time,
            PingClock::System(None) => following,
            PingClock::Browser(time) => if time < following {
                following
            } else {
                time
            },
        }
    }

    pub fn next_id(self, last_id: u64) -> (id: u64)
        ensures
            id == self.id_after(last_id),
    {
        let following: u64 = last_id.wrapping_add(1);
        match self {
            PingClock::System(Some(time)) => time,
            PingClock::System(None) => following,
            PingClock::Browser(time) => if time < following {
                following
            } else {
                time
            },
        }
    }

    /// In a browser two pings never share a number, short of the last one
    /// there is.
    pub proof fn browser_ids_increase(time: u64, last_id: u64)
        requires
            last_id < u64::MAX,
        ensures
            PingClock::Browser(time).id_after(last_id) > last_id,
    {
    }
}

impl<I> PingView<I> {
    /// A tracker that has sent nothing yet.
    pub open spec fn unused() -> PingView<I> {
        PingView {
            last_id: 0,
            in_flight: Map::empty(),
            rtt_ms: Binary32 { bits: 0 },
            timer: None,
        }
    }

    /// The timer of the pings after a frame.
    pub open spec fn next_timer(self, delta: u64) -> Timer {
        match self.timer {
            Some(timer) => timer.ticked(delta),
            None => Timer::fresh(PING_PERIOD, TimerMode::Repeating).ticked(delta),
        }
    }

    /// The tracker after a ping was sent.
    pub open spec fn sent(self, id: u64, now: I) -> PingView<I> {
        PingView { last_id: id, in_flight: self.in_flight.insert(id, now), ..self }
    }

    /// The tracker after a ping was answered: the answer to a ping that is not
    /// in flight changes nothing.
    pub open spec fn answered(self, id: u64, rtt_ms: Binary32) -> PingView<I> {
        if self.in_flight.contains_key(id) {
            PingView { in_flight: self.in_flight.remove(id), rtt_ms, ..self }
        } else {
            self
        }
    }

    /// A second answer to the same ping changes nothing.
    pub proof fn one_answer_counts(self, id: u64, first: Binary32, second: Binary32)
        ensures
            self.answered(id, first).answered(id, second) == self.answered(id, first),
    {
    }

    /// An answer takes back what sending had put in flight.
    pub proof fn an_answer_ends_the_flight(self, id: u64, now: I, rtt_ms: Binary32)
        requires
            !self.in_flight.contains_key(id),
        ensures
            self.sent(id, now).answered(id, rtt_ms).in_flight == self.in_flight,
            self.sent(id, now).answered(id, rtt_ms).rtt_ms == rtt_ms,
    {
        assert(self.sent(id, now).answered(id, rtt_ms).in_flight =~= self.in_flight);
    }
}

impl<I> PingTracker<I> {
    pub fn new() -> (tracker: Self)
        ensures
            tracker@ == PingView::<I>::unused(),
    {
        PingTracker {
            last_id: 0,
            in_flight: HashMap::new(),
            rtt_ms: Binary32 { bits: 0 },
            timer: None,
        }
    }

    /// Sends a ping every second. Returns the message to send, if any.
    pub fn send_ping(
        &mut self,
        connected: bool,
        delta: u64,
        clock: PingClock,
        now: I,
    ) -> (message: Option<ClientToServer>)
        ensures
            ({
                let pre = old(self)@;
                let timer = pre.next_timer(delta);
                let timed = PingView { timer: Some(timer), ..pre };
                let id = clock.id_after(pre.last_id);
                if !connected {
                    message is None && final(self)@ == pre
                } else if timer.times_finished == 0 {
                    message is None && final(self)@ == timed
                } else {
                    message == Some(ClientToServer::Ping(id)) && final(self)@ == timed.sent(
                        id,
                        now,
                    )
                }
            }),
    {
        if !connected {
            return None;
        }
        let mut timer: Timer = match self.timer {
            Some(timer) => timer,
            None => Timer::new(PING_PERIOD, TimerMode::Repeating),
        };
        timer.tick(delta);
        self.timer = Some(timer);
        if !timer.just_finished() {
            return None;
        }
        let id: u64 = clock.next_id(self.last_id);
        self.in_flight.insert(id, now);
        self.last_id = id;
        Some(ClientToServer::Ping(id))
    }

    /// Takes an answer. `elapsed` gives the milliseconds since an instant.
    pub fn receive_pong<E: Fn(I) -> Binary32>(&mut self, id: u64, elapsed: &E) -> (rtt_ms: Ghost<
        Binary32,
    >)
        requires
            forall|start: I| #[trigger] call_requires(elapsed, (start,)),
        ensures
            final(self)@ == old(self)@.answered(id, rtt_ms@),
            old(self)@.in_flight.contains_key(id) ==> call_ensures(
                elapsed,
                (old(self)@.in_flight[id],),
                rtt_ms@,
            ),
    {
        let ghost mut measured: Binary32 = self.rtt_ms;
        if let Some(start) = self.in_flight.remove(&id) {
            self.rtt_ms = elapsed(start);
            proof {
                measured = self.rtt_ms;
            }
        } else {
            assert(self.in_flight@ =~= old(self).in_flight@);
        }
        Ghost(measured)
    }

    /// The round trip as the title shows it: whole milliseconds, or minus one
    /// while there is none.
    pub open spec fn shown(rtt_ms: Binary32) -> i32 {
        if (Binary32 { bits: 0 }).below(rtt_ms) {
            rtt_ms.rounded()
        } else {
            -1i32
        }
    }

    pub fn shown_rtt(&self) -> (r: i32)
        ensures
            r == Self::shown(self.rtt_ms),
    {
        if (Binary32 { bits: 0 }).lt(self.rtt_ms) {
            self.rtt_ms.round_to_i32()
        } else {
            -1
        }
    }
}

} // verus!
