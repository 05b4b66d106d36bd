//! What holds of a connection over any number of frames and messages.

use crate::binary32::Binary32;
use crate::client::loading::{LoadingState, MIN_DISPLAY};
use crate::client::pump::ConnectionView;
use crate::client::session::SessionView;
use crate::client::timer::{Timer, TimerMode};
use crate::world::{PlayerId, PlayerView, ServerToClient, TurnInput, WorldView};
use vstd::prelude::*;

verus! {

/// What happens to a connection while the game loads.
pub ghost enum ConnectionEvent {
    /// The messages that had come were taken; the times are those measured.
    Pump { messages: Seq<ServerToClient>, rtts: Seq<Binary32> },
    /// The loading screen was updated after some time.
    Frame(u64),
}

impl ConnectionEvent {
    /// How many worlds came in several events.
    pub open spec fn states(events: Seq<ConnectionEvent>) -> nat
        decreases events.len(),
    {
        if events.len() == 0 {
            0
        } else {
            Self::states(events.drop_last()) + match events.last() {
                ConnectionEvent::Pump { messages, .. } => ConnectionView::<u64>::states_in(
                    messages,
                ),
                ConnectionEvent::Frame(_) => 0,
            }
        }
    }

    /// The lengths of the frames among several events.
    pub open spec fn frames(events: Seq<ConnectionEvent>) -> Seq<u64>
        decreases events.len(),
    {
        if events.len() == 0 {
            Seq::empty()
        } else {
            match events.last() {
                ConnectionEvent::Pump { .. } => Self::frames(events.drop_last()),
                ConnectionEvent::Frame(delta) => Self::frames(events.drop_last()).push(delta),
            }
        }
    }
}

impl<I> ConnectionView<I> {
    /// The connection after one event.
    pub open spec fn met(self, event: ConnectionEvent) -> ConnectionView<I> {
        match event {
            ConnectionEvent::Pump { messages, rtts } => self.received_all(messages, rtts),
            ConnectionEvent::Frame(delta) => ConnectionView {
                loading: self.loading.ticked(delta),
                ..self
            },
        }
    }

    /// The connection after several events.
    pub open spec fn after(self, events: Seq<ConnectionEvent>) -> ConnectionView<I>
        decreases events.len(),
    {
        if events.len() == 0 {
            self
        } else {
            self.after(events.drop_last()).met(events.last())
        }
    }

    /// It does not matter in how many batches messages are taken.
    pub proof fn batches_do_not_matter(
        self,
        first: Seq<ServerToClient>,
        first_rtts: Seq<Binary32>,
        later: Seq<ServerToClient>,
        later_rtts: Seq<Binary32>,
    )
        requires
            first.len() == first_rtts.len(),
            later.len() == later_rtts.len(),
        ensures
            self.received_all(first + later, first_rtts + later_rtts) == self.received_all(
                first,
                first_rtts,
            ).received_all(later, later_rtts),
        decreases later.len(),
    {
        if later.len() == 0 {
            assert(first + later =~= first);
            assert(first_rtts + later_rtts =~= first_rtts);
        } else {
            assert((first + later).drop_last() =~= first + later.drop_last());
            assert((first_rtts + later_rtts).drop_last() =~= first_rtts + later_rtts.drop_last());
            self.batches_do_not_matter(
                first,
                first_rtts,
                later.drop_last(),
                later_rtts.drop_last(),
            );
        }
    }

    proof fn states_in_is_one_count(messages: Seq<ServerToClient>)
        ensures
            Self::states_in(messages) == ConnectionView::<u64>::states_in(messages),
        decreases messages.len(),
    {
        if messages.len() > 0 {
            Self::states_in_is_one_count(messages.drop_last());
        }
    }

    /// What a batch does to the loading state: its worlds are counted, the
    /// first world of all starts the timer, and nothing else touches it.
    pub proof fn a_batch_is_counted(self, messages: Seq<ServerToClient>, rtts: Seq<Binary32>)
        requires
            self.count_after(Self::states_in(messages)) <= u32::MAX,
        ensures
            ({
                let n = Self::states_in(messages);
                let pre = self.loading;
                let after = self.received_all(messages, rtts);
                &&& after.loading.first_state_received == (pre.first_state_received || n > 0)
                &&& after.loading.state_count == if pre.first_state_received || n > 0 {
                    self.count_after(n)
                } else {
                    pre.state_count as nat
                }
                &&& after.loading.min_display_timer == if !pre.first_state_received && n > 0 {
                    Some(Timer::fresh(MIN_DISPLAY, TimerMode::Once))
                } else {
                    pre.min_display_timer
                }
                &&& after.session.last_tick == self.session.last_tick
            }),
        decreases messages.len(),
    {
        if messages.len() > 0 {
            self.a_batch_is_counted(messages.drop_last(), rtts.drop_last());
        }
    }

    /// Over any number of batches and frames, from the start, the worlds that
    /// came are counted, there is a timer from the first of them on, and the
    /// last tick of the cache is left alone.
    pub proof fn states_are_counted(self, events: Seq<ConnectionEvent>)
        requires
            self.loading == LoadingState::initial(),
            ConnectionEvent::states(events) <= u32::MAX,
        ensures
            ({
                let n = ConnectionEvent::states(events);
                let after = self.after(events);
                &&& after.loading.state_count == n
                &&& after.loading.first_state_received == (n > 0)
                &&& after.loading.min_display_timer is Some == (n > 0)
                &&& after.session.last_tick == self.session.last_tick
            }),
        decreases events.len(),
    {
        if events.len() > 0 {
            self.states_are_counted(events.drop_last());
            match events.last() {
                ConnectionEvent::Pump { messages, rtts } => {
                    Self::states_in_is_one_count(messages);
                    self.after(events.drop_last()).a_batch_is_counted(messages, rtts);
                },
                ConnectionEvent::Frame(_) => {},
            }
        }
    }

    /// The timer is started once: after the first world only frames change it,
    /// whatever worlds and welcomes come.
    pub proof fn the_timer_is_never_restarted(self, events: Seq<ConnectionEvent>)
        requires
            self.loading.first_state_received,
            self.loading.state_count + ConnectionEvent::states(events) <= u32::MAX,
        ensures
            ({
                let after = self.after(events);
                &&& after.loading.first_state_received
                &&& after.loading.state_count == self.loading.state_count
                    + ConnectionEvent::states(events)
                &&& after.loading.min_display_timer == match self.loading.min_display_timer {
                    Some(timer) => Some(timer.after(ConnectionEvent::frames(events))),
                    None => None,
                }
            }),
        decreases events.len(),
    {
        if events.len() > 0 {
            self.the_timer_is_never_restarted(events.drop_last());
            let before = self.after(events.drop_last());
            match events.last() {
                ConnectionEvent::Pump { messages, rtts } => {
                    Self::states_in_is_one_count(messages);
                    before.a_batch_is_counted(messages, rtts);
                },
                ConnectionEvent::Frame(delta) => {
                    let frames = ConnectionEvent::frames(events.drop_last());
                    assert(frames.push(delta).drop_last() =~= frames);
                },
            }
        }
    }

    /// The first world starts the timer: it then runs from zero with every
    /// frame.
    pub proof fn the_first_state_starts_the_timer(
        self,
        messages: Seq<ServerToClient>,
        rtts: Seq<Binary32>,
        events: Seq<ConnectionEvent>,
    )
        requires
            !self.loading.first_state_received,
            0 < Self::states_in(messages),
            Self::states_in(messages) + ConnectionEvent::states(events) <= u32::MAX,
        ensures
            self.received_all(messages, rtts).after(events).loading.min_display_timer == Some(
                Timer::fresh(MIN_DISPLAY, TimerMode::Once).after(ConnectionEvent::frames(events)),
            ),
    {
        self.a_batch_is_counted(messages, rtts);
        self.received_all(messages, rtts).the_timer_is_never_restarted(events);
    }
}

impl SessionView {
    /// Nothing that is done to a session sets the last tick of its cache.
    pub proof fn the_last_tick_is_left_alone(
        self,
        id: PlayerId,
        world_size: Binary32,
        world: WorldView,
        turn: TurnInput,
        player: PlayerView,
    )
        ensures
            self.welcomed(id, world_size).last_tick == self.last_tick,
            self.informed(world).last_tick == self.last_tick,
            self.submitted(id, turn).last_tick == self.last_tick,
            self.with_own_player(player).last_tick == self.last_tick,
            self.reconciled().last_tick == self.last_tick,
    {
    }
}

} // verus!
