//! What the client hears and says, told from before to after.

use crate::binary32::Binary32;
use crate::client::hud::FpsCounter;
use crate::client::loading::LoadingState;
use crate::client::ping::{PingClock, PingTracker, PingView};
use crate::client::pump::ConnectionView;
use crate::client::session::SessionView;
use crate::client::timer::{Timer, TimerMode};
use crate::world::{PlayerId, ServerToClient, TurnInput, WorldView};
use vstd::prelude::*;

verus! {

impl Timer {
    /// A timer that runs once counts up to its duration and finishes there,
    /// once; from then on it stands still.
    pub proof fn running_once(self, delta: u64)
        requires
            self.mode == TimerMode::Once,
        ensures
            ({
                let after = self.ticked(delta);
                let total = self.elapsed + delta;
                &&& after.mode == self.mode
                &&& after.duration == self.duration
                &&& self.finished ==> after.finished && after.elapsed == self.elapsed
                    && after.times_finished == 0
                &&& !self.finished && total < self.duration ==> !after.finished && after.elapsed
                    == total && after.times_finished == 0
                &&& !self.finished && total >= self.duration ==> after.finished && after.elapsed
                    == self.duration && after.times_finished == 1
            }),
    {
    }

    /// A repeating timer takes its duration off what has passed as often as
    /// that goes, and tells how often, as far as 32 bits do.
    pub proof fn running_again_and_again(self, delta: u64, n: nat)
        requires
            self.mode == TimerMode::Repeating,
            0 < self.duration,
            n * self.duration <= self.elapsed + delta < (n + 1) * self.duration,
        ensures
            ({
                let after = self.ticked(delta);
                &&& after.mode == self.mode
                &&& after.duration == self.duration
                &&& after.elapsed == self.elapsed + delta - n * self.duration
                &&& after.finished == (n > 0)
                &&& (n - after.times_finished) % 0x1_0000_0000 == 0
                &&& n < 0x1_0000_0000 ==> after.times_finished == n
            }),
    {
        let total = self.elapsed + delta;
        let d = self.duration as int;
        assert((n + 1) * d == n * d + d) by (nonlinear_arith);
        vstd::arithmetic::mul::lemma_mul_is_commutative(n as int, d);
        vstd::arithmetic::div_mod::lemma_fundamental_div_mod_converse(
            total,
            d,
            n as int,
            total - n * d,
        );
        if n == 0 {
            assert(n * d == 0) by (nonlinear_arith)
                requires
                    n == 0,
            ;
        } else {
            assert(n * d >= d) by (nonlinear_arith)
                requires
                    n >= 1,
                    d > 0,
            ;
        }
    }

    /// A repeating timer without a duration finishes with every tick.
    pub proof fn running_all_the_time(self, delta: u64)
        requires
            self.mode == TimerMode::Repeating,
            self.duration == 0,
        ensures
            self.ticked(delta).finished,
            self.ticked(delta).elapsed == 0,
            self.ticked(delta).times_finished == u32::MAX,
            self.ticked(delta).duration == 0,
            self.ticked(delta).mode == self.mode,
    {
    }
}

impl LoadingState {
    /// The client is ready exactly when it was welcomed, has heard at least
    /// three worlds, and the timer that the first one started has finished.
    pub proof fn what_ready_means(self)
        ensures
            self.ready() <==> {
                &&& self.welcome_received
                &&& self.first_state_received
                &&& self.state_count > 2
                &&& self.min_display_timer is Some
                &&& self.min_display_timer->0.finished
            },
    {
    }

    /// What a welcome, a world and a frame change of what the client waits for:
    /// the first world starts a timer of a second and a half, every later one
    /// is counted, and frames only run the timer.
    pub proof fn what_changes_while_loading(self, delta: u64)
        requires
            self.state_count < u32::MAX,
        ensures
            ({
                let greeted = self.welcomed();
                let told = self.informed();
                let later = self.ticked(delta);
                &&& greeted.welcome_received
                &&& greeted.first_state_received == self.first_state_received
                &&& greeted.state_count == self.state_count
                &&& greeted.min_display_timer == self.min_display_timer
                &&& told.welcome_received == self.welcome_received
                &&& told.first_state_received
                &&& self.first_state_received ==> told.state_count == self.state_count + 1
                    && told.min_display_timer == self.min_display_timer
                &&& !self.first_state_received ==> told.state_count == 1
                    && told.min_display_timer == Some(
                    Timer {
                        elapsed: 0,
                        duration: 1_500_000_000,
                        mode: TimerMode::Once,
                        finished: false,
                        times_finished: 0,
                    },
                )
                &&& later.welcome_received == self.welcome_received
                &&& later.first_state_received == self.first_state_received
                &&& later.state_count == self.state_count
                &&& self.min_display_timer is None ==> later.min_display_timer is None
                &&& self.min_display_timer matches Some(timer) ==> later.min_display_timer == Some(
                    timer.ticked(delta),
                )
                &&& greeted.loading_screen_entity == self.loading_screen_entity
                &&& told.loading_screen_entity == self.loading_screen_entity
                &&& later.loading_screen_entity == self.loading_screen_entity
            }),
    {
    }

    /// The screen tells which of the two it still waits for, the welcome
    /// first.
    pub proof fn what_the_screen_tells(self)
        ensures
            !self.welcome_received ==> self.status() == "Connecting to server..."@,
            self.welcome_received && !self.first_state_received ==> self.status()
                == "Syncing with server..."@,
            self.welcome_received && self.first_state_received ==> self.status() == "Loading..."@,
    {
    }

    /// Before anything came, nothing has.
    pub proof fn what_loading_begins_with()
        ensures
            !Self::initial().welcome_received,
            !Self::initial().first_state_received,
            Self::initial().state_count == 0,
            Self::initial().min_display_timer is None,
            Self::initial().loading_screen_entity is None,
    {
    }
}

impl PingClock {
    /// A ping is numbered by the time of the system whatever it is, or by the
    /// number after the last one where there is no time; in a browser by the
    /// larger of the two. The number after the largest is zero.
    pub proof fn what_numbers_pings(time: u64, last_id: u64)
        ensures
            PingClock::System(Some(time)).id_after(last_id) == time,
            last_id < u64::MAX ==> PingClock::System(None).id_after(last_id) == last_id + 1,
            PingClock::System(None).id_after(u64::MAX) == 0,
            last_id < u64::MAX ==> {
                let id = PingClock::Browser(time).id_after(last_id);
                id >= time && id > last_id && (id == time || id == last_id + 1)
            },
            PingClock::Browser(time).id_after(u64::MAX) == time,
    {
    }
}

impl<I> PingView<I> {
    /// A ping that is sent is in flight from now on, and the last one; an
    /// answer ends the flight of its own ping alone and sets the time, unless
    /// there is no such ping.
    pub proof fn pings_and_answers(self, id: u64, now: I, rtt_ms: Binary32, other: u64)
        ensures
            ({
                let sent = self.sent(id, now);
                let answered = self.answered(id, rtt_ms);
                &&& sent.last_id == id
                &&& sent.in_flight.contains_key(id)
                &&& sent.in_flight[id] == now
                &&& sent.rtt_ms == self.rtt_ms
                &&& sent.timer == self.timer
                &&& !answered.in_flight.contains_key(id)
                &&& answered.last_id == self.last_id
                &&& answered.timer == self.timer
                &&& self.in_flight.contains_key(id) ==> answered.rtt_ms == rtt_ms
                &&& !self.in_flight.contains_key(id) ==> answered.rtt_ms == self.rtt_ms
                &&& other != id ==> {
                    &&& sent.in_flight.contains_key(other) == self.in_flight.contains_key(other)
                    &&& sent.in_flight[other] == self.in_flight[other]
                    &&& answered.in_flight.contains_key(other) == self.in_flight.contains_key(
                        other,
                    )
                    &&& self.in_flight.contains_key(other) ==> answered.in_flight[other]
                        == self.in_flight[other]
                }
            }),
    {
    }

    /// Pings go out by a timer of one second that starts with the first frame.
    pub proof fn pings_go_out_every_second(self, delta: u64)
        ensures
            self.timer matches Some(timer) ==> self.next_timer(delta) == timer.ticked(delta),
            self.timer is None ==> self.next_timer(delta) == (Timer {
                elapsed: 0,
                duration: 1_000_000_000,
                mode: TimerMode::Repeating,
                finished: false,
                times_finished: 0,
            }).ticked(delta),
            Self::unused().last_id == 0,
            Self::unused().rtt_ms == (Binary32 { bits: 0 }),
            Self::unused().timer is None,
            forall|id: u64| !(#[trigger] Self::unused().in_flight.contains_key(id)),
    {
    }
}

impl<I> PingTracker<I> {
    /// No round trip is shown as minus one; every other in whole milliseconds,
    /// no farther than half a one from what was measured.
    pub proof fn the_shown_round_trip_is_near(rtt_ms: Binary32)
        ensures
            !rtt_ms.nan() && rtt_ms.value() > 0 && Self::shown(rtt_ms) < i32::MAX ==> {
                let one = vstd::arithmetic::power2::pow2(149) as int;
                let twice = 2 * (Self::shown(rtt_ms) * one);
                &&& Self::shown(rtt_ms) >= 0
                &&& twice - one <= 2 * rtt_ms.value() < twice + one
            },
            rtt_ms.nan() || rtt_ms.value() <= 0 ==> Self::shown(rtt_ms) == -1,
    {
        Binary32::units_of_zero();
        if !rtt_ms.nan() && rtt_ms.value() > 0 && Self::shown(rtt_ms) < i32::MAX {
            let one = vstd::arithmetic::power2::pow2(149);
            let u = Binary32::units(rtt_ms.magnitude());
            vstd::arithmetic::power2::lemma_pow2_pos(149);
            let q = (2 * u + one) / (2 * one);
            vstd::arithmetic::div_mod::lemma_fundamental_div_mod(
                (2 * u + one) as int,
                (2 * one) as int,
            );
            vstd::arithmetic::div_mod::lemma_mod_bound((2 * u + one) as int, (2 * one) as int);
            assert((2 * one) * q == 2 * (q * one)) by (nonlinear_arith);
        }
    }
}

impl FpsCounter {
    /// A frame adds its length and itself; once half a second is full the rate
    /// is the frames by the time, and both start over.
    pub proof fn frames_are_counted(self, delta_secs: Binary32)
        requires
            self.accum_frames < u32::MAX,
        ensures
            ({
                let after = self.counted(delta_secs);
                let time = self.accum_time.sum(delta_secs);
                let full = (Binary32 { bits: 0x3f00_0000 }).at_most(time);
                &&& !full ==> after.accum_time == time && after.accum_frames == self.accum_frames
                    + 1 && after.fps == self.fps
                &&& full ==> after.accum_time == (Binary32 { bits: 0 }) && after.accum_frames == 0
                    && after.fps == Binary32::of_int(self.accum_frames + 1).quotient(time)
            }),
    {
    }
}

impl SessionView {
    /// Inputs can be sent by a client that is connected, welcomed and has a
    /// simulation; they go out by a timer of a twentieth of a second that
    /// starts with the first such frame.
    pub proof fn when_inputs_go_out(self, connected: bool, delta: u64)
        ensures
            self.can_send(connected) <==> connected && self.client.id is Some && self.local is Some,
            self.input_timer matches Some(timer) ==> self.next_timer(delta) == timer.ticked(delta),
            self.input_timer is None ==> self.next_timer(delta) == (Timer {
                elapsed: 0,
                duration: 50_000_001,
                mode: TimerMode::Repeating,
                finished: false,
                times_finished: 0,
            }).ticked(delta),
    {
    }

    /// An input that is sent is kept in the client's own simulation for its
    /// player, and nothing else changes.
    pub proof fn inputs_are_kept_at_home(self, id: PlayerId, turn: TurnInput, other: PlayerId)
        requires
            self.local is Some,
        ensures
            ({
                let before = self.local->0;
                let after = self.submitted(id, turn);
                let now = after.local->0;
                &&& after.local is Some
                &&& now.sim.pending_inputs.contains_key(id)
                &&& now.sim.pending_inputs[id] == turn
                &&& other != id ==> {
                    &&& now.sim.pending_inputs.contains_key(other)
                        == before.sim.pending_inputs.contains_key(other)
                    &&& now.sim.pending_inputs[other] == before.sim.pending_inputs[other]
                }
                &&& now.sim.state == before.sim.state
                &&& now.sim.cfg == before.sim.cfg
                &&& now.last_server_tick == before.last_server_tick
                &&& after.client == self.client
                &&& after.cached == self.cached
                &&& after.last_tick == self.last_tick
                &&& after.input_timer == self.input_timer
            }),
    {
    }

    /// A welcome tells the client who it is and how large the world is; it
    /// forgets the world it knew and starts a simulation in which it stands
    /// alone in the middle, alive, without a train.
    pub proof fn what_a_welcome_does(self, id: PlayerId, world_size: Binary32, other: u128)
        ensures
            ({
                let after = self.welcomed(id, world_size);
                let local = after.local->0;
                let me = local.sim.state.players[id];
                let zero = Binary32 { bits: 0 };
                &&& after.client.id == Some(id)
                &&& after.client.world_size == world_size
                &&& after.cached is None
                &&& after.last_tick == self.last_tick
                &&& after.input_timer == self.input_timer
                &&& after.local is Some
                &&& local.last_server_tick == 0
                &&& local.sim.state.tick == 0
                &&& local.sim.state.world_size == world_size
                &&& local.sim.cfg.world_size == world_size
                &&& local.sim.cfg.player_speed == (Binary32 { bits: 0x40c0_0000 })
                &&& local.sim.cfg.turn_speed == (Binary32 { bits: 0x4020_0000 })
                &&& local.sim.cfg.initial_length == 3
                &&& local.sim.cfg.item_spawn_every_ticks == 20
                &&& local.sim.state.players.contains_key(other) <==> other == id
                &&& !local.sim.state.items.contains_key(other)
                &&& !local.sim.pending_inputs.contains_key(other)
                &&& me.id == id
                &&& me.alive
                &&& me.train.len() == 0
                &&& me.rotation_y == zero
                &&& me.position.x == zero
                &&& me.position.y == (Binary32 { bits: 0x3f00_0000 })
                &&& me.position.z == zero
            }),
    {
    }

    /// A world that comes is remembered as it is, and nothing else changes.
    pub proof fn what_a_world_does(self, world: WorldView)
        ensures
            self.informed(world).cached == Some(world),
            self.informed(world).client == self.client,
            self.informed(world).local == self.local,
            self.informed(world).last_tick == self.last_tick,
            self.informed(world).input_timer == self.input_timer,
    {
    }

    /// Each message does to a session what it says: a welcome welcomes, a
    /// world is remembered, everything else leaves it alone. Of several
    /// messages each does so after those before it.
    pub proof fn what_messages_do(
        self,
        message: ServerToClient,
        messages: Seq<ServerToClient>,
    )
        ensures
            message matches ServerToClient::Welcome { id, world_size } ==> self.received(message)
                == self.welcomed(id, world_size),
            message matches ServerToClient::State(world) ==> self.received(message)
                == self.informed(world@),
            message is Pong || message is YouDied ==> self.received(message) == self,
            self.received_all(Seq::empty()) == self,
            self.received_all(messages.push(message)) == self.received_all(messages).received(
                message,
            ),
    {
        assert(messages.push(message).drop_last() =~= messages);
    }

    /// Before anything was heard, nothing is known.
    pub proof fn what_a_session_begins_with()
        ensures
            Self::silent().client.id is None,
            Self::silent().client.world_size == (Binary32 { bits: 0 }),
            Self::silent().cached is None,
            Self::silent().last_tick == 0,
            Self::silent().local is None,
            Self::silent().input_timer is None,
    {
    }
}

impl<I> ConnectionView<I> {
    /// Each message does to a connection what it says: a welcome and a world
    /// reach the session and the loading screen, an answer the pings. Of
    /// several messages each does so after those before it.
    pub proof fn what_messages_do(
        self,
        message: ServerToClient,
        rtt_ms: Binary32,
        messages: Seq<ServerToClient>,
        rtts: Seq<Binary32>,
    )
        requires
            messages.len() == rtts.len(),
        ensures
            ({
                let after = self.received(message, rtt_ms);
                &&& after.session == self.session.received(message)
                &&& message is Welcome ==> after.loading == self.loading.welcomed()
                &&& message is State ==> after.loading == self.loading.informed()
                &&& message is Pong || message is YouDied ==> after.loading == self.loading
                &&& message matches ServerToClient::Pong(id) ==> after.ping == self.ping.answered(
                    id,
                    rtt_ms,
                )
                &&& !(message is Pong) ==> after.ping == self.ping
            }),
            self.received_all(Seq::empty(), Seq::empty()) == self,
            self.received_all(messages.push(message), rtts.push(rtt_ms)) == self.received_all(
                messages,
                rtts,
            ).received(message, rtt_ms),
    {
        assert(messages.push(message).drop_last() =~= messages);
        assert(rtts.push(rtt_ms).drop_last() =~= rtts);
    }

    /// Every world is counted once, and nothing else is; one more can be
    /// counted as long as 32 bits hold the count.
    pub proof fn only_worlds_are_counted(
        self,
        messages: Seq<ServerToClient>,
        message: ServerToClient,
        states: nat,
    )
        ensures
            Self::states_in(Seq::empty()) == 0,
            message is State ==> Self::states_in(messages.push(message)) == Self::states_in(
                messages,
            ) + 1,
            !(message is State) ==> Self::states_in(messages.push(message)) == Self::states_in(
                messages,
            ),
            self.loading.first_state_received ==> self.count_after(states)
                == self.loading.state_count + states,
            !self.loading.first_state_received ==> self.count_after(states) == states,
            self.countable(message) <==> !(message is State && self.loading.first_state_received
                && self.loading.state_count == u32::MAX),
    {
        assert(messages.push(message).drop_last() =~= messages);
    }

    /// The time of every answer is measured from the instant at which its own
    /// ping was sent, as it was in flight when the answer came.
    pub proof fn answers_are_measured<E: Fn(I) -> Binary32>(
        self,
        messages: Seq<ServerToClient>,
        elapsed: &E,
        rtts: Seq<Binary32>,
        i: int,
    )
        requires
            self.all_measured(messages, elapsed, rtts),
            0 <= i < messages.len(),
        ensures
            rtts.len() == messages.len(),
            ({
                let flying = self.received_all(messages.take(i), rtts.take(i)).ping.in_flight;
                messages[i] matches ServerToClient::Pong(id) ==> flying.contains_key(id)
                    ==> call_ensures(elapsed, (flying[id],), rtts[i])
            }),
        decreases messages.len(),
    {
        if i < messages.len() - 1 {
            let rest = messages.drop_last();
            let rest_rtts = rtts.drop_last();
            self.answers_are_measured(rest, elapsed, rest_rtts, i);
            assert(rest.take(i) =~= messages.take(i));
            assert(rest_rtts.take(i) =~= rtts.take(i));
        } else {
            assert(messages.drop_last() =~= messages.take(i));
            assert(rtts.drop_last() =~= rtts.take(i));
        }
    }
}

} // verus!
