//! What prediction and correction do to a player, told from before to after.

use crate::binary32::Binary32;
use crate::client::session::{LocalView, SessionView};
use crate::rules::{GameConfig, Heading};
use crate::world::{PlayerId, PlayerView, TurnInput, WorldView};
use vstd::prelude::*;

verus! {

impl TurnInput {
    /// The left key turns left whatever else is pressed, the right one turns
    /// right where it is alone, and without either the way is straight.
    pub proof fn keys_mean_turns(left: bool, right: bool)
        ensures
            Self::of_keys(left, right) == TurnInput::Left <==> left,
            Self::of_keys(left, right) == TurnInput::Right <==> right && !left,
            Self::of_keys(left, right) == TurnInput::Straight <==> !right && !left,
    {
    }
}

impl PlayerView {
    /// A predicted frame turns the player by what the keys ask for, moves it
    /// in the direction that it then looks, stops it half a unit from an edge,
    /// and moves its train up behind it.
    pub proof fn a_frame_moves_player_and_train(
        self,
        turn: TurnInput,
        heading: Heading,
        dt: Binary32,
        cfg: GameConfig,
    )
        ensures
            ({
                let after = self.predicted(turn, heading, dt, cfg);
                let half = Binary32 { bits: 0x3f00_0000 };
                let angle = cfg.turn_speed.product(dt);
                let low = cfg.world_size.opposite().sum(half);
                let high = cfg.world_size.difference(half);
                let x = self.position.x.sum(heading.sin.product(cfg.player_speed).product(dt));
                let z = self.position.z.sum(heading.cos.product(cfg.player_speed).product(dt));
                &&& after.id == self.id
                &&& after.alive == self.alive
                &&& turn == TurnInput::Left ==> after.rotation_y == self.rotation_y.sum(angle)
                &&& turn == TurnInput::Right ==> after.rotation_y == self.rotation_y.difference(
                    angle,
                )
                &&& turn == TurnInput::Straight ==> after.rotation_y == self.rotation_y
                &&& after.rotation_y == self.steered(turn, dt, cfg)
                &&& after.position.y == half
                &&& x.below(low) ==> after.position.x == low
                &&& !x.below(low) && high.below(x) ==> after.position.x == high
                &&& !x.below(low) && !high.below(x) ==> after.position.x == x
                &&& z.below(low) ==> after.position.z == low
                &&& !z.below(low) && high.below(z) ==> after.position.z == high
                &&& !z.below(low) && !high.below(z) ==> after.position.z == z
                &&& self.train.len() == 0 ==> after.train.len() == 1
                &&& self.train.len() > 0 ==> after.train.len() == self.train.len()
                &&& after.train[0] == after.position
                &&& forall|i: int|
                    0 < i < after.train.len() ==> #[trigger] after.train[i] == self.train[i - 1]
            }),
    {
    }

    /// A correction moves the player a fifth of the way to where the server
    /// has it, and each place of a train as long as the server's a fifth of
    /// the way to the place of the same index there, all at their own heights;
    /// a train of another length is replaced by the server's.
    pub proof fn a_correction_goes_a_fifth_of_the_way(self, server: PlayerView)
        ensures
            ({
                let after = self.corrected(server);
                let fifth = Binary32 { bits: 0x3e4c_cccd };
                &&& after.id == self.id
                &&& after.alive == server.alive
                &&& after.position.x == self.position.x.sum(
                    server.position.x.difference(self.position.x).product(fifth),
                )
                &&& after.position.y == self.position.y
                &&& after.position.z == self.position.z.sum(
                    server.position.z.difference(self.position.z).product(fifth),
                )
                &&& after.rotation_y == self.rotation_y.sum(
                    server.rotation_y.difference(self.rotation_y).turn_difference().product(fifth),
                )
                &&& after.train.len() == server.train.len()
                &&& self.train.len() != server.train.len() ==> forall|i: int|
                    0 <= i < server.train.len() ==> #[trigger] after.train[i] == server.train[i]
                &&& self.train.len() == server.train.len() ==> forall|i: int|
                    0 <= i < server.train.len() ==> {
                        &&& (#[trigger] after.train[i]).x == self.train[i].x.sum(
                            server.train[i].x.difference(self.train[i].x).product(fifth),
                        )
                        &&& after.train[i].y == self.train[i].y
                        &&& after.train[i].z == self.train[i].z.sum(
                            server.train[i].z.difference(self.train[i].z).product(fifth),
                        )
                    }
            }),
    {
    }

    /// Each place of a train as long as the server's comes to lie between where
    /// it was and the server's place of the same index, wherever their
    /// distance is a number.
    pub proof fn a_correction_stays_between(self, server: PlayerView, i: int)
        requires
            self.train.len() == server.train.len(),
            0 <= i < self.train.len(),
            self.train[i].x.finite(),
            server.train[i].x.finite(),
            server.train[i].x.difference(self.train[i].x).finite(),
        ensures
            ({
                let old = self.train[i].x;
                let target = server.train[i].x;
                let new = self.corrected(server).train[i].x;
                &&& old.at_most(target) ==> old.at_most(new) && new.at_most(target)
                &&& target.at_most(old) ==> target.at_most(new) && new.at_most(old)
            }),
    {
        self.train[i].x.nudging_approaches(server.train[i].x);
    }

    /// A player that stands where the server has it stays there, and so does a
    /// train that equals the server's: no value changes, whatever its index.
    pub proof fn a_correction_of_nothing_changes_nothing(self, server: PlayerView)
        ensures
            ({
                let after = self.corrected(server);
                &&& self.position.x == server.position.x && self.position.x.finite()
                    ==> after.position.x.same(self.position.x)
                &&& self.position.z == server.position.z && self.position.z.finite()
                    ==> after.position.z.same(self.position.z)
                &&& self.train == server.train ==> after.train.len() == self.train.len()
                    && forall|i: int|
                    0 <= i < self.train.len() && self.train[i].x.finite()
                        && self.train[i].z.finite() ==> {
                        &&& (#[trigger] after.train[i]).x.same(self.train[i].x)
                        &&& after.train[i].y == self.train[i].y
                        &&& after.train[i].z.same(self.train[i].z)
                    }
            }),
    {
        let after = self.corrected(server);
        if self.position.x.finite() {
            self.position.x.nudging_in_place();
        }
        if self.position.z.finite() {
            self.position.z.nudging_in_place();
        }
        if self.train == server.train {
            assert forall|i: int|
                0 <= i < self.train.len() && self.train[i].x.finite()
                    && self.train[i].z.finite() implies {
                &&& (#[trigger] after.train[i]).x.same(self.train[i].x)
                &&& after.train[i].y == self.train[i].y
                &&& after.train[i].z.same(self.train[i].z)
            } by {
                self.train[i].x.nudging_in_place();
                self.train[i].z.nudging_in_place();
            }
        }
    }
}

impl Binary32 {
    /// A coordinate that is where it should be stays there.
    pub proof fn nudging_in_place(self)
        requires
            self.finite(),
        ensures
            self.nudged(self).same(self),
    {
        Self::difference_with_itself(self);
        Self::units_of_zero();
        self.nudging_approaches(self);
    }
}

impl Binary32 {
    /// Whether `rest` is left of a difference and half a turn more after `n`
    /// full turns were taken off.
    pub open spec fn leaves(self, rest: Binary32, n: int) -> bool {
        let full = Binary32 { bits: 0x40c9_0fdb };
        let more = self.sum(Binary32 { bits: 0x4049_0fdb });
        &&& more.value() == rest.value() + n * full.value()
        &&& -full.value() < rest.value() < full.value()
        &&& 0 <= more.value() ==> 0 <= rest.value()
    }

    /// A difference of angles between half a turn below zero and half a turn
    /// above it stays what it is, but for rounding; any other is what is left
    /// of it, from zero up to a full turn, after full turns are taken off or
    /// added to it with half a turn more, less that half turn.
    pub proof fn full_turns_are_taken_off(self)
        requires
            self.finite(),
        ensures
            ({
                let half = Binary32 { bits: 0x4049_0fdb };
                let full = Binary32 { bits: 0x40c9_0fdb };
                let more = self.sum(half);
                &&& 0 <= more.value() < full.value() ==> self.turn_difference().value()
                    == more.difference(half).value()
                &&& exists|rest: Binary32, n: int| #[trigger]
                    self.leaves(rest, n) && self.turn_difference() == (if rest.value() < 0 {
                        rest.sum(full)
                    } else {
                        rest
                    }).difference(half)
            }),
    {
        let half = Binary32 { bits: 0x4049_0fdb };
        let full = Binary32 { bits: 0x40c9_0fdb };
        let more = self.sum(half);
        let rest = more.modulo(full);
        self.half_a_turn_more_is_finite();
        Self::units_of_zero();
        Self::units_increase(0, full.magnitude());
        Self::modulo_is_exact(more, full);
        let n = choose|n: int| more.value() == rest.value() + #[trigger] (n * full.value());
        let zero = Binary32 { bits: 0 };
        assert(zero.value() == 0);
        assert(rest.below(zero) <==> rest.value() < 0);
        assert(self.turn_difference() == (if rest.value() < 0 {
            rest.sum(full)
        } else {
            rest
        }).difference(half));
        assert(self.leaves(rest, n));
        if 0 <= more.value() < full.value() {
            let f = full.value();
            let r = rest.value();
            assert(n == 0) by (nonlinear_arith)
                requires
                    0 <= r + n * f < f,
                    0 <= r < f,
                    f > 0,
            ;
            assert(n * f == 0) by (nonlinear_arith)
                requires
                    n == 0,
            ;
            assert(rest.value() == more.value());
            // Equal values give equal sums, but for the sign of zero.
            Self::sum_is_near(rest, half.opposite());
            Self::sum_is_near(more, half.opposite());
        }
    }
}

impl SessionView {
    /// A frame is predicted exactly for a client that was welcomed and whose
    /// own player is alive.
    pub proof fn only_the_living_are_moved(self)
        ensures
            self.can_move() <==> exists|id: PlayerId, local: LocalView|
                {
                    &&& self.client.id == Some(id)
                    &&& self.local == Some(local)
                    &&& #[trigger] local.sim.state.players.contains_key(id)
                    &&& local.sim.state.players[id].alive
                },
    {
        if self.can_move() {
            let id = self.client.id->0;
            let local = self.local->0;
            assert(local.sim.state.players.contains_key(id));
        }
    }

    /// The direction of a frame is asked for at the angle that the player has
    /// after turning, and the frame changes nothing but the own player.
    pub proof fn a_frame_changes_only_the_own_player<H: Fn(Binary32) -> Heading>(
        self,
        heading: &H,
        turn: TurnInput,
        dt: Binary32,
        direction: Heading,
        other: PlayerId,
    )
        requires
            self.can_move(),
            self.may_head(heading, turn, dt, direction),
        ensures
            ({
                let id = self.client.id->0;
                let before = self.local->0;
                let player = before.sim.state.players[id];
                let after = self.with_own_player(self.predicted_player(turn, direction, dt));
                let now = after.local->0;
                &&& now.sim.state.players[id] == player.predicted(
                    turn,
                    direction,
                    dt,
                    before.sim.cfg,
                )
                &&& call_ensures(heading, (now.sim.state.players[id].rotation_y,), direction)
                &&& after.client == self.client
                &&& after.cached == self.cached
                &&& after.last_tick == self.last_tick
                &&& after.input_timer == self.input_timer
                &&& after.local is Some
                &&& now.last_server_tick == before.last_server_tick
                &&& now.sim.cfg == before.sim.cfg
                &&& now.sim.pending_inputs == before.sim.pending_inputs
                &&& now.sim.state.items == before.sim.state.items
                &&& now.sim.state.tick == before.sim.state.tick
                &&& now.sim.state.world_size == before.sim.state.world_size
                &&& other != id ==> {
                    &&& now.sim.state.players.contains_key(other)
                        == before.sim.state.players.contains_key(other)
                    &&& now.sim.state.players[other] == before.sim.state.players[other]
                }
            }),
    {
        let before = self.local->0;
        before.sim.state.players[self.client.id->0].a_frame_moves_player_and_train(
            turn,
            direction,
            dt,
            before.sim.cfg,
        );
    }

    /// A session is reconciled exactly where it has heard of a world, has a
    /// simulation and knows who it is; only the simulation changes.
    pub proof fn reconciling_touches_only_the_simulation(self)
        ensures
            ({
                let after = self.reconciled();
                &&& after.client == self.client
                &&& after.cached == self.cached
                &&& after.last_tick == self.last_tick
                &&& after.input_timer == self.input_timer
                &&& after.local is Some == self.local is Some
                &&& self.cached is None || self.client.id is None ==> after == self
                &&& self.cached is Some && self.client.id is Some && self.local is Some
                    ==> after.local == Some(
                    self.local->0.reconciled(self.client.id->0, self.cached->0),
                )
            }),
    {
    }
}

impl LocalView {
    /// A newer world replaces everything but the own player; that one is taken
    /// as it is where it was unknown or has come back to life, and corrected
    /// otherwise. A world that is no newer changes nothing.
    pub proof fn a_newer_world_is_taken(self, id: PlayerId, world: WorldView, other: PlayerId)
        ensures
            ({
                let after = self.reconciled(id, world);
                let mine = self.sim.state.players;
                &&& world.tick <= self.last_server_tick ==> after == self
                &&& world.tick > self.last_server_tick ==> {
                    &&& after.last_server_tick == world.tick
                    &&& after.sim.state.items == world.items
                    &&& after.sim.state.tick == self.sim.state.tick
                    &&& after.sim.state.world_size == self.sim.state.world_size
                    &&& after.sim.cfg == self.sim.cfg
                    &&& after.sim.pending_inputs == self.sim.pending_inputs
                    &&& after.sim.state.players.contains_key(other)
                        == world.players.contains_key(other)
                    &&& other != id && world.players.contains_key(other)
                        ==> after.sim.state.players[other] == world.players[other]
                    &&& world.players.contains_key(id) && !mine.contains_key(id)
                        ==> after.sim.state.players[id] == world.players[id]
                    &&& world.players.contains_key(id) && mine.contains_key(id)
                        && !mine[id].alive && world.players[id].alive
                        ==> after.sim.state.players[id] == world.players[id]
                    &&& world.players.contains_key(id) && mine.contains_key(id) && (mine[id].alive
                        || !world.players[id].alive) ==> after.sim.state.players[id]
                        == mine[id].corrected(world.players[id])
                }
            }),
    {
    }
}

} // verus!
