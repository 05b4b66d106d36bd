//! Bringing the client's simulation in line with the server's.

use crate::binary32::Binary32;
use crate::client::session::{LocalSim, LocalView, Session, SessionView};
use crate::sim::{SimView, FULL_TURN};
use crate::world::{PlayerId, PlayerState, PlayerView, Vec3, WorldState, WorldView};
use std::collections::VecDeque;
use vstd::prelude::*;

verus! {

broadcast use vstd::std_specs::hash::group_hash_axioms;

/// The part of a difference that is corrected at a time, 0.2.
pub const CORRECTION: u32 = 0x3e4c_cccd;

/// Half of the full turn.
pub const HALF_TURN: u32 = 0x4049_0fdb;

impl Binary32 {
    /// A coordinate moved a fifth of the way to another.
    pub open spec fn nudged(self, target: Binary32) -> Binary32 {
        self.sum(target.difference(self).product(Binary32 { bits: CORRECTION }))
    }

    pub fn nudge(self, target: Binary32) -> (r: Binary32)
        ensures
            r == self.nudged(target),
    {
        self.plus(target.minus(self).times(Binary32 { bits: CORRECTION }))
    }

    /// A difference of angles with full turns taken off or added, so that it
    /// is at most half a turn either way.
    pub open spec fn turn_difference(self) -> Binary32 {
        let rest = self.sum(Binary32 { bits: HALF_TURN }).modulo(Binary32 { bits: FULL_TURN });
        (if rest.below(Binary32 { bits: 0 }) {
            rest.sum(Binary32 { bits: FULL_TURN })
        } else {
            rest
        }).difference(Binary32 { bits: HALF_TURN })
    }

    /// An angle turned a fifth of the way to another.
    pub open spec fn turn_nudged(self, target: Binary32) -> Binary32 {
        self.sum(
            target.difference(self).turn_difference().product(Binary32 { bits: CORRECTION }),
        )
    }

    pub fn turn_nudge(self, target: Binary32) -> (r: Binary32)
        ensures
            r == self.turn_nudged(target),
    {
        let half: Binary32 = Binary32 { bits: HALF_TURN };
        let full: Binary32 = Binary32 { bits: FULL_TURN };
        let rest: Binary32 = target.minus(self).plus(half).remainder(full);
        let positive: Binary32 = if rest.lt(Binary32 { bits: 0 }) {
            rest.plus(full)
        } else {
            rest
        };
        let normalized: Binary32 = positive.minus(half);
        self.plus(normalized.times(Binary32 { bits: CORRECTION }))
    }
}

impl Vec3 {
    /// A place moved a fifth of the way to another, at its own height.
    pub open spec fn nudged(self, target: Vec3) -> Vec3 {
        Vec3 { x: self.x.nudged(target.x), y: self.y, z: self.z.nudged(target.z) }
    }

    pub fn nudge(self, target: Vec3) -> (r: Vec3)
        ensures
            r == self.nudged(target),
    {
        Vec3 { x: self.x.nudge(target.x), y: self.y, z: self.z.nudge(target.z) }
    }
}

impl PlayerView {
    /// The player corrected toward what the server says of it.
    ///
    /// A train of another length than the server's is replaced by the
    /// server's. Whether the player is alive is up to the server.
    pub open spec fn corrected(self, server: PlayerView) -> PlayerView {
        PlayerView {
            id: self.id,
            position: self.position.nudged(server.position),
            rotation_y: self.rotation_y.turn_nudged(server.rotation_y),
            train: if self.train.len() != server.train.len() {
                server.train
            } else {
                Seq::new(self.train.len(), |i: int| self.train[i].nudged(server.train[i]))
            },
            alive: server.alive,
        }
    }
}

impl LocalView {
    /// The player as the client keeps it: the server's word is taken as it is
    /// for a player that is new to the client or has come back to life, and
    /// corrected toward otherwise.
    pub open spec fn settled(self, id: PlayerId, server: PlayerView) -> PlayerView {
        let players = self.sim.state.players;
        if !players.contains_key(id) || (!players[id].alive && server.alive) {
            server
        } else {
            players[id].corrected(server)
        }
    }

    /// The simulation after a world of the server: everything is as the
    /// server says, except that the client's own player is corrected toward
    /// it.
    pub open spec fn reconciled(self, id: PlayerId, world: WorldView) -> LocalView {
        if world.tick <= self.last_server_tick {
            self
        } else {
            LocalView {
                sim: SimView {
                    state: WorldView {
                        players: if world.players.contains_key(id) {
                            world.players.insert(id, self.settled(id, world.players[id]))
                        } else {
                            world.players
                        },
                        items: world.items,
                        ..self.sim.state
                    },
                    ..self.sim
                },
                last_server_tick: world.tick,
            }
        }
    }
}

impl SessionView {
    /// The session after the last world that the server has sent was taken
    /// into account.
    pub open spec fn reconciled(self) -> SessionView {
        match (self.cached, self.local, self.client.id) {
            (Some(world), Some(local), Some(id)) => SessionView {
                local: Some(local.reconciled(id, world)),
                ..self
            },
            _ => self,
        }
    }
}

impl PlayerState {
    /// Corrects the player toward what the server says of it.
    pub fn correct(&mut self, server: &PlayerState)
        ensures
            final(self)@ == old(self)@.corrected(server@),
    {
        self.position = self.position.nudge(server.position);
        self.rotation_y = self.rotation_y.turn_nudge(server.rotation_y);
        if server.train.len() != self.train.len() {
            self.train = server.train.clone();
            assert(self.train@ =~= server.train@);
        } else {
            let mut train: VecDeque<Vec3> = VecDeque::new();
            let mut i: usize = 0;
            while i < self.train.len()
                invariant
                    i <= self.train@.len(),
                    self.train@.len() == server.train@.len(),
                    train@.len() == i,
                    forall|j: int|
                        0 <= j < i ==> #[trigger] train@[j] == self.train@[j].nudged(
                            server.train@[j],
                        ),
                decreases self.train@.len() - i,
            {
                train.push_back(self.train[i].nudge(server.train[i]));
                i = i + 1;
            }
            assert(train@ =~= old(self)@.corrected(server@).train);
            self.train = train;
        }
        self.alive = server.alive;
    }
}

impl LocalSim {
    /// Takes a world of the server into account, unless it is no newer than
    /// the last one.
    pub fn reconcile(&mut self, id: PlayerId, world: &WorldState)
        ensures
            final(self)@ == old(self)@.reconciled(id, world@),
    {
        if world.tick <= self.last_server_tick {
            return;
        }
        let ghost pre = self@;
        let mine: Option<PlayerState> = self.sim.state.players.remove(&id);
        self.sim.state.players = world.players.clone();
        self.sim.state.items = world.items.clone();
        self.last_server_tick = world.tick;
        let ghost players = self.sim.state.players@;
        assert(PlayerState::table(players) == world@.players);
        match (self.sim.state.players.get(&id), mine) {
            (Some(server), Some(mut player)) => {
                if player.alive || !server.alive {
                    player.correct(server);
                    let ghost corrected = player@;
                    self.sim.state.players.insert(id, player);
                    proof {
                        assert(PlayerState::table(self.sim.state.players@) =~= world@.players.insert(
                            id,
                            corrected,
                        ));
                    }
                } else {
                    assert(world@.players =~= world@.players.insert(id, server@));
                }
            },
            (Some(server), None) => {
                assert(world@.players =~= world@.players.insert(id, server@));
            },
            _ => {},
        }
    }
}

impl Session {
    /// Takes the last world that the server has sent into account.
    pub fn reconcile_server_state(&mut self)
        ensures
            final(self)@ == old(self)@.reconciled(),
    {
        if let Some(id) = self.client.id {
            if let Some(world) = &self.cache.state {
                if let Some(mut local) = self.local.take() {
                    local.reconcile(id, world);
                    self.local = Some(local);
                }
            }
        }
    }
}

} // verus!
