//! Moving the client's own player between two words of the server.

use crate::binary32::Binary32;
use crate::client::session::{LocalSim, LocalView, Session, SessionView};
use crate::rules::{GameConfig, Heading};
use crate::world::{PlayerId, PlayerState, PlayerView, TurnInput, Vec3};
use vstd::prelude::*;

verus! {

broadcast use vstd::std_specs::hash::group_hash_axioms;

/// How far from an edge a player is held, 0.5.
pub const PLAYER_RADIUS: u32 = 0x3f00_0000;

/// Where a player stands and which way it looks.
#[derive(Debug, Clone, Copy, PartialEq, Eq, Structural)]
pub struct Pose {
    pub position: Vec3,
    pub rotation_y: Binary32,
}

impl GameConfig {
    /// The least coordinate at which the client shows its player.
    pub open spec fn low_edge(self) -> Binary32 {
        self.world_size.opposite().sum(Binary32 { bits: PLAYER_RADIUS })
    }

    /// The greatest coordinate at which the client shows its player.
    pub open spec fn high_edge(self) -> Binary32 {
        self.world_size.difference(Binary32 { bits: PLAYER_RADIUS })
    }
}

impl PlayerView {
    /// The angle after a frame.
    pub open spec fn steered(self, turn: TurnInput, dt: Binary32, cfg: GameConfig) -> Binary32 {
        self.rotation_y.turned(Some(turn), cfg.turn_speed.product(dt))
    }

    /// The player after a frame: turned, moved, held between the edges, and
    /// with its train following.
    pub open spec fn predicted(
        self,
        turn: TurnInput,
        heading: Heading,
        dt: Binary32,
        cfg: GameConfig,
    ) -> PlayerView {
        let place = self.position.moved(heading, cfg.player_speed, dt);
        let low = cfg.low_edge();
        let high = cfg.high_edge();
        PlayerView {
            rotation_y: self.steered(turn, dt, cfg),
            position: Vec3 {
                x: place.x.within(low, high),
                y: place.y,
                z: place.z.within(low, high),
            },
            ..self
        }.followed(false)
    }
}

impl SessionView {
    /// Whether the client has a living player of its own to move.
    pub open spec fn can_move(self) -> bool {
        &&& self.client.id is Some
        &&& self.local is Some
        &&& self.local->0.sim.lives(self.client.id->0)
    }

    /// The client's own player.
    pub open spec fn own_player(self) -> PlayerView {
        self.local->0.sim.state.players[self.client.id->0]
    }

    /// The client's own player after a frame.
    pub open spec fn predicted_player(
        self,
        turn: TurnInput,
        direction: Heading,
        dt: Binary32,
    ) -> PlayerView {
        self.own_player().predicted(turn, direction, dt, self.local->0.sim.cfg)
    }

    /// Whether `direction` is one that `heading` gives for the angle at which
    /// the client's own player moves.
    pub open spec fn may_head<H: Fn(Binary32) -> Heading>(
        self,
        heading: &H,
        turn: TurnInput,
        dt: Binary32,
        direction: Heading,
    ) -> bool {
        call_ensures(
            heading,
            (self.own_player().steered(turn, dt, self.local->0.sim.cfg),),
            direction,
        )
    }

    /// The session with another state of the client's own player.
    pub open spec fn with_own_player(self, player: PlayerView) -> SessionView {
        let local = self.local->0;
        SessionView {
            local: Some(
                LocalView { sim: local.sim.with_player(self.client.id->0, player), ..local },
            ),
            ..self
        }
    }
}

impl PlayerState {
    /// Moves the player for one frame, between the edges.
    pub fn predict<H: Fn(Binary32) -> Heading>(
        &mut self,
        turn: TurnInput,
        dt: Binary32,
        cfg: &GameConfig,
        heading: &H,
    ) -> (direction: Ghost<Heading>)
        requires
            cfg.low_edge().at_most(cfg.high_edge()),
            forall|angle: Binary32| #[trigger] call_requires(heading, (angle,)),
        ensures
            call_ensures(heading, (old(self)@.steered(turn, dt, *cfg),), direction@),
            final(self)@ == old(self)@.predicted(turn, direction@, dt, *cfg),
    {
        self.rotation_y = self.rotation_y.turn(Some(turn), cfg.turn_speed.times(dt));
        let direction: Heading = heading(self.rotation_y);
        let place: Vec3 = self.position.forward(direction, cfg.player_speed, dt);
        let low: Binary32 = cfg.world_size.negated().plus(Binary32 { bits: PLAYER_RADIUS });
        let high: Binary32 = cfg.world_size.minus(Binary32 { bits: PLAYER_RADIUS });
        self.position = Vec3 {
            x: place.x.clamp(low, high),
            y: place.y,
            z: place.z.clamp(low, high),
        };
        self.follow(false);
        Ghost(direction)
    }
}

impl Session {
    /// Moves the client's own player for one frame, as the keys ask. Returns
    /// where it is shown, if it is.
    ///
    /// `heading` gives the sine and the cosine of an angle.
    pub fn local_player_move<H: Fn(Binary32) -> Heading>(
        &mut self,
        dt: Binary32,
        left: bool,
        right: bool,
        heading: &H,
    ) -> (pose: Option<Pose>)
        requires
            old(self)@.can_move() ==> old(self)@.local->0.sim.cfg.low_edge().at_most(
                old(self)@.local->0.sim.cfg.high_edge(),
            ),
            forall|angle: Binary32| #[trigger] call_requires(heading, (angle,)),
        ensures
            !old(self)@.can_move() ==> pose is None && final(self)@ == old(self)@,
            old(self)@.can_move() ==> exists|direction: Heading|
                {
                    let after = old(self)@.predicted_player(
                        TurnInput::of_keys(left, right),
                        direction,
                        dt,
                    );
                    &&& #[trigger] old(self)@.may_head(
                        heading,
                        TurnInput::of_keys(left, right),
                        dt,
                        direction,
                    )
                    &&& final(self)@ == old(self)@.with_own_player(after)
                    &&& pose == Some(
                        Pose { position: after.position, rotation_y: after.rotation_y },
                    )
                },
    {
        let ghost pre = self@;
        let id: PlayerId = match self.client.id {
            Some(id) => id,
            None => {
                return None;
            },
        };
        let mut local: LocalSim = match self.local.take() {
            Some(local) => local,
            None => {
                return None;
            },
        };
        let mut pose: Option<Pose> = None;
        let ghost players = local.sim.state.players@;
        if let Some(mut player) = local.sim.state.players.remove(&id) {
            if player.alive {
                let turn: TurnInput = TurnInput::from_keys(left, right);
                let direction: Ghost<Heading> = player.predict(turn, dt, &local.sim.cfg, heading);
                pose = Some(Pose { position: player.position, rotation_y: player.rotation_y });
                assert(player@ == pre.predicted_player(turn, direction@, dt));
                assert(pre.may_head(heading, turn, dt, direction@));
            }
            let ghost moved = player@;
            local.sim.state.players.insert(id, player);
            proof {
                let after = PlayerState::table(local.sim.state.players@);
                assert(after =~= PlayerState::table(players).insert(id, moved));
                if !moved.alive {
                    assert(after =~= PlayerState::table(players));
                }
            }
        } else {
            assert(local.sim.state.players@ =~= players);
        }
        self.local = Some(local);
        pose
    }
}

} // verus!
