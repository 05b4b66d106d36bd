//! What a client keeps of one connection to the server.

use crate::binary32::Binary32;
use crate::client::timer::{Timer, TimerMode};
use crate::rules::{GameConfig, HOVER_HEIGHT};
use crate::sim::{GameSim, SimView};
use crate::world::{ClientToServer, PlayerId, PlayerState, PlayerView, TurnInput, Vec3};
use crate::world::{WorldState, WorldView};
use std::collections::VecDeque;
use vstd::prelude::*;

verus! {

broadcast use vstd::std_specs::hash::group_hash_axioms;

/// How long the client waits between two inputs: 0.05 seconds as a binary32
/// number, in whole nanoseconds.
pub const INPUT_PERIOD: u64 = 50_000_001;

/// Who the client is, as the server has told it.
#[derive(Debug, Clone, Copy, PartialEq, Eq, Structural)]
pub struct ClientInfo {
    pub id: Option<PlayerId>,
    pub world_size: Binary32,
}

/// The last world that the server has sent.
pub struct WorldCache {
    pub state: Option<WorldState>,
    pub last_tick: u64,
}

/// The client's own copy of the simulation.
pub struct LocalSim {
    pub sim: GameSim,
    pub last_server_tick: u64,
}

pub struct Session {
    pub client: ClientInfo,
    pub cache: WorldCache,
    pub local: Option<LocalSim>,
    pub input_timer: Option<Timer>,
}

/// What a copy of the simulation is, with its tables as maps.
pub ghost struct LocalView {
    pub sim: SimView,
    pub last_server_tick: u64,
}

/// What a session is, with its tables as maps.
pub ghost struct SessionView {
    pub client: ClientInfo,
    pub cached: Option<WorldView>,
    pub last_tick: u64,
    pub local: Option<LocalView>,
    pub input_timer: Option<Timer>,
}

impl View for LocalSim {
    type V = LocalView;

    open spec fn view(&self) -> LocalView {
        LocalView { sim: self.sim@, last_server_tick: self.last_server_tick }
    }
}

impl View for Session {
    type V = SessionView;

    open spec fn view(&self) -> SessionView {
        SessionView {
            client: self.client,
            cached: match self.cache.state {
                Some(world) => Some(world@),
                None => None,
            },
            last_tick: self.cache.last_tick,
            local: match self.local {
                Some(local) => Some(local@),
                None => None,
            },
            input_timer: self.input_timer,
        }
    }
}

impl LocalView {
    /// The player that stands in the middle of a new world until the server
    /// tells where it is; it has no train yet.
    pub open spec fn placeholder(id: PlayerId) -> PlayerView {
        PlayerView {
            id,
            position: Vec3 {
                x: Binary32 { bits: 0 },
                y: Binary32 { bits: HOVER_HEIGHT },
                z: Binary32 { bits: 0 },
            },
            rotation_y: Binary32 { bits: 0 },
            train: Seq::empty(),
            alive: true,
        }
    }

    /// A new copy of the simulation that holds a single player.
    pub open spec fn started(id: PlayerId, world_size: Binary32) -> LocalView {
        LocalView {
            sim: SimView {
                cfg: GameConfig::sized(world_size),
                state: WorldView {
                    world_size,
                    players: Map::empty().insert(id, Self::placeholder(id)),
                    items: Map::empty(),
                    tick: 0,
                },
                pending_inputs: Map::empty(),
            },
            last_server_tick: 0,
        }
    }
}

impl SessionView {
    /// A session that has heard nothing yet.
    pub open spec fn silent() -> SessionView {
        SessionView {
            client: ClientInfo { id: None, world_size: Binary32 { bits: 0 } },
            cached: None,
            last_tick: 0,
            local: None,
            input_timer: None,
        }
    }

    /// The session after the server has welcomed the client: whatever was
    /// known of the world is dropped.
    pub open spec fn welcomed(self, id: PlayerId, world_size: Binary32) -> SessionView {
        SessionView {
            client: ClientInfo { id: Some(id), world_size },
            cached: None,
            local: Some(LocalView::started(id, world_size)),
            ..self
        }
    }

    /// The session after the server has sent a world.
    pub open spec fn informed(self, world: WorldView) -> SessionView {
        SessionView { cached: Some(world), ..self }
    }

    /// Whether inputs can be sent at all.
    pub open spec fn can_send(self, connected: bool) -> bool {
        connected && self.client.id is Some && self.local is Some
    }

    /// The timer of the inputs after a frame.
    pub open spec fn next_timer(self, delta: u64) -> Timer {
        match self.input_timer {
            Some(timer) => timer.ticked(delta),
            None => Timer::fresh(INPUT_PERIOD, TimerMode::Repeating).ticked(delta),
        }
    }

    /// The session after an input was submitted to its own simulation.
    pub open spec fn submitted(self, id: PlayerId, turn: TurnInput) -> SessionView {
        let local = self.local->0;
        SessionView {
            local: Some(
                LocalView { sim: local.sim.asked(id, turn), ..local },
            ),
            ..self
        }
    }
}

impl TurnInput {
    /// The turn that two keys ask for; the left one goes first.
    pub open spec fn of_keys(left: bool, right: bool) -> TurnInput {
        if left {
            TurnInput::Left
        } else if right {
            TurnInput::Right
        } else {
            TurnInput::Straight
        }
    }

    pub fn from_keys(left: bool, right: bool) -> (turn: TurnInput)
        ensures
            turn == Self::of_keys(left, right),
    {
        if left {
            TurnInput::Left
        } else if right {
            TurnInput::Right
        } else {
            TurnInput::Straight
        }
    }
}

impl LocalSim {
    /// A new copy of the simulation that holds a single player.
    pub fn start(id: PlayerId, world_size: Binary32) -> (local: LocalSim)
        ensures
            local@ == LocalView::started(id, world_size),
    {
        let mut sim: GameSim = GameSim::new(GameConfig::with_world_size(world_size));
        let player: PlayerState = PlayerState {
            id,
            position: Vec3 {
                x: Binary32 { bits: 0 },
                y: Binary32 { bits: HOVER_HEIGHT },
                z: Binary32 { bits: 0 },
            },
            rotation_y: Binary32 { bits: 0 },
            train: VecDeque::new(),
            alive: true,
        };
        sim.state.players.insert(id, player);
        proof {
            assert(player@ == LocalView::placeholder(id));
            assert(sim@.state.players =~= LocalView::started(id, world_size).sim.state.players);
        }
        LocalSim { sim, last_server_tick: 0 }
    }
}

impl Session {
    /// A session that has heard nothing yet.
    pub fn new() -> (session: Session)
        ensures
            session@ == SessionView::silent(),
    {
        Session {
            client: ClientInfo { id: None, world_size: Binary32 { bits: 0 } },
            cache: WorldCache { state: None, last_tick: 0 },
            local: None,
            input_timer: None,
        }
    }

    pub fn receive_welcome(&mut self, id: PlayerId, world_size: Binary32)
        ensures
            final(self)@ == old(self)@.welcomed(id, world_size),
    {
        self.client.id = Some(id);
        self.client.world_size = world_size;
        self.cache.state = None;
        self.local = Some(LocalSim::start(id, world_size));
    }

    pub fn receive_state(&mut self, world: WorldState)
        ensures
            final(self)@ == old(self)@.informed(world@),
    {
        self.cache.state = Some(world);
    }

    /// Sends what the keys ask for, at a fixed rate, and applies it to the
    /// client's own simulation at once. Returns the message to send, if any.
    pub fn send_player_input(
        &mut self,
        connected: bool,
        delta: u64,
        left: bool,
        right: bool,
    ) -> (message: Option<ClientToServer>)
        ensures
            ({
                let pre = old(self)@;
                let timer = pre.next_timer(delta);
                let timed = SessionView { input_timer: Some(timer), ..pre };
                let turn = TurnInput::of_keys(left, right);
                if !pre.can_send(connected) {
                    message is None && final(self)@ == pre
                } else if timer.times_finished == 0 {
                    message is None && final(self)@ == timed
                } else {
                    message == Some(ClientToServer::Input { turn }) && final(self)@
                        == timed.submitted(pre.client.id->0, turn)
                }
            }),
    {
        let id: PlayerId = match self.client.id {
            Some(id) => id,
            None => {
                return None;
            },
        };
        if !connected || self.local.is_none() {
            return None;
        }
        let mut timer: Timer = match self.input_timer {
            Some(timer) => timer,
            None => Timer::new(INPUT_PERIOD, TimerMode::Repeating),
        };
        timer.tick(delta);
        self.input_timer = Some(timer);
        if !timer.just_finished() {
            return None;
        }
        let turn: TurnInput = TurnInput::from_keys(left, right);
        if let Some(mut local) = self.local.take() {
            local.sim.submit_input(id, turn);
            self.local = Some(local);
        }
        Some(ClientToServer::Input { turn })
    }
}

} // verus!
