//! The state of the world and what clients and server tell each other of it.

use crate::binary32::Binary32;
use std::collections::{HashMap, VecDeque};
use vstd::prelude::*;

verus! {

/// The 128 bits of a player's UUID.
pub type PlayerId = u128;

/// The 128 bits of an item's UUID.
pub type ItemId = u128;

#[derive(Debug, Clone, Copy, PartialEq, Eq, Structural)]
pub struct Vec3 {
    pub x: Binary32,
    pub y: Binary32,
    pub z: Binary32,
}

#[derive(Debug, Clone, Copy, PartialEq, Eq, Structural)]
pub enum TurnInput {
    Left,
    Right,
    Straight,
}

#[derive(Debug, Clone)]
pub struct PlayerState {
    pub id: PlayerId,
    pub position: Vec3,
    /// Yaw angle in radians.
    pub rotation_y: Binary32,
    /// Where the train has been, the newest place first.
    pub train: VecDeque<Vec3>,
    pub alive: bool,
}

#[derive(Debug, Clone, Copy, PartialEq, Eq, Structural)]
pub struct Item {
    pub pos: Vec3,
    pub id: ItemId,
}

#[derive(Debug, Clone)]
pub struct WorldState {
    /// Half the side of the world.
    pub world_size: Binary32,
    pub players: HashMap<PlayerId, PlayerState>,
    pub items: HashMap<ItemId, Item>,
    pub tick: u64,
}

#[derive(Debug, Clone)]
pub enum ClientToServer {
    Hello { name: String },
    Input { turn: TurnInput },
    Ping(u64),
}

#[derive(Debug, Clone)]
pub enum ServerToClient {
    Welcome { id: PlayerId, world_size: Binary32 },
    State(WorldState),
    Pong(u64),
    YouDied,
}

/// What a player is, with the train as a sequence.
#[verifier::ext_equal]
pub ghost struct PlayerView {
    pub id: PlayerId,
    pub position: Vec3,
    pub rotation_y: Binary32,
    pub train: Seq<Vec3>,
    pub alive: bool,
}

/// What the world is, with its tables as maps.
#[verifier::ext_equal]
pub ghost struct WorldView {
    pub world_size: Binary32,
    pub players: Map<PlayerId, PlayerView>,
    pub items: Map<ItemId, Item>,
    pub tick: u64,
}

impl View for PlayerState {
    type V = PlayerView;

    open spec fn view(&self) -> PlayerView {
        PlayerView {
            id: self.id,
            position: self.position,
            rotation_y: self.rotation_y,
            train: self.train@,
            alive: self.alive,
        }
    }
}

impl PlayerState {
    /// A table of players, each as its view.
    pub open spec fn table(players: Map<PlayerId, PlayerState>) -> Map<PlayerId, PlayerView> {
        players.map_values(|player: PlayerState| player@)
    }
}

impl View for WorldState {
    type V = WorldView;

    open spec fn view(&self) -> WorldView {
        WorldView {
            world_size: self.world_size,
            players: PlayerState::table(self.players@),
            items: self.items@,
            tick: self.tick,
        }
    }
}

impl WorldView {
    /// Every player stands under its own id.
    pub open spec fn players_keyed(self) -> bool {
        forall|k: PlayerId| #[trigger]
            self.players.contains_key(k) ==> self.players[k].id == k
    }

    /// Every item stands under its own id.
    pub open spec fn items_keyed(self) -> bool {
        forall|k: ItemId| #[trigger] self.items.contains_key(k) ==> self.items[k].id == k
    }

    /// Every player and every item stands under its own id.
    pub open spec fn keyed(self) -> bool {
        self.players_keyed() && self.items_keyed()
    }
}

} // verus!
