//! Hover Train: the world simulation and the client-side rules of a small
//! multiplayer game, verified.

pub mod binary32;
pub mod client;
pub mod history;
pub mod laws;
pub mod rules;
pub mod sim;
pub mod tables;
pub mod tick;
pub mod uuids;
pub mod world;

pub use binary32::Binary32;
pub use rules::{GameConfig, Heading};
pub use sim::GameSim;
pub use world::{ClientToServer, Item, ItemId, PlayerId, PlayerState, ServerToClient, TurnInput};
pub use world::{Vec3, WorldState};
