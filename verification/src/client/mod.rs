//! The rules of the client: what it keeps, what it predicts, what it sends and
//! what it shows.

pub mod carts;
pub mod color;
pub mod grid;
pub mod history;
pub mod hud;
pub mod laws;
pub mod loading;
pub mod looks;
pub mod motion;
pub mod ping;
pub mod predict;
pub mod pump;
pub mod reconcile;
pub mod scene;
pub mod session;
pub mod showing;
pub mod smoothing;
pub mod talk;
pub mod timer;
pub mod trailers;
pub mod url;
