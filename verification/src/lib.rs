//! A 4x4 tile-merging puzzle engine: directional moves compress and merge
//! power-of-two tiles, a session tracks wins and losses, and a spawner places
//! a fresh tile after every move that changed the board.

pub mod engine;
pub mod laws;
pub mod model;
mod rng;

pub use engine::App;
pub use model::Direction;
