//! Core of a tile-based pseudo-3D engine: the tile map and its loader for the
//! RRM text format, and the finite-state game controller with its menus.
//!
//! Everything here is plain data and decisions. The collaborators that poll
//! input, rasterize text and submit draw primitives live outside this crate
//! and talk to it through plain values.

pub mod game_state;
pub mod parse;
pub mod rrm;
pub mod tile_map;

pub use game_state::{GameState, GameStateManager};
pub use rrm::{map_initialize, read_map_data, FileInfo, MapError};
pub use tile_map::{Cell, TileMap};
