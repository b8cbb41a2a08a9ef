//! A sliding-tile puzzle on a square board: the tiles, the board with its
//! move rules, and the events and scene that connect it to a user interface.

pub mod tile;
pub mod state;
pub mod laws;
pub mod random;
pub mod puzzle;
pub mod controller;
pub mod scene;

pub use crate::controller::Message;
pub use crate::puzzle::Puzzle;
pub use crate::scene::{Button, Scene, Status};
pub use crate::state::{GRID_SIZE, SHUFFLE_STEPS};
pub use crate::tile::Tile;
