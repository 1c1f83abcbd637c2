//! The simulation core of a grid-based snake game.
//!
//! The snake is a path of points; between consecutive points lie segments,
//! and a cell of the board is free when its centre lies on none of them. All
//! coordinates and lengths are fixed-point numbers, lengths with a finer
//! grain than coordinates (see `fixed`).

pub mod error;
pub mod fixed;
pub mod food;
pub mod game;
pub mod segment;
pub mod vector;

pub use error::GameError;
pub use food::{free_positions, get_food, get_food_with, select_food};
pub use game::Game;
pub use segment::{get_segments_from_vectors, Segment};
pub use vector::Vector;
