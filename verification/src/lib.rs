//! Rule engine of a grid-based box-pushing puzzle: level text parsing,
//! interior/exterior floor classification, move resolution and the solved
//! predicate, each with a machine-checked contract.

pub mod grid;
pub mod tile;
pub mod state;
pub mod topology;
pub mod level;
pub mod camera;
pub mod input;
pub mod game;
pub mod text;
pub mod loader;
pub mod sprites;
