//! Rules and state of a falling-block puzzle: the playfield, the piece under
//! the player's control, gravity, collisions, rotation with wall correction,
//! line clearing, scoring and game over.

pub mod geometry;
pub mod piece;
pub mod model;
pub mod board;
pub mod laws;
