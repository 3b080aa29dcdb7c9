//! Core logic of a grid-based snake game: the snake itself (an ordered
//! sequence of cells with a heading), and the game state machine around it
//! (food, board limits, the game-over flag and the restart countdown).
//!
//! Rendering and keyboard plumbing are left to the embedding program; the
//! library works on plain grid coordinates and integer millisecond timings.

pub mod game;
pub mod snake;
