//! A falling-block puzzle engine: shape catalog, seeded piece stream,
//! board rules (moves, wall kicks, locking, line clears) and a session of
//! independent boards.

pub mod shape;
pub mod collector;
pub mod board;
pub mod bot;
pub mod game;
