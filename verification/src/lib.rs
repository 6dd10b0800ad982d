//! A falling-block puzzle engine, verified with Verus.
//!
//! The engine owns the playfield, the pieces in play, in preview and on hold,
//! the bag randomizer, the counters and the timing of lock and repeat delays.
//! A caller hands it the time and the input of each tick and reads the state
//! back to draw it.
//!
//! - `global`: the constants, the shape catalogue and the kick tables.
//! - `tetromino`: a piece, its mask, its rotation states.
//! - `bag`: the seven-piece bag and where its refills come from.
//! - `grid`: the playfield, the collision resolver, locking and line clears.
//! - `timing`: the input of a tick and the delays that gate it.
//! - `game`: the state of a run and what a tick does to it.
//! - `laws`: what follows for rotation, line clears, scoring, hold and game over.

pub mod bag;
pub mod game;
pub mod global;
pub mod grid;
pub mod laws;
pub mod tetromino;
pub mod timing;
