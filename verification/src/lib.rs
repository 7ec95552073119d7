//! A falling-block puzzle engine.
//!
//! - [`block`]: tetromino geometry, shapes as values.
//! - [`state`]: the board as a mathematical value, and each operation of the
//!   board as a function on it.
//! - [`board`]: the board itself, every operation proved against `state`.
//! - [`laws`]: what holds of the board whatever is played.
//! - [`tetris`]: the game on top of the board: score, keys, ticks and the
//!   end of the game.

pub mod block;
pub mod board;
pub mod laws;
pub mod state;
pub mod tetris;
