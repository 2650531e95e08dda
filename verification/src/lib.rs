//! A Minesweeper engine: board generation, the per-cell state machine and the
//! cascading reveal through regions without neighbouring bombs.

pub mod board;
pub mod cascade;
pub mod cell;
pub mod error;
pub mod game;
pub mod model;
pub mod moves;
pub mod rng;
pub mod worklist;
