//! A falling-block puzzle engine: piece geometry, a playfield with collision
//! and kick resolution, line clearing, a bag-randomised piece supply and the
//! drop/lock timing state machine, each with a contract that Verus proves.

pub mod pos;
pub mod lrd;
pub mod block;
mod shuffle;
pub mod command;
pub mod grid_model;
pub mod grid_laws;
pub mod color_grid;
pub mod board;
pub mod queue;
pub mod score;
pub mod tetris;
pub mod theme;
pub mod timer;
