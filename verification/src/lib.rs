//! Rules engine of a falling-block puzzle game.
//!
//! The engine owns a level grid of locked cells, the piece that is currently
//! falling, and a game state. Input events and periodic ticks drive a state
//! machine that moves, rotates, locks and spawns pieces and clears full rows.
//! Grids are stored in the `matrix` crate's dense matrix type; everything the
//! engine does with them is specified over a mathematical view of their cells.

pub mod game;
pub mod grid;
pub mod shape;
