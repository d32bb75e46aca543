//! A Conway's Game of Life engine: a fixed-size, double-buffered grid of
//! cells that is advanced one generation at a time.
//!
//! The engine itself is pure computation; rendering, pointer input and the
//! periodic timer that drives the simulation are collaborators of the host
//! environment and live outside this crate's verified core.

pub mod engine;
pub mod game;
pub mod ui;
