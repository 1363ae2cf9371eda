//! Simulation of robots driving over a bounded rectangular grid.
//!
//! A mission owns the grid bounds and a table of "scents": markers left at
//! the on-grid departure point of every robot that fell off the grid, which
//! protect later robots from falling off at the same point in the same
//! direction. A streaming parser turns plan text into grid size and robot
//! records, and a formatter renders records and outcomes back to text.

pub mod generator;
pub mod geo;
pub mod mission;
pub mod parser;
pub mod render;
pub mod robot;
pub mod roundtrip;
