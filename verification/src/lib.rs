//! Conway's Game of Life on a fixed-size toroidal grid.
//!
//! A [`World`] owns the dimensions and the current generation, stored as a
//! flat row-major buffer of [`Cell`]s. Every operation is specified against
//! [`Grid`], the mathematical model of a generation.

pub mod cell;
pub mod grid;
pub mod laws;
pub mod point;
pub mod world;

pub use cell::Cell;
pub use grid::Grid;
pub use point::Point;
pub use world::World;
pub use world::WorldError;
