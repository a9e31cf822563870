//! Conway's Game of Life on a fixed-size square grid.
//!
//! The grid is bordered by dead cells: there is no wrap-around. A generation
//! step reads one consistent snapshot of the grid, so the outcome for a cell
//! never depends on the order in which the cells are visited.

pub mod cell;
mod entropy;
pub mod grid;
pub mod laws;
pub mod picture;
pub mod runs;
pub mod cell_buffer;
pub mod universe;
