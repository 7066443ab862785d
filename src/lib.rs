//! Cell indexing and coverage on the S2 cube-face grid.
//!
//! Cells are 64-bit hierarchical identifiers; coordinates are carried as
//! integer degrees scaled by ten million.
pub mod bucket;
pub mod cell;
pub mod coverage;
pub mod grid;
pub mod region;
pub mod traverse;
