//! A falling-sand particle simulator on a 2-D grid of cells.
//!
//! Each cell carries a material species and a velocity in fixed-point
//! coordinates; the board advances through a per-frame pipeline of gravity,
//! pairwise momentum exchange with friction, and discrete cell relocation.

pub mod fx;
pub mod vec2;
pub mod species;
pub mod cell;
pub mod gridstore;
pub mod board;
