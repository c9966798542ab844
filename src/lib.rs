//! Axial hexagonal-grid math for a tile board, and a welded triangle mesh of
//! a prism over a regular polygon, with their contracts proved by Verus.
pub mod board;
pub mod controls;
pub mod coord;
pub mod mesh;
pub mod prism;
