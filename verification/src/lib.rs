//! Fog-of-war state model for a tile grid.
//!
//! A single observer moves over a rectangular grid; each tile carries a
//! shadow opacity and an "explored" flag. Tiles within visibility range of
//! the observer are lit according to a linear distance falloff, and tiles
//! once explored keep their last opacity as a memory when the observer
//! leaves range. Opacities are held in integer thousandths so that every
//! value and every update rule is exact.

pub mod falloff;
pub mod fog;
pub mod game;
