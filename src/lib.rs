//! Life-like cellular automata on a bounded grid: a binary variant over
//! alive/dead cells and a colored variant whose newborn cells inherit a hue
//! mixed from the live neighbors that caused the birth.

pub mod board;
pub mod color;
pub mod grid_ops;
pub mod lifelike;
pub mod lifelikecolor;
