//! Conway's Game of Life on a rectangular board, with an optional toroidal
//! neighbourhood and a pluggable transition rule, and the integer part of
//! converting colours between HSV and RGB for drawing the generations.

pub mod board;
pub mod color;
pub mod life;
pub mod rules;
pub mod walker;
