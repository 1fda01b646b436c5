//! Diagonal canvas-fill engine: maps an ordered sequence of RGB color
//! samples onto a square pixel grid with one of two deterministic
//! diagonal-plotting algorithms (smooth blending or diamond gradient).

pub mod buffer;
pub mod canvas;
pub mod color;
pub mod fill;
pub mod laws;
