//! Core of an isometric tile-world renderer: exact coordinate transforms
//! between world space and the isometric screen plane, a dense 3-D block
//! grid with safe accessors, painter's-algorithm depth ordering, the
//! occlusion/shading heuristics, discrete facing resolution and the
//! straight-line velocity integration step.
//!
//! All coordinates are exact rationals ([`rational::Rat`]), so the screen
//! transform has an exact inverse and every rule below is stated and proved
//! over the mathematical value of each coordinate.

pub mod rational;
pub mod math;
pub mod world;
pub mod objects;
pub mod render;
