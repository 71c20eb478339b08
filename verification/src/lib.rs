//! A small organism simulation: circular entities move inside a rectangular
//! arena, bounce off its walls, and absorb strictly smaller neighbours that
//! fall entirely inside their radius, growing by the absorbed size.
//!
//! All coordinates, sizes and speeds are fixed-point integers (thousandths of
//! a world unit), so every stage of the simulation is exact integer
//! arithmetic.

pub mod components;
pub mod game;
pub mod geometry;
pub mod laws;
pub mod stages;
pub mod world;
