//! Procedural mazes and their geometry: a seeded depth-first carver on a doubled grid,
//! and the conversion of its cells into positioned unit cubes for a renderer.

pub mod point;
pub mod maze;
pub mod cube;
pub mod renderable_map;
pub mod controls;
