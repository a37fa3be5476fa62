//! A tick-driven 2D atmospheric simulation engine for a tile-based world.
//!
//! Each tick advances a square grid of tiles: walls are recomputed, gas is
//! redistributed along rows and columns by a spring-chain momentum model,
//! and a post-processing pass applies tile modes, heat conduction, chemical
//! reactions, numeric sanitization and interestingness classification.
//!
//! All quantities are fixed-point scalars ([`fixnum::Fix`]) so that every
//! arithmetic step has an exact, machine-checked meaning.

pub mod constants;
pub mod fixnum;
pub mod model;
pub mod outside;
pub mod simulate;
pub mod spring_chain;
