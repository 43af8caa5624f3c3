//! A procedurally generated hexagonal-grid world: terrain synthesis from
//! layered noise with a radial falloff, classification of cells into tiles,
//! spawn and exit placement, fog-of-war visibility, and step-wise movement
//! validation. All geometry is carried out in exact integer arithmetic.

pub mod hex;
pub mod height;
pub mod map;
mod rng;
pub mod game;

pub use hex::Cube;
pub use hex::Hex;
