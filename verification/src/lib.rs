//! A deterministic text-to-animation engine: an input string is hashed with
//! SHA3-256, the digest seeds a symmetric pattern on a small toroidal grid,
//! Conway's Game of Life is run for a bounded number of generations, and the
//! resulting boards are upscaled by block replication into pixel frames.

pub mod conway;
pub mod grid;
pub mod hash;
pub mod laws;
