//! The discrete core of an offline Monte Carlo path tracer.
//!
//! Everything here works on integers and plain collections: how an image is
//! cut into tiles and put back together, how a bounding-volume hierarchy is
//! laid out over sort keys, how the Perlin lattice is shuffled and addressed,
//! how an image texture is addressed, and which step a light path takes next.
//! The numeric shading code that surrounds these pieces lives with the
//! renderer binary.

pub mod bvh;
pub mod film;
pub mod image_texture;
pub mod integrator;
pub mod perlin;
pub mod random;
pub mod tiles;
