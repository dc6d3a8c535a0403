//! A persistent, insertion-ordered associative container.
//!
//! The map composes two independently persistent substructures: a hash index
//! (hash code to slot position) and an ordered slot sequence (position to
//! live bucket or tombstone). Lookups probe the index and re-check key
//! equality; functional writes share structure with the receiver and return
//! a fresh snapshot; mutating writes evolve one owned aggregate in place.
//! A companion set specializes the map with a unit value type.

pub mod keys;
pub mod backing;
pub mod model;
pub mod map;
pub mod set;
pub mod laws;
