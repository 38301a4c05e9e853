//! Tiling layouts for an ordered collection of windows: rectangle geometry,
//! the `Layout` interface, two partitioning algorithms and a combinator that
//! chooses between two layouts.

pub mod ratio;
pub mod geometry;
pub mod stack;
pub mod message;
pub mod layout;
pub mod fibonacci;
pub mod tatami;
pub mod conditional;
