//! A bounded-domain, two-dimensional spatial point index.
//!
//! The crate stores (coordinate, payload) pairs inside a fixed rectangular
//! universe and answers exact-point lookups and axis-aligned range queries
//! through a quadtree. Coordinates are plain `i64` values, so callers working
//! in a continuous domain pick a resolution and scale their coordinates to
//! integers before indexing; equality of points is exact.
//!
//! Every operation carries a contract relating it to the flat sequence of
//! entries the tree holds, and the contracts are machine-checked.

pub mod buffer;
pub mod fixel;
pub mod geometry;
pub mod quadtree;
pub mod rand_draw;

pub use crate::buffer::RelaxedBuffer;
pub use crate::buffer::pixel_offset;
