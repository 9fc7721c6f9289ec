//! A masonry layout engine.
//!
//! Given an ordered store of items, each with an intrinsic (source) width and
//! height, the engine assigns every item a rendered size and a position so
//! that the items tile a container of a given width. Two strategies are
//! offered: row packing (`compute`), which fills fixed-height rows and then
//! rescales each completed row to span the container exactly, and column
//! balancing (`compute_vertical`), which distributes items greedily over
//! fixed-width columns, always choosing the currently shortest column.
//!
//! All geometry is integer arithmetic. Wherever the layout divides by a
//! source dimension, a zero divisor is clamped to one, so degenerate items
//! (unknown or zero intrinsic sizes) produce zero-sized output instead of an
//! error.

pub mod columns;
pub mod laws;
pub mod minmax;
pub mod model;
pub mod rows;
pub mod store;

pub use store::{Layout, LayoutError, Transform};
