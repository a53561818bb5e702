//! Verified core of a tiled-map renderer: an axis-aligned rectangle kernel,
//! a tile-grid compositor over in-memory pixel buffers, and the coordinate
//! transforms that place region frames and marker icons into a viewport.

pub mod buffer;
pub mod compose;
pub mod markers;
pub mod models;
pub mod point;
pub mod rect;
pub mod search;
