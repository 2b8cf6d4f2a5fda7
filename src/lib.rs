//! Elementwise combination of two integer matrices of possibly different
//! shapes, with zero-padding, on a host path and on a tiled grid path that
//! runs the same per-position kernel a device runs.
pub mod shape;
pub mod layout;
pub mod cpu;
pub mod tiling;
pub mod kernel;
pub mod pipeline;
pub mod laws;
