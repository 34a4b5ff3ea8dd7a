//! Conway's Game of Life on a fixed-size rectangular grid.
//!
//! The grid itself is stored in an [`array2d::Array2D`]; this crate wraps the
//! few methods it needs behind contracts and verifies everything built on top:
//! the cell-state transition rule, neighbor counting with its boundary policy,
//! the double-buffered generation loop, and the text encoding of grids.

pub mod grid;
pub mod engine;
pub mod codec;
