//! Streaming of an unbounded grid of square chunks around a moving
//! viewpoint.
//!
//! A window of chunk coordinates is drawn, and every chunk within a margin
//! around the window is kept loaded. When the viewpoint crosses a chunk
//! boundary the window moves one chunk with it, and the line of chunks that
//! comes into reach on the far side is built, so that the viewpoint never
//! runs into a chunk that is missing.

pub mod chunk;
pub mod constants;
pub mod grid;
pub mod motion;
pub mod player;
pub mod window;
pub mod world;
