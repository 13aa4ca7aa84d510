//! Streams that pass their bytes through a codec.
pub mod deflate;
pub mod passing;
pub mod state;
