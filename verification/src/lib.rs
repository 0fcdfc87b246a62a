//! Reading and writing the chunk structure of PNG files, so that a text
//! message can be kept in a chunk that image viewers pass over.
//!
//! The crate has three layers, each resting on the one before it:
//! a four-letter [`ChunkType`], a checksummed [`Chunk`], and a [`Png`]:
//! the file signature followed by chunks in order.

pub mod error;
pub mod endian;
pub mod checksum;
pub mod chunk_type;
pub mod text;
pub mod chunk;
pub mod png;
pub mod commands;

pub use error::PngError;
