//! A verified library for a chunk-based binary container in the PNG layout:
//! an 8-byte signature followed by length-prefixed, type-tagged, checksummed
//! records. It parses, validates, mutates and re-serializes such containers,
//! so that an arbitrary payload can be stored under a caller-chosen chunk type
//! and retrieved again.

pub mod chunk;
pub mod chunk_type;
pub mod error;
pub mod ops;
pub mod png;
pub mod wire;
