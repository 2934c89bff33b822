//! A library for manipulating PNG files at the chunk level: parsing and
//! validating the file signature, the typed, CRC-checked chunk records, and
//! the lossless re-encoding of the whole container, together with the
//! operations that hide, retrieve and remove a text message stored in a
//! custom chunk.

pub mod chunk;
pub mod chunk_type;
pub mod commands;
pub mod error;
pub mod png;
pub mod utils;
