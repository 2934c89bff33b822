//! The failure kinds of the PNG chunk codec.

use vstd::prelude::*;

verus! {

/// Representing the various errors associated with this application.
///
/// Each variant carries the structured values relevant to the failure, so
/// that callers and tests can inspect what went wrong without parsing a
/// message string.
#[derive(Debug, Clone, Copy, PartialEq, Eq)]
#[allow(inconsistent_fields)]
pub enum ProgramError {
    /// Fewer bytes were available than the structure declares: a short read
    /// of the signature, a length field, chunk data or a CRC field.
    Truncated,
    /// The first eight bytes of the stream are not the standard PNG
    /// signature; carries the bytes that were received.
    SignatureMismatch { received: [u8; 8] },
    /// The CRC recomputed over chunk type and data differs from the CRC
    /// stored in the stream.
    CrcMismatch { expected: u32, received: u32 },
    /// A declared chunk length exceeds the format's limit of 2^31 - 1.
    LengthLimitExceeded { length: u64 },
    /// Chunk data is not valid UTF-8, though a text view was requested.
    InvalidUtf8,
    /// No chunk of the requested type exists.
    ChunkNotFound,
}

/// Representing returned results for various operations in this application.
pub type ProgramResult<T> = Result<T, ProgramError>;

} // verus!
