//! The ways in which reading or writing a region can fail.

use vstd::prelude::*;

verus! {

/// Why a region could not be encoded or decoded.
#[derive(Clone, Copy, Debug, PartialEq, Eq, Structural)]
pub enum LinearError {
    /// The file name does not spell the region's two coordinates.
    PathFormat,
    /// The data ends before a field that the format asks for.
    UnexpectedEof,
    /// zstd could not compress the payload, or the payload is no zstd frame.
    Compression,
    /// A chunk, or the compressed payload, is longer than a 32-bit length
    /// field can say.
    TooLarge,
    /// The first eight bytes spell this number, which is not the signature.
    InvalidSignature(i64),
    /// The version byte holds this number, which no supported version has.
    InvalidVersion(i8),
    /// The last eight bytes spell this number, which is not the signature.
    InvalidFooterSignature(i64),
    /// The sizes of the slot table do not add up to the bytes that follow it.
    InvalidDecompressedSize,
    /// The header declares `declared` chunks, the slot table holds `actual`.
    InvalidChunkCount { declared: i16, actual: i16 },
    /// A populated slot lies at world coordinates beyond the range of
    /// `usize`, so far out are the region's coordinates.
    CoordinateOverflow,
}

} // verus!
