//! The layout of a Linear file, as spec functions on bytes.
//!
//! A file is a header of 32 bytes, the compressed payload and a footer of
//! eight bytes. All integers are big-endian.
//!
//! | offset | bytes | field                                         |
//! |--------|-------|-----------------------------------------------|
//! | 0      | 8     | signature                                     |
//! | 8      | 1     | version, 1 or 2                               |
//! | 9      | 8     | newest timestamp, 64 bits in both versions    |
//! | 17     | 1     | compression level, not read back              |
//! | 18     | 2     | number of populated slots                     |
//! | 20     | 4     | length of the compressed payload              |
//! | 24     | 8     | reserved, written as zero and not read back   |
//! | 32     | n     | compressed payload, one zstd frame            |
//! | 32 + n | 8     | signature again                               |
//!
//! The payload, once decompressed, is a table of 1024 entries of eight
//! bytes, a size and a timestamp for each slot, followed by the bytes of
//! the populated slots in slot order.

use crate::compression::{zstd_decoded, zstd_encoded};
use crate::endian::{i16_from_be, i16_to_be, i32_from_be, i32_to_be, i64_from_be, i64_to_be};
use crate::error::LinearError;
use crate::region::{populated, slot_x, slot_z, ChunkModel, RegionModel, SLOT_COUNT};
use vstd::prelude::*;

verus! {

/// The number that opens and closes every Linear file.
pub const LINEAR_SIGNATURE: i64 = -4323716122432332390;

/// The version that this library writes.
pub const LINEAR_VERSION: i8 = 2;

/// The length of the header.
pub const HEADER_LEN: usize = 32;

/// The length of the header's fields that are read back: all but the
/// reserved one.
pub const HEADER_READ_LEN: usize = 24;

/// The length of the footer.
pub const FOOTER_LEN: usize = 8;

/// The length of the slot table: eight bytes for each of the 1024 slots.
pub const TABLE_LEN: usize = 8192;

/// The versions that this library reads.
pub open spec fn supported_version(version: i8) -> bool {
    version == 1 || version == 2
}

/// The byte that records a compression level: its low eight bits.
pub open spec fn level_marker(level: i32) -> u8 {
    level as u8
}

/// The table entry of one slot: the payload's length and the slot's
/// timestamp, or two zeros for an empty slot.
pub open spec fn table_entry(slot: Option<ChunkModel>, timestamp: i32) -> Seq<u8> {
    match slot {
        Some(chunk) => i32_to_be(chunk.data.len() as i32) + i32_to_be(timestamp),
        None => i32_to_be(0) + i32_to_be(0),
    }
}

/// The table entries of the first `n` slots, one after the other.
pub open spec fn slot_table(region: RegionModel, n: nat) -> Seq<u8>
    decreases n,
{
    if n == 0 {
        Seq::empty()
    } else {
        slot_table(region, (n - 1) as nat) + table_entry(
            region.slots[n - 1],
            region.timestamps[n - 1],
        )
    }
}

/// The payloads of the populated slots among `slots`, one after the other.
pub open spec fn chunk_data(slots: Seq<Option<ChunkModel>>) -> Seq<u8>
    decreases slots.len(),
{
    if slots.len() == 0 {
        Seq::empty()
    } else {
        chunk_data(slots.drop_last()) + match slots.last() {
            Some(chunk) => chunk.data,
            None => Seq::empty(),
        }
    }
}

/// The bytes that are compressed for a region: its slot table, then its
/// chunk payloads.
pub open spec fn region_payload(region: RegionModel) -> Seq<u8> {
    slot_table(region, SLOT_COUNT as nat) + chunk_data(region.slots)
}

/// The slot holds a chunk that is too long for the table's 32-bit size.
pub open spec fn oversized(slot: Option<ChunkModel>) -> bool {
    match slot {
        Some(chunk) => chunk.data.len() > i32::MAX,
        None => false,
    }
}

/// Some chunk of the region is too long for the table's 32-bit size.
pub open spec fn has_oversized_chunk(region: RegionModel) -> bool {
    exists|i: int| 0 <= i < region.slots.len() && oversized(#[trigger] region.slots[i])
}

/// The header of a file.
pub open spec fn linear_header(
    newest_timestamp: i64,
    level: i32,
    chunk_count: i16,
    compressed_length: i32,
) -> Seq<u8> {
    i64_to_be(LINEAR_SIGNATURE) + seq![LINEAR_VERSION as u8] + i64_to_be(newest_timestamp)
        + seq![level_marker(level)] + i16_to_be(chunk_count) + i32_to_be(compressed_length)
        + i64_to_be(0)
}

/// The file that holds the compressed payload `compressed`.
pub open spec fn linear_file(
    newest_timestamp: i64,
    level: i32,
    chunk_count: i16,
    compressed: Seq<u8>,
) -> Seq<u8> {
    linear_header(newest_timestamp, level, chunk_count, compressed.len() as i32) + compressed
        + i64_to_be(LINEAR_SIGNATURE)
}

/// The file that a region is written to at a compression level, or the
/// error that stands in its way.
pub open spec fn linear_encode(region: RegionModel, level: i32) -> Result<Seq<u8>, LinearError> {
    if has_oversized_chunk(region) {
        Err(LinearError::TooLarge)
    } else {
        match zstd_encoded(region_payload(region), level) {
            None => Err(LinearError::Compression),
            Some(frame) => if frame.len() > i32::MAX {
                Err(LinearError::TooLarge)
            } else {
                Ok(
                    linear_file(
                        region.newest_timestamp,
                        level,
                        populated(region.slots) as i16,
                        frame,
                    ),
                )
            },
        }
    }
}

/// The number that the first eight bytes of a file spell.
pub open spec fn file_signature(bytes: Seq<u8>) -> i64 {
    i64_from_be(bytes.subrange(0, 8))
}

/// The version that a file declares.
pub open spec fn file_version(bytes: Seq<u8>) -> i8 {
    bytes[8] as i8
}

/// The newest timestamp that a file declares.
pub open spec fn file_newest_timestamp(bytes: Seq<u8>) -> i64 {
    i64_from_be(bytes.subrange(9, 17))
}

/// The number of populated slots that a file declares.
pub open spec fn file_chunk_count(bytes: Seq<u8>) -> i16 {
    i16_from_be(bytes.subrange(18, 20))
}

/// The length of the compressed payload that a file declares.
pub open spec fn file_compressed_length(bytes: Seq<u8>) -> i32 {
    i32_from_be(bytes.subrange(20, 24))
}

/// The number that the last eight bytes of a file spell.
pub open spec fn file_footer(bytes: Seq<u8>) -> i64 {
    i64_from_be(bytes.subrange(bytes.len() - FOOTER_LEN, bytes.len() as int))
}

/// The compressed payload of a file: as many bytes after the header as the
/// header declares. They may reach into the footer.
pub open spec fn file_payload(bytes: Seq<u8>) -> Seq<u8> {
    bytes.subrange(HEADER_LEN as int, HEADER_LEN + file_compressed_length(bytes))
}

/// The file ends before the payload that its header declares. A length
/// below zero declares more than any file holds.
pub open spec fn payload_cut_short(bytes: Seq<u8>) -> bool {
    file_compressed_length(bytes) < 0 || HEADER_LEN + file_compressed_length(bytes) > bytes.len()
}

/// The size that entry `i` of a slot table declares.
pub open spec fn entry_size(payload: Seq<u8>, i: int) -> i32 {
    i32_from_be(payload.subrange(8 * i, 8 * i + 4))
}

/// The timestamp that entry `i` of a slot table declares.
pub open spec fn entry_timestamp(payload: Seq<u8>, i: int) -> i32 {
    i32_from_be(payload.subrange(8 * i + 4, 8 * i + 8))
}

/// The sum of the sizes that the first `n` entries declare.
pub open spec fn total_size(payload: Seq<u8>, n: nat) -> int
    decreases n,
{
    if n == 0 {
        0
    } else {
        total_size(payload, (n - 1) as nat) + entry_size(payload, n - 1)
    }
}

/// The number of entries among the first `n` that declare a size other
/// than zero.
pub open spec fn nonzero_sizes(payload: Seq<u8>, n: nat) -> nat
    decreases n,
{
    if n == 0 {
        0
    } else {
        nonzero_sizes(payload, (n - 1) as nat) + if entry_size(payload, n - 1) != 0 {
            1nat
        } else {
            0nat
        }
    }
}

/// Some entry of the slot table declares a size below zero.
pub open spec fn has_negative_size(payload: Seq<u8>) -> bool {
    exists|i: int| 0 <= i < SLOT_COUNT && #[trigger] entry_size(payload, i) < 0
}

/// Where the bytes of slot `i` begin in a payload.
pub open spec fn chunk_offset(payload: Seq<u8>, i: int) -> int {
    TABLE_LEN + total_size(payload, i as nat)
}

/// The chunk that a payload holds in slot `i`, for a region at the given
/// coordinates.
pub open spec fn decoded_slot(payload: Seq<u8>, region_x: int, region_z: int, i: int) -> Option<
    ChunkModel,
> {
    let size: int = entry_size(payload, i) as int;
    if size > 0 {
        Some(
            ChunkModel {
                data: payload.subrange(chunk_offset(payload, i), chunk_offset(payload, i) + size),
                x: slot_x(region_x, i),
                z: slot_z(region_z, i),
            },
        )
    } else {
        None
    }
}

/// Slot `i` of the payload is populated, and its world coordinates do not
/// fit a `usize`.
pub open spec fn slot_out_of_reach(payload: Seq<u8>, region_x: int, region_z: int, i: int) -> bool {
    entry_size(payload, i) > 0 && (slot_x(region_x, i) > usize::MAX || slot_z(region_z, i)
        > usize::MAX)
}

/// Some populated slot of the payload has world coordinates that do not
/// fit a `usize`.
pub open spec fn has_slot_out_of_reach(payload: Seq<u8>, region_x: int, region_z: int) -> bool {
    exists|i: int|
        0 <= i < SLOT_COUNT && #[trigger] slot_out_of_reach(payload, region_x, region_z, i)
}

/// The region that a decompressed payload holds, or the first fault found
/// in it: a table cut short, sizes that do not add up to the bytes after
/// the table, a count of chunks other than the declared one, a size below
/// zero, a chunk whose coordinates do not fit.
pub open spec fn payload_decode(
    payload: Seq<u8>,
    declared_count: i16,
    newest_timestamp: i64,
    region_x: int,
    region_z: int,
) -> Result<RegionModel, LinearError> {
    if payload.len() < TABLE_LEN {
        Err(LinearError::UnexpectedEof)
    } else if total_size(payload, SLOT_COUNT as nat) + TABLE_LEN != payload.len() {
        Err(LinearError::InvalidDecompressedSize)
    } else if nonzero_sizes(payload, SLOT_COUNT as nat) != declared_count {
        Err(
            LinearError::InvalidChunkCount {
                declared: declared_count,
                actual: nonzero_sizes(payload, SLOT_COUNT as nat) as i16,
            },
        )
    } else if has_negative_size(payload) {
        Err(LinearError::InvalidDecompressedSize)
    } else if has_slot_out_of_reach(payload, region_x, region_z) {
        Err(LinearError::CoordinateOverflow)
    } else {
        Ok(
            RegionModel {
                slots: Seq::new(
                    SLOT_COUNT as nat,
                    |i: int| decoded_slot(payload, region_x, region_z, i),
                ),
                timestamps: Seq::new(SLOT_COUNT as nat, |i: int| entry_timestamp(payload, i)),
                region_x,
                region_z,
                newest_timestamp,
            },
        )
    }
}

/// The region that a file holds, for the coordinates that its name gave, or
/// the first fault found in it. The checks come in this order: the length
/// of the header, the signature, the version, the footer, the length of the
/// payload, the zstd frame, and then those of `payload_decode`.
pub open spec fn linear_decode(bytes: Seq<u8>, region_x: int, region_z: int) -> Result<
    RegionModel,
    LinearError,
> {
    if bytes.len() < HEADER_READ_LEN {
        Err(LinearError::UnexpectedEof)
    } else if file_signature(bytes) != LINEAR_SIGNATURE {
        Err(LinearError::InvalidSignature(file_signature(bytes)))
    } else if !supported_version(file_version(bytes)) {
        Err(LinearError::InvalidVersion(file_version(bytes)))
    } else if file_footer(bytes) != LINEAR_SIGNATURE {
        Err(LinearError::InvalidFooterSignature(file_footer(bytes)))
    } else if payload_cut_short(bytes) {
        Err(LinearError::UnexpectedEof)
    } else {
        match zstd_decoded(file_payload(bytes)) {
            None => Err(LinearError::Compression),
            Some(payload) => payload_decode(
                payload,
                file_chunk_count(bytes),
                file_newest_timestamp(bytes),
                region_x,
                region_z,
            ),
        }
    }
}

} // verus!
