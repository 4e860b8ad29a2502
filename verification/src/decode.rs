//! Reading a region from the bytes of a Linear file.

use crate::compression::zstd_decode_all;
use crate::endian::{read_i16_be, read_i32_be, read_i64_be};
use crate::error::LinearError;
use crate::format::{
    chunk_offset, decoded_slot, entry_size, entry_timestamp, file_footer, file_signature,
    file_version, has_negative_size, linear_decode, nonzero_sizes, payload_decode,
    slot_out_of_reach, supported_version, total_size, FOOTER_LEN, HEADER_LEN, HEADER_READ_LEN,
    LINEAR_SIGNATURE, TABLE_LEN,
};
use crate::region::{slot_view, world_coordinate, Chunk, Region, RegionModel, SLOT_COUNT};
use vstd::prelude::*;
use vstd::slice::{slice_subrange, slice_to_vec};

verus! {

/// The sum of `n` sizes lies within `n` times the range of one size.
proof fn lemma_total_size_bounds(payload: Seq<u8>, n: nat)
    ensures
        -0x8000_0000 * n <= total_size(payload, n) <= 0x7fff_ffff * n,
        nonzero_sizes(payload, n) <= n,
    decreases n,
{
    if n > 0 {
        lemma_total_size_bounds(payload, (n - 1) as nat);
    }
}

/// Where no size is below zero, the sum of the first sizes grows with
/// their number.
proof fn lemma_total_size_grows(payload: Seq<u8>, m: nat, n: nat)
    requires
        m <= n <= SLOT_COUNT,
        !has_negative_size(payload),
    ensures
        0 <= total_size(payload, m) <= total_size(payload, n),
    decreases n,
{
    if n > 0 {
        assert(entry_size(payload, n - 1) >= 0);
        if m < n {
            lemma_total_size_grows(payload, m, (n - 1) as nat);
        } else {
            lemma_total_size_grows(payload, (m - 1) as nat, (n - 1) as nat);
        }
    }
}

impl Region {
    /// Reads a region from a decompressed payload: the slot table, then the
    /// bytes of the populated slots. `declared_count` and
    /// `newest_timestamp` come from the file's header, the coordinates from
    /// its name.
    ///
    /// The result is that of `payload_decode`. The further clauses spell
    /// out parts of it: when the two checks on the table fail, and where
    /// the chunks of the region lie.
    pub fn from_payload(
        payload: &[u8],
        declared_count: i16,
        newest_timestamp: i64,
        region_x: usize,
        region_z: usize,
    ) -> (r: Result<Region, LinearError>)
        ensures
            match r {
                Ok(region) => payload_decode(
                    payload@,
                    declared_count,
                    newest_timestamp,
                    region_x as int,
                    region_z as int,
                ) == Ok::<RegionModel, LinearError>(region@),
                Err(e) => payload_decode(
                    payload@,
                    declared_count,
                    newest_timestamp,
                    region_x as int,
                    region_z as int,
                ) == Err::<RegionModel, LinearError>(e),
            },
            payload@.len() >= TABLE_LEN && total_size(payload@, SLOT_COUNT as nat) + TABLE_LEN
                != payload@.len() ==> r == Err::<Region, LinearError>(
                LinearError::InvalidDecompressedSize,
            ),
            payload@.len() >= TABLE_LEN && total_size(payload@, SLOT_COUNT as nat) + TABLE_LEN
                == payload@.len() && nonzero_sizes(payload@, SLOT_COUNT as nat) != declared_count
                ==> r == Err::<Region, LinearError>(
                LinearError::InvalidChunkCount {
                    declared: declared_count,
                    actual: nonzero_sizes(payload@, SLOT_COUNT as nat) as i16,
                },
            ),
            r matches Ok(region) ==> region.wf() && region.region_x == region_x && region.region_z
                == region_z && forall|i: int|
                0 <= i < SLOT_COUNT ==> match #[trigger] region.chunks@[i] {
                    Some(chunk) => chunk.x == 32 * region_x + i % 32 && chunk.z == 32 * region_z + i
                        / 32,
                    None => entry_size(payload@, i) == 0,
                },
    {
        if payload.len() < TABLE_LEN {
            return Err(LinearError::UnexpectedEof);
        }
        let mut sizes: Vec<i32> = Vec::new();
        let mut timestamps: Vec<i32> = Vec::new();
        let mut total: i64 = 0;
        let mut count: i16 = 0;
        let mut negative: bool = false;
        let mut i: usize = 0;
        while i < SLOT_COUNT
            invariant
                i <= SLOT_COUNT,
                payload@.len() >= TABLE_LEN,
                sizes@.len() == i,
                timestamps@.len() == i,
                forall|j: int| 0 <= j < i ==> sizes@[j] == entry_size(payload@, j),
                forall|j: int| 0 <= j < i ==> timestamps@[j] == entry_timestamp(payload@, j),
                total == total_size(payload@, i as nat),
                count == nonzero_sizes(payload@, i as nat),
                negative ==> has_negative_size(payload@),
                !negative ==> forall|j: int| 0 <= j < i ==> entry_size(payload@, j) >= 0,
            decreases SLOT_COUNT - i,
        {
            proof {
                lemma_total_size_bounds(payload@, i as nat);
            }
            let size: i32 = read_i32_be(slice_subrange(payload, 8 * i, 8 * i + 4));
            let timestamp: i32 = read_i32_be(slice_subrange(payload, 8 * i + 4, 8 * i + 8));
            total = total + size as i64;
            if size != 0 {
                count = count + 1;
            }
            if size < 0 {
                negative = true;
            }
            sizes.push(size);
            timestamps.push(timestamp);
            i += 1;
        }
        if total as i128 + TABLE_LEN as i128 != payload.len() as i128 {
            return Err(LinearError::InvalidDecompressedSize);
        }
        if count != declared_count {
            return Err(LinearError::InvalidChunkCount { declared: declared_count, actual: count });
        }
        if negative {
            return Err(LinearError::InvalidDecompressedSize);
        }
        assert(!has_negative_size(payload@));
        let mut chunks: Vec<Option<Chunk>> = Vec::new();
        let mut offset: usize = TABLE_LEN;
        let mut k: usize = 0;
        while k < SLOT_COUNT
            invariant
                k <= SLOT_COUNT,
                forall|j: int|
                    0 <= j < k ==> !#[trigger] slot_out_of_reach(
                        payload@,
                        region_x as int,
                        region_z as int,
                        j,
                    ),
                sizes@.len() == SLOT_COUNT,
                forall|j: int| 0 <= j < SLOT_COUNT ==> sizes@[j] == entry_size(payload@, j),
                !has_negative_size(payload@),
                total_size(payload@, SLOT_COUNT as nat) + TABLE_LEN == payload@.len(),
                nonzero_sizes(payload@, SLOT_COUNT as nat) == declared_count,
                TABLE_LEN <= payload@.len() <= usize::MAX,
                offset == chunk_offset(payload@, k as int),
                chunks@.len() == k,
                forall|j: int|
                    0 <= j < k ==> slot_view(#[trigger] chunks@[j]) == decoded_slot(
                        payload@,
                        region_x as int,
                        region_z as int,
                        j,
                    ),
            decreases SLOT_COUNT - k,
        {
            proof {
                lemma_total_size_grows(payload@, k as nat, (k + 1) as nat);
                lemma_total_size_grows(payload@, (k + 1) as nat, SLOT_COUNT as nat);
                assert(total_size(payload@, (k + 1) as nat) == total_size(payload@, k as nat)
                    + entry_size(payload@, k as int));
            }
            let size: i32 = sizes[k];
            if size > 0 {
                let x: usize = match world_coordinate(region_x, k % 32) {
                    Some(x) => x,
                    None => {
                        assert(slot_out_of_reach(
                            payload@,
                            region_x as int,
                            region_z as int,
                            k as int,
                        ));
                        return Err(LinearError::CoordinateOverflow);
                    },
                };
                let z: usize = match world_coordinate(region_z, k / 32) {
                    Some(z) => z,
                    None => {
                        assert(slot_out_of_reach(
                            payload@,
                            region_x as int,
                            region_z as int,
                            k as int,
                        ));
                        return Err(LinearError::CoordinateOverflow);
                    },
                };
                let end: usize = offset + size as usize;
                let raw_chunk = slice_to_vec(slice_subrange(payload, offset, end));
                chunks.push(Some(Chunk { raw_chunk, x, z }));
                offset = end;
            } else {
                chunks.push(None);
            }
            k += 1;
        }
        let region = Region { chunks, region_x, region_z, timestamps, newest_timestamp };
        proof {
            let model = payload_decode(
                payload@,
                declared_count,
                newest_timestamp,
                region_x as int,
                region_z as int,
            );
            assert(region@.slots =~= model->Ok_0.slots);
            assert(region@.timestamps =~= model->Ok_0.timestamps);
        }
        Ok(region)
    }
}

/// Reads a region from the bytes of a Linear file. The coordinates are
/// those that the file's name gave.
///
/// The result is that of `linear_decode`. The further clauses spell out
/// the first three checks.
pub fn decode_linear(bytes: &[u8], region_x: usize, region_z: usize) -> (r: Result<
    Region,
    LinearError,
>)
    ensures
        match r {
            Ok(region) => linear_decode(bytes@, region_x as int, region_z as int) == Ok::<
                RegionModel,
                LinearError,
            >(region@) && region.wf(),
            Err(e) => linear_decode(bytes@, region_x as int, region_z as int) == Err::<
                RegionModel,
                LinearError,
            >(e),
        },
        bytes@.len() >= HEADER_READ_LEN && file_signature(bytes@) != LINEAR_SIGNATURE ==> r
            == Err::<Region, LinearError>(LinearError::InvalidSignature(file_signature(bytes@))),
        bytes@.len() >= HEADER_READ_LEN && file_signature(bytes@) == LINEAR_SIGNATURE
            && !supported_version(file_version(bytes@)) ==> r == Err::<Region, LinearError>(
            LinearError::InvalidVersion(file_version(bytes@)),
        ),
        bytes@.len() >= HEADER_READ_LEN && file_signature(bytes@) == LINEAR_SIGNATURE
            && supported_version(file_version(bytes@)) && file_footer(bytes@) != LINEAR_SIGNATURE
            ==> r == Err::<Region, LinearError>(
            LinearError::InvalidFooterSignature(file_footer(bytes@)),
        ),
{
    let len: usize = bytes.len();
    if len < HEADER_READ_LEN {
        return Err(LinearError::UnexpectedEof);
    }
    let footer: i64 = read_i64_be(slice_subrange(bytes, len - FOOTER_LEN, len));
    let signature: i64 = read_i64_be(slice_subrange(bytes, 0, 8));
    let version: i8 = bytes[8] as i8;
    let newest_timestamp: i64 = read_i64_be(slice_subrange(bytes, 9, 17));
    let chunk_count: i16 = read_i16_be(slice_subrange(bytes, 18, 20));
    let compressed_length: i32 = read_i32_be(slice_subrange(bytes, 20, 24));
    if signature != LINEAR_SIGNATURE {
        return Err(LinearError::InvalidSignature(signature));
    }
    if !(version == 1 || version == 2) {
        return Err(LinearError::InvalidVersion(version));
    }
    if footer != LINEAR_SIGNATURE {
        return Err(LinearError::InvalidFooterSignature(footer));
    }
    if compressed_length < 0 {
        return Err(LinearError::UnexpectedEof);
    }
    let length: usize = compressed_length as usize;
    if len < HEADER_LEN || length > len - HEADER_LEN {
        return Err(LinearError::UnexpectedEof);
    }
    let compressed = slice_subrange(bytes, HEADER_LEN, HEADER_LEN + length);
    let payload = match zstd_decode_all(compressed) {
        Ok(payload) => payload,
        Err(_) => {
            return Err(LinearError::Compression);
        },
    };
    Region::from_payload(payload.as_slice(), chunk_count, newest_timestamp, region_x, region_z)
}

} // verus!
