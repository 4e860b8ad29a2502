//! Writing a region as the bytes of a Linear file.

use crate::compression::zstd_encode_all;
use crate::endian::{i16_be_bytes, i32_be_bytes, i32_to_be, i64_be_bytes};
use crate::error::LinearError;
use crate::format::{
    chunk_data, has_oversized_chunk, linear_decode, linear_encode, linear_file, oversized,
    region_payload, slot_table, LINEAR_SIGNATURE, LINEAR_VERSION,
};
use crate::guarantees::lemma_round_trip;
use crate::region::{Region, RegionModel, SLOT_COUNT};
use vstd::prelude::*;

verus! {

/// Appends the bytes of `src` to `out`.
fn append_bytes(out: &mut Vec<u8>, src: &[u8])
    ensures
        final(out)@ == old(out)@ + src@,
{
    out.extend_from_slice(src);
    assert(out@ =~= old(out)@ + src@);
}

/// Puts a header before a compressed payload and the footer after it.
///
/// Fails with `TooLarge` exactly when the payload is longer than the
/// header's 32-bit length field can say.
pub fn frame_file(newest_timestamp: i64, level: i32, chunk_count: i16, compressed: &[u8]) -> (r:
    Result<Vec<u8>, LinearError>)
    ensures
        match r {
            Ok(file) => compressed@.len() <= i32::MAX && file@ == linear_file(
                newest_timestamp,
                level,
                chunk_count,
                compressed@,
            ),
            Err(e) => compressed@.len() > i32::MAX && e == LinearError::TooLarge,
        },
{
    if compressed.len() > i32::MAX as usize {
        return Err(LinearError::TooLarge);
    }
    let mut file: Vec<u8> = Vec::new();
    let signature = i64_be_bytes(LINEAR_SIGNATURE);
    append_bytes(&mut file, signature.as_slice());
    file.push(LINEAR_VERSION as u8);
    let newest = i64_be_bytes(newest_timestamp);
    append_bytes(&mut file, newest.as_slice());
    file.push(level as u8);
    let count = i16_be_bytes(chunk_count);
    append_bytes(&mut file, count.as_slice());
    let length = i32_be_bytes(compressed.len() as i32);
    append_bytes(&mut file, length.as_slice());
    let reserved = i64_be_bytes(0);
    append_bytes(&mut file, reserved.as_slice());
    append_bytes(&mut file, compressed);
    append_bytes(&mut file, signature.as_slice());
    assert(file@ =~= linear_file(newest_timestamp, level, chunk_count, compressed@));
    Ok(file)
}

impl Region {
    /// The bytes that are compressed for this region: the slot table, then
    /// the payloads of the populated slots.
    ///
    /// Fails with `TooLarge` exactly when a chunk is longer than the
    /// table's 32-bit size can say.
    pub fn payload(&self) -> (r: Result<Vec<u8>, LinearError>)
        requires
            self.wf(),
        ensures
            match r {
                Ok(bytes) => !has_oversized_chunk(self@) && bytes@ == region_payload(self@),
                Err(e) => has_oversized_chunk(self@) && e == LinearError::TooLarge,
            },
    {
        let mut out: Vec<u8> = Vec::new();
        let zero = i32_be_bytes(0);
        let mut i: usize = 0;
        while i < SLOT_COUNT
            invariant
                self.wf(),
                i <= SLOT_COUNT,
                zero@ == i32_to_be(0),
                out@ == slot_table(self@, i as nat),
                forall|j: int| 0 <= j < i ==> !oversized(#[trigger] self@.slots[j]),
            decreases SLOT_COUNT - i,
        {
            match &self.chunks[i] {
                Some(chunk) => {
                    if chunk.raw_chunk.len() > i32::MAX as usize {
                        assert(oversized(self@.slots[i as int]));
                        return Err(LinearError::TooLarge);
                    }
                    let size = i32_be_bytes(chunk.raw_chunk.len() as i32);
                    let timestamp = i32_be_bytes(self.timestamps[i]);
                    append_bytes(&mut out, size.as_slice());
                    append_bytes(&mut out, timestamp.as_slice());
                },
                None => {
                    append_bytes(&mut out, zero.as_slice());
                    append_bytes(&mut out, zero.as_slice());
                },
            }
            i += 1;
        }
        let mut k: usize = 0;
        while k < SLOT_COUNT
            invariant
                self.wf(),
                k <= SLOT_COUNT,
                out@ == slot_table(self@, SLOT_COUNT as nat) + chunk_data(
                    self@.slots.take(k as int),
                ),
            decreases SLOT_COUNT - k,
        {
            proof {
                assert(self@.slots.take(k + 1).drop_last() =~= self@.slots.take(k as int));
            }
            match &self.chunks[k] {
                Some(chunk) => {
                    append_bytes(&mut out, chunk.raw_chunk.as_slice());
                },
                None => {},
            }
            k += 1;
        }
        proof {
            assert(self@.slots.take(SLOT_COUNT as int) =~= self@.slots);
        }
        Ok(out)
    }

    /// Writes this region as the bytes of a Linear file, its payload
    /// compressed by zstd at `compression_level`.
    ///
    /// The result is that of `linear_encode`. Where the region is one that
    /// a file can hold, reading the file back under the region's
    /// coordinates gives the region.
    pub fn encode_linear(&self, compression_level: i32) -> (r: Result<Vec<u8>, LinearError>)
        requires
            self.wf(),
        ensures
            match r {
                Ok(file) => linear_encode(self@, compression_level) == Ok::<
                    Seq<u8>,
                    LinearError,
                >(file@),
                Err(e) => linear_encode(self@, compression_level) == Err::<Seq<u8>, LinearError>(e),
            },
            self@.storable() ==> (r matches Ok(file) ==> linear_decode(
                file@,
                self@.region_x,
                self@.region_z,
            ) == Ok::<RegionModel, LinearError>(self@)),
    {
        let payload = match self.payload() {
            Ok(bytes) => bytes,
            Err(e) => {
                return Err(e);
            },
        };
        let compressed = match zstd_encode_all(payload.as_slice(), compression_level) {
            Ok(frame) => frame,
            Err(_) => {
                return Err(LinearError::Compression);
            },
        };
        let chunk_count: i16 = self.count_chunks();
        proof {
            if self@.storable() && compressed@.len() <= i32::MAX {
                lemma_round_trip(self@, compression_level, compressed@);
            }
        }
        frame_file(self.newest_timestamp, compression_level, chunk_count, compressed.as_slice())
    }
}

} // verus!
