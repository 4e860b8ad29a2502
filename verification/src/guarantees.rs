//! What the codec guarantees, as theorems over the spec functions of
//! `format`.

use crate::compression::zstd_decoded;
use crate::endian::{
    i16_to_be, i32_to_be, i64_to_be, lemma_i16_round_trip, lemma_i32_round_trip,
    lemma_i64_from_be_injective, lemma_i64_round_trip,
};
use crate::error::LinearError;
use crate::format::{
    chunk_data, chunk_offset, entry_size, entry_timestamp, file_chunk_count,
    file_compressed_length, file_footer, file_newest_timestamp, file_payload, file_signature,
    file_version, has_negative_size, linear_decode, linear_file, linear_header, nonzero_sizes,
    oversized, payload_cut_short, payload_decode, region_payload, slot_out_of_reach, slot_table,
    supported_version, table_entry, total_size, FOOTER_LEN, HEADER_LEN, HEADER_READ_LEN,
    LINEAR_SIGNATURE, LINEAR_VERSION, TABLE_LEN,
};
use crate::region::{lemma_populated_bound, populated, ChunkModel, RegionModel, SLOT_COUNT};
use vstd::prelude::*;

verus! {

/// The length of the payload in a slot, zero for an empty slot.
pub open spec fn slot_len(slot: Option<ChunkModel>) -> nat {
    match slot {
        Some(chunk) => chunk.data.len(),
        None => 0,
    }
}

/// A table of `n` entries is `8 * n` bytes long.
proof fn lemma_slot_table_len(region: RegionModel, n: nat)
    ensures
        slot_table(region, n).len() == 8 * n,
    decreases n,
{
    if n > 0 {
        lemma_slot_table_len(region, (n - 1) as nat);
    }
}

/// Entry `i` of a table lies at byte `8 * i`.
proof fn lemma_slot_table_entry(region: RegionModel, n: nat, i: int)
    requires
        0 <= i < n,
    ensures
        slot_table(region, n).len() == 8 * n,
        slot_table(region, n).subrange(8 * i, 8 * i + 8) == table_entry(
            region.slots[i],
            region.timestamps[i],
        ),
    decreases n,
{
    lemma_slot_table_len(region, n);
    lemma_slot_table_len(region, (n - 1) as nat);
    let head = slot_table(region, (n - 1) as nat);
    let last = table_entry(region.slots[n - 1], region.timestamps[n - 1]);
    if i == n - 1 {
        assert((head + last).subrange(8 * i, 8 * i + 8) =~= last);
    } else {
        lemma_slot_table_entry(region, (n - 1) as nat, i);
        assert((head + last).subrange(8 * i, 8 * i + 8) =~= head.subrange(8 * i, 8 * i + 8));
    }
}

/// The payload written for a region declares, for each slot, the length
/// of its chunk and its timestamp, and zeros for an empty slot.
proof fn lemma_payload_entry(region: RegionModel, i: int)
    requires
        region.wf(),
        0 <= i < SLOT_COUNT,
        !oversized(region.slots[i]),
    ensures
        region_payload(region).len() == TABLE_LEN + chunk_data(region.slots).len(),
        entry_size(region_payload(region), i) == slot_len(region.slots[i]),
        entry_timestamp(region_payload(region), i) == if region.slots[i] is Some {
            region.timestamps[i]
        } else {
            0
        },
{
    let table = slot_table(region, SLOT_COUNT as nat);
    let payload = region_payload(region);
    lemma_slot_table_entry(region, SLOT_COUNT as nat, i);
    let entry = table_entry(region.slots[i], region.timestamps[i]);
    assert(payload.subrange(8 * i, 8 * i + 8) =~= table.subrange(8 * i, 8 * i + 8));
    assert(payload.subrange(8 * i, 8 * i + 4) =~= entry.subrange(0, 4));
    assert(payload.subrange(8 * i + 4, 8 * i + 8) =~= entry.subrange(4, 8));
    match region.slots[i] {
        Some(chunk) => {
            lemma_i32_round_trip(chunk.data.len() as i32);
            lemma_i32_round_trip(region.timestamps[i]);
            assert(entry.subrange(0, 4) =~= i32_to_be(chunk.data.len() as i32));
            assert(entry.subrange(4, 8) =~= i32_to_be(region.timestamps[i]));
        },
        None => {
            lemma_i32_round_trip(0);
            assert(entry.subrange(0, 4) =~= i32_to_be(0));
            assert(entry.subrange(4, 8) =~= i32_to_be(0));
        },
    }
}

/// The sizes that the payload of a region declares add up to the length
/// of its chunk bytes, slot for slot, and as many of them are not zero as
/// slots are populated.
proof fn lemma_payload_totals(region: RegionModel, n: nat)
    requires
        region.storable(),
        n <= SLOT_COUNT,
    ensures
        total_size(region_payload(region), n) == chunk_data(region.slots.take(n as int)).len(),
        nonzero_sizes(region_payload(region), n) == populated(region.slots.take(n as int)),
        forall|i: int| 0 <= i < n ==> #[trigger] entry_size(region_payload(region), i) >= 0,
    decreases n,
{
    if n > 0 {
        lemma_payload_totals(region, (n - 1) as nat);
        assert(!oversized(region.slots[n - 1]));
        lemma_payload_entry(region, n - 1);
        assert(region.slots.take(n as int).drop_last() =~= region.slots.take(n - 1));
        assert(region.slots.take(n as int).last() == region.slots[n - 1]);
    }
}

/// The payload of a populated slot lies in the chunk bytes right after the
/// payloads of the slots before it.
proof fn lemma_chunk_data_at(slots: Seq<Option<ChunkModel>>, i: int)
    requires
        0 <= i < slots.len(),
    ensures
        chunk_data(slots.take(i)).len() + slot_len(slots[i]) <= chunk_data(slots).len(),
        slots[i] matches Some(chunk) ==> chunk_data(slots).subrange(
            chunk_data(slots.take(i)).len() as int,
            (chunk_data(slots.take(i)).len() + chunk.data.len()) as int,
        ) == chunk.data,
    decreases slots.len(),
{
    let front = slots.drop_last();
    let tail: Seq<u8> = match slots.last() {
        Some(chunk) => chunk.data,
        None => Seq::empty(),
    };
    if i == slots.len() - 1 {
        assert(slots.take(i) =~= front);
        assert((chunk_data(front) + tail).subrange(
            chunk_data(front).len() as int,
            (chunk_data(front).len() + tail.len()) as int,
        ) =~= tail);
    } else {
        lemma_chunk_data_at(front, i);
        assert(front.take(i) =~= slots.take(i));
        let start: int = chunk_data(slots.take(i)).len() as int;
        let end: int = start + slot_len(slots[i]);
        assert((chunk_data(front) + tail).subrange(start, end) =~= chunk_data(front).subrange(
            start,
            end,
        ));
    }
}

/// The payload written for a region that a file can hold decodes to that
/// region, under the count of its populated slots.
pub proof fn lemma_payload_round_trip(region: RegionModel)
    requires
        region.storable(),
    ensures
        payload_decode(
            region_payload(region),
            populated(region.slots) as i16,
            region.newest_timestamp,
            region.region_x,
            region.region_z,
        ) == Ok::<RegionModel, LinearError>(region),
{
    let payload = region_payload(region);
    let count = populated(region.slots);
    lemma_populated_bound(region.slots);
    lemma_payload_totals(region, SLOT_COUNT as nat);
    lemma_slot_table_len(region, SLOT_COUNT as nat);
    assert(region.slots.take(SLOT_COUNT as int) =~= region.slots);
    assert(!has_negative_size(payload));
    assert forall|i: int| 0 <= i < SLOT_COUNT implies !slot_out_of_reach(
        payload,
        region.region_x,
        region.region_z,
        i,
    ) by {
        lemma_payload_entry(region, i);
    }
    let decoded = payload_decode(
        payload,
        count as i16,
        region.newest_timestamp,
        region.region_x,
        region.region_z,
    );
    assert(decoded is Ok);
    assert forall|i: int| 0 <= i < SLOT_COUNT implies #[trigger] decoded->Ok_0.slots[i]
        == region.slots[i] by {
        lemma_payload_entry(region, i);
        lemma_payload_totals(region, i as nat);
        lemma_chunk_data_at(region.slots, i);
        match region.slots[i] {
            Some(chunk) => {
                let start: int = chunk_offset(payload, i);
                assert(start == TABLE_LEN + chunk_data(region.slots.take(i)).len());
                assert(payload.subrange(start, start + chunk.data.len()) =~= chunk_data(
                    region.slots,
                ).subrange(start - TABLE_LEN, start - TABLE_LEN + chunk.data.len()));
            },
            None => {},
        }
    }
    assert forall|i: int| 0 <= i < SLOT_COUNT implies #[trigger] decoded->Ok_0.timestamps[i]
        == region.timestamps[i] by {
        lemma_payload_entry(region, i);
    }
    assert(decoded->Ok_0.slots =~= region.slots);
    assert(decoded->Ok_0.timestamps =~= region.timestamps);
}

/// What the header of a written file spells, field by field.
pub proof fn lemma_file_fields(
    newest_timestamp: i64,
    level: i32,
    chunk_count: i16,
    compressed: Seq<u8>,
)
    requires
        compressed.len() <= i32::MAX,
    ensures
        ({
            let file = linear_file(newest_timestamp, level, chunk_count, compressed);
            &&& file.len() == HEADER_LEN + compressed.len() + FOOTER_LEN
            &&& file_signature(file) == LINEAR_SIGNATURE
            &&& file_version(file) == LINEAR_VERSION
            &&& file_newest_timestamp(file) == newest_timestamp
            &&& file_chunk_count(file) == chunk_count
            &&& file_compressed_length(file) == compressed.len()
            &&& file_footer(file) == LINEAR_SIGNATURE
            &&& file_payload(file) == compressed
            &&& !payload_cut_short(file)
        }),
{
    let file = linear_file(newest_timestamp, level, chunk_count, compressed);
    let header = linear_header(newest_timestamp, level, chunk_count, compressed.len() as i32);
    lemma_i64_round_trip(LINEAR_SIGNATURE);
    lemma_i64_round_trip(newest_timestamp);
    lemma_i16_round_trip(chunk_count);
    lemma_i32_round_trip(compressed.len() as i32);
    assert(header.len() == 32);
    assert(file.subrange(0, 8) =~= i64_to_be(LINEAR_SIGNATURE));
    assert(file[8] == LINEAR_VERSION as u8);
    assert(file.subrange(9, 17) =~= i64_to_be(newest_timestamp));
    assert(file.subrange(18, 20) =~= i16_to_be(chunk_count));
    assert(file.subrange(20, 24) =~= i32_to_be(compressed.len() as i32));
    assert(file.subrange(file.len() - 8, file.len() as int) =~= i64_to_be(LINEAR_SIGNATURE));
    assert(file.subrange(32, 32 + compressed.len() as int) =~= compressed);
}

/// A region that a file can hold, written with any frame that zstd
/// decodes to its payload, is read back as it was: the same slots are
/// populated with the same bytes, and the timestamps and coordinates are
/// the same.
pub proof fn lemma_round_trip(region: RegionModel, level: i32, compressed: Seq<u8>)
    requires
        region.storable(),
        compressed.len() <= i32::MAX,
        zstd_decoded(compressed) == Some(region_payload(region)),
    ensures
        linear_decode(
            linear_file(
                region.newest_timestamp,
                level,
                populated(region.slots) as i16,
                compressed,
            ),
            region.region_x,
            region.region_z,
        ) == Ok::<RegionModel, LinearError>(region),
{
    lemma_file_fields(region.newest_timestamp, level, populated(region.slots) as i16, compressed);
    lemma_payload_round_trip(region);
}

/// Among slots that are all empty none is populated, and they have no
/// chunk bytes.
proof fn lemma_empty_slots(slots: Seq<Option<ChunkModel>>)
    requires
        forall|i: int| 0 <= i < slots.len() ==> slots[i] is None,
    ensures
        populated(slots) == 0,
        chunk_data(slots) == Seq::<u8>::empty(),
    decreases slots.len(),
{
    if slots.len() > 0 {
        lemma_empty_slots(slots.drop_last());
    }
}

/// The table of slots that are all empty is all zeros.
proof fn lemma_empty_table(region: RegionModel, n: nat)
    requires
        n <= region.slots.len(),
        forall|i: int| 0 <= i < region.slots.len() ==> region.slots[i] is None,
    ensures
        slot_table(region, n) == Seq::new(8 * n, |i: int| 0u8),
    decreases n,
{
    if n > 0 {
        lemma_empty_table(region, (n - 1) as nat);
        assert(i32_to_be(0) =~= seq![0u8, 0u8, 0u8, 0u8]);
    }
    assert(slot_table(region, n) =~= Seq::new(8 * n, |i: int| 0u8));
}

/// A region without chunks is written with a count of zero and a payload
/// that is the slot table alone, all zeros.
pub proof fn lemma_empty_region(region: RegionModel)
    requires
        region.wf(),
        forall|i: int| 0 <= i < SLOT_COUNT ==> region.slots[i] is None,
    ensures
        populated(region.slots) == 0,
        region_payload(region) == Seq::new(TABLE_LEN as nat, |i: int| 0u8),
{
    lemma_empty_slots(region.slots);
    lemma_empty_table(region, SLOT_COUNT as nat);
    assert(region_payload(region) =~= Seq::new(TABLE_LEN as nat, |i: int| 0u8));
}

/// The bytes up to the payload are sound: the read part of the header is
/// there, both signatures and the version are right, and the payload is
/// as long as declared.
pub open spec fn frame_sound(bytes: Seq<u8>) -> bool {
    &&& bytes.len() >= HEADER_READ_LEN
    &&& file_signature(bytes) == LINEAR_SIGNATURE
    &&& supported_version(file_version(bytes))
    &&& file_footer(bytes) == LINEAR_SIGNATURE
    &&& !payload_cut_short(bytes)
}

/// Changing any one of the first eight bytes of a file that begins with
/// the signature makes reading fail with `InvalidSignature`.
pub proof fn lemma_corrupt_signature_rejected(
    bytes: Seq<u8>,
    at: int,
    byte: u8,
    region_x: int,
    region_z: int,
)
    requires
        bytes.len() >= HEADER_READ_LEN,
        file_signature(bytes) == LINEAR_SIGNATURE,
        0 <= at < 8,
        byte != bytes[at],
    ensures
        file_signature(bytes.update(at, byte)) != LINEAR_SIGNATURE,
        linear_decode(bytes.update(at, byte), region_x, region_z) == Err::<
            RegionModel,
            LinearError,
        >(LinearError::InvalidSignature(file_signature(bytes.update(at, byte)))),
{
    let changed = bytes.update(at, byte);
    if file_signature(changed) == LINEAR_SIGNATURE {
        lemma_i64_from_be_injective(bytes.subrange(0, 8), changed.subrange(0, 8));
        assert(bytes.subrange(0, 8).subrange(0, 8)[at] == bytes[at]);
        assert(changed.subrange(0, 8).subrange(0, 8)[at] == byte);
    }
}

/// Changing the version byte of a file that begins with the signature to
/// anything but 1 or 2 makes reading fail with `InvalidVersion`.
pub proof fn lemma_corrupt_version_rejected(
    bytes: Seq<u8>,
    byte: u8,
    region_x: int,
    region_z: int,
)
    requires
        bytes.len() >= HEADER_READ_LEN,
        file_signature(bytes) == LINEAR_SIGNATURE,
        byte != 1 && byte != 2,
    ensures
        linear_decode(bytes.update(8, byte), region_x, region_z) == Err::<
            RegionModel,
            LinearError,
        >(LinearError::InvalidVersion(byte as i8)),
{
    let changed = bytes.update(8, byte);
    assert(changed.subrange(0, 8) =~= bytes.subrange(0, 8));
    assert(byte != 1 && byte != 2 ==> byte as i8 != 1 && byte as i8 != 2) by (bit_vector);
}

/// Changing any one of the last eight bytes of a file whose signatures
/// and version are right makes reading fail with
/// `InvalidFooterSignature`.
pub proof fn lemma_corrupt_footer_rejected(
    bytes: Seq<u8>,
    at: int,
    byte: u8,
    region_x: int,
    region_z: int,
)
    requires
        bytes.len() >= HEADER_READ_LEN,
        file_signature(bytes) == LINEAR_SIGNATURE,
        supported_version(file_version(bytes)),
        file_footer(bytes) == LINEAR_SIGNATURE,
        bytes.len() - 8 <= at < bytes.len(),
        byte != bytes[at],
    ensures
        file_footer(bytes.update(at, byte)) != LINEAR_SIGNATURE,
        linear_decode(bytes.update(at, byte), region_x, region_z) == Err::<
            RegionModel,
            LinearError,
        >(LinearError::InvalidFooterSignature(file_footer(bytes.update(at, byte)))),
{
    let changed = bytes.update(at, byte);
    let len: int = bytes.len() as int;
    assert(changed.subrange(0, 8) =~= bytes.subrange(0, 8));
    assert(changed[8] == bytes[8]);
    if file_footer(changed) == LINEAR_SIGNATURE {
        lemma_i64_from_be_injective(bytes.subrange(len - 8, len), changed.subrange(len - 8, len));
        assert(bytes.subrange(len - 8, len).subrange(0, 8)[at - (len - 8)] == bytes[at]);
        assert(changed.subrange(len - 8, len).subrange(0, 8)[at - (len - 8)] == byte);
    }
}

/// Where the frame of a file is sound and its payload decompresses to a
/// whole slot table whose sizes do not add up to the bytes after the
/// table, reading fails with `InvalidDecompressedSize`.
pub proof fn lemma_size_mismatch_rejected(
    bytes: Seq<u8>,
    payload: Seq<u8>,
    region_x: int,
    region_z: int,
)
    requires
        frame_sound(bytes),
        zstd_decoded(file_payload(bytes)) == Some(payload),
        payload.len() >= TABLE_LEN,
        total_size(payload, SLOT_COUNT as nat) + TABLE_LEN != payload.len(),
    ensures
        linear_decode(bytes, region_x, region_z) == Err::<RegionModel, LinearError>(
            LinearError::InvalidDecompressedSize,
        ),
{
}

/// Where the frame of a file is sound, the sizes of its slot table add
/// up, and the header declares another number of chunks than the table
/// has sizes other than zero, reading fails with `InvalidChunkCount`.
pub proof fn lemma_count_mismatch_rejected(
    bytes: Seq<u8>,
    payload: Seq<u8>,
    region_x: int,
    region_z: int,
)
    requires
        frame_sound(bytes),
        zstd_decoded(file_payload(bytes)) == Some(payload),
        payload.len() >= TABLE_LEN,
        total_size(payload, SLOT_COUNT as nat) + TABLE_LEN == payload.len(),
        nonzero_sizes(payload, SLOT_COUNT as nat) != file_chunk_count(bytes),
    ensures
        linear_decode(bytes, region_x, region_z) == Err::<RegionModel, LinearError>(
            LinearError::InvalidChunkCount {
                declared: file_chunk_count(bytes),
                actual: nonzero_sizes(payload, SLOT_COUNT as nat) as i16,
            },
        ),
{
}

/// Whatever else holds of a file, sizes in its table that do not add up to
/// the bytes after the table keep it from being read.
pub proof fn lemma_size_mismatch_never_read(
    bytes: Seq<u8>,
    payload: Seq<u8>,
    region_x: int,
    region_z: int,
)
    requires
        zstd_decoded(file_payload(bytes)) == Some(payload),
        total_size(payload, SLOT_COUNT as nat) + TABLE_LEN != payload.len(),
    ensures
        linear_decode(bytes, region_x, region_z) is Err,
{
}

/// Whatever else holds of a file, a declared number of chunks other than
/// the number of sizes in its table that are not zero keeps it from being
/// read.
pub proof fn lemma_count_mismatch_never_read(
    bytes: Seq<u8>,
    payload: Seq<u8>,
    region_x: int,
    region_z: int,
)
    requires
        zstd_decoded(file_payload(bytes)) == Some(payload),
        nonzero_sizes(payload, SLOT_COUNT as nat) != file_chunk_count(bytes),
    ensures
        linear_decode(bytes, region_x, region_z) is Err,
{
}

/// A region that was read has, in each populated slot, a chunk at 32
/// times the region's coordinates plus the slot's column and row.
pub proof fn lemma_decoded_coordinates(
    bytes: Seq<u8>,
    region_x: int,
    region_z: int,
    region: RegionModel,
    i: int,
)
    requires
        linear_decode(bytes, region_x, region_z) == Ok::<RegionModel, LinearError>(region),
        0 <= i < SLOT_COUNT,
    ensures
        region.wf(),
        region.region_x == region_x,
        region.region_z == region_z,
        region.slots[i] matches Some(chunk) ==> chunk.x == 32 * region_x + i % 32 && chunk.z == 32
            * region_z + i / 32,
{
}

} // verus!
