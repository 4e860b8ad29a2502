use linear_region::decode::decode_linear;
use linear_region::encode::frame_file;
use linear_region::error::LinearError;
use linear_region::region::{Chunk, Region};

const SIGNATURE_BYTES: [u8; 8] = [0xc3, 0xff, 0x13, 0x18, 0x3c, 0xca, 0x9d, 0x9a];

fn chunk_at(region_x: usize, region_z: usize, slot: usize, raw_chunk: Vec<u8>) -> Chunk {
    Chunk { raw_chunk, x: 32 * region_x + slot % 32, z: 32 * region_z + slot / 32 }
}

fn sample_region() -> Region {
    let mut region = Region::new(2, 7);
    region.chunks[0] = Some(chunk_at(2, 7, 0, vec![1, 2, 3]));
    region.timestamps[0] = 1_700_000_000;
    region.chunks[33] = Some(chunk_at(2, 7, 33, vec![0xff; 5000]));
    region.timestamps[33] = -12;
    region.chunks[1023] = Some(chunk_at(2, 7, 1023, vec![9]));
    region.timestamps[1023] = i32::MAX;
    region.newest_timestamp = 0x0102_0304_0506_0708;
    region
}

fn table_entry(size: i32, timestamp: i32) -> Vec<u8> {
    let mut entry = size.to_be_bytes().to_vec();
    entry.extend_from_slice(&timestamp.to_be_bytes());
    entry
}

/// A payload whose table declares `sizes`, followed by `data`.
fn payload_with(sizes: &[(usize, i32)], data: &[u8]) -> Vec<u8> {
    let mut payload = Vec::new();
    for slot in 0..1024 {
        let size = sizes.iter().find(|(at, _)| *at == slot).map(|(_, size)| *size).unwrap_or(0);
        payload.extend_from_slice(&table_entry(size, 0));
    }
    payload.extend_from_slice(data);
    payload
}

fn file_around(payload: &[u8], declared: i16) -> Vec<u8> {
    let compressed = zstd::stream::encode_all(payload, 3).unwrap();
    frame_file(0, 3, declared, &compressed).unwrap()
}

fn same_region(a: &Region, b: &Region) {
    assert_eq!(a.chunks.len(), b.chunks.len());
    for slot in 0..a.chunks.len() {
        match (&a.chunks[slot], &b.chunks[slot]) {
            (Some(x), Some(y)) => {
                assert_eq!(x.raw_chunk, y.raw_chunk);
                assert_eq!(x.x, y.x);
                assert_eq!(x.z, y.z);
            }
            (None, None) => {}
            _ => panic!("slot {} is populated in one region only", slot),
        }
    }
    assert_eq!(a.timestamps, b.timestamps);
    assert_eq!(a.region_x, b.region_x);
    assert_eq!(a.region_z, b.region_z);
    assert_eq!(a.newest_timestamp, b.newest_timestamp);
}

#[test]
fn new_region_is_empty() {
    let region = Region::new(4, 9);
    assert_eq!(region.chunks.len(), 1024);
    assert_eq!(region.timestamps, vec![0i32; 1024]);
    assert!(region.chunks.iter().all(|slot| slot.is_none()));
    assert_eq!(region.region_x, 4);
    assert_eq!(region.region_z, 9);
    assert_eq!(region.newest_timestamp, 0);
    assert_eq!(region.count_chunks(), 0);
}

#[test]
fn well_formed_regions_have_1024_slots_and_timestamps() {
    let mut region = Region::new(0, 0);
    assert!(region.is_well_formed());
    region.chunks.push(None);
    assert!(!region.is_well_formed());
    region.chunks.truncate(1023);
    assert!(!region.is_well_formed());
    region.chunks.push(None);
    assert!(region.is_well_formed());
    region.timestamps.pop();
    assert!(!region.is_well_formed());
    region.timestamps.push(0);
    region.timestamps.push(0);
    assert!(!region.is_well_formed());
}

#[test]
fn storable_regions_are_told_apart() {
    assert!(Region::new(5, 6).is_storable());
    assert!(sample_region().is_storable());
    assert!(Region::new(usize::MAX, usize::MAX).is_storable());

    let mut empty_payload = sample_region();
    empty_payload.chunks[0] = Some(chunk_at(2, 7, 0, Vec::new()));
    assert!(!empty_payload.is_storable());

    let mut stamped_hole = sample_region();
    stamped_hole.timestamps[1] = 1;
    assert!(!stamped_hole.is_storable());

    let mut misplaced_x = sample_region();
    misplaced_x.chunks[33].as_mut().unwrap().x += 1;
    assert!(!misplaced_x.is_storable());

    let mut misplaced_z = sample_region();
    misplaced_z.chunks[33].as_mut().unwrap().z -= 1;
    assert!(!misplaced_z.is_storable());

    let mut short = sample_region();
    short.chunks.pop();
    assert!(!short.is_storable());

    let mut far = Region::new(usize::MAX / 32, 0);
    far.chunks[31] = Some(Chunk { raw_chunk: vec![1], x: usize::MAX, z: 0 });
    assert!(far.is_storable());
    let mut beyond = Region::new(usize::MAX / 32 + 1, 0);
    beyond.chunks[0] = Some(Chunk { raw_chunk: vec![1], x: 0, z: 0 });
    assert!(!beyond.is_storable());
}

#[test]
fn regions_that_are_not_storable_do_not_round_trip() {
    let mut region = sample_region();
    region.timestamps[1] = 1;
    region.chunks[33].as_mut().unwrap().x = 0;
    let file = region.encode_linear(3).unwrap();
    let back = decode_linear(&file, 2, 7).ok().unwrap();
    assert_eq!(back.timestamps[1], 0);
    assert_eq!(back.chunks[33].as_ref().unwrap().x, 65);
    assert!(back.is_storable());
}

#[test]
fn count_chunks_counts_populated_slots() {
    let region = sample_region();
    assert_eq!(region.count_chunks(), 3);
    let mut full = Region::new(0, 0);
    for slot in 0..1024 {
        full.chunks[slot] = Some(chunk_at(0, 0, slot, vec![1]));
    }
    assert_eq!(full.count_chunks(), 1024);
}

#[test]
fn count_chunks_takes_any_number_of_slots() {
    let mut region = Region::new(0, 0);
    region.chunks.truncate(3);
    region.chunks[1] = Some(chunk_at(0, 0, 1, vec![1]));
    assert_eq!(region.count_chunks(), 1);
}

#[test]
fn empty_region_round_trips() {
    let region = Region::new(3, 5);
    let file = region.encode_linear(3).unwrap();
    assert_eq!(&file[18..20], &[0, 0]);
    let compressed = &file[32..file.len() - 8];
    assert_eq!(zstd::stream::decode_all(compressed).unwrap(), vec![0u8; 8192]);
    let back = decode_linear(&file, 3, 5).ok().unwrap();
    assert_eq!(back.count_chunks(), 0);
    same_region(&region, &back);
}

#[test]
fn populated_region_round_trips() {
    let region = sample_region();
    let file = region.encode_linear(3).unwrap();
    let back = decode_linear(&file, 2, 7).ok().unwrap();
    same_region(&region, &back);
    assert_eq!(back.count_chunks(), 3);
}

#[test]
fn round_trip_holds_at_every_level() {
    let region = sample_region();
    for level in [-7, 0, 1, 3, 19, 22, 1000, i32::MIN, i32::MAX] {
        let file = region.encode_linear(level).unwrap();
        let back = decode_linear(&file, 2, 7).ok().unwrap();
        same_region(&region, &back);
    }
}

#[test]
fn full_region_round_trips() {
    let mut region = Region::new(1, 1);
    for slot in 0..1024 {
        region.chunks[slot] = Some(chunk_at(1, 1, slot, vec![(slot % 251) as u8; slot % 7 + 1]));
        region.timestamps[slot] = slot as i32 - 500;
    }
    let file = region.encode_linear(1).unwrap();
    assert_eq!(&file[18..20], &[4, 0]);
    let back = decode_linear(&file, 1, 1).ok().unwrap();
    same_region(&region, &back);
}

#[test]
fn payload_is_table_then_chunk_bytes() {
    let region = sample_region();
    let payload = region.payload().unwrap();
    assert_eq!(payload.len(), 8192 + 3 + 5000 + 1);
    assert_eq!(&payload[0..8], &[0, 0, 0, 3, 0x65, 0x53, 0xf1, 0x00]);
    assert_eq!(&payload[8..16], &[0; 8]);
    assert_eq!(&payload[33 * 8..34 * 8], &[0, 0, 0x13, 0x88, 0xff, 0xff, 0xff, 0xf4]);
    assert_eq!(&payload[1023 * 8..1024 * 8], &[0, 0, 0, 1, 0x7f, 0xff, 0xff, 0xff]);
    assert_eq!(&payload[8192..8195], &[1, 2, 3]);
    assert_eq!(&payload[8195..13195], &[0xff; 5000][..]);
    assert_eq!(payload[13195], 9);
}

#[test]
fn payload_writes_zeros_for_an_empty_slot_with_a_timestamp() {
    let mut region = Region::new(0, 0);
    region.timestamps[5] = 77;
    assert_eq!(region.payload().unwrap(), vec![0u8; 8192]);
}

#[test]
fn frame_file_lays_out_the_header() {
    let file = frame_file(0x0102_0304_0506_0708, 3, 0x0a0b, &[0xaa, 0xbb, 0xcc]).unwrap();
    let mut expected = Vec::new();
    expected.extend_from_slice(&SIGNATURE_BYTES);
    expected.push(2);
    expected.extend_from_slice(&[1, 2, 3, 4, 5, 6, 7, 8]);
    expected.push(3);
    expected.extend_from_slice(&[0x0a, 0x0b]);
    expected.extend_from_slice(&[0, 0, 0, 3]);
    expected.extend_from_slice(&[0; 8]);
    expected.extend_from_slice(&[0xaa, 0xbb, 0xcc]);
    expected.extend_from_slice(&SIGNATURE_BYTES);
    assert_eq!(file, expected);
}

#[test]
fn frame_file_writes_negative_numbers_in_twos_complement() {
    let file = frame_file(-2, -1, -3, &[]).unwrap();
    assert_eq!(&file[9..17], &[0xff, 0xff, 0xff, 0xff, 0xff, 0xff, 0xff, 0xfe]);
    assert_eq!(file[17], 0xff);
    assert_eq!(&file[18..20], &[0xff, 0xfd]);
    assert_eq!(&file[20..24], &[0, 0, 0, 0]);
    assert_eq!(file.len(), 40);
}

#[test]
fn frame_file_keeps_the_low_byte_of_the_level() {
    assert_eq!(frame_file(0, 0x1234_5678, 0, &[]).unwrap()[17], 0x78);
    assert_eq!(frame_file(0, 22, 0, &[]).unwrap()[17], 22);
    assert_eq!(frame_file(0, -5, 0, &[]).unwrap()[17], 0xfb);
}

#[test]
fn frame_file_refuses_a_payload_beyond_32_bits() {
    let huge = vec![0u8; (i32::MAX as usize) + 1];
    assert_eq!(frame_file(0, 3, 0, &huge).err(), Some(LinearError::TooLarge));
}

#[test]
fn encode_refuses_a_chunk_beyond_32_bits() {
    let mut region = Region::new(0, 0);
    region.chunks[7] = Some(chunk_at(0, 0, 7, vec![0u8; (i32::MAX as usize) + 1]));
    assert_eq!(region.payload().err(), Some(LinearError::TooLarge));
    assert_eq!(region.encode_linear(3).err(), Some(LinearError::TooLarge));
}

#[test]
fn encode_compresses_the_payload() {
    let region = sample_region();
    let payload = region.payload().unwrap();
    let file = region.encode_linear(3).unwrap();
    assert!(file.len() < payload.len());
    let compressed = &file[32..file.len() - 8];
    assert_eq!(zstd::stream::decode_all(compressed).unwrap(), payload);
    let declared = i32::from_be_bytes([file[20], file[21], file[22], file[23]]);
    assert_eq!(declared as usize, compressed.len());
    assert_eq!(&file[..8], &SIGNATURE_BYTES);
    assert_eq!(file[8], 2);
    assert_eq!(&file[18..20], &[0, 3]);
    assert_eq!(&file[24..32], &[0; 8]);
    assert_eq!(&file[file.len() - 8..], &SIGNATURE_BYTES);
}

#[test]
fn decode_reads_the_header_fields() {
    let payload = payload_with(&[(2, 4)], &[5, 6, 7, 8]);
    let compressed = zstd::stream::encode_all(&payload[..], 3).unwrap();
    let file = frame_file(-0x0102_0304_0506_0708, 9, 1, &compressed).unwrap();
    let region = decode_linear(&file, 0, 0).ok().unwrap();
    assert_eq!(region.newest_timestamp, -0x0102_0304_0506_0708);
    assert_eq!(region.count_chunks(), 1);
    assert_eq!(region.chunks[2].as_ref().unwrap().raw_chunk, vec![5, 6, 7, 8]);
}

#[test]
fn decode_reads_both_versions() {
    let mut file = sample_region().encode_linear(3).unwrap();
    assert_eq!(file[8], 2);
    file[8] = 1;
    let back = decode_linear(&file, 2, 7).ok().unwrap();
    same_region(&sample_region(), &back);
}

#[test]
fn decode_ignores_the_level_and_the_reserved_field() {
    let mut file = sample_region().encode_linear(3).unwrap();
    file[17] = 0x99;
    for at in 24..32 {
        file[at] = 0x55;
    }
    let back = decode_linear(&file, 2, 7).ok().unwrap();
    same_region(&sample_region(), &back);
}

#[test]
fn decode_keeps_the_timestamp_of_an_empty_slot() {
    let mut payload = payload_with(&[], &[]);
    payload[5 * 8 + 4..5 * 8 + 8].copy_from_slice(&77i32.to_be_bytes());
    let region = decode_linear(&file_around(&payload, 0), 0, 0).ok().unwrap();
    assert!(region.chunks[5].is_none());
    assert_eq!(region.timestamps[5], 77);
}

#[test]
fn corrupt_signature_is_rejected() {
    let file = sample_region().encode_linear(3).unwrap();
    for at in 0..8 {
        let mut bad = file.clone();
        bad[at] ^= 0x01;
        let mut spelled = SIGNATURE_BYTES;
        spelled[at] ^= 0x01;
        assert_eq!(
            decode_linear(&bad, 2, 7).err(),
            Some(LinearError::InvalidSignature(i64::from_be_bytes(spelled)))
        );
    }
}

#[test]
fn corrupt_version_is_rejected() {
    let file = sample_region().encode_linear(3).unwrap();
    for version in [0u8, 3, 4, 0x7f, 0x80, 0xff] {
        let mut bad = file.clone();
        bad[8] = version;
        assert_eq!(
            decode_linear(&bad, 2, 7).err(),
            Some(LinearError::InvalidVersion(version as i8))
        );
    }
}

#[test]
fn corrupt_footer_is_rejected() {
    let file = sample_region().encode_linear(3).unwrap();
    for back in 1..=8 {
        let mut bad = file.clone();
        let at = file.len() - back;
        bad[at] ^= 0x80;
        let mut spelled = SIGNATURE_BYTES;
        spelled[8 - back] ^= 0x80;
        assert_eq!(
            decode_linear(&bad, 2, 7).err(),
            Some(LinearError::InvalidFooterSignature(i64::from_be_bytes(spelled)))
        );
    }
}

#[test]
fn signature_is_checked_before_version_and_footer() {
    let mut file = sample_region().encode_linear(3).unwrap();
    let last = file.len() - 1;
    file[0] = 0;
    file[8] = 9;
    file[last] = 0;
    assert!(matches!(decode_linear(&file, 2, 7).err(), Some(LinearError::InvalidSignature(_))));
    file[0] = SIGNATURE_BYTES[0];
    assert_eq!(decode_linear(&file, 2, 7).err(), Some(LinearError::InvalidVersion(9)));
    file[8] = 2;
    assert!(matches!(
        decode_linear(&file, 2, 7).err(),
        Some(LinearError::InvalidFooterSignature(_))
    ));
}

#[test]
fn chunk_count_mismatch_is_rejected() {
    let region = sample_region();
    let payload = region.payload().unwrap();
    assert_eq!(
        decode_linear(&file_around(&payload, 2), 2, 7).err(),
        Some(LinearError::InvalidChunkCount { declared: 2, actual: 3 })
    );
    assert_eq!(
        decode_linear(&file_around(&payload, -3), 2, 7).err(),
        Some(LinearError::InvalidChunkCount { declared: -3, actual: 3 })
    );
    assert!(decode_linear(&file_around(&payload, 3), 2, 7).is_ok());
}

#[test]
fn chunk_count_mismatch_follows_from_an_empty_chunk() {
    let mut region = Region::new(0, 0);
    region.chunks[4] = Some(chunk_at(0, 0, 4, Vec::new()));
    let file = region.encode_linear(3).unwrap();
    assert_eq!(
        decode_linear(&file, 0, 0).err(),
        Some(LinearError::InvalidChunkCount { declared: 1, actual: 0 })
    );
}

#[test]
fn size_mismatch_is_rejected() {
    let short = payload_with(&[(0, 4)], &[1, 2, 3]);
    assert_eq!(
        decode_linear(&file_around(&short, 1), 0, 0).err(),
        Some(LinearError::InvalidDecompressedSize)
    );
    let long = payload_with(&[(0, 4)], &[1, 2, 3, 4, 5]);
    assert_eq!(
        decode_linear(&file_around(&long, 1), 0, 0).err(),
        Some(LinearError::InvalidDecompressedSize)
    );
    let exact = payload_with(&[(0, 4)], &[1, 2, 3, 4]);
    assert!(decode_linear(&file_around(&exact, 1), 0, 0).is_ok());
}

#[test]
fn size_mismatch_is_found_before_count_mismatch() {
    let payload = payload_with(&[(0, 4)], &[1, 2, 3]);
    assert_eq!(
        decode_linear(&file_around(&payload, 5), 0, 0).err(),
        Some(LinearError::InvalidDecompressedSize)
    );
}

#[test]
fn sizes_beyond_32_bits_in_sum_are_not_wrapped() {
    let payload = payload_with(&[(0, i32::MAX), (1, i32::MAX), (2, 2)], &[]);
    assert_eq!(
        decode_linear(&file_around(&payload, 3), 0, 0).err(),
        Some(LinearError::InvalidDecompressedSize)
    );
}

#[test]
fn negative_size_is_rejected() {
    let payload = payload_with(&[(0, -2), (1, 6)], &[1, 2, 3, 4]);
    assert_eq!(
        decode_linear(&file_around(&payload, 2), 0, 0).err(),
        Some(LinearError::InvalidDecompressedSize)
    );
    assert_eq!(
        decode_linear(&file_around(&payload, 1), 0, 0).err(),
        Some(LinearError::InvalidChunkCount { declared: 1, actual: 2 })
    );
}

#[test]
fn short_slot_table_is_rejected() {
    let payload = vec![0u8; 8191];
    assert_eq!(
        decode_linear(&file_around(&payload, 0), 0, 0).err(),
        Some(LinearError::UnexpectedEof)
    );
    assert_eq!(decode_linear(&file_around(&[], 0), 0, 0).err(), Some(LinearError::UnexpectedEof));
    assert_eq!(
        Region::from_payload(&[], 0, 0, 0, 0).err(),
        Some(LinearError::UnexpectedEof)
    );
}

#[test]
fn truncated_header_is_rejected() {
    let file = sample_region().encode_linear(3).unwrap();
    for len in [0, 1, 7, 8, 23] {
        assert_eq!(decode_linear(&file[..len], 2, 7).err(), Some(LinearError::UnexpectedEof));
    }
}

#[test]
fn truncated_payload_is_rejected() {
    let file = sample_region().encode_linear(3).unwrap();
    let mut cut = file[..file.len() - 20].to_vec();
    cut.extend_from_slice(&SIGNATURE_BYTES);
    assert_eq!(decode_linear(&cut, 2, 7).err(), Some(LinearError::UnexpectedEof));
    assert_eq!(decode_linear(&file[..file.len() - 1], 2, 7).err().is_some(), true);
}

#[test]
fn payload_may_reach_into_the_footer() {
    let file = sample_region().encode_linear(3).unwrap();
    let mut cut = file[..file.len() - 9].to_vec();
    cut.extend_from_slice(&SIGNATURE_BYTES);
    assert_eq!(decode_linear(&cut, 2, 7).err(), Some(LinearError::Compression));
}

#[test]
fn negative_payload_length_is_rejected() {
    let mut file = sample_region().encode_linear(3).unwrap();
    file[20..24].copy_from_slice(&(-1i32).to_be_bytes());
    assert_eq!(decode_linear(&file, 2, 7).err(), Some(LinearError::UnexpectedEof));
}

#[test]
fn payload_that_is_no_zstd_frame_is_rejected() {
    let file = frame_file(0, 3, 0, &[1, 2, 3, 4, 5, 6, 7, 8]).unwrap();
    assert_eq!(decode_linear(&file, 0, 0).err(), Some(LinearError::Compression));
    let empty = frame_file(0, 3, 0, &[]).unwrap();
    assert_eq!(decode_linear(&empty, 0, 0).err(), Some(LinearError::Compression));
}

#[test]
fn header_without_payload_is_cut_short() {
    let mut file = frame_file(0, 3, 0, &[]).unwrap();
    file.truncate(24);
    file[16..24].copy_from_slice(&SIGNATURE_BYTES);
    assert_eq!(decode_linear(&file, 0, 0).err(), Some(LinearError::UnexpectedEof));
    file[0] = 0;
    assert!(matches!(decode_linear(&file, 0, 0).err(), Some(LinearError::InvalidSignature(_))));
    let whole = frame_file(0, 3, 0, &[]).unwrap();
    assert_eq!(decode_linear(&whole[..39], 0, 0).err().is_some(), true);
}

#[test]
fn coordinates_follow_the_slot() {
    let payload = payload_with(&[(0, 1), (33, 1), (1023, 1)], &[7, 8, 9]);
    let region = decode_linear(&file_around(&payload, 3), 10, 20).ok().unwrap();
    let first = region.chunks[0].as_ref().unwrap();
    assert_eq!((first.x, first.z), (320, 640));
    let second = region.chunks[33].as_ref().unwrap();
    assert_eq!((second.x, second.z), (321, 641));
    let last = region.chunks[1023].as_ref().unwrap();
    assert_eq!((last.x, last.z), (351, 671));
    assert_eq!(first.raw_chunk, vec![7]);
    assert_eq!(second.raw_chunk, vec![8]);
    assert_eq!(last.raw_chunk, vec![9]);
    assert_eq!(region.region_x, 10);
    assert_eq!(region.region_z, 20);
}

#[test]
fn coordinates_beyond_usize_are_rejected() {
    let payload = payload_with(&[(0, 1)], &[7]);
    let file = file_around(&payload, 1);
    assert_eq!(
        decode_linear(&file, usize::MAX, 0).err(),
        Some(LinearError::CoordinateOverflow)
    );
    assert_eq!(
        decode_linear(&file, 0, usize::MAX / 32 + 1).err(),
        Some(LinearError::CoordinateOverflow)
    );
    assert!(decode_linear(&file, usize::MAX / 32, usize::MAX / 32).is_ok());
    let far = payload_with(&[(31, 1)], &[7]);
    assert_eq!(
        decode_linear(&file_around(&far, 1), usize::MAX / 32, 0).err(),
        None
    );
    let empty = payload_with(&[], &[]);
    assert!(decode_linear(&file_around(&empty, 0), usize::MAX, usize::MAX).is_ok());
}

#[test]
fn from_payload_reads_table_and_chunks() {
    let mut payload = payload_with(&[(1, 2), (40, 3)], &[1, 2, 3, 4, 5]);
    payload[1 * 8 + 4..1 * 8 + 8].copy_from_slice(&(-9i32).to_be_bytes());
    let region = Region::from_payload(&payload, 2, 55, 1, 2).ok().unwrap();
    assert_eq!(region.newest_timestamp, 55);
    assert_eq!(region.timestamps[1], -9);
    assert_eq!(region.count_chunks(), 2);
    let a = region.chunks[1].as_ref().unwrap();
    assert_eq!((a.raw_chunk.clone(), a.x, a.z), (vec![1, 2], 33, 64));
    let b = region.chunks[40].as_ref().unwrap();
    assert_eq!((b.raw_chunk.clone(), b.x, b.z), (vec![3, 4, 5], 40, 65));
}
