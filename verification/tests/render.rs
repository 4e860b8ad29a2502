use linear_region::region::{Chunk, Region};

#[test]
fn chunk_label_shows_the_coordinates_only() {
    let chunk = Chunk { raw_chunk: vec![1, 2, 3], x: 3, z: 40 };
    assert_eq!(chunk.describe(), "Chunk { x: 3, z: 40 }");
    let origin = Chunk { raw_chunk: Vec::new(), x: 0, z: 0 };
    assert_eq!(origin.describe(), "Chunk { x: 0, z: 0 }");
    let far = Chunk { raw_chunk: Vec::new(), x: usize::MAX, z: 1000 };
    assert_eq!(far.describe(), format!("Chunk {{ x: {}, z: {} }}", usize::MAX, 1000));
}

#[test]
fn grid_of_an_empty_region_is_hollow() {
    let grid = Region::new(0, 0).occupancy_grid();
    let row = "\u{25a1}".repeat(32) + "\n";
    assert_eq!(grid, row.repeat(32));
    assert_eq!(grid.chars().count(), 1056);
}

#[test]
fn grid_marks_populated_slots() {
    let mut region = Region::new(0, 0);
    for slot in [0, 31, 32, 33, 1023] {
        region.chunks[slot] = Some(Chunk { raw_chunk: vec![1], x: slot % 32, z: slot / 32 });
    }
    let grid = region.occupancy_grid();
    let lines: Vec<&str> = grid.lines().collect();
    assert_eq!(lines.len(), 32);
    let hollow = "\u{25a1}";
    let filled = "\u{25a0}";
    assert_eq!(lines[0], format!("{}{}{}", filled, hollow.repeat(30), filled));
    assert_eq!(lines[1], format!("{}{}{}", filled, filled, hollow.repeat(30)));
    assert_eq!(lines[2], hollow.repeat(32));
    assert_eq!(lines[31], format!("{}{}", hollow.repeat(31), filled));
    assert!(grid.ends_with('\n'));
}

#[test]
fn grid_breaks_lines_after_every_32nd_slot() {
    let mut region = Region::new(0, 0);
    region.chunks.truncate(33);
    region.chunks[32] = Some(Chunk { raw_chunk: vec![1], x: 0, z: 1 });
    let grid = region.occupancy_grid();
    assert_eq!(grid, format!("{}\n{}", "\u{25a1}".repeat(32), "\u{25a0}"));
    region.chunks.truncate(0);
    assert_eq!(region.occupancy_grid(), "");
}
