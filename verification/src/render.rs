//! Text for diagnostics: a one-line label of a chunk and the occupancy
//! grid of a region.

use crate::decimal::{append_decimal, decimal};
use crate::region::{Chunk, ChunkModel, Region};
use vstd::prelude::*;
use vstd::string::StringExecFns;

verus! {

/// The glyph of a populated slot, a filled square.
pub const FILLED: char = '\u{25a0}';

/// The glyph of an empty slot, a hollow square.
pub const HOLLOW: char = '\u{25a1}';

/// The label of a chunk: its coordinates, without its payload.
pub open spec fn chunk_label(x: nat, z: nat) -> Seq<char> {
    "Chunk { x: "@ + decimal(x) + ", z: "@ + decimal(z) + " }"@
}

/// The glyph that stands for a slot.
pub open spec fn glyph(slot: Option<ChunkModel>) -> char {
    if slot is Some {
        FILLED
    } else {
        HOLLOW
    }
}

/// The occupancy grid of a list of slots: one glyph for each slot, and a
/// line break after every 32nd. Character `p` lies in row `p / 33`; the
/// last character of a full row is the line break.
pub open spec fn occupancy(slots: Seq<Option<ChunkModel>>) -> Seq<char> {
    Seq::new(
        slots.len() + slots.len() / 32,
        |p: int|
            if p % 33 == 32 {
                '\n'
            } else {
                glyph(slots[(p / 33) * 32 + p % 33])
            },
    )
}

impl Chunk {
    /// A label of this chunk for diagnostics, such as `Chunk { x: 3, z: 40 }`.
    pub fn describe(&self) -> (label: String)
        ensures
            label@ == chunk_label(self.x as nat, self.z as nat),
    {
        let mut label = String::from_str("Chunk { x: ");
        append_decimal(&mut label, self.x);
        label.append(", z: ");
        append_decimal(&mut label, self.z);
        label.append(" }");
        label
    }
}

impl Region {
    /// The occupancy grid of this region for diagnostics: rows of 32
    /// glyphs, filled for a populated slot and hollow for an empty one,
    /// each row ended by a line break.
    pub fn occupancy_grid(&self) -> (grid: String)
        ensures
            grid@ == occupancy(self@.slots),
    {
        let mut grid = String::new();
        let mut i: usize = 0;
        while i < self.chunks.len()
            invariant
                i <= self.chunks@.len(),
                grid@ == occupancy(self@.slots.take(i as int)),
            decreases self.chunks@.len() - i,
        {
            let ghost before = grid@;
            proof {
                reveal_strlit("\u{25a0}");
                reveal_strlit("\u{25a1}");
                reveal_strlit("\n");
            }
            if self.chunks[i].is_some() {
                grid.append("\u{25a0}");
            } else {
                grid.append("\u{25a1}");
            }
            if i % 32 == 31 {
                grid.append("\n");
            }
            proof {
                let shorter = self@.slots.take(i as int);
                let longer = self@.slots.take(i + 1);
                assert(before.len() == i + i / 32);
                assert(grid@.len() == occupancy(longer).len());
                assert forall|p: int| 0 <= p < grid@.len() implies #[trigger] grid@[p]
                    == occupancy(longer)[p] by {
                    if p < before.len() {
                        assert(grid@[p] == occupancy(shorter)[p]);
                        if p % 33 != 32 {
                            let k: int = (p / 33) * 32 + p % 33;
                            assert(k < i);
                            assert(shorter[k] == longer[k]);
                        }
                    } else if p == before.len() {
                        assert((p / 33) * 32 + p % 33 == i);
                        assert(longer[i as int] == self@.slots[i as int]);
                    }
                }
                assert(grid@ =~= occupancy(longer));
            }
            i += 1;
        }
        proof {
            assert(self@.slots.take(i as int) =~= self@.slots);
        }
        grid
    }
}

} // verus!
