//! The region model: 1024 chunk slots with a timestamp each.

use vstd::prelude::*;

verus! {

/// The number of chunk slots of a region.
pub const SLOT_COUNT: usize = 1024;

/// The number of slots in one row of a region, and the number of rows.
pub const REGION_WIDTH: usize = 32;

/// One chunk: its payload, which this library does not look into, and its
/// place in the world.
#[derive(Clone)]
pub struct Chunk {
    /// The payload, as the game wrote it.
    pub raw_chunk: Vec<u8>,
    /// The chunk's world x coordinate.
    pub x: usize,
    /// The chunk's world z coordinate.
    pub z: usize,
}

/// What a `Chunk` stands for.
pub struct ChunkModel {
    /// The payload.
    pub data: Seq<u8>,
    /// The world x coordinate.
    pub x: int,
    /// The world z coordinate.
    pub z: int,
}

impl View for Chunk {
    type V = ChunkModel;

    open spec fn view(&self) -> ChunkModel {
        ChunkModel { data: self.raw_chunk@, x: self.x as int, z: self.z as int }
    }
}

/// One region: chunk slots in row order, a timestamp for each slot, the
/// region's coordinates and the newest timestamp that its file declares.
#[derive(Clone)]
pub struct Region {
    /// The 1024 slots, row by row; `None` is an empty slot.
    pub chunks: Vec<Option<Chunk>>,
    /// The region's x coordinate, in regions.
    pub region_x: usize,
    /// The region's z coordinate, in regions.
    pub region_z: usize,
    /// The timestamp of each of the 1024 slots.
    pub timestamps: Vec<i32>,
    /// The newest timestamp, as the file's header declares it.
    pub newest_timestamp: i64,
}

/// What a `Region` stands for.
pub struct RegionModel {
    /// The slots, row by row.
    pub slots: Seq<Option<ChunkModel>>,
    /// The timestamp of each slot.
    pub timestamps: Seq<i32>,
    /// The region's x coordinate.
    pub region_x: int,
    /// The region's z coordinate.
    pub region_z: int,
    /// The newest timestamp.
    pub newest_timestamp: i64,
}

/// What an optional chunk stands for.
pub open spec fn slot_view(slot: Option<Chunk>) -> Option<ChunkModel> {
    match slot {
        Some(chunk) => Some(chunk@),
        None => None,
    }
}

impl View for Region {
    type V = RegionModel;

    open spec fn view(&self) -> RegionModel {
        RegionModel {
            slots: Seq::new(self.chunks@.len(), |i: int| slot_view(self.chunks@[i])),
            timestamps: self.timestamps@,
            region_x: self.region_x as int,
            region_z: self.region_z as int,
            newest_timestamp: self.newest_timestamp,
        }
    }
}

/// The world x coordinate of slot `index` in a region at `region_x`.
pub open spec fn slot_x(region_x: int, index: int) -> int {
    32 * region_x + index % 32
}

/// The world z coordinate of slot `index` in a region at `region_z`.
pub open spec fn slot_z(region_z: int, index: int) -> int {
    32 * region_z + index / 32
}

/// The number of populated slots among `slots`.
pub open spec fn populated(slots: Seq<Option<ChunkModel>>) -> nat
    decreases slots.len(),
{
    if slots.len() == 0 {
        0
    } else {
        populated(slots.drop_last()) + if slots.last() is Some {
            1nat
        } else {
            0nat
        }
    }
}

/// No more slots are populated than there are.
pub proof fn lemma_populated_bound(slots: Seq<Option<ChunkModel>>)
    ensures
        populated(slots) <= slots.len(),
    decreases slots.len(),
{
    if slots.len() > 0 {
        lemma_populated_bound(slots.drop_last());
    }
}

impl RegionModel {
    /// The region has its 1024 slots and a timestamp for each.
    pub open spec fn wf(self) -> bool {
        &&& self.slots.len() == SLOT_COUNT
        &&& self.timestamps.len() == SLOT_COUNT
    }

    /// The region is one that a file can hold and give back unchanged: each
    /// chunk has a payload of at least one byte whose length fits 32 bits
    /// and lies where its slot puts it, which is within the range of
    /// `usize`, and an empty slot has the timestamp zero.
    pub open spec fn storable(self) -> bool {
        &&& self.wf()
        &&& forall|i: int|
            0 <= i < self.slots.len() ==> match #[trigger] self.slots[i] {
                Some(chunk) => {
                    &&& 0 < chunk.data.len() <= i32::MAX
                    &&& chunk.x == slot_x(self.region_x, i) <= usize::MAX
                    &&& chunk.z == slot_z(self.region_z, i) <= usize::MAX
                },
                None => self.timestamps[i] == 0,
            }
    }
}

/// The world coordinate of the slot at `offset` within a region at
/// `region`, or `None` where it does not fit a `usize`.
pub(crate) fn world_coordinate(region: usize, offset: usize) -> (r: Option<usize>)
    requires
        offset < REGION_WIDTH,
    ensures
        match r {
            Some(c) => c == 32 * region + offset,
            None => 32 * region + offset > usize::MAX,
        },
{
    match region.checked_mul(REGION_WIDTH) {
        Some(base) => base.checked_add(offset),
        None => None,
    }
}

impl Region {
    /// The region has its 1024 slots and a timestamp for each.
    pub open spec fn wf(&self) -> bool {
        self@.wf()
    }

    /// Whether the region has its 1024 slots and a timestamp for each.
    pub fn is_well_formed(&self) -> (b: bool)
        ensures
            b == self.wf(),
    {
        self.chunks.len() == SLOT_COUNT && self.timestamps.len() == SLOT_COUNT
    }

    /// Whether the region is one that a file can hold and give back
    /// unchanged.
    pub fn is_storable(&self) -> (b: bool)
        ensures
            b == self@.storable(),
    {
        if !self.is_well_formed() {
            return false;
        }
        let mut i: usize = 0;
        while i < SLOT_COUNT
            invariant
                i <= SLOT_COUNT,
                self.wf(),
                forall|j: int|
                    0 <= j < i ==> match #[trigger] self@.slots[j] {
                        Some(chunk) => {
                            &&& 0 < chunk.data.len() <= i32::MAX
                            &&& chunk.x == slot_x(self@.region_x, j) <= usize::MAX
                            &&& chunk.z == slot_z(self@.region_z, j) <= usize::MAX
                        },
                        None => self@.timestamps[j] == 0,
                    },
            decreases SLOT_COUNT - i,
        {
            let fits: bool = match &self.chunks[i] {
                Some(chunk) => {
                    0 < chunk.raw_chunk.len() && chunk.raw_chunk.len() <= i32::MAX as usize
                        && world_coordinate(self.region_x, i % REGION_WIDTH) == Some(chunk.x)
                        && world_coordinate(self.region_z, i / REGION_WIDTH) == Some(chunk.z)
                },
                None => self.timestamps[i] == 0,
            };
            if !fits {
                assert(self@.slots[i as int] == slot_view(self.chunks@[i as int]));
                return false;
            }
            i += 1;
        }
        true
    }

    /// A region at the given coordinates with no chunk in it.
    pub fn new(region_x: usize, region_z: usize) -> (region: Region)
        ensures
            region.wf(),
            region@.storable(),
            region@.region_x == region_x,
            region@.region_z == region_z,
            region@.newest_timestamp == 0,
            forall|i: int| 0 <= i < SLOT_COUNT ==> region@.slots[i] is None,
            forall|i: int| 0 <= i < SLOT_COUNT ==> region@.timestamps[i] == 0,
    {
        let mut chunks: Vec<Option<Chunk>> = Vec::new();
        let mut timestamps: Vec<i32> = Vec::new();
        let mut i: usize = 0;
        while i < SLOT_COUNT
            invariant
                i <= SLOT_COUNT,
                chunks@.len() == i,
                timestamps@.len() == i,
                forall|j: int| 0 <= j < i ==> chunks@[j] is None,
                forall|j: int| 0 <= j < i ==> timestamps@[j] == 0,
            decreases SLOT_COUNT - i,
        {
            chunks.push(None);
            timestamps.push(0);
            i += 1;
        }
        Region { chunks, region_x, region_z, timestamps, newest_timestamp: 0 }
    }

    /// The number of populated slots. A region has at most 1024 of them;
    /// of a longer list of slots the count is cut to 16 bits.
    pub fn count_chunks(&self) -> (count: i16)
        ensures
            count == populated(self@.slots) as i16,
            self@.slots.len() <= i16::MAX ==> count == populated(self@.slots),
    {
        let mut found: usize = 0;
        let mut i: usize = 0;
        while i < self.chunks.len()
            invariant
                i <= self.chunks@.len(),
                found == populated(self@.slots.take(i as int)),
                found <= i,
            decreases self.chunks@.len() - i,
        {
            proof {
                assert(self@.slots.take(i + 1).drop_last() =~= self@.slots.take(i as int));
            }
            if self.chunks[i].is_some() {
                found += 1;
            }
            i += 1;
        }
        proof {
            assert(self@.slots.take(i as int) =~= self@.slots);
        }
        found as i16
    }
}

} // verus!
