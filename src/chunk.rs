//! A chunk: a fixed block of the world, generated once from an elevation
//! field.
use vstd::prelude::*;

use crate::block::{BlockType, SolidMaterial};
use crate::coordinates::{to_index, BlockCoordinates, ChunkCoordinates, CHUNK_VOLUME};

verus! {

/// The block at height `height` of a column whose elevation threshold is
/// `threshold`: solid below the threshold, liquid between it and sea level
/// (height 0), a grass surface exactly at a positive threshold, empty
/// elsewhere.
pub open spec fn classify_spec(height: int, threshold: int) -> BlockType {
    if height == threshold && threshold > 0 {
        BlockType::Solid(SolidMaterial::Grass)
    } else if height < threshold {
        BlockType::Solid(SolidMaterial::Dirt)
    } else if height > threshold && height < 0 {
        BlockType::Liquid
    } else {
        BlockType::Empty
    }
}

/// Classifies a block by its height and its column's threshold.
pub fn classify(height: i32, threshold: i32) -> (r: BlockType)
    ensures
        r == classify_spec(height as int, threshold as int),
{
    if height == threshold && threshold > 0 {
        BlockType::Solid(SolidMaterial::Grass)
    } else if height < threshold {
        BlockType::Solid(SolidMaterial::Dirt)
    } else if height > threshold && height < 0 {
        BlockType::Liquid
    } else {
        BlockType::Empty
    }
}

/// The blocks of one chunk, indexed by `to_index`, with the elevation
/// threshold of each column it was generated from.
pub struct Chunk {
    pub coordinates: ChunkCoordinates,
    pub blocks: Vec<BlockType>,
    pub thresholds: Ghost<Seq<i32>>,
}

/// Elevation thresholds are asked column by column: chunk, then x and y
/// inside the chunk.
pub open spec fn elevation_ready<F: Fn(ChunkCoordinates, u32, u32) -> i32>(f: &F) -> bool {
    forall|c: ChunkCoordinates, x: u32, y: u32| #[trigger] f.requires((c, x, y))
}

/// The blocks of a column range whose thresholds are `t`, at height `z`.
pub open spec fn classify_all(z: int, t: Seq<i32>) -> Seq<BlockType> {
    t.map_values(|e: i32| classify_spec(z, e as int))
}

/// `chunk` was generated at `coordinates` from the elevation field `f`:
/// each column's threshold is one that `f` returned for that column, and
/// each block is classified from it.
pub open spec fn generated_from<F: Fn(ChunkCoordinates, u32, u32) -> i32>(
    chunk: Chunk,
    coordinates: ChunkCoordinates,
    f: &F,
) -> bool {
    &&& chunk.coordinates == coordinates
    &&& chunk.thresholds@.len() == CHUNK_VOLUME
    &&& chunk.blocks@ == classify_all(coordinates.z as int, chunk.thresholds@)
    &&& forall|i: int|
        0 <= i < CHUNK_VOLUME ==> #[trigger] f.ensures(
            (coordinates, (i / 16) as u32, (i % 16) as u32),
            chunk.thresholds@[i],
        )
}

impl Chunk {
    pub open spec fn wf(self) -> bool {
        self.blocks@.len() == CHUNK_VOLUME
    }

    /// Generates the chunk at `coordinates`, asking `elevation` for the
    /// threshold of each column.
    pub fn new<F: Fn(ChunkCoordinates, u32, u32) -> i32>(
        coordinates: ChunkCoordinates,
        elevation: &F,
    ) -> (r: Chunk)
        requires
            elevation_ready(elevation),
        ensures
            generated_from(r, coordinates, elevation),
            r.wf(),
    {
        let mut blocks: Vec<BlockType> = Vec::new();
        let ghost mut t: Seq<i32> = Seq::empty();
        let mut x: u32 = 0;
        while x < 16
            invariant
                elevation_ready(elevation),
                x <= 16,
                blocks@.len() == x * 16,
                t.len() == blocks@.len(),
                blocks@ == classify_all(coordinates.z as int, t),
                forall|i: int|
                    0 <= i < t.len() ==> #[trigger] elevation.ensures(
                        (coordinates, (i / 16) as u32, (i % 16) as u32),
                        t[i],
                    ),
            decreases 16 - x,
        {
            let mut y: u32 = 0;
            while y < 16
                invariant
                    elevation_ready(elevation),
                    x < 16,
                    y <= 16,
                    blocks@.len() == x * 16 + y,
                    t.len() == blocks@.len(),
                    blocks@ == classify_all(coordinates.z as int, t),
                    forall|i: int|
                        0 <= i < t.len() ==> #[trigger] elevation.ensures(
                            (coordinates, (i / 16) as u32, (i % 16) as u32),
                            t[i],
                        ),
                decreases 16 - y,
            {
                assert(elevation.requires((coordinates, x, y)));
                let threshold = elevation(coordinates, x, y);
                let block = classify(coordinates.z, threshold);
                let ghost n = blocks@.len() as int;
                blocks.push(block);
                proof {
                    assert(n / 16 == x as int && n % 16 == y as int) by (nonlinear_arith)
                        requires
                            n == x * 16 + y,
                            y < 16,
                    ;
                    let t0 = t;
                    t = t.push(threshold);
                    assert(blocks@ =~= classify_all(coordinates.z as int, t));
                    assert forall|i: int| 0 <= i < t.len() implies #[trigger] elevation.ensures(
                        (coordinates, (i / 16) as u32, (i % 16) as u32),
                        t[i],
                    ) by {
                        if i < n {
                            assert(t[i] == t0[i]);
                        }
                    }
                }
                y = y + 1;
            }
            x = x + 1;
        }
        Chunk { coordinates, blocks, thresholds: Ghost(t) }
    }

/// Clears one block to `BlockType::Empty`.
    pub fn remove_block(&mut self, block: BlockCoordinates)
        requires
            old(self).wf(),
            block.valid(),
        ensures
            final(self).coordinates == old(self).coordinates,
            final(self).blocks@ == old(self).blocks@.update(block.index_spec(), BlockType::Empty),
            final(self).wf(),
    {
        let index = to_index(block);
        self.blocks.set(index, BlockType::Empty);
    }
}

/// Generation is deterministic: two chunks generated for the same
/// coordinates from an elevation field that gives one threshold per column
/// hold the same blocks.
pub proof fn lemma_generation_deterministic<F: Fn(ChunkCoordinates, u32, u32) -> i32>(
    a: Chunk,
    b: Chunk,
    coordinates: ChunkCoordinates,
    f: &F,
)
    requires
        generated_from(a, coordinates, f),
        generated_from(b, coordinates, f),
        forall|c: ChunkCoordinates, x: u32, y: u32, e1: i32, e2: i32|
            #[trigger] f.ensures((c, x, y), e1) && #[trigger] f.ensures((c, x, y), e2) ==> e1
                == e2,
    ensures
        a.blocks@ == b.blocks@,
        a.coordinates == b.coordinates,
{
    assert forall|i: int| 0 <= i < CHUNK_VOLUME implies a.thresholds@[i] == b.thresholds@[i] by {
        assert(f.ensures((coordinates, (i / 16) as u32, (i % 16) as u32), a.thresholds@[i]));
        assert(f.ensures((coordinates, (i / 16) as u32, (i % 16) as u32), b.thresholds@[i]));
    }
    assert(a.thresholds@ =~= b.thresholds@);
}

} // verus!
