//! The world: chunks that come into being when first needed, and the
//! damage that blocks have taken.
use vstd::prelude::*;

use crate::block::BlockType;
use crate::chunk::{elevation_ready, generated_from, Chunk};
use crate::coord_map::CoordMap;
use crate::coordinates::{
    all_neighbors_spec, same_layer_neighbors_spec, to_index, BlockCoordinates, ChunkCoordinates,
    WorldCoordinates, CHUNK_SIZE_X, CHUNK_SIZE_Y, CHUNK_VOLUME,
};

verus! {

/// Health of a block that has taken no damage, in thousandths of a block.
pub const FULL_HEALTH: i64 = 1000;

/// Health left after `damage` is taken from `health`, held at `i64::MIN`.
pub open spec fn remaining_health(health: i64, damage: u32) -> i64 {
    if health - damage < i64::MIN {
        i64::MIN
    } else {
        (health - damage) as i64
    }
}

/// What `damage_block` does: the health of the block drops by `damage`
/// (from `FULL_HEALTH` on the first hit); the result says whether it is
/// below zero; only then is the block cleared, its chunk generated first
/// where it did not exist.
pub open spec fn damage_outcome<F: Fn(ChunkCoordinates, u32, u32) -> i32>(
    old: WorldMap,
    new: WorldMap,
    coordinates: WorldCoordinates,
    damage: u32,
    elevation: &F,
    r: bool,
) -> bool {
    &&& r == (remaining_health(old.health_spec(coordinates), damage) < 0)
    &&& new.health_map() == old.health_map().insert(
        coordinates.key(),
        remaining_health(old.health_spec(coordinates), damage),
    )
    &&& !r ==> new.chunk_map() == old.chunk_map()
    &&& r ==> new.raw_block_spec(coordinates) == Some(BlockType::Empty)
    &&& r ==> {
        let k = coordinates.chunk_spec().key();
        let i = coordinates.block_spec().index_spec();
        let c = new.chunk_map()[k];
        &&& new.chunk_map() == old.chunk_map().insert(k, c)
        &&& old.chunk_map().contains_key(k) ==> c.blocks@ == old.chunk_map()[k].blocks@.update(
            i,
            BlockType::Empty,
        )
        &&& !old.chunk_map().contains_key(k) ==> exists|g: Chunk|
            generated_from(g, coordinates.chunk_spec(), elevation) && c.blocks@ == g.blocks@.update(
                i,
                BlockType::Empty,
            )
    }
}

/// The generated chunks and the health of damaged blocks.
pub struct WorldMap {
    chunks: CoordMap<Chunk>,
    block_states: CoordMap<i64>,
}

impl WorldMap {
    /// The chunks generated so far, by chunk coordinates.
    pub closed spec fn chunk_map(&self) -> Map<(i32, i32, i32), Chunk> {
        self.chunks@
    }

    /// The health of the blocks that have been damaged.
    pub closed spec fn health_map(&self) -> Map<(i32, i32, i32), i64> {
        self.block_states@
    }

    pub open spec fn wf(&self) -> bool {
        forall|k: (i32, i32, i32)|
            #[trigger] self.chunk_map().contains_key(k) ==> self.chunk_map()[k].wf()
                && self.chunk_map()[k].coordinates.key() == k
    }

    pub open spec fn has_chunk(&self, c: ChunkCoordinates) -> bool {
        self.chunk_map().contains_key(c.key())
    }

    /// The block at `c`, or `None` where its chunk has not been generated.
    pub open spec fn raw_block_spec(&self, c: WorldCoordinates) -> Option<BlockType> {
        if self.has_chunk(c.chunk_spec()) {
            Some(self.chunk_map()[c.chunk_spec().key()].blocks@[c.block_spec().index_spec()])
        } else {
            None
        }
    }

    /// The block at `c`, or `None` where it is empty or not generated.
    pub open spec fn block_spec(&self, c: WorldCoordinates) -> Option<BlockType> {
        match self.raw_block_spec(c) {
            Some(BlockType::Empty) => None,
            other => other,
        }
    }

    /// Whether `c` counts as solid: a block not yet generated does.
    pub open spec fn solidness_spec(&self, c: WorldCoordinates) -> bool {
        match self.raw_block_spec(c) {
            Some(b) => b.is_solid_spec(),
            None => true,
        }
    }

    /// The health of the block at `c`.
    pub open spec fn health_spec(&self, c: WorldCoordinates) -> i64 {
        if self.health_map().contains_key(c.key()) {
            self.health_map()[c.key()]
        } else {
            FULL_HEALTH
        }
    }

    /// An empty world: no chunk generated, no block damaged.
    pub fn new() -> (r: WorldMap)
        ensures
            r.wf(),
            r.chunk_map() == Map::<(i32, i32, i32), Chunk>::empty(),
            r.health_map() == Map::<(i32, i32, i32), i64>::empty(),
    {
        WorldMap { chunks: CoordMap::new(), block_states: CoordMap::new() }
    }

    /// Generates the chunk at `coordinates` where none exists yet.
    pub fn get_or_insert_chunk<F: Fn(ChunkCoordinates, u32, u32) -> i32>(
        &mut self,
        coordinates: ChunkCoordinates,
        elevation: &F,
    )
        requires
            old(self).wf(),
            elevation_ready(elevation),
        ensures
            final(self).wf(),
            final(self).health_map() == old(self).health_map(),
            old(self).has_chunk(coordinates) ==> final(self).chunk_map() == old(
                self,
            ).chunk_map(),
            !old(self).has_chunk(coordinates) ==> {
                &&& final(self).chunk_map() == old(self).chunk_map().insert(
                    coordinates.key(),
                    final(self).chunk_map()[coordinates.key()],
                )
                &&& generated_from(
                    final(self).chunk_map()[coordinates.key()],
                    coordinates,
                    elevation,
                )
            },
    {
        let k = (coordinates.x, coordinates.y, coordinates.z);
        if !self.chunks.contains(k) {
            let chunk = Chunk::new(coordinates, elevation);
            self.chunks.insert(k, chunk);
            assert(self.chunk_map()[coordinates.key()] == chunk);
            assert forall|j: (i32, i32, i32)| #[trigger] self.chunk_map().contains_key(j)
                implies self.chunk_map()[j].wf() && self.chunk_map()[j].coordinates.key() == j by {
                if j != k {
                    assert(old(self).chunk_map().contains_key(j));
                }
            }
        }
    }

    /// Generates the chunk at `coordinates` and each of its twenty-six
    /// neighbours where it does not exist yet; chunks that exist are kept.
    pub fn ensure_surrounding_exist<F: Fn(ChunkCoordinates, u32, u32) -> i32>(
        &mut self,
        coordinates: ChunkCoordinates,
        elevation: &F,
    )
        requires
            old(self).wf(),
            elevation_ready(elevation),
            coordinates.inner(),
        ensures
            final(self).wf(),
            final(self).health_map() == old(self).health_map(),
            final(self).has_chunk(coordinates),
            forall|i: int|
                0 <= i < 26 ==> final(self).chunk_map().contains_key(
                    (#[trigger] all_neighbors_spec(coordinates.as_world())[i]).0.key(),
                ),
            forall|k: (i32, i32, i32)| #[trigger]
                old(self).chunk_map().contains_key(k) ==> final(self).chunk_map().contains_key(k)
                    && final(self).chunk_map()[k] == old(self).chunk_map()[k],
            forall|k: (i32, i32, i32)| #[trigger]
                final(self).chunk_map().contains_key(k) && !old(self).chunk_map().contains_key(k)
                    ==> generated_from(
                    final(self).chunk_map()[k],
                    ChunkCoordinates { x: k.0, y: k.1, z: k.2 },
                    elevation,
                ),
            forall|k: (i32, i32, i32)| #[trigger]
                final(self).chunk_map().contains_key(k) ==> old(self).chunk_map().contains_key(k)
                    || k == coordinates.key() || exists|i: int|
                    0 <= i < 26 && k == (#[trigger] all_neighbors_spec(
                        coordinates.as_world(),
                    )[i]).0.key(),
    {
        self.get_or_insert_chunk(coordinates, elevation);
        let neighbors = coordinates.all_neighbors();
        let mut i: usize = 0;
        while i < neighbors.len()
            invariant
                self.wf(),
                elevation_ready(elevation),
                self.health_map() == old(self).health_map(),
                self.has_chunk(coordinates),
                neighbors@.len() == 26,
                forall|j: int|
                    0 <= j < 26 ==> (#[trigger] neighbors@[j]).as_world() == all_neighbors_spec(
                        coordinates.as_world(),
                    )[j].0,
                0 <= i <= 26,
                forall|j: int| 0 <= j < i ==> self.has_chunk(#[trigger] neighbors@[j]),
                forall|k: (i32, i32, i32)| #[trigger]
                    old(self).chunk_map().contains_key(k) ==> self.chunk_map().contains_key(k)
                        && self.chunk_map()[k] == old(self).chunk_map()[k],
                forall|k: (i32, i32, i32)| #[trigger]
                    self.chunk_map().contains_key(k) && !old(self).chunk_map().contains_key(k)
                        ==> generated_from(
                        self.chunk_map()[k],
                        ChunkCoordinates { x: k.0, y: k.1, z: k.2 },
                        elevation,
                    ),
                forall|k: (i32, i32, i32)| #[trigger]
                    self.chunk_map().contains_key(k) ==> old(self).chunk_map().contains_key(k)
                        || k == coordinates.key() || exists|j: int|
                        0 <= j < i && k == (#[trigger] neighbors@[j]).key(),
            decreases 26 - i,
        {
            let ghost prev = self.chunk_map();
            self.get_or_insert_chunk(neighbors[i], elevation);
            proof {
                assert forall|k: (i32, i32, i32)| #[trigger]
                    self.chunk_map().contains_key(k) implies old(self).chunk_map().contains_key(k)
                        || k == coordinates.key() || exists|j: int|
                        0 <= j < i + 1 && k == (#[trigger] neighbors@[j]).key() by {
                    if k == neighbors@[i as int].key() {
                    } else {
                        assert(prev.contains_key(k));
                    }
                }
            }
            i = i + 1;
        }
        assert forall|k: (i32, i32, i32)| #[trigger]
            self.chunk_map().contains_key(k) implies old(self).chunk_map().contains_key(k)
                || k == coordinates.key() || exists|i: int|
                0 <= i < 26 && k == (#[trigger] all_neighbors_spec(
                    coordinates.as_world(),
                )[i]).0.key() by {
            if !old(self).chunk_map().contains_key(k) && k != coordinates.key() {
                let j = choose|j: int| 0 <= j < 26 && k == (#[trigger] neighbors@[j]).key();
                assert(neighbors@[j].as_world() == all_neighbors_spec(coordinates.as_world())[j].0);
            }
        }
        assert forall|i: int|
            0 <= i < 26 implies final(self).chunk_map().contains_key(
            (#[trigger] all_neighbors_spec(coordinates.as_world())[i]).0.key(),
        ) by {
            assert(self.has_chunk(neighbors@[i]));
        }
    }

    /// The block at `coordinates`; `None` where its chunk does not exist
    /// yet or the block is empty.
    pub fn get_block(&self, coordinates: WorldCoordinates) -> (r: Option<BlockType>)
        requires
            self.wf(),
        ensures
            r == self.block_spec(coordinates),
    {
        match self.get_raw_block(coordinates) {
            Some(BlockType::Empty) => None,
            other => other,
        }
    }

    /// The block at `coordinates`, empty blocks included; `None` where its
    /// chunk does not exist yet.
    pub fn get_raw_block(&self, coordinates: WorldCoordinates) -> (r: Option<BlockType>)
        requires
            self.wf(),
        ensures
            r == self.raw_block_spec(coordinates),
    {
        let (chunk, block) = coordinates.to_chunk_and_block();
        let index = to_index(block);
        match self.chunks.get((chunk.x, chunk.y, chunk.z)) {
            Some(c) => Some(c.blocks[index]),
            None => None,
        }
    }

    /// Whether the block at `coordinates` is solid; a block whose chunk
    /// does not exist yet counts as solid.
    pub fn solidness(&self, coordinates: WorldCoordinates) -> (r: bool)
        requires
            self.wf(),
        ensures
            r == self.solidness_spec(coordinates),
    {
        match self.get_raw_block(coordinates) {
            Some(b) => b.is_solid(),
            None => true,
        }
    }

    /// Takes `damage` (thousandths of a block) from the block at
    /// `coordinates`, whose health starts at `FULL_HEALTH`. Once the health
    /// is below zero the block is cleared, its chunk generated first where
    /// needed. Returns whether the health is below zero.
    pub fn damage_block<F: Fn(ChunkCoordinates, u32, u32) -> i32>(
        &mut self,
        coordinates: WorldCoordinates,
        damage: u32,
        elevation: &F,
    ) -> (r: bool)
        requires
            old(self).wf(),
            elevation_ready(elevation),
        ensures
            final(self).wf(),
            damage_outcome(*old(self), *final(self), coordinates, damage, elevation, r),
    {
        let key = (coordinates.x, coordinates.y, coordinates.z);
        let health = match self.block_states.get(key) {
            Some(h) => *h,
            None => FULL_HEALTH,
        };
        let remaining = if health < i64::MIN + damage as i64 {
            i64::MIN
        } else {
            health - damage as i64
        };
        let ghost untouched = self.chunk_map();
        self.block_states.insert(key, remaining);
        assert(self.chunk_map() == untouched);
        if remaining < 0 {
            let (chunk_coordinates, block) = coordinates.to_chunk_and_block();
            let ck = (chunk_coordinates.x, chunk_coordinates.y, chunk_coordinates.z);
            let ghost before = self.chunk_map();
            self.get_or_insert_chunk(chunk_coordinates, elevation);
            let ghost generated = self.chunk_map()[ck];
            let chunk = self.chunks.remove(ck);
            match chunk {
                Some(mut c) => {
                    c.remove_block(block);
                    self.chunks.insert(ck, c);
                    proof {
                        assert(self.chunk_map() =~= before.insert(ck, c));
                        assert forall|j: (i32, i32, i32)| #[trigger] self.chunk_map().contains_key(j)
                            implies self.chunk_map()[j].wf() && self.chunk_map()[j].coordinates.key() == j by {
                            if j != ck {
                                assert(before.contains_key(j));
                            }
                        }
                        if !before.contains_key(ck) {
                            assert(generated_from(generated, chunk_coordinates, elevation));
                        }
                    }
                },
                None => {},
            }
        }
        remaining < 0
    }
}

/// The block lies on the side of its chunk that borders another chunk of
/// the same layer.
pub open spec fn on_chunk_edge(b: BlockCoordinates) -> bool {
    b.x == 0 || b.y == 0 || b.x == CHUNK_SIZE_X - 1 || b.y == CHUNK_SIZE_Y - 1
}

/// The chunks whose drawing a change of the block at `coordinates` touches:
/// its own chunk, and where the block is on a chunk edge, the eight chunks
/// around it on its layer too.
pub fn chunks_to_redraw(coordinates: WorldCoordinates) -> (r: Vec<ChunkCoordinates>)
    ensures
        r@.len() >= 1,
        r@[0] == coordinates.chunk_spec(),
        !on_chunk_edge(coordinates.block_spec()) ==> r@.len() == 1,
        on_chunk_edge(coordinates.block_spec()) ==> r@.len() == 9 && forall|i: int|
            1 <= i < 9 ==> (#[trigger] r@[i]).as_world() == same_layer_neighbors_spec(
                coordinates.chunk_spec().as_world(),
            )[i - 1].0,
{
    let (chunk, block) = coordinates.to_chunk_and_block();
    let mut all: Vec<ChunkCoordinates> = Vec::new();
    all.push(chunk);
    if block.x == 0 || block.y == 0 || block.x == CHUNK_SIZE_X - 1 || block.y == CHUNK_SIZE_Y - 1 {
        let center = WorldCoordinates { x: chunk.x, y: chunk.y, z: chunk.z };
        let neighbors = center.same_layer_neighbors();
        let mut i: usize = 0;
        while i < neighbors.len()
            invariant
                neighbors@ == same_layer_neighbors_spec(center),
                center == coordinates.chunk_spec().as_world(),
                all@.len() == i + 1,
                all@[0] == coordinates.chunk_spec(),
                0 <= i <= neighbors@.len(),
                forall|j: int|
                    1 <= j <= i ==> (#[trigger] all@[j]).as_world() == neighbors@[j - 1].0,
            decreases neighbors.len() - i,
        {
            let n = neighbors[i].0;
            all.push(ChunkCoordinates { x: n.x, y: n.y, z: n.z });
            i = i + 1;
        }
    }
    all
}

} // verus!
