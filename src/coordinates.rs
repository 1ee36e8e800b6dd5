//! Integer coordinates of blocks and chunks, and the neighbour relation
//! that navigation uses.
use vstd::prelude::*;

verus! {

/// Width of a chunk along x, in blocks.
pub const CHUNK_SIZE_X: u32 = 16;

/// Depth of a chunk along y, in blocks.
pub const CHUNK_SIZE_Y: u32 = 16;

/// Height of a chunk along z, in blocks.
pub const CHUNK_SIZE_Z: u32 = 1;

/// Number of blocks that one chunk holds.
pub const CHUNK_VOLUME: usize = 256;

/// Global address of a block.
#[derive(Clone, Copy, Debug, PartialEq, Eq, Hash, Structural)]
pub struct WorldCoordinates {
    pub x: i32,
    pub y: i32,
    pub z: i32,
}

/// Address of a chunk; chunk `(cx, cy, cz)` covers the blocks whose
/// coordinates divide (rounding down) to it.
#[derive(Clone, Copy, Debug, PartialEq, Eq, Hash, Structural)]
pub struct ChunkCoordinates {
    pub x: i32,
    pub y: i32,
    pub z: i32,
}

/// Offset of a block inside its chunk.
#[derive(Clone, Copy, Debug, PartialEq, Eq, Hash, Structural)]
pub struct BlockCoordinates {
    pub x: u32,
    pub y: u32,
    pub z: u32,
}

impl WorldCoordinates {
    pub open spec fn key(self) -> (i32, i32, i32) {
        (self.x, self.y, self.z)
    }

    pub fn new(x: i32, y: i32, z: i32) -> (r: WorldCoordinates)
        ensures
            r.x == x && r.y == y && r.z == z,
    {
        WorldCoordinates { x, y, z }
    }

    /// Replaces the z value of the coordinates.
    pub fn with_z_offset(self, z_offset: i32) -> (r: WorldCoordinates)
        ensures
            r.x == self.x && r.y == self.y && r.z == z_offset,
    {
        WorldCoordinates { x: self.x, y: self.y, z: z_offset }
    }

    /// The chunk that holds this block.
    pub open spec fn chunk_spec(self) -> ChunkCoordinates {
        ChunkCoordinates {
            x: (self.x as int / CHUNK_SIZE_X as int) as i32,
            y: (self.y as int / CHUNK_SIZE_Y as int) as i32,
            z: (self.z as int / CHUNK_SIZE_Z as int) as i32,
        }
    }

    /// The offset of this block inside its chunk.
    pub open spec fn block_spec(self) -> BlockCoordinates {
        BlockCoordinates {
            x: (self.x as int % CHUNK_SIZE_X as int) as u32,
            y: (self.y as int % CHUNK_SIZE_Y as int) as u32,
            z: (self.z as int % CHUNK_SIZE_Z as int) as u32,
        }
    }

    /// Splits the coordinates into the chunk that holds the block and the
    /// block's offset inside it (Euclidean division and remainder).
    pub fn to_chunk_and_block(&self) -> (r: (ChunkCoordinates, BlockCoordinates))
        ensures
            r.0 == self.chunk_spec(),
            r.1 == self.block_spec(),
            r.1.valid(),
    {
        let cx = floor_div16(self.x);
        let cy = floor_div16(self.y);
        let bx = (self.x as i64 - 16 * cx as i64) as u32;
        let by = (self.y as i64 - 16 * cy as i64) as u32;
        (ChunkCoordinates { x: cx, y: cy, z: self.z }, BlockCoordinates { x: bx, y: by, z: 0 })
    }

    /// True where every coordinate is one away from the `i32` limits, so
    /// that every neighbour can be written down.
    pub open spec fn inner(self) -> bool {
        i32::MIN < self.x < i32::MAX && i32::MIN < self.y < i32::MAX && i32::MIN < self.z
            < i32::MAX
    }

    pub open spec fn offset(self, dx: int, dy: int, dz: int) -> WorldCoordinates {
        WorldCoordinates {
            x: (self.x + dx) as i32,
            y: (self.y + dy) as i32,
            z: (self.z + dz) as i32,
        }
    }

    /// True where x and y are one away from the `i32` limits.
    pub open spec fn inner_xy(self) -> bool {
        i32::MIN < self.x < i32::MAX && i32::MIN < self.y < i32::MAX
    }

    /// The eight neighbours on the same layer with their travel cost.
    pub fn same_layer_neighbors(&self) -> (r: Vec<(WorldCoordinates, u32)>)
        requires
            self.inner_xy(),
        ensures
            r@ == same_layer_neighbors_spec(*self),
    {
        let mut r: Vec<(WorldCoordinates, u32)> = Vec::new();
        let offsets = same_layer_offsets();
        let mut i: usize = 0;
        while i < offsets.len()
            invariant
                self.inner_xy(),
                offsets@ == same_layer_offsets_spec(),
                0 <= i <= offsets@.len(),
                r@ == same_layer_offsets_spec().take(i as int).map_values(
                    |o: (i32, i32, i32, u32)| neighbor_entry(*self, o),
                ),
            decreases offsets.len() - i,
        {
            let o = offsets[i];
            r.push(
                (WorldCoordinates { x: self.x + o.0, y: self.y + o.1, z: self.z + o.2 }, o.3),
            );
            i = i + 1;
            proof {
                assert(same_layer_offsets_spec().take(i as int) =~= same_layer_offsets_spec().take(
                    (i - 1) as int,
                ).push(o));
            }
        }
        proof {
            assert(same_layer_offsets_spec().take(8) =~= same_layer_offsets_spec());
        }
        r
    }

    /// All twenty-six neighbours with their travel cost: first the layer
    /// above, then the same layer, then the layer below.
    pub fn all_neighbors(&self) -> (r: Vec<(WorldCoordinates, u32)>)
        requires
            self.inner(),
        ensures
            r@ == all_neighbors_spec(*self),
    {
        let mut r: Vec<(WorldCoordinates, u32)> = Vec::new();
        let offsets = all_offsets();
        let mut i: usize = 0;
        while i < offsets.len()
            invariant
                self.inner(),
                offsets@ == all_offsets_spec(),
                0 <= i <= offsets@.len(),
                r@ == all_offsets_spec().take(i as int).map_values(
                    |o: (i32, i32, i32, u32)| neighbor_entry(*self, o),
                ),
            decreases offsets.len() - i,
        {
            let o = offsets[i];
            r.push(
                (WorldCoordinates { x: self.x + o.0, y: self.y + o.1, z: self.z + o.2 }, o.3),
            );
            i = i + 1;
            proof {
                assert(all_offsets_spec().take(i as int) =~= all_offsets_spec().take(
                    (i - 1) as int,
                ).push(o));
            }
        }
        proof {
            assert(all_offsets_spec().take(26) =~= all_offsets_spec());
        }
        r
    }
}

impl ChunkCoordinates {
    pub open spec fn key(self) -> (i32, i32, i32) {
        (self.x, self.y, self.z)
    }

    pub open spec fn as_world(self) -> WorldCoordinates {
        WorldCoordinates { x: self.x, y: self.y, z: self.z }
    }

    pub open spec fn inner(self) -> bool {
        self.as_world().inner()
    }

    pub fn new(x: i32, y: i32, z: i32) -> (r: ChunkCoordinates)
        ensures
            r.x == x && r.y == y && r.z == z,
    {
        ChunkCoordinates { x, y, z }
    }

    /// The twenty-six chunks around this one, in the order of
    /// `WorldCoordinates::all_neighbors`.
    pub fn all_neighbors(&self) -> (r: Vec<ChunkCoordinates>)
        requires
            self.inner(),
        ensures
            r@.len() == 26,
            forall|i: int|
                0 <= i < 26 ==> (#[trigger] r@[i]).as_world() == all_neighbors_spec(
                    self.as_world(),
                )[i].0,
    {
        let w = WorldCoordinates { x: self.x, y: self.y, z: self.z };
        let n = w.all_neighbors();
        let mut r: Vec<ChunkCoordinates> = Vec::new();
        let mut i: usize = 0;
        while i < n.len()
            invariant
                n@ == all_neighbors_spec(w),
                w == self.as_world(),
                0 <= i <= n@.len(),
                r@.len() == i,
                forall|j: int| 0 <= j < i ==> (#[trigger] r@[j]).as_world() == n@[j].0,
            decreases n.len() - i,
        {
            let c = n[i].0;
            r.push(ChunkCoordinates { x: c.x, y: c.y, z: c.z });
            i = i + 1;
        }
        r
    }
}

impl BlockCoordinates {
    pub open spec fn valid(self) -> bool {
        self.x < CHUNK_SIZE_X && self.y < CHUNK_SIZE_Y && self.z < CHUNK_SIZE_Z
    }

    /// Position of the block in its chunk's array.
    pub open spec fn index_spec(self) -> int {
        self.x * CHUNK_SIZE_Y * CHUNK_SIZE_Z + self.y * CHUNK_SIZE_Z + self.z
    }

    pub fn new(x: u32, y: u32, z: u32) -> (r: BlockCoordinates)
        ensures
            r.x == x && r.y == y && r.z == z,
    {
        BlockCoordinates { x, y, z }
    }
}

/// Returns the index of a block in its chunk's array.
pub fn to_index(block: BlockCoordinates) -> (r: usize)
    requires
        block.valid(),
    ensures
        r == block.index_spec(),
        r < CHUNK_VOLUME,
{
    (block.x * CHUNK_SIZE_Y * CHUNK_SIZE_Z + block.y * CHUNK_SIZE_Z + block.z) as usize
}

pub open spec fn to_world_spec(chunk: ChunkCoordinates, block: BlockCoordinates) -> (int, int, int) {
    (
        chunk.x * CHUNK_SIZE_X + block.x,
        chunk.y * CHUNK_SIZE_Y + block.y,
        chunk.z * CHUNK_SIZE_Z + block.z,
    )
}

/// The global coordinates of a block given by chunk and offset.
pub fn to_world_coordinates(chunk: ChunkCoordinates, block: BlockCoordinates) -> (r: Option<
    WorldCoordinates,
>)
    ensures
        match r {
            Some(w) => (w.x as int, w.y as int, w.z as int) == to_world_spec(chunk, block),
            None => {
                let t = to_world_spec(chunk, block);
                !(i32::MIN <= t.0 <= i32::MAX && i32::MIN <= t.1 <= i32::MAX && i32::MIN <= t.2
                    <= i32::MAX)
            },
        },
{
    let x = chunk.x as i64 * 16 + block.x as i64;
    let y = chunk.y as i64 * 16 + block.y as i64;
    let z = chunk.z as i64 + block.z as i64;
    if x < i32::MIN as i64 || x > i32::MAX as i64 || y < i32::MIN as i64 || y > i32::MAX as i64
        || z < i32::MIN as i64 || z > i32::MAX as i64 {
        None
    } else {
        Some(WorldCoordinates { x: x as i32, y: y as i32, z: z as i32 })
    }
}

/// Floor of `v / 16`.
fn floor_div16(v: i32) -> (r: i32)
    ensures
        r == v as int / 16,
{
    if v >= 0 {
        (v as u32 / 16) as i32
    } else {
        let n = (-(v as i64) - 1) as u32;
        let q = (n / 16) as i32;
        proof {
            let ni = n as int;
            assert(v as int == -ni - 1);
            assert(ni == 16 * (ni / 16) + ni % 16) by (nonlinear_arith);
            assert(0 <= ni % 16 < 16);
            let r = -(ni / 16) - 1;
            assert(v as int == 16 * r + (15 - ni % 16));
            vstd::arithmetic::div_mod::lemma_fundamental_div_mod_converse(
                v as int,
                16,
                r,
                15 - ni % 16,
            );
        }
        -q - 1
    }
}

pub open spec fn neighbor_entry(c: WorldCoordinates, o: (i32, i32, i32, u32)) -> (
    WorldCoordinates,
    u32,
) {
    (c.offset(o.0 as int, o.1 as int, o.2 as int), o.3)
}

pub open spec fn step(dx: int, dy: int, dz: int, cost: int) -> (i32, i32, i32, u32) {
    (dx as i32, dy as i32, dz as i32, cost as u32)
}

/// Offsets and travel costs of the same-layer neighbours.
pub open spec fn same_layer_offsets_spec() -> Seq<(i32, i32, i32, u32)> {
    seq![
        step(-1, 1, 0, 2), step(0, 1, 0, 1), step(1, 1, 0, 2),
        step(-1, 0, 0, 1), step(1, 0, 0, 1),
        step(-1, -1, 0, 2), step(0, -1, 0, 1), step(1, -1, 0, 2),
    ]
}

/// Offsets and travel costs of all neighbours: layer above, same layer,
/// layer below.
pub open spec fn all_offsets_spec() -> Seq<(i32, i32, i32, u32)> {
    seq![
        step(-1, 1, 1, 3), step(0, 1, 1, 2), step(1, 1, 1, 3),
        step(-1, 0, 1, 2), step(0, 0, 1, 1), step(1, 0, 1, 2),
        step(-1, -1, 1, 3), step(0, -1, 1, 2), step(1, -1, 1, 3),
        step(-1, 1, 0, 2), step(0, 1, 0, 1), step(1, 1, 0, 2),
        step(-1, 0, 0, 1), step(1, 0, 0, 1),
        step(-1, -1, 0, 2), step(0, -1, 0, 1), step(1, -1, 0, 2),
        step(-1, 1, -1, 3), step(0, 1, -1, 2), step(1, 1, -1, 3),
        step(-1, 0, -1, 2), step(0, 0, -1, 1), step(1, 0, -1, 2),
        step(-1, -1, -1, 3), step(0, -1, -1, 2), step(1, -1, -1, 3),
    ]
}

pub open spec fn same_layer_neighbors_spec(c: WorldCoordinates) -> Seq<(WorldCoordinates, u32)> {
    same_layer_offsets_spec().map_values(|o: (i32, i32, i32, u32)| neighbor_entry(c, o))
}

pub open spec fn all_neighbors_spec(c: WorldCoordinates) -> Seq<(WorldCoordinates, u32)> {
    all_offsets_spec().map_values(|o: (i32, i32, i32, u32)| neighbor_entry(c, o))
}

fn same_layer_offsets() -> (r: Vec<(i32, i32, i32, u32)>)
    ensures
        r@ == same_layer_offsets_spec(),
{
    let r = vec![
        (-1, 1, 0, 2), (0, 1, 0, 1), (1, 1, 0, 2),
        (-1, 0, 0, 1), (1, 0, 0, 1),
        (-1, -1, 0, 2), (0, -1, 0, 1), (1, -1, 0, 2),
    ];
    proof {
        assert(r@ =~= same_layer_offsets_spec());
    }
    r
}

fn all_offsets() -> (r: Vec<(i32, i32, i32, u32)>)
    ensures
        r@ == all_offsets_spec(),
{
    let r = vec![
        (-1, 1, 1, 3), (0, 1, 1, 2), (1, 1, 1, 3),
        (-1, 0, 1, 2), (0, 0, 1, 1), (1, 0, 1, 2),
        (-1, -1, 1, 3), (0, -1, 1, 2), (1, -1, 1, 3),
        (-1, 1, 0, 2), (0, 1, 0, 1), (1, 1, 0, 2),
        (-1, 0, 0, 1), (1, 0, 0, 1),
        (-1, -1, 0, 2), (0, -1, 0, 1), (1, -1, 0, 2),
        (-1, 1, -1, 3), (0, 1, -1, 2), (1, 1, -1, 3),
        (-1, 0, -1, 2), (0, 0, -1, 1), (1, 0, -1, 2),
        (-1, -1, -1, 3), (0, -1, -1, 2), (1, -1, -1, 3),
    ];
    proof {
        assert(r@ =~= all_offsets_spec());
    }
    r
}

} // verus!
