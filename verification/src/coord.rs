use vstd::arithmetic::div_mod::lemma_fundamental_div_mod_converse;
use vstd::prelude::*;

verus! {

/// One of the six axis-aligned face directions.
#[derive(Debug, Copy, Clone, Eq, PartialEq, Structural)]
pub enum Direction {
    PosX,
    NegX,
    PosY,
    NegY,
    PosZ,
    NegZ,
}

/// A global voxel position in world space.
#[derive(Debug, Copy, Clone, Eq, PartialEq, Structural)]
pub struct VoxelCoord {
    pub x: i32,
    pub y: i32,
    pub z: i32,
}

/// A chunk position in chunk space; the chunk's world-space origin is the
/// coordinate scaled by the chunk edge length.
#[derive(Debug, Copy, Clone, Eq, PartialEq, Structural, Hash)]
pub struct ChunkCoord {
    pub x: i32,
    pub y: i32,
    pub z: i32,
}

/// A linear index into a chunk's voxel array, packing three 5-bit local
/// axis values as `z * 1024 + y * 32 + x`.
#[derive(Debug, Copy, Clone, Eq, PartialEq, Structural)]
pub struct ChunkIndex(pub u32);

/// The chunk-space axis value that a global axis value falls in
/// (floor division by the chunk edge length, correct for negative values).
pub open spec fn chunk_axis(v: int) -> int {
    v / 32
}

/// The chunk-local axis value of a global axis value
/// (always in `[0, 32)`, also for negative global values).
pub open spec fn local_axis(v: int) -> int {
    v % 32
}

/// Every global axis value is reproduced by recombining its chunk-space
/// part and its chunk-local part.
pub proof fn lemma_axis_decompose_recombine(v: int)
    ensures
        v == 32 * chunk_axis(v) + local_axis(v),
        0 <= local_axis(v) < 32,
{
}

/// Arithmetic right shift by 5 is floor division by 32, and masking the low
/// 5 bits is the corresponding non-negative remainder, for every `i32`.
proof fn lemma_shift_mask_decompose(v: i32)
    ensures
        (v >> 5u32) as int == chunk_axis(v as int),
        (v & 31) as int == local_axis(v as int),
{
    assert((32 * ((v >> 5u32) as int) + ((v & 31) as int) == v as int) && (0 <= (v & 31) as int)
        && (((v & 31) as int) < 32)) by (bit_vector);
    lemma_fundamental_div_mod_converse(v as int, 32, (v >> 5u32) as int, (v & 31) as int);
}

impl Direction {
    /// The numeric identifier of the direction, as stored in a face record.
    pub open spec fn id_spec(self) -> u32 {
        match self {
            Direction::PosX => 0,
            Direction::NegX => 1,
            Direction::PosY => 2,
            Direction::NegY => 3,
            Direction::PosZ => 4,
            Direction::NegZ => 5,
        }
    }

    pub fn id(&self) -> (r: u32)
        ensures
            r == self.id_spec(),
    {
        match self {
            Direction::PosX => 0,
            Direction::NegX => 1,
            Direction::PosY => 2,
            Direction::NegY => 3,
            Direction::PosZ => 4,
            Direction::NegZ => 5,
        }
    }

    /// The unit offset along the direction's axis.
    pub open spec fn offset_spec(self) -> (int, int, int) {
        match self {
            Direction::PosX => (1, 0, 0),
            Direction::NegX => (-1, 0, 0),
            Direction::PosY => (0, 1, 0),
            Direction::NegY => (0, -1, 0),
            Direction::PosZ => (0, 0, 1),
            Direction::NegZ => (0, 0, -1),
        }
    }

    pub fn vec(&self) -> (r: (i32, i32, i32))
        ensures
            (r.0 as int, r.1 as int, r.2 as int) == self.offset_spec(),
    {
        match self {
            Direction::PosX => (1, 0, 0),
            Direction::NegX => (-1, 0, 0),
            Direction::PosY => (0, 1, 0),
            Direction::NegY => (0, -1, 0),
            Direction::PosZ => (0, 0, 1),
            Direction::NegZ => (0, 0, -1),
        }
    }

    /// The direction with a given identifier.
    pub open spec fn from_id_spec(id: int) -> Direction {
        if id == 0 {
            Direction::PosX
        } else if id == 1 {
            Direction::NegX
        } else if id == 2 {
            Direction::PosY
        } else if id == 3 {
            Direction::NegY
        } else if id == 4 {
            Direction::PosZ
        } else {
            Direction::NegZ
        }
    }

    /// Decoding an identifier and reading it back returns the identifier.
    pub proof fn lemma_from_id_id(i: int)
        requires
            0 <= i < 6,
        ensures
            Direction::from_id_spec(i).id_spec() == i,
    {
    }

    /// All six directions, in identifier order.
    pub fn iterate() -> (r: Vec<Direction>)
        ensures
            r@.len() == 6,
            forall|i: int| 0 <= i < 6 ==> r@[i] == Direction::from_id_spec(i),
    {
        let mut r: Vec<Direction> = Vec::new();
        r.push(Direction::PosX);
        r.push(Direction::NegX);
        r.push(Direction::PosY);
        r.push(Direction::NegY);
        r.push(Direction::PosZ);
        r.push(Direction::NegZ);
        assert(forall|i: int| 0 <= i < 6 ==> r@[i] == Direction::from_id_spec(i)) by {
            assert(r@[0] == Direction::PosX);
            assert(r@[1] == Direction::NegX);
            assert(r@[2] == Direction::PosY);
            assert(r@[3] == Direction::NegY);
            assert(r@[4] == Direction::PosZ);
            assert(r@[5] == Direction::NegZ);
        }
        r
    }
}

impl VoxelCoord {
    pub fn new(x: i32, y: i32, z: i32) -> (r: VoxelCoord)
        ensures
            r == (VoxelCoord { x, y, z }),
    {
        VoxelCoord { x, y, z }
    }

    /// Move one voxel along a direction.
    pub fn advance(&self, direction: Direction) -> (r: VoxelCoord)
        requires
            i32::MIN <= self.x + direction.offset_spec().0 <= i32::MAX,
            i32::MIN <= self.y + direction.offset_spec().1 <= i32::MAX,
            i32::MIN <= self.z + direction.offset_spec().2 <= i32::MAX,
        ensures
            r.x == self.x + direction.offset_spec().0,
            r.y == self.y + direction.offset_spec().1,
            r.z == self.z + direction.offset_spec().2,
    {
        let (dx, dy, dz) = direction.vec();
        VoxelCoord { x: self.x + dx, y: self.y + dy, z: self.z + dz }
    }

    /// The chunk this voxel lies in.
    pub fn chunk(&self) -> (r: ChunkCoord)
        ensures
            r.x == chunk_axis(self.x as int),
            r.y == chunk_axis(self.y as int),
            r.z == chunk_axis(self.z as int),
    {
        proof {
            lemma_shift_mask_decompose(self.x);
            lemma_shift_mask_decompose(self.y);
            lemma_shift_mask_decompose(self.z);
        }
        ChunkCoord::new(self.x >> 5u32, self.y >> 5u32, self.z >> 5u32)
    }

    /// The linear index of this voxel inside its chunk.
    pub fn chunk_index(&self) -> (r: ChunkIndex)
        ensures
            r.0 == pack_index(
                local_axis(self.x as int),
                local_axis(self.y as int),
                local_axis(self.z as int),
            ),
    {
        proof {
            lemma_shift_mask_decompose(self.x);
            lemma_shift_mask_decompose(self.y);
            lemma_shift_mask_decompose(self.z);
        }
        ChunkIndex::new_unchecked(
            (self.x & 31) as u32,
            (self.y & 31) as u32,
            (self.z & 31) as u32,
        )
    }
}

impl ChunkCoord {
    pub fn new(x: i32, y: i32, z: i32) -> (r: ChunkCoord)
        ensures
            r == (ChunkCoord { x, y, z }),
    {
        ChunkCoord { x, y, z }
    }

    /// Move one chunk along a direction.
    pub fn advance(&self, direction: Direction) -> (r: ChunkCoord)
        requires
            i32::MIN <= self.x + direction.offset_spec().0 <= i32::MAX,
            i32::MIN <= self.y + direction.offset_spec().1 <= i32::MAX,
            i32::MIN <= self.z + direction.offset_spec().2 <= i32::MAX,
        ensures
            r.x == self.x + direction.offset_spec().0,
            r.y == self.y + direction.offset_spec().1,
            r.z == self.z + direction.offset_spec().2,
    {
        let (dx, dy, dz) = direction.vec();
        ChunkCoord { x: self.x + dx, y: self.y + dy, z: self.z + dz }
    }
}

/// The linear index packed from three chunk-local axis values.
pub open spec fn pack_index(x: int, y: int, z: int) -> int {
    z * 1024 + y * 32 + x
}

impl ChunkIndex {
    /// A well-formed index stays below the chunk volume.
    pub open spec fn wf(self) -> bool {
        self.0 < 32768
    }

    /// The local x axis value encoded in the index.
    pub open spec fn x_spec(self) -> int {
        (self.0 as int) % 32
    }

    /// The local y axis value encoded in the index.
    pub open spec fn y_spec(self) -> int {
        ((self.0 as int) / 32) % 32
    }

    /// The local z axis value encoded in the index.
    pub open spec fn z_spec(self) -> int {
        ((self.0 as int) / 1024) % 32
    }

    /// The checked constructor: local axis values outside `[0, 32)` are
    /// rejected.
    pub fn new(x: i32, y: i32, z: i32) -> (r: Option<ChunkIndex>)
        ensures
            r is Some <==> (0 <= x < 32 && 0 <= y < 32 && 0 <= z < 32),
            r is Some ==> r.unwrap().0 == pack_index(x as int, y as int, z as int),
    {
        if 0 <= x && x < 32 && 0 <= y && y < 32 && 0 <= z && z < 32 {
            Some(ChunkIndex::new_unchecked(x as u32, y as u32, z as u32))
        } else {
            None
        }
    }

    /// The unchecked constructor, used only where the range of the local
    /// axis values is already proven.
    pub fn new_unchecked(x: u32, y: u32, z: u32) -> (r: ChunkIndex)
        requires
            x < 32,
            y < 32,
            z < 32,
        ensures
            r.0 == pack_index(x as int, y as int, z as int),
            r.wf(),
    {
        proof {
            assert(x < 32 && y < 32 && z < 32 ==> (z << 10u32 | y << 5u32 | x) == z * 1024 + y
                * 32 + x < 32768) by (bit_vector);
        }
        ChunkIndex(z << 10u32 | y << 5u32 | x)
    }

    pub fn x(&self) -> (r: u32)
        ensures
            r == self.x_spec(),
    {
        proof {
            let v = self.0;
            assert(v & 31 == v % 32) by (bit_vector);
        }
        self.0 & 31
    }

    pub fn y(&self) -> (r: u32)
        ensures
            r == self.y_spec(),
    {
        proof {
            let v = self.0;
            assert((v >> 5u32) & 31 == (v / 32) % 32) by (bit_vector);
        }
        (self.0 >> 5u32) & 31
    }

    pub fn z(&self) -> (r: u32)
        ensures
            r == self.z_spec(),
    {
        proof {
            let v = self.0;
            assert((v >> 10u32) & 31 == (v / 1024) % 32) by (bit_vector);
        }
        (self.0 >> 10u32) & 31
    }

    /// Every linear index of the chunk volume, in order.
    pub fn iterate() -> (r: Vec<ChunkIndex>)
        ensures
            r@.len() == 32768,
            forall|i: int| 0 <= i < 32768 ==> (#[trigger] r@[i]).0 == i,
    {
        let mut r: Vec<ChunkIndex> = Vec::new();
        for v in iter: 0u32..32768u32
            invariant
                r@.len() == iter.index(),
                forall|i: int| 0 <= i < r@.len() ==> (#[trigger] r@[i]).0 == i,
        {
            proof {
                assert(iter.seq()[iter.index() as int] == iter.index());
            }
            r.push(ChunkIndex(v));
        }
        r
    }
}

/// Whether a chunk coordinate keeps one step of headroom on every axis, so
/// that its six neighbor coordinates exist as machine integers.
pub open spec fn coord_interior(c: ChunkCoord) -> bool {
    &&& i32::MIN < c.x < i32::MAX
    &&& i32::MIN < c.y < i32::MAX
    &&& i32::MIN < c.z < i32::MAX
}

/// Chunk and local decomposition of an axis value at most one step outside
/// a chunk, the only case the mesher's neighbor probing meets.
pub proof fn lemma_axis_small(v: int)
    requires
        -1 <= v <= 32,
    ensures
        chunk_axis(v) == (if v < 0 {
            -1int
        } else if v < 32 {
            0int
        } else {
            1int
        }),
        local_axis(v) == (if v < 0 {
            v + 32
        } else if v < 32 {
            v
        } else {
            v - 32
        }),
{
    if v < 0 {
        lemma_fundamental_div_mod_converse(v, 32, -1, v + 32);
    } else if v < 32 {
        lemma_fundamental_div_mod_converse(v, 32, 0, v);
    } else {
        lemma_fundamental_div_mod_converse(v, 32, 1, v - 32);
    }
}

/// Packing is injective on in-range local positions.
pub proof fn lemma_pack_injective(x1: int, y1: int, z1: int, x2: int, y2: int, z2: int)
    requires
        0 <= x1 < 32,
        0 <= y1 < 32,
        0 <= z1 < 32,
        0 <= x2 < 32,
        0 <= y2 < 32,
        0 <= z2 < 32,
        pack_index(x1, y1, z1) == pack_index(x2, y2, z2),
    ensures
        x1 == x2,
        y1 == y2,
        z1 == z2,
{
    lemma_index_round_trip(x1, y1, z1);
    lemma_index_round_trip(x2, y2, z2);
}

/// Decomposing a global position into its chunk coordinate and its packed
/// local index — exactly what `VoxelCoord::chunk` and
/// `VoxelCoord::chunk_index` return — and recombining each axis as
/// `chunk * 32 + local` reproduces the position, negative axes included.
pub proof fn lemma_chunk_decompose_recombine(x: int, y: int, z: int)
    ensures
        32 * chunk_axis(x) + ChunkIndex(
            (pack_index(local_axis(x), local_axis(y), local_axis(z))) as u32,
        ).x_spec() == x,
        32 * chunk_axis(y) + ChunkIndex(
            (pack_index(local_axis(x), local_axis(y), local_axis(z))) as u32,
        ).y_spec() == y,
        32 * chunk_axis(z) + ChunkIndex(
            (pack_index(local_axis(x), local_axis(y), local_axis(z))) as u32,
        ).z_spec() == z,
{
    lemma_axis_decompose_recombine(x);
    lemma_axis_decompose_recombine(y);
    lemma_axis_decompose_recombine(z);
    lemma_index_round_trip(local_axis(x), local_axis(y), local_axis(z));
}

/// Packing three in-range local axis values and decoding them again
/// returns the original triple.
pub proof fn lemma_index_round_trip(x: int, y: int, z: int)
    requires
        0 <= x < 32,
        0 <= y < 32,
        0 <= z < 32,
    ensures
        ChunkIndex((pack_index(x, y, z)) as u32).x_spec() == x,
        ChunkIndex((pack_index(x, y, z)) as u32).y_spec() == y,
        ChunkIndex((pack_index(x, y, z)) as u32).z_spec() == z,
{
    let p = pack_index(x, y, z);
    assert(0 <= p < 32768);
    let pu = p as u32;
    assert(pu == z * 1024 + y * 32 + x);
    lemma_fundamental_div_mod_converse(pu as int, 32, z * 32 + y, x);
    assert(pu as int / 32 == z * 32 + y && pu as int % 32 == x);
    lemma_fundamental_div_mod_converse(pu as int, 1024, z, y * 32 + x);
    assert(pu as int / 1024 == z);
    lemma_fundamental_div_mod_converse(z * 32 + y, 32, z, y);
    assert((z * 32 + y) % 32 == y);
}

} // verus!
