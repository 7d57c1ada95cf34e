use crate::coord::{lemma_index_round_trip, pack_index, ChunkIndex};
use crate::voxel::Voxel;
use vstd::prelude::*;

verus! {

/// A dense cube of `32 x 32 x 32` voxels, the unit of storage and meshing.
///
/// Its view is the sequence of the 32768 voxel identifiers, addressed by the
/// packed linear index `z * 1024 + y * 32 + x`.
#[derive(Debug)]
pub struct Chunk {
    voxels: Vec<u32>,
}

impl View for Chunk {
    type V = Seq<u32>;

    closed spec fn view(&self) -> Seq<u32> {
        self.voxels@
    }
}

/// The voxel identifier at local position `(x, y, z)` of a chunk's view.
pub open spec fn voxel_at(c: Seq<u32>, x: int, y: int, z: int) -> u32 {
    c[pack_index(x, y, z)]
}

/// The view of a fully void chunk.
pub open spec fn void_seq() -> Seq<u32> {
    Seq::new(32768, |i: int| 0u32)
}

/// Whether a local position lies inside a 32768-voxel sphere octant pattern:
/// within distance 16 of the chunk's center `(15.5, 15.5, 15.5)`.
/// The comparison is stated over doubled axis offsets so that it stays in
/// integers: `(2x - 31)^2 + (2y - 31)^2 + (2z - 31)^2 < 4 * 16^2`.
pub open spec fn in_sphere(x: int, y: int, z: int) -> bool {
    (2 * x - 31) * (2 * x - 31) + (2 * y - 31) * (2 * y - 31) + (2 * z - 31) * (2 * z - 31) < 1024
}

/// The voxel identifier the sphere test chunk holds at `(x, y, z)`.
pub open spec fn sphere_id(x: int, y: int, z: int) -> u32 {
    if in_sphere(x, y, z) {
        1
    } else {
        0
    }
}

/// `sphere_id` read through a packed linear index.
pub open spec fn sphere_id_linear(i: int) -> u32 {
    sphere_id(i % 32, (i / 32) % 32, (i / 1024) % 32)
}

/// The view of the sphere test chunk.
pub open spec fn sphere_seq() -> Seq<u32> {
    Seq::new(32768, |i: int| sphere_id_linear(i))
}

impl Chunk {
    /// The voxel edge length of a chunk.
    pub const LENGTH: u32 = 32;

    /// The voxel count of one chunk layer.
    pub const AREA: u32 = 1024;

    /// The voxel count of a whole chunk.
    pub const VOLUME: u32 = 32768;

    /// A chunk always holds exactly its volume of voxels.
    pub open spec fn wf(&self) -> bool {
        self@.len() == 32768
    }

    /// A chunk holding only void.
    pub fn new_void() -> (r: Chunk)
        ensures
            r.wf(),
            r@ == void_seq(),
    {
        let mut voxels: Vec<u32> = Vec::new();
        for _n in iter: 0u32..32768u32
            invariant
                voxels@.len() == iter.index(),
                forall|i: int| 0 <= i < voxels@.len() ==> voxels@[i] == 0,
        {
            voxels.push(0);
        }
        let r = Chunk { voxels };
        proof {
            assert(r@ =~= void_seq());
        }
        r
    }

    /// A chunk holding a solid sphere of material 1 centered in the chunk.
    pub fn new_sphere() -> (r: Chunk)
        ensures
            r.wf(),
            r@ == sphere_seq(),
            forall|x: int, y: int, z: int|
                0 <= x < 32 && 0 <= y < 32 && 0 <= z < 32 ==> voxel_at(r@, x, y, z) == sphere_id(
                    x,
                    y,
                    z,
                ),
    {
        let mut voxels: Vec<u32> = Vec::new();
        for n in iter: 0u32..32768u32
            invariant
                voxels@.len() == iter.index(),
                forall|i: int| 0 <= i < voxels@.len() ==> voxels@[i] == sphere_id_linear(i),
        {
            let x = n % 32;
            let y = (n / 32) % 32;
            let z = n / 1024;
            let dx = 2 * (x as i32) - 31;
            let dy = 2 * (y as i32) - 31;
            let dz = 2 * (z as i32) - 31;
            proof {
                assert(0 <= (dx as int) * (dx as int) <= 961 && 0 <= (dy as int) * (dy as int)
                    <= 961 && 0 <= (dz as int) * (dz as int) <= 961) by (nonlinear_arith)
                    requires
                        -31 <= dx <= 31 && -31 <= dy <= 31 && -31 <= dz <= 31,
                ;
            }
            let solid = dx * dx + dy * dy + dz * dz < 1024;
            proof {
                assert(n / 1024 < 32) by (bit_vector)
                    requires
                        n < 32768u32,
                ;
                assert((n / 1024) % 32 == n / 1024) by (bit_vector)
                    requires
                        n < 32768u32,
                ;
            }
            voxels.push(if solid { 1 } else { 0 });
        }
        let r = Chunk { voxels };
        proof {
            assert(r@ =~= sphere_seq());
            assert forall|x: int, y: int, z: int|
                0 <= x < 32 && 0 <= y < 32 && 0 <= z < 32 implies voxel_at(r@, x, y, z)
                == sphere_id(x, y, z) by {
                lemma_index_round_trip(x, y, z);
                let p = pack_index(x, y, z);
                assert(r@[p] == sphere_id_linear(p));
            }
        }
        r
    }

    /// The voxel at a packed local index.
    pub fn voxel(&self, index: ChunkIndex) -> (r: Voxel)
        requires
            self.wf(),
            index.wf(),
        ensures
            r.0 == self@[index.0 as int],
    {
        Voxel::from_id(self.voxels[index.0 as usize])
    }

    /// Overwrite the voxel at a packed local index.
    pub fn set_voxel(&mut self, index: ChunkIndex, voxel: Voxel)
        requires
            old(self).wf(),
            index.wf(),
        ensures
            final(self).wf(),
            final(self)@ == old(self)@.update(index.0 as int, voxel.0),
    {
        self.voxels[index.0 as usize] = voxel.0;
    }
}

} // verus!
