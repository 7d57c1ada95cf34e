use crate::coord::ChunkCoord;
use crate::mesh::Mesh;
use vstd::prelude::*;

verus! {

/// The record the store keeps for one uploaded chunk mesh: the opaque
/// device buffer handle, the face (instance) count, and the chunk's
/// coordinate, from which its world transform is derived.
#[derive(Debug, Copy, Clone, Eq, PartialEq, Structural)]
pub struct MeshBuffer {
    pub handle: u64,
    pub length: usize,
    pub coord: ChunkCoord,
}

/// The keyed mapping from chunk coordinate to live GPU buffer record, with
/// at most one live buffer per coordinate.
///
/// The store tracks ownership and replacement; the device calls that create
/// and destroy the buffers are made by the caller, which hands the new
/// buffer's handle in and receives any displaced buffer back, to destroy it
/// exactly once.
///
/// Its view is the map from chunk coordinate to `(handle, face count)`.
pub struct VoxelMeshManager {
    meshes: Vec<MeshBuffer>,
}

/// The map held by a list of buffer records, later records shadowing
/// earlier ones with the same coordinate.
pub open spec fn entries_map(s: Seq<MeshBuffer>) -> Map<ChunkCoord, (u64, int)>
    decreases s.len(),
{
    if s.len() == 0 {
        Map::empty()
    } else {
        entries_map(s.drop_last()).insert(
            s.last().coord,
            (s.last().handle, s.last().length as int),
        )
    }
}

/// A coordinate is in the map of a record list exactly when some record
/// holds it.
proof fn lemma_entries_map_contains(s: Seq<MeshBuffer>, k: ChunkCoord)
    ensures
        entries_map(s).contains_key(k) <==> exists|i: int|
            0 <= i < s.len() && (#[trigger] s[i]).coord == k,
    decreases s.len(),
{
    if s.len() > 0 {
        lemma_entries_map_contains(s.drop_last(), k);
        if entries_map(s).contains_key(k) {
            if s.last().coord == k {
                assert(s[s.len() - 1].coord == k);
            } else {
                let i = choose|i: int|
                    0 <= i < s.drop_last().len() && (#[trigger] s.drop_last()[i]).coord == k;
                assert(s[i].coord == k);
            }
        }
        if exists|i: int| 0 <= i < s.len() && (#[trigger] s[i]).coord == k {
            let i = choose|i: int| 0 <= i < s.len() && (#[trigger] s[i]).coord == k;
            if i < s.len() - 1 {
                assert(s.drop_last()[i].coord == k);
            }
        }
    }
}

/// With pairwise distinct coordinates, the record holding a coordinate is
/// what the map returns for it.
proof fn lemma_entries_map_at(s: Seq<MeshBuffer>, i: int)
    requires
        forall|a: int, b: int| 0 <= a < b < s.len() ==> (#[trigger] s[a]).coord != (
        #[trigger] s[b]).coord,
        0 <= i < s.len(),
    ensures
        entries_map(s).contains_key(s[i].coord),
        entries_map(s)[s[i].coord] == (s[i].handle, s[i].length as int),
    decreases s.len(),
{
    if i == s.len() - 1 {
        assert(s[i] == s.last());
    } else {
        lemma_entries_map_at(s.drop_last(), i);
        assert(s.drop_last()[i] == s[i]);
        assert(s[i].coord != s[s.len() - 1].coord);
    }
}

/// With pairwise distinct coordinates, the map holds one entry per record.
proof fn lemma_entries_map_len(s: Seq<MeshBuffer>)
    requires
        forall|a: int, b: int| 0 <= a < b < s.len() ==> (#[trigger] s[a]).coord != (
        #[trigger] s[b]).coord,
    ensures
        entries_map(s).dom().len() == s.len(),
        entries_map(s).dom().finite(),
    decreases s.len(),
{
    if s.len() > 0 {
        lemma_entries_map_len(s.drop_last());
        lemma_entries_map_contains(s.drop_last(), s.last().coord);
        assert(forall|i: int|
            0 <= i < s.drop_last().len() ==> (#[trigger] s.drop_last()[i]) == s[i]);
        assert(!entries_map(s.drop_last()).contains_key(s.last().coord)) by {
            if exists|i: int|
                0 <= i < s.drop_last().len() && (#[trigger] s.drop_last()[i]).coord
                    == s.last().coord {
                let i = choose|i: int|
                    0 <= i < s.drop_last().len() && (#[trigger] s.drop_last()[i]).coord
                        == s.last().coord;
                assert(s[i].coord == s[s.len() - 1].coord);
            }
        }
    }
}

impl View for VoxelMeshManager {
    type V = Map<ChunkCoord, (u64, int)>;

    closed spec fn view(&self) -> Map<ChunkCoord, (u64, int)> {
        entries_map(self.meshes@)
    }
}

impl VoxelMeshManager {
    /// The records hold pairwise distinct coordinates.
    pub closed spec fn wf(&self) -> bool {
        forall|a: int, b: int|
            0 <= a < b < self.meshes@.len() ==> (#[trigger] self.meshes@[a]).coord != (
            #[trigger] self.meshes@[b]).coord
    }

    /// An empty store.
    pub fn new() -> (r: VoxelMeshManager)
        ensures
            r.wf(),
            r@ == Map::<ChunkCoord, (u64, int)>::empty(),
    {
        VoxelMeshManager { meshes: Vec::new() }
    }

    /// The number of live buffers, one per stored chunk coordinate.
    pub fn mesh_count(&self) -> (r: usize)
        requires
            self.wf(),
        ensures
            r == self@.dom().len(),
    {
        proof {
            lemma_entries_map_len(self.meshes@);
        }
        self.meshes.len()
    }

    /// The live buffer records, one per stored chunk coordinate, in
    /// insertion order.
    pub fn meshes(&self) -> (r: &Vec<MeshBuffer>)
        requires
            self.wf(),
        ensures
            r@.len() == self@.dom().len(),
            forall|j: int|
                0 <= j < r@.len() ==> self@.contains_key((#[trigger] r@[j]).coord) && self@[r@[j].coord]
                    == (r@[j].handle, r@[j].length as int),
            forall|k: ChunkCoord|
                #[trigger] self@.contains_key(k) ==> exists|j: int|
                    0 <= j < r@.len() && (#[trigger] r@[j]).coord == k,
    {
        proof {
            lemma_entries_map_len(self.meshes@);
            assert forall|j: int| 0 <= j < self.meshes@.len() implies self@.contains_key(
                (#[trigger] self.meshes@[j]).coord,
            ) && self@[self.meshes@[j].coord] == (
                self.meshes@[j].handle,
                self.meshes@[j].length as int,
            ) by {
                lemma_entries_map_at(self.meshes@, j);
            }
            assert forall|k: ChunkCoord| #[trigger] self@.contains_key(k) implies exists|j: int|
                0 <= j < self.meshes@.len() && (#[trigger] self.meshes@[j]).coord == k by {
                lemma_entries_map_contains(self.meshes@, k);
            }
        }
        &self.meshes
    }

    /// Install the device buffer that the caller created for a mesh,
    /// replacing any prior buffer for the mesh's coordinate. The displaced
    /// record, if any, is handed back; it stays valid until the new record
    /// is installed and must be destroyed by the caller exactly once.
    #[verifier::loop_isolation(false)]
    pub fn upload_mesh(&mut self, mesh: &Mesh, handle: u64) -> (displaced: Option<MeshBuffer>)
        requires
            old(self).wf(),
        ensures
            final(self).wf(),
            final(self)@ == old(self)@.insert(mesh.coord, (handle, mesh.faces@.len() as int)),
            displaced is Some <==> old(self)@.contains_key(mesh.coord),
            displaced matches Some(b) ==> b.coord == mesh.coord && old(self)@[mesh.coord] == (
            b.handle, b.length as int),
    {
        let record = MeshBuffer { handle, length: mesh.faces.len(), coord: mesh.coord };
        let n = self.meshes.len();
        for i in 0..n
            invariant
                n == self.meshes@.len(),
                forall|j: int| 0 <= j < i ==> (#[trigger] self.meshes@[j]).coord != mesh.coord,
                *self == *old(self),
        {
            let c = self.meshes[i].coord;
            if c.x == mesh.coord.x && c.y == mesh.coord.y && c.z == mesh.coord.z {
                let displaced = self.meshes[i];
                self.meshes[i] = record;
                proof {
                    lemma_entries_map_at(old(self).meshes@, i as int);
                    lemma_store_update(old(self).meshes@, i as int, record);
                }
                return Some(displaced);
            }
        }
        proof {
            lemma_entries_map_contains(self.meshes@, mesh.coord);
            assert(self.meshes@.push(record).drop_last() =~= self.meshes@);
        }
        self.meshes.push(record);
        None
    }

    /// Tear the store down: every remaining record is handed out exactly
    /// once, and the store is left empty.
    pub fn drain(&mut self) -> (r: Vec<MeshBuffer>)
        requires
            old(self).wf(),
        ensures
            final(self).wf(),
            final(self)@ == Map::<ChunkCoord, (u64, int)>::empty(),
            r@.len() == old(self)@.dom().len(),
            forall|j: int|
                0 <= j < r@.len() ==> old(self)@.contains_key((#[trigger] r@[j]).coord) && old(
                    self,
                )@[r@[j].coord] == (r@[j].handle, r@[j].length as int),
            forall|j1: int, j2: int| 0 <= j1 < j2 < r@.len() ==> r@[j1].coord != r@[j2].coord,
            forall|k: ChunkCoord|
                #[trigger] old(self)@.contains_key(k) ==> exists|j: int|
                    0 <= j < r@.len() && (#[trigger] r@[j]).coord == k,
    {
        let mut r: Vec<MeshBuffer> = Vec::new();
        core::mem::swap(&mut r, &mut self.meshes);
        proof {
            lemma_entries_map_len(r@);
            assert forall|j: int| 0 <= j < r@.len() implies old(self)@.contains_key(
                (#[trigger] r@[j]).coord,
            ) && old(self)@[r@[j].coord] == (r@[j].handle, r@[j].length as int) by {
                lemma_entries_map_at(r@, j);
            }
            assert forall|k: ChunkCoord| #[trigger] old(self)@.contains_key(k) implies exists|
                j: int,
            | 0 <= j < r@.len() && (#[trigger] r@[j]).coord == k by {
                lemma_entries_map_contains(r@, k);
            }
        }
        r
    }
}

/// Replacing the record that holds a coordinate updates the map at that
/// coordinate alone.
proof fn lemma_store_update(s: Seq<MeshBuffer>, i: int, b: MeshBuffer)
    requires
        forall|a2: int, b2: int| 0 <= a2 < b2 < s.len() ==> (#[trigger] s[a2]).coord != (
        #[trigger] s[b2]).coord,
        0 <= i < s.len(),
        s[i].coord == b.coord,
    ensures
        entries_map(s.update(i, b)) == entries_map(s).insert(b.coord, (b.handle, b.length as int)),
    decreases s.len(),
{
    let s2 = s.update(i, b);
    if i == s.len() - 1 {
        assert(s2.drop_last() =~= s.drop_last());
        assert(s2.last() == b);
        assert(entries_map(s2) == entries_map(s.drop_last()).insert(
            b.coord,
            (b.handle, b.length as int),
        ));
        assert(entries_map(s) == entries_map(s.drop_last()).insert(
            s.last().coord,
            (s.last().handle, s.last().length as int),
        ));
        assert(entries_map(s).insert(b.coord, (b.handle, b.length as int))
            == entries_map(s.drop_last()).insert(
            s.last().coord,
            (s.last().handle, s.last().length as int),
        ).insert(b.coord, (b.handle, b.length as int)));
        assert(entries_map(s.drop_last()).insert(
            s.last().coord,
            (s.last().handle, s.last().length as int),
        ).insert(b.coord, (b.handle, b.length as int)) =~= entries_map(s.drop_last()).insert(
            b.coord,
            (b.handle, b.length as int),
        ));
    } else {
        assert(s2.drop_last() =~= s.drop_last().update(i, b));
        assert(s2.last() == s.last());
        lemma_store_update(s.drop_last(), i, b);
        assert(entries_map(s2) == entries_map(s.drop_last()).insert(
            b.coord,
            (b.handle, b.length as int),
        ).insert(s.last().coord, (s.last().handle, s.last().length as int)));
        assert(s.last().coord != b.coord) by {
            assert(s[i].coord != s[s.len() - 1].coord);
        }
        assert(entries_map(s.drop_last()).insert(b.coord, (b.handle, b.length as int)).insert(
            s.last().coord,
            (s.last().handle, s.last().length as int),
        ) =~= entries_map(s.drop_last()).insert(
            s.last().coord,
            (s.last().handle, s.last().length as int),
        ).insert(b.coord, (b.handle, b.length as int)));
    }
}

/// Uploading twice for one coordinate leaves the set of live buffers as
/// after the first upload: the same coordinates are live, the coordinate
/// holds the newest buffer alone, and the first buffer is the one displaced
/// by the second upload.
pub proof fn lemma_reupload_same_coord(
    m: Map<ChunkCoord, (u64, int)>,
    k: ChunkCoord,
    v1: (u64, int),
    v2: (u64, int),
)
    ensures
        m.insert(k, v1).insert(k, v2).dom() =~= m.insert(k, v1).dom(),
        m.insert(k, v1).insert(k, v2)[k] == v2,
        m.insert(k, v1).contains_key(k),
        m.insert(k, v1)[k] == v1,
{
}

} // verus!
