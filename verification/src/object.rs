use crate::chunk::{sphere_seq, void_seq, Chunk};
use crate::coord::{local_axis, ChunkCoord, Direction, VoxelCoord};
use crate::voxel::Voxel;
use vstd::prelude::*;

verus! {

/// A sparse voxel world: a mapping from chunk coordinates to chunks, with
/// unique keys and no ordering requirement. Missing entries read as entirely
/// void; an indexed write materializes a void chunk first.
///
/// Its view is the map from chunk coordinate to that chunk's voxel sequence.
pub struct Object {
    chunks: Vec<(ChunkCoord, Chunk)>,
}

impl View for Object {
    type V = Map<ChunkCoord, Seq<u32>>;

    closed spec fn view(&self) -> Map<ChunkCoord, Seq<u32>> {
        Map::new(
            |k: ChunkCoord|
                exists|i: int| 0 <= i < self.chunks@.len() && (#[trigger] self.chunks@[i]).0 == k,
            |k: ChunkCoord|
                {
                    let i = choose|i: int|
                        0 <= i < self.chunks@.len() && (#[trigger] self.chunks@[i]).0 == k;
                    self.chunks@[i].1@
                },
        )
    }
}

impl Object {
    /// The entries hold pairwise distinct coordinates and full-size chunks.
    pub closed spec fn wf(&self) -> bool {
        &&& forall|i: int, j: int|
            0 <= i < j < self.chunks@.len() ==> (#[trigger] self.chunks@[i]).0 != (
            #[trigger] self.chunks@[j]).0
        &&& forall|i: int| 0 <= i < self.chunks@.len() ==> (#[trigger] self.chunks@[i]).1.wf()
    }

    /// Every stored chunk of a well-formed object has full size.
    pub proof fn lemma_wf_values(&self)
        requires
            self.wf(),
        ensures
            forall|k: ChunkCoord| self@.contains_key(k) ==> (#[trigger] self@[k]).len() == 32768,
    {
        assert forall|k: ChunkCoord| self@.contains_key(k) implies (#[trigger] self@[k]).len()
            == 32768 by {
            let i = choose|i: int|
                0 <= i < self.chunks@.len() && (#[trigger] self.chunks@[i]).0 == k;
            assert(self.chunks@[i].1.wf());
        }
    }

    /// The entry at a position of the underlying list is what the map view
    /// returns for its coordinate.
    proof fn lemma_view_at(&self, i: int)
        requires
            self.wf(),
            0 <= i < self.chunks@.len(),
        ensures
            self@.contains_key(self.chunks@[i].0),
            self@[self.chunks@[i].0] == self.chunks@[i].1@,
    {
        let k = self.chunks@[i].0;
        assert(0 <= i < self.chunks@.len() && self.chunks@[i].0 == k);
        let j = choose|j: int| 0 <= j < self.chunks@.len() && (#[trigger] self.chunks@[j]).0 == k;
        if i != j {
            assert(self.chunks@[i].0 != self.chunks@[j].0);
        }
    }

    /// An empty world.
    pub fn new() -> (r: Object)
        ensures
            r.wf(),
            r@ == Map::<ChunkCoord, Seq<u32>>::empty(),
    {
        let r = Object { chunks: Vec::new() };
        proof {
            assert(r@ =~= Map::<ChunkCoord, Seq<u32>>::empty());
        }
        r
    }

    /// A small test world: six sphere chunks in a loose cross.
    pub fn new_test() -> (r: Object)
        ensures
            r.wf(),
            forall|k: ChunkCoord| #[trigger] r@.contains_key(k) <==> self_test_contains(k),
            forall|k: ChunkCoord| self_test_contains(k) ==> (#[trigger] r@[k]) == sphere_seq(),
    {
        let mut chunks: Vec<(ChunkCoord, Chunk)> = Vec::new();
        chunks.push((ChunkCoord::new(-1, 0, 0), Chunk::new_sphere()));
        chunks.push((ChunkCoord::new(0, 0, 0), Chunk::new_sphere()));
        chunks.push((ChunkCoord::new(1, 0, 0), Chunk::new_sphere()));
        chunks.push((ChunkCoord::new(2, 0, 0), Chunk::new_sphere()));
        chunks.push((ChunkCoord::new(0, 1, 0), Chunk::new_sphere()));
        chunks.push((ChunkCoord::new(0, 0, 1), Chunk::new_sphere()));
        let r = Object { chunks };
        proof {
            assert forall|k: ChunkCoord| r@.contains_key(k) implies (#[trigger] r@[k])
                == sphere_seq() by {
                let i = choose|i: int|
                    0 <= i < r.chunks@.len() && (#[trigger] r.chunks@[i]).0 == k;
                assert(r.chunks@[i].1@ == sphere_seq());
            }
            assert forall|k: ChunkCoord| self_test_contains(k) implies r@.contains_key(k) by {
                if k == (ChunkCoord { x: -1i32, y: 0, z: 0 }) {
                    assert(r.chunks@[0].0 == k);
                } else if k == (ChunkCoord { x: 0, y: 0, z: 0 }) {
                    assert(r.chunks@[1].0 == k);
                } else if k == (ChunkCoord { x: 1, y: 0, z: 0 }) {
                    assert(r.chunks@[2].0 == k);
                } else if k == (ChunkCoord { x: 2, y: 0, z: 0 }) {
                    assert(r.chunks@[3].0 == k);
                } else if k == (ChunkCoord { x: 0, y: 1, z: 0 }) {
                    assert(r.chunks@[4].0 == k);
                } else {
                    assert(r.chunks@[5].0 == k);
                }
            }
            assert forall|k: ChunkCoord| r@.contains_key(k) implies self_test_contains(k) by {
                let i = choose|i: int|
                    0 <= i < r.chunks@.len() && (#[trigger] r.chunks@[i]).0 == k;
                assert(r.chunks@[i].0 == k);
                assert(0 <= i < 6);
            }
        }
        r
    }

    /// Mesh every chunk of the world, one mesh per stored chunk.
    pub fn fuck_it_mesh_all(&self) -> (r: Vec<crate::mesh::Mesh>)
        requires
            self.wf(),
            forall|k: ChunkCoord|
                #[trigger] self@.contains_key(k) ==> crate::coord::coord_interior(k),
        ensures
            forall|j: int|
                0 <= j < r@.len() ==> self@.contains_key(#[trigger] r@[j].coord)
                    && crate::mesh::is_mesh_of(r@[j].faces@, self@, self@[r@[j].coord], r@[j].coord),
            forall|k: ChunkCoord|
                #[trigger] self@.contains_key(k) ==> exists|j: int|
                    0 <= j < r@.len() && (#[trigger] r@[j]).coord == k,
            forall|j1: int, j2: int| 0 <= j1 < j2 < r@.len() ==> r@[j1].coord != r@[j2].coord,
    {
        let mut r: Vec<crate::mesh::Mesh> = Vec::new();
        let n = self.chunks.len();
        for i in 0..n
            invariant
                n == self.chunks@.len(),
                r@.len() == i,
                self.wf(),
                forall|k: ChunkCoord|
                    #[trigger] self@.contains_key(k) ==> crate::coord::coord_interior(k),
                forall|j: int|
                    0 <= j < i ==> (#[trigger] r@[j]).coord == self.chunks@[j].0
                        && crate::mesh::is_mesh_of(
                        r@[j].faces@,
                        self@,
                        self@[r@[j].coord],
                        r@[j].coord,
                    ),
        {
            proof {
                self.lemma_view_at(i as int);
            }
            let (coord, chunk) = &self.chunks[i];
            r.push(crate::mesh::mesh_with_chunk(self, chunk, *coord));
        }
        proof {
            assert forall|j: int| 0 <= j < r@.len() implies self@.contains_key(
                #[trigger] r@[j].coord,
            ) && crate::mesh::is_mesh_of(r@[j].faces@, self@, self@[r@[j].coord], r@[j].coord) by {
                self.lemma_view_at(j);
            }
            assert forall|k: ChunkCoord| #[trigger] self@.contains_key(k) implies exists|j: int|
                0 <= j < r@.len() && (#[trigger] r@[j]).coord == k by {
                let j = choose|j: int|
                    0 <= j < self.chunks@.len() && (#[trigger] self.chunks@[j]).0 == k;
                assert(0 <= j < r@.len() && r@[j].coord == k);
            }
        }
        r
    }

    /// Find the list position holding a coordinate, if any.
    fn find(&self, coord: ChunkCoord) -> (r: Option<usize>)
        ensures
            match r {
                Some(i) => i < self.chunks@.len() && self.chunks@[i as int].0 == coord,
                None => forall|i: int|
                    0 <= i < self.chunks@.len() ==> (#[trigger] self.chunks@[i]).0 != coord,
            },
    {
        let n = self.chunks.len();
        for i in iter: 0..n
            invariant
                n == self.chunks@.len(),
                forall|j: int| 0 <= j < i ==> (#[trigger] self.chunks@[j]).0 != coord,
        {
            let (c, _) = &self.chunks[i];
            if c.x == coord.x && c.y == coord.y && c.z == coord.z {
                return Some(i);
            }
        }
        None
    }

    /// Pure lookup of one chunk; absent coordinates return nothing.
    pub fn chunk(&self, coord: ChunkCoord) -> (r: Option<&Chunk>)
        requires
            self.wf(),
        ensures
            r is Some <==> self@.contains_key(coord),
            r matches Some(c) ==> c@ == self@[coord] && c.wf(),
    {
        match self.find(coord) {
            Some(i) => {
                proof {
                    self.lemma_view_at(i as int);
                }
                Some(&self.chunks[i].1)
            },
            None => {
                proof {
                    if self@.contains_key(coord) {
                        let i = choose|i: int|
                            0 <= i < self.chunks@.len() && (#[trigger] self.chunks@[i]).0 == coord;
                    }
                }
                None
            },
        }
    }

    /// The six axis-aligned neighbor chunks of a coordinate, one lookup per
    /// direction, in identifier order.
    pub fn neighbors(&self, coord: ChunkCoord) -> (r: [(Direction, Option<&Chunk>); 6])
        requires
            self.wf(),
            crate::coord::coord_interior(coord),
        ensures
            forall|d: int|
                0 <= d < 6 ==> (#[trigger] r@[d]).0 == Direction::from_id_spec(d),
            forall|d: int|
                0 <= d < 6 ==> ((#[trigger] r@[d]).1 is Some <==> self@.contains_key(
                    advanced(coord, Direction::from_id_spec(d)),
                )),
            forall|d: int|
                0 <= d < 6 ==> ((#[trigger] r@[d]).1 matches Some(c) ==> c@ == self@[advanced(
                    coord,
                    Direction::from_id_spec(d),
                )] && c.wf()),
    {
        let r = [
            (Direction::PosX, self.chunk(coord.advance(Direction::PosX))),
            (Direction::NegX, self.chunk(coord.advance(Direction::NegX))),
            (Direction::PosY, self.chunk(coord.advance(Direction::PosY))),
            (Direction::NegY, self.chunk(coord.advance(Direction::NegY))),
            (Direction::PosZ, self.chunk(coord.advance(Direction::PosZ))),
            (Direction::NegZ, self.chunk(coord.advance(Direction::NegZ))),
        ];
        r
    }

    /// Look up one voxel anywhere in the world; reads into absent chunks
    /// return the void sentinel.
    pub fn voxel(&self, coord: VoxelCoord) -> (r: Voxel)
        requires
            self.wf(),
        ensures
            r.0 == voxel_of(self@, coord),
    {
        let c = coord.chunk();
        match self.chunk(c) {
            Some(chunk) => {
                proof {
                    crate::coord::lemma_axis_decompose_recombine(coord.x as int);
                    crate::coord::lemma_axis_decompose_recombine(coord.y as int);
                    crate::coord::lemma_axis_decompose_recombine(coord.z as int);
                }
                chunk.voxel(coord.chunk_index())
            },
            None => Voxel::void(),
        }
    }

    /// Write one voxel anywhere in the world, materializing a void chunk
    /// first when the coordinate's chunk is absent.
    pub fn set_voxel(&mut self, coord: VoxelCoord, voxel: Voxel)
        requires
            old(self).wf(),
        ensures
            final(self).wf(),
            final(self)@ =~= written(old(self)@, coord, voxel.0),
    {
        let c = coord.chunk();
        let i = self.ensure_chunk(c);
        proof {
            self.lemma_view_at(i as int);
            crate::coord::lemma_axis_decompose_recombine(coord.x as int);
            crate::coord::lemma_axis_decompose_recombine(coord.y as int);
            crate::coord::lemma_axis_decompose_recombine(coord.z as int);
        }
        let ghost mid = *self;
        let idx = coord.chunk_index();
        self.chunks[i].1.set_voxel(idx, voxel);
        proof {
            assert(self.chunks@ =~= mid.chunks@.update(
                i as int,
                (c, self.chunks@[i as int].1),
            ));
            assert forall|j: int| 0 <= j < self.chunks@.len() implies (
            #[trigger] self.chunks@[j]).1.wf() by {
                if j != i as int {
                    assert(self.chunks@[j] == mid.chunks@[j]);
                }
            }
            assert forall|k: ChunkCoord| #[trigger] self@.contains_key(k) <==> mid@.contains_key(
                k,
            ) by {
                if self@.contains_key(k) {
                    let j = choose|j: int|
                        0 <= j < self.chunks@.len() && (#[trigger] self.chunks@[j]).0 == k;
                    assert(mid.chunks@[j].0 == k);
                }
                if mid@.contains_key(k) {
                    let j = choose|j: int|
                        0 <= j < mid.chunks@.len() && (#[trigger] mid.chunks@[j]).0 == k;
                    assert(self.chunks@[j].0 == k);
                }
            }
            assert forall|k: ChunkCoord| self@.contains_key(k) && k != c implies #[trigger] self@[k]
                == mid@[k] by {
                let j = choose|j: int|
                    0 <= j < self.chunks@.len() && (#[trigger] self.chunks@[j]).0 == k;
                self.lemma_view_at(j);
                mid.lemma_view_at(j);
            }
            self.lemma_view_at(i as int);
        }
    }

    /// What `chunk_mut` did to the representation: `post` is `pre` with the
    /// entry holding `coord` replaced by `c`, the entry being appended first
    /// when `coord` was absent.
    pub closed spec fn chunk_slot(pre: Object, post: Object, coord: ChunkCoord, c: Chunk) -> bool {
        if pre@.contains_key(coord) {
            exists|i: int|
                0 <= i < pre.chunks@.len() && pre.chunks@[i].0 == coord && post.chunks@ =~= (
                #[trigger] pre.chunks@.update(i, (coord, c)))
        } else {
            post.chunks@ =~= pre.chunks@.push((coord, c))
        }
    }

    /// What the world's map looks like once the borrow handed out by
    /// `chunk_mut` expires: the chunk the caller shaped, under its
    /// coordinate.
    pub proof fn lemma_chunk_slot_view(pre: Object, post: Object, coord: ChunkCoord, c: Chunk)
        requires
            pre.wf(),
            Object::chunk_slot(pre, post, coord, c),
            c.wf(),
        ensures
            post.wf(),
            post@ =~= pre@.insert(coord, c@),
    {
        if pre@.contains_key(coord) {
            let i = choose|i: int|
                0 <= i < pre.chunks@.len() && pre.chunks@[i].0 == coord && post.chunks@ =~= (
                #[trigger] pre.chunks@.update(i, (coord, c)));
            assert forall|a: int, b: int|
                0 <= a < b < post.chunks@.len() implies (#[trigger] post.chunks@[a]).0 != (
            #[trigger] post.chunks@[b]).0 by {
                assert(post.chunks@[a].0 == pre.chunks@[a].0);
                assert(post.chunks@[b].0 == pre.chunks@[b].0);
            }
            assert forall|k: ChunkCoord| #[trigger] post@.contains_key(k) implies pre@.contains_key(
                k,
            ) by {
                let j = choose|j: int|
                    0 <= j < post.chunks@.len() && (#[trigger] post.chunks@[j]).0 == k;
                assert(pre.chunks@[j].0 == k);
            }
            assert forall|k: ChunkCoord| #[trigger] pre@.contains_key(k) implies post@.contains_key(
                k,
            ) by {
                let j = choose|j: int|
                    0 <= j < pre.chunks@.len() && (#[trigger] pre.chunks@[j]).0 == k;
                assert(post.chunks@[j].0 == k);
            }
            post.lemma_view_at(i);
            assert forall|k: ChunkCoord| post@.contains_key(k) && k != coord implies #[trigger] post@[k]
                == pre@[k] by {
                let j = choose|j: int|
                    0 <= j < post.chunks@.len() && (#[trigger] post.chunks@[j]).0 == k;
                post.lemma_view_at(j);
                pre.lemma_view_at(j);
            }
        } else {
            assert forall|a: int, b: int|
                0 <= a < b < post.chunks@.len() implies (#[trigger] post.chunks@[a]).0 != (
            #[trigger] post.chunks@[b]).0 by {
                if b < post.chunks@.len() - 1 {
                    assert(post.chunks@[a] == pre.chunks@[a]);
                    assert(post.chunks@[b] == pre.chunks@[b]);
                } else {
                    assert(post.chunks@[b].0 == coord);
                    assert(post.chunks@[a] == pre.chunks@[a]);
                    if pre.chunks@[a].0 == coord {
                        assert(pre@.contains_key(coord));
                    }
                }
            }
            assert forall|k: ChunkCoord| #[trigger] post@.contains_key(k) implies (pre@.contains_key(
                k,
            ) || k == coord) by {
                let j = choose|j: int|
                    0 <= j < post.chunks@.len() && (#[trigger] post.chunks@[j]).0 == k;
                if j < post.chunks@.len() - 1 {
                    assert(pre.chunks@[j].0 == k);
                }
            }
            assert forall|k: ChunkCoord| #[trigger] pre@.contains_key(k) implies post@.contains_key(
                k,
            ) by {
                let j = choose|j: int|
                    0 <= j < pre.chunks@.len() && (#[trigger] pre.chunks@[j]).0 == k;
                assert(post.chunks@[j].0 == k);
            }
            post.lemma_view_at(post.chunks@.len() - 1);
            assert forall|k: ChunkCoord| post@.contains_key(k) && k != coord implies #[trigger] post@[k]
                == pre@[k] by {
                let j = choose|j: int|
                    0 <= j < post.chunks@.len() && (#[trigger] post.chunks@[j]).0 == k;
                post.lemma_view_at(j);
                pre.lemma_view_at(j);
            }
        }
    }

    /// Fetch the chunk at a coordinate for writing, materializing a void
    /// chunk first when absent. The returned borrow holds the chunk's
    /// current contents; what the world looks like after the caller is done
    /// with it is stated by `chunk_slot` and read back through
    /// `lemma_chunk_slot_view`.
    pub fn chunk_mut(&mut self, coord: ChunkCoord) -> (r: &mut Chunk)
        requires
            old(self).wf(),
        ensures
            (*r).wf(),
            (*r)@ == (if old(self)@.contains_key(coord) {
                old(self)@[coord]
            } else {
                void_seq()
            }),
            Object::chunk_slot(*old(self), *final(self), coord, *final(r)),
    {
        let i = self.ensure_chunk(coord);
        proof {
            self.lemma_view_at(i as int);
            let mid = *self;
            let pre = *old(self);
            assert forall|post: Object, c: Chunk|
                post.chunks@ == mid.chunks@.update(
                    i as int,
                    (mid.chunks@[i as int].0, c),
                ) implies #[trigger] Object::chunk_slot(pre, post, coord, c) by {
                if pre@.contains_key(coord) {
                    assert(mid.chunks@ == pre.chunks@);
                    assert(post.chunks@ =~= pre.chunks@.update(i as int, (coord, c)));
                } else {
                    assert(mid.chunks@.len() == pre.chunks@.len() + 1);
                    assert(mid.chunks@.drop_last() =~= pre.chunks@);
                    assert(i as int == mid.chunks@.len() - 1);
                    assert(post.chunks@ =~= pre.chunks@.push((coord, c)));
                }
            }
        }
        &mut self.chunks[i].1
    }

    /// Make sure a chunk exists for a coordinate, inserting a void chunk if
    /// absent, and return its list position.
    fn ensure_chunk(&mut self, coord: ChunkCoord) -> (i: usize)
        requires
            old(self).wf(),
        ensures
            final(self).wf(),
            i < final(self).chunks@.len(),
            final(self).chunks@[i as int].0 == coord,
            final(self)@ =~= (if old(self)@.contains_key(coord) {
                old(self)@
            } else {
                old(self)@.insert(coord, void_seq())
            }),
            old(self)@.contains_key(coord) ==> final(self).chunks@ == old(self).chunks@,
            !old(self)@.contains_key(coord) ==> i as int == old(self).chunks@.len(),
            !old(self)@.contains_key(coord) ==> final(self).chunks@.drop_last() =~= old(
                self,
            ).chunks@,
            !old(self)@.contains_key(coord) ==> final(self).chunks@.len() == old(self).chunks@.len()
                + 1,
    {
        match self.find(coord) {
            Some(i) => {
                proof {
                    self.lemma_view_at(i as int);
                }
                i
            },
            None => {
                let ghost pre = *self;
                self.chunks.push((coord, Chunk::new_void()));
                let i = self.chunks.len() - 1;
                proof {
                    assert forall|a: int, b: int|
                        0 <= a < b < self.chunks@.len() implies (#[trigger] self.chunks@[a]).0 != (
                    #[trigger] self.chunks@[b]).0 by {
                        if b < self.chunks@.len() - 1 {
                            assert(self.chunks@[a] == pre.chunks@[a]);
                            assert(self.chunks@[b] == pre.chunks@[b]);
                        } else {
                            assert(self.chunks@[b].0 == coord);
                            assert(self.chunks@[a] == pre.chunks@[a]);
                        }
                    }
                    assert forall|k: ChunkCoord| #[trigger]
                        self@.contains_key(k) implies pre@.contains_key(k) || k == coord by {
                        let j = choose|j: int|
                            0 <= j < self.chunks@.len() && (#[trigger] self.chunks@[j]).0 == k;
                        if j < self.chunks@.len() - 1 {
                            assert(pre.chunks@[j].0 == k);
                        }
                    }
                    assert forall|k: ChunkCoord| pre@.contains_key(k) implies #[trigger]
                        self@.contains_key(k) && self@[k] == pre@[k] by {
                        let j = choose|j: int|
                            0 <= j < pre.chunks@.len() && (#[trigger] pre.chunks@[j]).0 == k;
                        assert(self.chunks@[j] == pre.chunks@[j]);
                        self.lemma_view_at(j);
                        pre.lemma_view_at(j);
                    }
                    self.lemma_view_at(i as int);
                }
                i
            },
        }
    }
}

/// Membership in the coordinate set of the test world.
pub open spec fn self_test_contains(k: ChunkCoord) -> bool {
    ||| k == ChunkCoord { x: -1i32, y: 0, z: 0 }
    ||| k == ChunkCoord { x: 0, y: 0, z: 0 }
    ||| k == ChunkCoord { x: 1, y: 0, z: 0 }
    ||| k == ChunkCoord { x: 2, y: 0, z: 0 }
    ||| k == ChunkCoord { x: 0, y: 1, z: 0 }
    ||| k == ChunkCoord { x: 0, y: 0, z: 1 }
}

/// The chunk coordinate a global voxel coordinate falls in.
pub open spec fn chunk_key(coord: VoxelCoord) -> ChunkCoord {
    ChunkCoord {
        x: ((coord.x as int) / 32) as i32,
        y: ((coord.y as int) / 32) as i32,
        z: ((coord.z as int) / 32) as i32,
    }
}

/// The packed chunk-local index of a global voxel coordinate.
pub open spec fn local_index(coord: VoxelCoord) -> int {
    crate::coord::pack_index(
        local_axis(coord.x as int),
        local_axis(coord.y as int),
        local_axis(coord.z as int),
    )
}

/// What a world-wide voxel read returns: the stored identifier, or void for
/// an absent chunk.
pub open spec fn voxel_of(m: Map<ChunkCoord, Seq<u32>>, coord: VoxelCoord) -> u32 {
    if m.contains_key(chunk_key(coord)) {
        m[chunk_key(coord)][local_index(coord)]
    } else {
        0
    }
}

/// What a world-wide voxel write produces: the chunk updated at the local
/// index, a void chunk being materialized first when absent.
pub open spec fn written(m: Map<ChunkCoord, Seq<u32>>, coord: VoxelCoord, id: u32) -> Map<
    ChunkCoord,
    Seq<u32>,
> {
    let base = if m.contains_key(chunk_key(coord)) {
        m[chunk_key(coord)]
    } else {
        void_seq()
    };
    m.insert(chunk_key(coord), base.update(local_index(coord), id))
}

/// The coordinate one chunk along a direction.
pub open spec fn advanced(c: ChunkCoord, d: Direction) -> ChunkCoord {
    ChunkCoord {
        x: (c.x + d.offset_spec().0) as i32,
        y: (c.y + d.offset_spec().1) as i32,
        z: (c.z + d.offset_spec().2) as i32,
    }
}

} // verus!

