use crate::chunk::{voxel_at, Chunk};
use crate::coord::{
    lemma_axis_small, lemma_index_round_trip, lemma_pack_injective, local_axis, pack_index,
    ChunkCoord, ChunkIndex, Direction, VoxelCoord,
};
use crate::object::{advanced, Object};
use crate::voxel::Voxel;
use vstd::arithmetic::div_mod::lemma_fundamental_div_mod_converse;
use vstd::prelude::*;

verus! {

/// One emitted face: a display identifier together with the face's location,
/// packed as `direction_id * 32768 + chunk_index`.
#[derive(Debug, Copy, Clone, Eq, PartialEq, Structural)]
pub struct MeshFace {
    pub voxel: u32,
    pub location: u32,
}

/// The face list derived from one chunk, an ephemeral artifact consumed by
/// the GPU mesh store.
pub struct Mesh {
    pub coord: ChunkCoord,
    pub faces: Vec<MeshFace>,
}

impl MeshFace {
    pub fn new(voxel: Voxel, index: ChunkIndex, direction: Direction) -> (r: MeshFace)
        requires
            index.wf(),
        ensures
            r.voxel == voxel.0,
            r.location == direction.id_spec() * 32768 + index.0,
    {
        let did = direction.id();
        proof {
            let idx = index.0;
            assert((did << 15u32 | idx) == did * 32768 + idx) by (bit_vector)
                requires
                    did < 6u32,
                    idx < 32768u32,
            ;
        }
        MeshFace { voxel: voxel.0, location: did << 15u32 | index.0 }
    }
}

/// Whether a local position lies inside the chunk cube.
pub open spec fn valid_pos(x: int, y: int, z: int) -> bool {
    &&& 0 <= x < 32
    &&& 0 <= y < 32
    &&& 0 <= z < 32
}

/// The face record the mesher emits for an exposed side: the direction's
/// identifier as display material, and the packed location.
pub open spec fn face_rec(x: int, y: int, z: int, d: Direction) -> MeshFace {
    MeshFace {
        voxel: d.id_spec(),
        location: (d.id_spec() * 32768 + pack_index(x, y, z)) as u32,
    }
}

/// Whether the neighbor position one step along `d` from `(x, y, z)` reads
/// as void. Positions inside the chunk read the chunk itself; positions
/// beyond its boundary read the neighboring chunk of the world, absent
/// chunks counting as entirely void.
pub open spec fn neighbor_void(
    obj: Map<ChunkCoord, Seq<u32>>,
    chunk: Seq<u32>,
    coord: ChunkCoord,
    x: int,
    y: int,
    z: int,
    d: Direction,
) -> bool {
    let nx = x + d.offset_spec().0;
    let ny = y + d.offset_spec().1;
    let nz = z + d.offset_spec().2;
    if valid_pos(nx, ny, nz) {
        voxel_at(chunk, nx, ny, nz) == 0
    } else {
        let nc = advanced(coord, d);
        !obj.contains_key(nc) || voxel_at(
            obj[nc],
            local_axis(nx),
            local_axis(ny),
            local_axis(nz),
        ) == 0
    }
}

/// A face is visible exactly when its voxel is solid and its neighbor along
/// the face's direction reads as void.
pub open spec fn face_visible(
    obj: Map<ChunkCoord, Seq<u32>>,
    chunk: Seq<u32>,
    coord: ChunkCoord,
    x: int,
    y: int,
    z: int,
    d: Direction,
) -> bool {
    voxel_at(chunk, x, y, z) != 0 && neighbor_void(obj, chunk, coord, x, y, z, d)
}

/// What it means for a face list to be the surface of `chunk` at `coord`
/// within the world `obj`: it holds the record of every visible face, each
/// exactly once, and nothing else. The order of the records is the
/// implementation's scan order and is deliberately not part of this
/// predicate.
pub open spec fn is_mesh_of(
    faces: Seq<MeshFace>,
    obj: Map<ChunkCoord, Seq<u32>>,
    chunk: Seq<u32>,
    coord: ChunkCoord,
) -> bool {
    &&& faces.no_duplicates()
    &&& forall|x: int, y: int, z: int, d: Direction|
        #![trigger face_visible(obj, chunk, coord, x, y, z, d)]
        #![trigger faces.contains(face_rec(x, y, z, d))]
        valid_pos(x, y, z) ==> (face_visible(obj, chunk, coord, x, y, z, d) <==> faces.contains(
            face_rec(x, y, z, d),
        ))
    &&& forall|i: int|
        0 <= i < faces.len() ==> #[trigger] records_visible_face(faces, obj, chunk, coord, i)
}

/// The record at position `i` of the face list is the record of some
/// visible face.
pub open spec fn records_visible_face(
    faces: Seq<MeshFace>,
    obj: Map<ChunkCoord, Seq<u32>>,
    chunk: Seq<u32>,
    coord: ChunkCoord,
    i: int,
) -> bool {
    exists|x: int, y: int, z: int, d: Direction|
        valid_pos(x, y, z) && face_visible(obj, chunk, coord, x, y, z, d) && faces[i]
            == #[trigger] face_rec(x, y, z, d)
}

/// The position of a (position, direction) pair in the mesher's scan order.
pub open spec fn scan_order(x: int, y: int, z: int, d: Direction) -> int {
    6 * pack_index(x, y, z) + d.id_spec()
}

/// `is_mesh_of`, restricted to the pairs scanned before `upto`.
pub open spec fn mesh_prefix(
    faces: Seq<MeshFace>,
    obj: Map<ChunkCoord, Seq<u32>>,
    chunk: Seq<u32>,
    coord: ChunkCoord,
    upto: int,
) -> bool {
    &&& faces.no_duplicates()
    &&& forall|x: int, y: int, z: int, d: Direction|
        #![trigger face_visible(obj, chunk, coord, x, y, z, d)]
        #![trigger faces.contains(face_rec(x, y, z, d))]
        valid_pos(x, y, z) && scan_order(x, y, z, d) < upto ==> (face_visible(
            obj,
            chunk,
            coord,
            x,
            y,
            z,
            d,
        ) <==> faces.contains(face_rec(x, y, z, d)))
    &&& forall|i: int|
        0 <= i < faces.len() ==> #[trigger] records_scanned_face(faces, obj, chunk, coord, upto, i)
}

/// The record at position `i` of the face list is the record of some face
/// that was visible and scanned before `upto`.
pub open spec fn records_scanned_face(
    faces: Seq<MeshFace>,
    obj: Map<ChunkCoord, Seq<u32>>,
    chunk: Seq<u32>,
    coord: ChunkCoord,
    upto: int,
    i: int,
) -> bool {
    exists|x: int, y: int, z: int, d: Direction|
        valid_pos(x, y, z) && scan_order(x, y, z, d) < upto && face_visible(
            obj,
            chunk,
            coord,
            x,
            y,
            z,
            d,
        ) && faces[i] == #[trigger] face_rec(x, y, z, d)
}

/// Equal face records of in-range positions come from equal positions and
/// directions.
pub proof fn lemma_face_rec_injective(
    x1: int,
    y1: int,
    z1: int,
    d1: Direction,
    x2: int,
    y2: int,
    z2: int,
    d2: Direction,
)
    requires
        valid_pos(x1, y1, z1),
        valid_pos(x2, y2, z2),
        face_rec(x1, y1, z1, d1) == face_rec(x2, y2, z2, d2),
    ensures
        x1 == x2,
        y1 == y2,
        z1 == z2,
        d1 == d2,
{
    let p1 = pack_index(x1, y1, z1);
    let p2 = pack_index(x2, y2, z2);
    assert(0 <= p1 < 32768 && 0 <= p2 < 32768);
    let l1 = d1.id_spec() * 32768 + p1;
    let l2 = d2.id_spec() * 32768 + p2;
    assert(0 <= l1 < 0x100000000 && 0 <= l2 < 0x100000000);
    assert(l1 as u32 == l2 as u32);
    assert(l1 == l2);
    lemma_fundamental_div_mod_converse(l1, 32768, d1.id_spec() as int, p1);
    lemma_fundamental_div_mod_converse(l2, 32768, d2.id_spec() as int, p2);
    assert(d1.id_spec() == d2.id_spec());
    lemma_pack_injective(x1, y1, z1, x2, y2, z2);
}

/// A prefix invariant extends over a scan range in which nothing is visible.
proof fn lemma_prefix_extend_invisible(
    faces: Seq<MeshFace>,
    obj: Map<ChunkCoord, Seq<u32>>,
    chunk: Seq<u32>,
    coord: ChunkCoord,
    upto: int,
    upto2: int,
)
    requires
        mesh_prefix(faces, obj, chunk, coord, upto),
        upto <= upto2,
        forall|x: int, y: int, z: int, d: Direction|
            #![trigger face_visible(obj, chunk, coord, x, y, z, d)]
            valid_pos(x, y, z) && upto <= scan_order(x, y, z, d) < upto2 ==> !face_visible(
                obj,
                chunk,
                coord,
                x,
                y,
                z,
                d,
            ),
    ensures
        mesh_prefix(faces, obj, chunk, coord, upto2),
{
    assert forall|x: int, y: int, z: int, d: Direction|
        valid_pos(x, y, z) && scan_order(x, y, z, d) < upto2 implies (face_visible(
        obj,
        chunk,
        coord,
        x,
        y,
        z,
        d,
    ) <==> faces.contains(face_rec(x, y, z, d))) by {
        if scan_order(x, y, z, d) < upto {
        } else {
            assert(!face_visible(obj, chunk, coord, x, y, z, d));
            if faces.contains(face_rec(x, y, z, d)) {
                let i = choose|i: int| 0 <= i < faces.len() && faces[i] == face_rec(x, y, z, d);
                assert(records_scanned_face(faces, obj, chunk, coord, upto, i));
                let (x2, y2, z2, d2) = choose|x2: int, y2: int, z2: int, d2: Direction|
                    valid_pos(x2, y2, z2) && scan_order(x2, y2, z2, d2) < upto && face_visible(
                        obj,
                        chunk,
                        coord,
                        x2,
                        y2,
                        z2,
                        d2,
                    ) && faces[i] == #[trigger] face_rec(x2, y2, z2, d2);
                lemma_face_rec_injective(x, y, z, d, x2, y2, z2, d2);
            }
        }
    }
    assert forall|i: int| 0 <= i < faces.len() implies #[trigger] records_scanned_face(
        faces,
        obj,
        chunk,
        coord,
        upto2,
        i,
    ) by {
        assert(records_scanned_face(faces, obj, chunk, coord, upto, i));
        let (x2, y2, z2, d2) = choose|x2: int, y2: int, z2: int, d2: Direction|
            valid_pos(x2, y2, z2) && scan_order(x2, y2, z2, d2) < upto && face_visible(
                obj,
                chunk,
                coord,
                x2,
                y2,
                z2,
                d2,
            ) && faces[i] == #[trigger] face_rec(x2, y2, z2, d2);
        assert(valid_pos(x2, y2, z2) && scan_order(x2, y2, z2, d2) < upto2 && face_visible(
            obj,
            chunk,
            coord,
            x2,
            y2,
            z2,
            d2,
        ) && faces[i] == face_rec(x2, y2, z2, d2));
    }
}

/// A record of a pair at or past the scanned bound is not held yet.
proof fn lemma_unscanned_not_contained(
    faces: Seq<MeshFace>,
    obj: Map<ChunkCoord, Seq<u32>>,
    chunk: Seq<u32>,
    coord: ChunkCoord,
    upto: int,
    x: int,
    y: int,
    z: int,
    d: Direction,
)
    requires
        mesh_prefix(faces, obj, chunk, coord, upto),
        valid_pos(x, y, z),
        scan_order(x, y, z, d) >= upto,
    ensures
        !faces.contains(face_rec(x, y, z, d)),
{
    let f = face_rec(x, y, z, d);
    if faces.contains(f) {
        let i = choose|i: int| 0 <= i < faces.len() && faces[i] == f;
        assert(records_scanned_face(faces, obj, chunk, coord, upto, i));
        let (x2, y2, z2, d2) = choose|x2: int, y2: int, z2: int, d2: Direction|
            valid_pos(x2, y2, z2) && scan_order(x2, y2, z2, d2) < upto && face_visible(
                obj,
                chunk,
                coord,
                x2,
                y2,
                z2,
                d2,
            ) && faces[i] == #[trigger] face_rec(x2, y2, z2, d2);
        lemma_face_rec_injective(x, y, z, d, x2, y2, z2, d2);
    }
}

/// Only one (position, direction) pair has a given scan order.
proof fn lemma_scan_order_injective(
    x: int,
    y: int,
    z: int,
    d: Direction,
    x2: int,
    y2: int,
    z2: int,
    d2: Direction,
)
    requires
        valid_pos(x, y, z),
        valid_pos(x2, y2, z2),
        scan_order(x, y, z, d) == scan_order(x2, y2, z2, d2),
    ensures
        x == x2,
        y == y2,
        z == z2,
        d == d2,
{
    let upto = scan_order(x, y, z, d);
    lemma_fundamental_div_mod_converse(upto, 6, pack_index(x, y, z), d.id_spec() as int);
    lemma_fundamental_div_mod_converse(upto, 6, pack_index(x2, y2, z2), d2.id_spec() as int);
    lemma_pack_injective(x, y, z, x2, y2, z2);
    assert(d.id_spec() == d2.id_spec());
}

/// Appending the record of the scanned visible face keeps the membership
/// half of the prefix invariant, one scan step further.
proof fn lemma_prefix_push_membership(
    faces: Seq<MeshFace>,
    obj: Map<ChunkCoord, Seq<u32>>,
    chunk: Seq<u32>,
    coord: ChunkCoord,
    x: int,
    y: int,
    z: int,
    d: Direction,
)
    requires
        mesh_prefix(faces, obj, chunk, coord, scan_order(x, y, z, d)),
        valid_pos(x, y, z),
        face_visible(obj, chunk, coord, x, y, z, d),
    ensures
        forall|x2: int, y2: int, z2: int, d2: Direction|
            #![trigger face_visible(obj, chunk, coord, x2, y2, z2, d2)]
            #![trigger faces.push(face_rec(x, y, z, d)).contains(face_rec(x2, y2, z2, d2))]
            valid_pos(x2, y2, z2) && scan_order(x2, y2, z2, d2) < scan_order(x, y, z, d) + 1 ==> (
            face_visible(obj, chunk, coord, x2, y2, z2, d2) <==> faces.push(
                face_rec(x, y, z, d),
            ).contains(face_rec(x2, y2, z2, d2))),
{
    let f = face_rec(x, y, z, d);
    let upto = scan_order(x, y, z, d);
    let faces2 = faces.push(f);
    assert forall|x2: int, y2: int, z2: int, d2: Direction|
        valid_pos(x2, y2, z2) && scan_order(x2, y2, z2, d2) < upto + 1 implies (face_visible(
        obj,
        chunk,
        coord,
        x2,
        y2,
        z2,
        d2,
    ) <==> faces2.contains(face_rec(x2, y2, z2, d2))) by {
        let f2 = face_rec(x2, y2, z2, d2);
        if scan_order(x2, y2, z2, d2) == upto {
            lemma_scan_order_injective(x, y, z, d, x2, y2, z2, d2);
            assert(f2 == f);
            assert(faces2.contains(f)) by {
                assert(faces2[faces.len() as int] == f);
            }
        } else {
            if face_visible(obj, chunk, coord, x2, y2, z2, d2) {
                assert(faces.contains(f2));
                let i = choose|i: int| 0 <= i < faces.len() && faces[i] == f2;
                assert(faces2[i] == f2);
            }
            if faces2.contains(f2) {
                let i = choose|i: int| 0 <= i < faces2.len() && faces2[i] == f2;
                if i < faces.len() {
                    assert(faces.contains(f2));
                } else {
                    assert(f2 == f);
                    lemma_face_rec_injective(x, y, z, d, x2, y2, z2, d2);
                }
            }
        }
    }
}

/// A prefix invariant advances one step when the scanned face is visible and
/// its record is appended.
proof fn lemma_prefix_push(
    faces: Seq<MeshFace>,
    obj: Map<ChunkCoord, Seq<u32>>,
    chunk: Seq<u32>,
    coord: ChunkCoord,
    x: int,
    y: int,
    z: int,
    d: Direction,
)
    requires
        mesh_prefix(faces, obj, chunk, coord, scan_order(x, y, z, d)),
        valid_pos(x, y, z),
        face_visible(obj, chunk, coord, x, y, z, d),
    ensures
        mesh_prefix(faces.push(face_rec(x, y, z, d)), obj, chunk, coord, scan_order(x, y, z, d) + 1),
{
    let f = face_rec(x, y, z, d);
    let upto = scan_order(x, y, z, d);
    let faces2 = faces.push(f);
    lemma_unscanned_not_contained(faces, obj, chunk, coord, upto, x, y, z, d);
    assert(faces2.no_duplicates()) by {
        assert forall|i: int, j: int| 0 <= i < j < faces2.len() implies faces2[i] != faces2[j] by {
            if j < faces.len() {
            } else {
                assert(faces2[j] == f);
                assert(faces[i] == faces2[i]);
                if faces2[i] == f {
                    assert(faces.contains(f));
                }
            }
        }
    }
    lemma_prefix_push_membership(faces, obj, chunk, coord, x, y, z, d);
    assert forall|i: int| 0 <= i < faces2.len() implies #[trigger] records_scanned_face(
        faces2,
        obj,
        chunk,
        coord,
        upto + 1,
        i,
    ) by {
        if i < faces.len() {
            assert(faces2[i] == faces[i]);
            assert(records_scanned_face(faces, obj, chunk, coord, upto, i));
            let (x2, y2, z2, d2) = choose|x2: int, y2: int, z2: int, d2: Direction|
                valid_pos(x2, y2, z2) && scan_order(x2, y2, z2, d2) < upto && face_visible(
                    obj,
                    chunk,
                    coord,
                    x2,
                    y2,
                    z2,
                    d2,
                ) && faces[i] == #[trigger] face_rec(x2, y2, z2, d2);
            assert(valid_pos(x2, y2, z2) && scan_order(x2, y2, z2, d2) < upto + 1 && face_visible(
                obj,
                chunk,
                coord,
                x2,
                y2,
                z2,
                d2,
            ) && faces2[i] == face_rec(x2, y2, z2, d2));
        } else {
            assert(faces2[i] == f);
            assert(valid_pos(x, y, z) && scan_order(x, y, z, d) < upto + 1 && face_visible(
                obj,
                chunk,
                coord,
                x,
                y,
                z,
                d,
            ) && faces2[i] == face_rec(x, y, z, d));
        }
    }
}

/// Whether the neighbor position one step along `dir` from local position
/// `(x, y, z)` reads as void, consulting the prefetched neighbor chunk when
/// the step crosses the chunk boundary.
fn probe_neighbor(
    chunk: &Chunk,
    nb: Option<&Chunk>,
    coord: ChunkCoord,
    x: i32,
    y: i32,
    z: i32,
    dir: Direction,
    Ghost(obj): Ghost<Map<ChunkCoord, Seq<u32>>>,
) -> (b: bool)
    requires
        chunk.wf(),
        valid_pos(x as int, y as int, z as int),
        nb is Some <==> obj.contains_key(advanced(coord, dir)),
        nb matches Some(c) ==> c@ == obj[advanced(coord, dir)] && c.wf(),
    ensures
        b == neighbor_void(obj, chunk@, coord, x as int, y as int, z as int, dir),
{
    let vc = VoxelCoord::new(x, y, z);
    let nc = vc.advance(dir);
    let cd = nc.chunk();
    proof {
        lemma_axis_small(nc.x as int);
        lemma_axis_small(nc.y as int);
        lemma_axis_small(nc.z as int);
    }
    let same = cd.x == 0 && cd.y == 0 && cd.z == 0;
    if same {
        chunk.voxel(nc.chunk_index()).is_void()
    } else {
        match nb {
            Some(nchunk) => nchunk.voxel(nc.chunk_index()).is_void(),
            None => true,
        }
    }
}

/// Derive the face list of `chunk`, standing at `coord` inside `object`.
///
/// Every local position is scanned; a face record is emitted for each of the
/// six sides of each solid voxel whose neighbor on that side reads as void,
/// neighboring chunks being consulted across the chunk boundary and absent
/// neighbors counting as void.
#[verifier::loop_isolation(false)]
#[verifier::rlimit(100)]
pub fn mesh_with_chunk(object: &Object, chunk: &Chunk, coord: ChunkCoord) -> (r: Mesh)
    requires
        object.wf(),
        chunk.wf(),
        crate::coord::coord_interior(coord),
    ensures
        r.coord == coord,
        is_mesh_of(r.faces@, object@, chunk@, coord),
{
    let neighbors = object.neighbors(coord);
    let dirs = Direction::iterate();
    let mut faces: Vec<MeshFace> = Vec::new();
    for z in 0..32i32
        invariant
            mesh_prefix(faces@, object@, chunk@, coord, 6 * (1024 * (z as int))),
    {
        for y in 0..32i32
            invariant
                mesh_prefix(faces@, object@, chunk@, coord, 6 * (1024 * (z as int) + 32 * (
                y as int))),
        {
            for x in 0..32i32
                invariant
                    mesh_prefix(
                        faces@,
                        object@,
                        chunk@,
                        coord,
                        6 * (1024 * (z as int) + 32 * (y as int) + (x as int)),
                    ),
            {
                let ghost p = 1024 * (z as int) + 32 * (y as int) + (x as int);
                let vc = VoxelCoord::new(x, y, z);
                let idx = vc.chunk_index();
                proof {
                    lemma_axis_small(x as int);
                    lemma_axis_small(y as int);
                    lemma_axis_small(z as int);
                    assert(idx.0 == pack_index(x as int, y as int, z as int));
                }
                if chunk.voxel(idx).is_void() {
                    proof {
                        assert forall|x2: int, y2: int, z2: int, d2: Direction|
                            valid_pos(x2, y2, z2) && 6 * p <= scan_order(x2, y2, z2, d2) < 6 * p
                                + 6 implies !face_visible(
                            object@,
                            chunk@,
                            coord,
                            x2,
                            y2,
                            z2,
                            d2,
                        ) by {
                            assert(pack_index(x2, y2, z2) == p);
                            lemma_pack_injective(x2, y2, z2, x as int, y as int, z as int);
                        }
                        lemma_prefix_extend_invisible(
                            faces@,
                            object@,
                            chunk@,
                            coord,
                            6 * p,
                            6 * p + 6,
                        );
                    }
                } else {
                    for di in 0..6usize
                        invariant
                            mesh_prefix(faces@, object@, chunk@, coord, 6 * p + di as int),
                    {
                        let dir = dirs[di];
                        proof {
                            Direction::lemma_from_id_id(di as int);
                            assert(scan_order(x as int, y as int, z as int, dir) == 6 * p
                                + di as int);
                        }
                        let neighbor_is_void = probe_neighbor(
                            chunk,
                            neighbors[di].1,
                            coord,
                            x,
                            y,
                            z,
                            dir,
                            Ghost(object@),
                        );
                        if neighbor_is_void {
                            let ghost faces_before = faces@;
                            faces.push(MeshFace::new(Voxel::from_id(dir.id()), idx, dir));
                            proof {
                                lemma_prefix_push(
                                    faces_before,
                                    object@,
                                    chunk@,
                                    coord,
                                    x as int,
                                    y as int,
                                    z as int,
                                    dir,
                                );
                                assert(faces_before.push(
                                    face_rec(x as int, y as int, z as int, dir),
                                ) =~= faces@);
                            }
                        } else {
                            proof {
                                assert forall|x2: int, y2: int, z2: int, d2: Direction|
                                    valid_pos(x2, y2, z2) && 6 * p + di as int <= scan_order(
                                        x2,
                                        y2,
                                        z2,
                                        d2,
                                    ) < 6 * p + di as int + 1 implies !face_visible(
                                    object@,
                                    chunk@,
                                    coord,
                                    x2,
                                    y2,
                                    z2,
                                    d2,
                                ) by {
                                    lemma_scan_order_injective(
                                        x2,
                                        y2,
                                        z2,
                                        d2,
                                        x as int,
                                        y as int,
                                        z as int,
                                        dir,
                                    );
                                }
                                lemma_prefix_extend_invisible(
                                    faces@,
                                    object@,
                                    chunk@,
                                    coord,
                                    6 * p + di as int,
                                    6 * p + di as int + 1,
                                );
                            }
                        }
                    }
                }
            }
        }
    }
    proof {
        assert forall|x: int, y: int, z: int, d: Direction|
            #![trigger face_visible(object@, chunk@, coord, x, y, z, d)]
            #![trigger faces@.contains(face_rec(x, y, z, d))]
            valid_pos(x, y, z) implies (face_visible(object@, chunk@, coord, x, y, z, d)
            <==> faces@.contains(face_rec(x, y, z, d))) by {
            assert(scan_order(x, y, z, d) < 196608);
        }
        assert forall|i: int| 0 <= i < faces@.len() implies #[trigger] records_visible_face(
            faces@,
            object@,
            chunk@,
            coord,
            i,
        ) by {
            assert(records_scanned_face(faces@, object@, chunk@, coord, 196608, i));
            let (x2, y2, z2, d2) = choose|x2: int, y2: int, z2: int, d2: Direction|
                valid_pos(x2, y2, z2) && scan_order(x2, y2, z2, d2) < 196608 && face_visible(
                    object@,
                    chunk@,
                    coord,
                    x2,
                    y2,
                    z2,
                    d2,
                ) && faces@[i] == #[trigger] face_rec(x2, y2, z2, d2);
            assert(valid_pos(x2, y2, z2) && face_visible(object@, chunk@, coord, x2, y2, z2, d2)
                && faces@[i] == face_rec(x2, y2, z2, d2));
        }
    }
    Mesh { coord, faces }
}

/// Derive the face list of the chunk stored at `coord`, or nothing when the
/// world holds no chunk there.
pub fn mesh(object: &Object, coord: ChunkCoord) -> (r: Option<Mesh>)
    requires
        object.wf(),
        crate::coord::coord_interior(coord),
    ensures
        r is Some <==> object@.contains_key(coord),
        r matches Some(m) ==> m.coord == coord && is_mesh_of(
            m.faces@,
            object@,
            object@[coord],
            coord,
        ),
{
    match object.chunk(coord) {
        Some(chunk) => Some(mesh_with_chunk(object, chunk, coord)),
        None => None,
    }
}

/// The direction pointing the opposite way.
pub open spec fn opposite(d: Direction) -> Direction {
    match d {
        Direction::PosX => Direction::NegX,
        Direction::NegX => Direction::PosX,
        Direction::PosY => Direction::NegY,
        Direction::NegY => Direction::PosY,
        Direction::PosZ => Direction::NegZ,
        Direction::NegZ => Direction::PosZ,
    }
}

/// A fully void chunk produces an empty mesh, whatever the neighbors hold.
pub proof fn lemma_void_chunk_empty_mesh(
    faces: Seq<MeshFace>,
    obj: Map<ChunkCoord, Seq<u32>>,
    chunk: Seq<u32>,
    coord: ChunkCoord,
)
    requires
        is_mesh_of(faces, obj, chunk, coord),
        chunk.len() == 32768,
        forall|i: int| 0 <= i < 32768 ==> chunk[i] == 0,
    ensures
        faces.len() == 0,
{
    if faces.len() > 0 {
        assert(records_visible_face(faces, obj, chunk, coord, 0));
        let (x, y, z, d) = choose|x: int, y: int, z: int, d: Direction|
            valid_pos(x, y, z) && face_visible(obj, chunk, coord, x, y, z, d) && faces[0]
                == #[trigger] face_rec(x, y, z, d);
        assert(0 <= pack_index(x, y, z) < 32768);
        assert(voxel_at(chunk, x, y, z) == 0);
    }
}

/// A single solid voxel in an otherwise void chunk, with all six neighbor
/// chunks absent, produces exactly six faces: one per direction.
pub proof fn lemma_single_voxel_six_faces(
    faces: Seq<MeshFace>,
    obj: Map<ChunkCoord, Seq<u32>>,
    chunk: Seq<u32>,
    coord: ChunkCoord,
    x: int,
    y: int,
    z: int,
)
    requires
        is_mesh_of(faces, obj, chunk, coord),
        chunk.len() == 32768,
        valid_pos(x, y, z),
        voxel_at(chunk, x, y, z) != 0,
        forall|i: int| 0 <= i < 32768 && i != pack_index(x, y, z) ==> chunk[i] == 0,
        forall|d: Direction| !obj.contains_key(#[trigger] advanced(coord, d)),
    ensures
        faces.len() == 6,
        forall|d: Direction| #[trigger] faces.contains(face_rec(x, y, z, d)),
{
    // Every direction's face of the lone voxel is visible.
    assert forall|d: Direction| #[trigger] face_visible(obj, chunk, coord, x, y, z, d) by {
        let nx = x + d.offset_spec().0;
        let ny = y + d.offset_spec().1;
        let nz = z + d.offset_spec().2;
        if valid_pos(nx, ny, nz) {
            assert((nx, ny, nz) != (x, y, z));
            lemma_index_round_trip(x, y, z);
            lemma_index_round_trip(nx, ny, nz);
            assert(pack_index(nx, ny, nz) != pack_index(x, y, z));
            assert(0 <= pack_index(nx, ny, nz) < 32768);
        }
    }
    // Nothing else is visible: any visible face sits on a solid voxel.
    assert forall|x2: int, y2: int, z2: int, d2: Direction|
        valid_pos(x2, y2, z2) && #[trigger] face_visible(
            obj,
            chunk,
            coord,
            x2,
            y2,
            z2,
            d2,
        ) implies x2 == x && y2 == y && z2 == z by {
        assert(0 <= pack_index(x2, y2, z2) < 32768);
        if pack_index(x2, y2, z2) != pack_index(x, y, z) {
            assert(voxel_at(chunk, x2, y2, z2) == 0);
        }
        lemma_pack_injective(x2, y2, z2, x, y, z);
    }
    let fseq = seq![
        face_rec(x, y, z, Direction::PosX),
        face_rec(x, y, z, Direction::NegX),
        face_rec(x, y, z, Direction::PosY),
        face_rec(x, y, z, Direction::NegY),
        face_rec(x, y, z, Direction::PosZ),
        face_rec(x, y, z, Direction::NegZ),
    ];
    assert(fseq.no_duplicates());
    assert forall|f: MeshFace| faces.to_set().contains(f) implies fseq.to_set().contains(f) by {
        let i = choose|i: int| 0 <= i < faces.len() && faces[i] == f;
        assert(records_visible_face(faces, obj, chunk, coord, i));
        let (x2, y2, z2, d2) = choose|x2: int, y2: int, z2: int, d2: Direction|
            valid_pos(x2, y2, z2) && face_visible(obj, chunk, coord, x2, y2, z2, d2) && faces[i]
                == #[trigger] face_rec(x2, y2, z2, d2);
        assert(x2 == x && y2 == y && z2 == z);
        match d2 {
            Direction::PosX => assert(fseq[0] == f),
            Direction::NegX => assert(fseq[1] == f),
            Direction::PosY => assert(fseq[2] == f),
            Direction::NegY => assert(fseq[3] == f),
            Direction::PosZ => assert(fseq[4] == f),
            Direction::NegZ => assert(fseq[5] == f),
        }
    }
    assert forall|f: MeshFace| fseq.to_set().contains(f) implies faces.to_set().contains(f) by {
        let i = choose|i: int| 0 <= i < fseq.len() && fseq[i] == f;
        let d = Direction::from_id_spec(i);
        assert(fseq[i] == face_rec(x, y, z, d));
        assert(faces.contains(face_rec(x, y, z, d)));
        let j = choose|j: int| 0 <= j < faces.len() && faces[j] == face_rec(x, y, z, d);
        assert(faces.to_set().contains(f));
    }
    assert(faces.to_set() =~= fseq.to_set());
    faces.unique_seq_to_set();
    fseq.unique_seq_to_set();
    assert forall|d: Direction| #[trigger] faces.contains(face_rec(x, y, z, d)) by {
        assert(face_visible(obj, chunk, coord, x, y, z, d));
    }
}

/// Two solid voxels on the two sides of an internal boundary suppress the
/// pair of faces between them.
pub proof fn lemma_adjacent_solid_suppresses_faces(
    faces: Seq<MeshFace>,
    obj: Map<ChunkCoord, Seq<u32>>,
    chunk: Seq<u32>,
    coord: ChunkCoord,
    x: int,
    y: int,
    z: int,
    d: Direction,
)
    requires
        is_mesh_of(faces, obj, chunk, coord),
        valid_pos(x, y, z),
        valid_pos(x + d.offset_spec().0, y + d.offset_spec().1, z + d.offset_spec().2),
        voxel_at(chunk, x, y, z) != 0,
        voxel_at(
            chunk,
            x + d.offset_spec().0,
            y + d.offset_spec().1,
            z + d.offset_spec().2,
        ) != 0,
    ensures
        !faces.contains(face_rec(x, y, z, d)),
        !faces.contains(
            face_rec(
                x + d.offset_spec().0,
                y + d.offset_spec().1,
                z + d.offset_spec().2,
                opposite(d),
            ),
        ),
{
    let nx = x + d.offset_spec().0;
    let ny = y + d.offset_spec().1;
    let nz = z + d.offset_spec().2;
    assert(!face_visible(obj, chunk, coord, x, y, z, d));
    assert(opposite(d).offset_spec().0 == -d.offset_spec().0 && opposite(d).offset_spec().1
        == -d.offset_spec().1 && opposite(d).offset_spec().2 == -d.offset_spec().2);
    assert(!face_visible(obj, chunk, coord, nx, ny, nz, opposite(d)));
}

/// A solid voxel at the chunk boundary emits the boundary face exactly when
/// the position just across, in the neighboring chunk, reads as void: a
/// solid voxel there suppresses it, and an absent neighbor chunk exposes it.
pub proof fn lemma_boundary_face(
    faces: Seq<MeshFace>,
    obj: Map<ChunkCoord, Seq<u32>>,
    chunk: Seq<u32>,
    coord: ChunkCoord,
    x: int,
    y: int,
    z: int,
    d: Direction,
)
    requires
        is_mesh_of(faces, obj, chunk, coord),
        valid_pos(x, y, z),
        !valid_pos(x + d.offset_spec().0, y + d.offset_spec().1, z + d.offset_spec().2),
        voxel_at(chunk, x, y, z) != 0,
    ensures
        obj.contains_key(advanced(coord, d)) && voxel_at(
            obj[advanced(coord, d)],
            local_axis(x + d.offset_spec().0),
            local_axis(y + d.offset_spec().1),
            local_axis(z + d.offset_spec().2),
        ) != 0 ==> !faces.contains(face_rec(x, y, z, d)),
        !obj.contains_key(advanced(coord, d)) || voxel_at(
            obj[advanced(coord, d)],
            local_axis(x + d.offset_spec().0),
            local_axis(y + d.offset_spec().1),
            local_axis(z + d.offset_spec().2),
        ) == 0 ==> faces.contains(face_rec(x, y, z, d)),
{
    assert(face_visible(obj, chunk, coord, x, y, z, d) <==> faces.contains(face_rec(x, y, z, d)));
}

} // verus!
