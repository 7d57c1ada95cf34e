use voxel_render::chunk::Chunk;
use voxel_render::coord::{ChunkCoord, ChunkIndex, Direction, VoxelCoord};
use voxel_render::mesh::{mesh, mesh_with_chunk, MeshFace};
use voxel_render::object::Object;
use voxel_render::voxel::Voxel;

fn location_of(x: u32, y: u32, z: u32, dir_id: u32) -> u32 {
    dir_id * 32768 + (z * 1024 + y * 32 + x)
}

#[test]
fn void_chunk_gives_empty_mesh() {
    let world = Object::new();
    let chunk = Chunk::new_void();
    let m = mesh_with_chunk(&world, &chunk, ChunkCoord::new(0, 0, 0));
    assert_eq!(m.faces.len(), 0);
}

#[test]
fn void_chunk_gives_empty_mesh_with_solid_neighbors() {
    // Neighbor state is irrelevant for a fully void chunk.
    let mut world = Object::new();
    world.set_voxel(VoxelCoord::new(32, 0, 0), Voxel::from_id(1));
    world.set_voxel(VoxelCoord::new(-1, 0, 0), Voxel::from_id(1));
    let chunk = Chunk::new_void();
    let m = mesh_with_chunk(&world, &chunk, ChunkCoord::new(0, 0, 0));
    assert_eq!(m.faces.len(), 0);
}

#[test]
fn single_voxel_gives_six_faces() {
    let world = Object::new();
    let mut chunk = Chunk::new_void();
    chunk.set_voxel(ChunkIndex::new(5, 6, 7).unwrap(), Voxel::from_id(3));
    let m = mesh_with_chunk(&world, &chunk, ChunkCoord::new(0, 0, 0));
    assert_eq!(m.faces.len(), 6);
    let mut locations: Vec<u32> = m.faces.iter().map(|f| f.location).collect();
    locations.sort();
    let mut expected: Vec<u32> = (0..6).map(|d| location_of(5, 6, 7, d)).collect();
    expected.sort();
    assert_eq!(locations, expected);
}

#[test]
fn two_adjacent_voxels_give_ten_faces() {
    // A 2x1x1 solid block: the two touching faces are suppressed.
    let world = Object::new();
    let mut chunk = Chunk::new_void();
    chunk.set_voxel(ChunkIndex::new(10, 10, 10).unwrap(), Voxel::from_id(1));
    chunk.set_voxel(ChunkIndex::new(11, 10, 10).unwrap(), Voxel::from_id(1));
    let m = mesh_with_chunk(&world, &chunk, ChunkCoord::new(0, 0, 0));
    assert_eq!(m.faces.len(), 10);
    // Neither the east face of the west voxel nor the west face of the east
    // voxel is present.
    let locations: Vec<u32> = m.faces.iter().map(|f| f.location).collect();
    assert!(!locations.contains(&location_of(10, 10, 10, 0)));
    assert!(!locations.contains(&location_of(11, 10, 10, 1)));
    assert!(locations.contains(&location_of(10, 10, 10, 1)));
    assert!(locations.contains(&location_of(11, 10, 10, 0)));
}

#[test]
fn boundary_face_suppressed_by_neighbor_chunk() {
    // A solid voxel at x = 31 of chunk (0,0,0), with a solid voxel at
    // x = 0 of chunk (1,0,0) right across the boundary.
    let mut world = Object::new();
    world.set_voxel(VoxelCoord::new(31, 10, 10), Voxel::from_id(1));
    world.set_voxel(VoxelCoord::new(32, 10, 10), Voxel::from_id(1));
    let m = mesh(&world, ChunkCoord::new(0, 0, 0)).unwrap();
    assert_eq!(m.faces.len(), 5);
    let locations: Vec<u32> = m.faces.iter().map(|f| f.location).collect();
    assert!(!locations.contains(&location_of(31, 10, 10, 0)));
    // The neighboring chunk's mesh suppresses the matching west face.
    let n = mesh(&world, ChunkCoord::new(1, 0, 0)).unwrap();
    assert_eq!(n.faces.len(), 5);
    let nlocations: Vec<u32> = n.faces.iter().map(|f| f.location).collect();
    assert!(!nlocations.contains(&location_of(0, 10, 10, 1)));
}

#[test]
fn boundary_face_emitted_when_neighbor_absent_or_void() {
    // Absent neighbor chunk: the boundary face is emitted.
    let mut world = Object::new();
    world.set_voxel(VoxelCoord::new(31, 10, 10), Voxel::from_id(1));
    let m = mesh(&world, ChunkCoord::new(0, 0, 0)).unwrap();
    assert_eq!(m.faces.len(), 6);
    let locations: Vec<u32> = m.faces.iter().map(|f| f.location).collect();
    assert!(locations.contains(&location_of(31, 10, 10, 0)));

    // Neighbor chunk present but void at the shared boundary: still emitted.
    world.set_voxel(VoxelCoord::new(32, 20, 20), Voxel::from_id(1));
    let m2 = mesh(&world, ChunkCoord::new(0, 0, 0)).unwrap();
    let locations2: Vec<u32> = m2.faces.iter().map(|f| f.location).collect();
    assert!(locations2.contains(&location_of(31, 10, 10, 0)));
}

#[test]
fn mesh_of_absent_chunk_is_none() {
    let world = Object::new_test();
    assert!(mesh(&world, ChunkCoord::new(7, 7, 7)).is_none());
    assert!(mesh(&world, ChunkCoord::new(0, 0, 0)).is_some());
}

#[test]
fn mesh_all_yields_one_mesh_per_chunk() {
    let mut world = Object::new();
    world.set_voxel(VoxelCoord::new(0, 0, 0), Voxel::from_id(1));
    world.set_voxel(VoxelCoord::new(100, 0, 0), Voxel::from_id(1));
    let meshes = world.fuck_it_mesh_all();
    assert_eq!(meshes.len(), 2);
    let mut coords: Vec<(i32, i32, i32)> =
        meshes.iter().map(|m| (m.coord.x, m.coord.y, m.coord.z)).collect();
    coords.sort();
    assert_eq!(coords, vec![(0, 0, 0), (3, 0, 0)]);
    for m in &meshes {
        assert_eq!(m.faces.len(), 6);
    }
}

#[test]
fn face_record_packs_voxel_and_location() {
    let idx = ChunkIndex::new(1, 2, 3).unwrap();
    let f = MeshFace::new(Voxel::from_id(5), idx, Direction::PosZ);
    assert_eq!(f.voxel, 5);
    assert_eq!(f.location, 4 * 32768 + (3 * 1024 + 2 * 32 + 1));
}

#[test]
fn mesher_emits_direction_id_as_material() {
    let world = Object::new();
    let mut chunk = Chunk::new_void();
    chunk.set_voxel(ChunkIndex::new(0, 0, 0).unwrap(), Voxel::from_id(42));
    let m = mesh_with_chunk(&world, &chunk, ChunkCoord::new(0, 0, 0));
    for f in &m.faces {
        assert_eq!(f.voxel, f.location / 32768);
    }
}

#[test]
fn sphere_chunk_mesh_depends_only_on_neighbors() {
    let chunk = Chunk::new_sphere();
    // No neighbors at all.
    let empty = Object::new();
    let m = mesh_with_chunk(&empty, &chunk, ChunkCoord::new(0, 0, 0));
    assert!(m.faces.len() > 0);
    // A coordinate of the test world whose neighbors are all absent gives
    // the same mesh size.
    let world = Object::new_test();
    let far = mesh_with_chunk(&world, &chunk, ChunkCoord::new(10, 10, 10));
    assert_eq!(m.faces.len(), far.faces.len());
    // At the origin the test world has solid sphere chunks on four sides;
    // the sphere touches the chunk boundary, so faces there are suppressed.
    let near = mesh_with_chunk(&world, &chunk, ChunkCoord::new(0, 0, 0));
    assert!(near.faces.len() < m.faces.len());
}
