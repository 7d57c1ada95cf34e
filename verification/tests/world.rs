use voxel_render::coord::{ChunkCoord, ChunkIndex, Direction, VoxelCoord};
use voxel_render::object::Object;
use voxel_render::voxel::Voxel;

#[test]
fn empty_world_has_no_chunks() {
    let world = Object::new();
    assert!(world.chunk(ChunkCoord::new(0, 0, 0)).is_none());
    assert!(world.chunk(ChunkCoord::new(-5, 2, 9)).is_none());
}

#[test]
fn reads_into_absent_chunks_are_void() {
    let world = Object::new();
    assert!(world.voxel(VoxelCoord::new(0, 0, 0)).is_void());
    assert!(world.voxel(VoxelCoord::new(-1000, 55, 7)).is_void());
}

#[test]
fn write_materializes_chunk_and_reads_back() {
    let mut world = Object::new();
    let pos = VoxelCoord::new(-1, 40, 3);
    world.set_voxel(pos, Voxel::from_id(4));
    assert_eq!(world.voxel(pos), Voxel::from_id(4));
    // The write landed in chunk (-1, 1, 0), which now exists.
    assert!(world.chunk(ChunkCoord::new(-1, 1, 0)).is_some());
    // A neighboring voxel of the same chunk is still void.
    assert!(world.voxel(VoxelCoord::new(-2, 40, 3)).is_void());
    // Reads never materialize.
    assert!(world.chunk(ChunkCoord::new(5, 5, 5)).is_none());
}

#[test]
fn writes_to_same_chunk_share_storage() {
    let mut world = Object::new();
    world.set_voxel(VoxelCoord::new(0, 0, 0), Voxel::from_id(1));
    world.set_voxel(VoxelCoord::new(31, 31, 31), Voxel::from_id(2));
    assert_eq!(world.voxel(VoxelCoord::new(0, 0, 0)), Voxel::from_id(1));
    assert_eq!(world.voxel(VoxelCoord::new(31, 31, 31)), Voxel::from_id(2));
}

#[test]
fn test_world_holds_six_sphere_chunks() {
    let world = Object::new_test();
    for (x, y, z) in [(-1, 0, 0), (0, 0, 0), (1, 0, 0), (2, 0, 0), (0, 1, 0), (0, 0, 1)] {
        assert!(world.chunk(ChunkCoord::new(x, y, z)).is_some());
    }
    assert!(world.chunk(ChunkCoord::new(3, 0, 0)).is_none());
    assert!(world.chunk(ChunkCoord::new(0, 0, -1)).is_none());
    // Each held chunk is the sphere chunk: its center voxel is solid.
    assert!(!world.voxel(VoxelCoord::new(16, 16, 16)).is_void());
    assert!(!world.voxel(VoxelCoord::new(-16, 16, 16)).is_void());
}

#[test]
fn neighbors_returns_six_adjacent_lookups() {
    let world = Object::new_test();
    let nbrs = world.neighbors(ChunkCoord::new(0, 0, 0));
    assert_eq!(nbrs.len(), 6);
    for (i, (dir, chunk)) in nbrs.iter().enumerate() {
        assert_eq!(dir.id() as usize, i);
        let present = match dir {
            Direction::PosX => true,  // (1, 0, 0)
            Direction::NegX => true,  // (-1, 0, 0)
            Direction::PosY => true,  // (0, 1, 0)
            Direction::NegY => false,
            Direction::PosZ => true,  // (0, 0, 1)
            Direction::NegZ => false,
        };
        assert_eq!(chunk.is_some(), present);
    }
}

#[test]
fn chunk_mut_materializes_and_edits_in_place() {
    let mut world = Object::new();
    let chunk = world.chunk_mut(ChunkCoord::new(2, 2, 2));
    assert!(chunk.voxel(ChunkIndex::new(1, 1, 1).unwrap()).is_void());
    chunk.set_voxel(ChunkIndex::new(1, 1, 1).unwrap(), Voxel::from_id(8));
    assert_eq!(world.voxel(VoxelCoord::new(65, 65, 65)), Voxel::from_id(8));
    assert!(world.chunk(ChunkCoord::new(2, 2, 2)).is_some());
    // Fetching an existing chunk for writing does not reset it.
    let chunk = world.chunk_mut(ChunkCoord::new(2, 2, 2));
    assert_eq!(chunk.voxel(ChunkIndex::new(1, 1, 1).unwrap()), Voxel::from_id(8));
}
