use voxel_render::chunk::Chunk;
use voxel_render::coord::ChunkIndex;
use voxel_render::voxel::Voxel;

#[test]
fn void_chunk_reads_void() {
    let chunk = Chunk::new_void();
    for &(x, y, z) in &[(0, 0, 0), (31, 31, 31), (15, 7, 23)] {
        let idx = ChunkIndex::new(x, y, z).unwrap();
        assert!(chunk.voxel(idx).is_void());
    }
}

#[test]
fn set_voxel_reads_back() {
    let mut chunk = Chunk::new_void();
    let idx = ChunkIndex::new(3, 4, 5).unwrap();
    chunk.set_voxel(idx, Voxel::from_id(9));
    assert_eq!(chunk.voxel(idx), Voxel::from_id(9));
    let other = ChunkIndex::new(3, 4, 6).unwrap();
    assert!(chunk.voxel(other).is_void());
}

#[test]
fn voxel_identity() {
    assert!(Voxel::from_id(0).is_void());
    assert!(Voxel::void().is_void());
    assert!(!Voxel::from_id(1).is_void());
    assert_eq!(Voxel::from_id(7), Voxel::from_id(7));
}

#[test]
fn sphere_chunk_solid_center_void_corners() {
    let chunk = Chunk::new_sphere();
    let center = ChunkIndex::new(16, 16, 16).unwrap();
    assert!(!chunk.voxel(center).is_void());
    for &(x, y, z) in &[(0, 0, 0), (31, 0, 0), (0, 31, 0), (0, 0, 31), (31, 31, 31)] {
        let idx = ChunkIndex::new(x, y, z).unwrap();
        assert!(chunk.voxel(idx).is_void());
    }
}

#[test]
fn sphere_chunk_matches_radius_test() {
    let chunk = Chunk::new_sphere();
    for z in 0..32 {
        for y in 0..32 {
            for x in 0..32 {
                let idx = ChunkIndex::new(x, y, z).unwrap();
                let dx = 2 * x - 31;
                let dy = 2 * y - 31;
                let dz = 2 * z - 31;
                let inside = dx * dx + dy * dy + dz * dz < 1024;
                assert_eq!(!chunk.voxel(idx).is_void(), inside);
            }
        }
    }
}
