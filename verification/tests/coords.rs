use voxel_render::coord::{ChunkIndex, Direction, VoxelCoord};

#[test]
fn decompose_recombine_negative_one() {
    let c = VoxelCoord::new(-1, -1, -1);
    let chunk = c.chunk();
    assert_eq!((chunk.x, chunk.y, chunk.z), (-1, -1, -1));
    let idx = c.chunk_index();
    assert_eq!((idx.x(), idx.y(), idx.z()), (31, 31, 31));
    assert_eq!(chunk.x * 32 + idx.x() as i32, -1);
}

#[test]
fn decompose_recombine_many() {
    for &x in &[-100, -64, -33, -32, -31, -1, 0, 1, 31, 32, 33, 64, 1000, -1000] {
        let c = VoxelCoord::new(x, 0, 0);
        let chunk = c.chunk();
        let idx = c.chunk_index();
        let local = idx.x() as i32;
        assert!((0..32).contains(&local));
        assert_eq!(chunk.x * 32 + local, x);
    }
}

#[test]
fn decompose_positive() {
    let c = VoxelCoord::new(64, 33, 31);
    let chunk = c.chunk();
    assert_eq!((chunk.x, chunk.y, chunk.z), (2, 1, 0));
    let idx = c.chunk_index();
    assert_eq!((idx.x(), idx.y(), idx.z()), (0, 1, 31));
}

#[test]
fn index_round_trip_all_axes() {
    for &(x, y, z) in &[(0, 0, 0), (31, 31, 31), (1, 2, 3), (31, 0, 15), (16, 16, 16)] {
        let idx = ChunkIndex::new(x, y, z).unwrap();
        assert_eq!(idx.x() as i32, x);
        assert_eq!(idx.y() as i32, y);
        assert_eq!(idx.z() as i32, z);
    }
}

#[test]
fn index_rejects_out_of_range() {
    assert!(ChunkIndex::new(-1, 0, 0).is_none());
    assert!(ChunkIndex::new(0, -1, 0).is_none());
    assert!(ChunkIndex::new(0, 0, -1).is_none());
    assert!(ChunkIndex::new(32, 0, 0).is_none());
    assert!(ChunkIndex::new(0, 32, 0).is_none());
    assert!(ChunkIndex::new(0, 0, 32).is_none());
    assert!(ChunkIndex::new(100, 100, 100).is_none());
}

#[test]
fn index_packs_bits() {
    let idx = ChunkIndex::new_unchecked(1, 2, 3);
    assert_eq!(idx.0, 3 * 1024 + 2 * 32 + 1);
    let idx = ChunkIndex::new(31, 31, 31).unwrap();
    assert_eq!(idx.0, 32767);
}

#[test]
fn index_iterate_covers_volume() {
    let all = ChunkIndex::iterate();
    assert_eq!(all.len(), 32768);
    assert_eq!(all[0].0, 0);
    assert_eq!(all[32767].0, 32767);
    assert_eq!(all[1057].x(), 1);
    assert_eq!(all[1057].y(), 1);
    assert_eq!(all[1057].z(), 1);
}

#[test]
fn direction_iterate_ids() {
    let dirs = Direction::iterate();
    assert_eq!(dirs.len(), 6);
    for (i, d) in dirs.iter().enumerate() {
        assert_eq!(d.id() as usize, i);
    }
}

#[test]
fn direction_offsets() {
    let dirs = Direction::iterate();
    let offsets: Vec<(i32, i32, i32)> = dirs.iter().map(|d| d.vec()).collect();
    assert_eq!(
        offsets,
        vec![(1, 0, 0), (-1, 0, 0), (0, 1, 0), (0, -1, 0), (0, 0, 1), (0, 0, -1)]
    );
}

#[test]
fn advance_moves_one_voxel() {
    let c = VoxelCoord::new(5, 6, 7);
    let n = c.advance(Direction::NegY);
    assert_eq!((n.x, n.y, n.z), (5, 5, 7));
}
