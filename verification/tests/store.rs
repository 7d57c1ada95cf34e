use voxel_render::coord::ChunkCoord;
use voxel_render::mesh::{Mesh, MeshFace};
use voxel_render::store::VoxelMeshManager;

fn mesh_at(x: i32, y: i32, z: i32, faces: usize) -> Mesh {
    let mut list: Vec<MeshFace> = Vec::new();
    for i in 0..faces {
        list.push(MeshFace { voxel: 1, location: i as u32 });
    }
    Mesh { coord: ChunkCoord::new(x, y, z), faces: list }
}

#[test]
fn new_store_is_empty() {
    let store = VoxelMeshManager::new();
    assert_eq!(store.mesh_count(), 0);
    assert!(store.meshes().is_empty());
}

#[test]
fn upload_installs_buffer_record() {
    let mut store = VoxelMeshManager::new();
    let displaced = store.upload_mesh(&mesh_at(1, 2, 3, 4), 100);
    assert!(displaced.is_none());
    assert_eq!(store.mesh_count(), 1);
    let records = store.meshes();
    assert_eq!(records[0].handle, 100);
    assert_eq!(records[0].length, 4);
    assert_eq!((records[0].coord.x, records[0].coord.y, records[0].coord.z), (1, 2, 3));
}

#[test]
fn upload_records_face_count() {
    let mut store = VoxelMeshManager::new();
    store.upload_mesh(&mesh_at(0, 0, 0, 7), 1);
    assert_eq!(store.meshes()[0].length, 7);
}

#[test]
fn reupload_same_coord_keeps_count_and_displaces_old_buffer() {
    let mut store = VoxelMeshManager::new();
    assert!(store.upload_mesh(&mesh_at(4, 5, 6, 3), 111).is_none());
    assert_eq!(store.mesh_count(), 1);

    let displaced = store.upload_mesh(&mesh_at(4, 5, 6, 9), 222);
    // The count did not change and exactly one buffer is live for the
    // coordinate: the newest one. The first buffer is handed back once,
    // for the caller to destroy.
    assert_eq!(store.mesh_count(), 1);
    let old = displaced.unwrap();
    assert_eq!(old.handle, 111);
    assert_eq!(old.length, 3);
    let records = store.meshes();
    assert_eq!(records.len(), 1);
    assert_eq!(records[0].handle, 222);
    assert_eq!(records[0].length, 9);
}

#[test]
fn uploads_for_distinct_coords_accumulate() {
    let mut store = VoxelMeshManager::new();
    store.upload_mesh(&mesh_at(0, 0, 0, 1), 1);
    store.upload_mesh(&mesh_at(1, 0, 0, 2), 2);
    store.upload_mesh(&mesh_at(0, 1, 0, 3), 3);
    assert_eq!(store.mesh_count(), 3);
}

#[test]
fn drain_hands_out_every_buffer_once() {
    let mut store = VoxelMeshManager::new();
    store.upload_mesh(&mesh_at(0, 0, 0, 1), 10);
    store.upload_mesh(&mesh_at(1, 0, 0, 2), 20);
    let drained = store.drain();
    assert_eq!(drained.len(), 2);
    assert_eq!(store.mesh_count(), 0);
    let mut handles: Vec<u64> = drained.iter().map(|b| b.handle).collect();
    handles.sort();
    assert_eq!(handles, vec![10, 20]);
}
