//! A sparse voxel world rendered as a triangulated surface.
//!
//! The crate holds the world model (chunked sparse voxel grid with its
//! coordinate arithmetic), the surface-extraction mesher, the bookkeeping of
//! per-chunk GPU buffers, the surface-configuration choices made when a
//! swapchain is built, and the frame-in-flight synchronization protocol.
//! The device calls themselves (buffer allocation, queue submission,
//! presentation) are performed by the surrounding application, which drives
//! the verified protocol types step by step.

pub mod chunk;
pub mod coord;
pub mod frame;
pub mod mesh;
pub mod object;
pub mod store;
pub mod surface;
pub mod voxel;

pub use chunk::Chunk;
pub use coord::{ChunkCoord, ChunkIndex, Direction, VoxelCoord};
pub use frame::{FenceState, RenderPhase, SyncRing};
pub use mesh::{Mesh, MeshFace};
pub use object::Object;
pub use store::{MeshBuffer, VoxelMeshManager};
pub use surface::{SurfaceCaps, SurfaceFormat, Swapchain};
pub use voxel::Voxel;
