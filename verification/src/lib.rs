//! Voxel world engine: a chunked sparse grid of blocks with face-visibility
//! bookkeeping, procedural terrain generation, a binary chunk codec, dirty
//! tracking for incremental remeshing, and exact voxel ray casting.

pub mod geometry;
pub mod block;
pub mod chunk;
pub mod codec;
pub mod registry;
pub mod terrain;
pub mod world;
pub mod iter;
pub mod mesh;
