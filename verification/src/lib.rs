//! Voxel-grid core of a block-building game: chunked block storage, the
//! coordinate arithmetic that relates global grid positions to
//! (chunk, local block) pairs, a face-culling mesh generator, a greedy
//! run-merging collider generator, and the edit pipeline that applies
//! block placement and removal intents to the sparse grid.
//!
//! All geometry is produced in integer block units; scaling to world
//! units and handing the results to a renderer or physics engine is the
//! caller's concern.

pub mod block;
pub mod chunk;
pub mod grid;
pub mod mesh;
pub mod collider;
pub mod edit;
